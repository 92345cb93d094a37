use vstd::prelude::*;

verus! {

/// Process-wide service identity: where the HTTP layer binds and where the
/// event store lives.  Consumed by the surrounding program, carried here so
/// a configuration snapshot is one value.
#[derive(Clone, Debug)]
pub struct App {
    pub hostname: String,
    pub port: u16,
    pub database_url: String,
}

/// Credentials the surrounding HTTP layer checks on incoming requests.
#[derive(Clone, Debug)]
pub struct Auth {
    pub username: String,
    pub password: String,
}

/// Options the reconciliation pipeline itself reads: whether the resolver
/// checks the filesystem at all, and the retry ceiling of the advancer.
#[derive(Clone, Copy, Debug, PartialEq, Eq, Structural)]
pub struct Opts {
    pub check_path: bool,
    pub max_retries: u32,
}

/// A path prefix rewrite a trigger applies to incoming paths.
#[derive(Clone, Debug)]
pub struct Rewrite {
    pub from: String,
    pub to: String,
}

/// An external producer of scan events.
#[derive(Clone, Debug)]
pub enum Trigger {
    Manual { rewrite: Option<Rewrite> },
    Radarr { rewrite: Option<Rewrite> },
    Sonarr { rewrite: Option<Rewrite> },
}

/// A Discord webhook endpoint for batched event notifications.
#[derive(Clone, Debug)]
pub struct DiscordWebhook {
    pub url: String,
}

/// An outbound notification channel.
#[derive(Clone, Debug)]
pub enum Webhook {
    Discord(DiscordWebhook),
}

/// A Plex media server to notify.
#[derive(Clone, Debug)]
pub struct Plex {
    pub url: String,
    pub token: String,
}

/// A Jellyfin media server to notify.
#[derive(Clone, Debug)]
pub struct Jellyfin {
    pub url: String,
    pub token: String,
}

/// An arbitrary command run for each processed event.
#[derive(Clone, Debug)]
pub struct Command {
    pub command: String,
}

/// A downstream system to notify about a changed file.
#[derive(Clone, Debug)]
pub enum Target {
    Plex(Plex),
    Jellyfin(Jellyfin),
    Command(Command),
}

/// The capability a target collaborator implements: notify one downstream
/// system about one event, reporting failure by message.  Implementations
/// live with the surrounding program; the pipeline only consumes outcomes.
pub trait TargetProcess {
    fn process(&mut self, ev: &crate::event::ScanEvent) -> Result<(), String>;
}

/// A named trigger, in configuration order.
#[derive(Clone, Debug)]
pub struct TriggerEntry {
    pub name: String,
    pub trigger: Trigger,
}

/// A named target, in configuration order.
#[derive(Clone, Debug)]
pub struct TargetEntry {
    pub name: String,
    pub target: Target,
}

/// A named webhook, in configuration order.
#[derive(Clone, Debug)]
pub struct WebhookEntry {
    pub name: String,
    pub webhook: Webhook,
}

/// The immutable configuration snapshot a run of the pipeline reads.  The
/// named collaborator lists keep configuration insertion order, which fixes
/// the order targets are attempted in.
#[derive(Clone, Debug)]
pub struct Settings {
    pub app: App,
    pub auth: Auth,
    pub opts: Opts,
    pub triggers: Vec<TriggerEntry>,
    pub targets: Vec<TargetEntry>,
    pub webhooks: Vec<WebhookEntry>,
}

/// The retry ceiling must leave every backoff delay representable in seconds
/// as an `i64`: the delay after the `k`-th failure is `2^(k+1)` seconds and
/// `k` stays below `max_retries`.
pub const MAX_RETRY_CEILING: u32 = 61;

pub open spec fn opts_wf(o: Opts) -> bool {
    o.max_retries <= MAX_RETRY_CEILING
}

/// The configured target names, in configuration order.
pub open spec fn target_names(s: Settings) -> Seq<Seq<char>> {
    s.targets@.map_values(|e: TargetEntry| e.name@)
}

/// A usable snapshot: the retry ceiling is representable and no two targets
/// share a name.
pub open spec fn settings_wf(s: Settings) -> bool {
    &&& opts_wf(s.opts)
    &&& forall|i: int, j: int|
        0 <= i < j < target_names(s).len() ==> target_names(s)[i] != target_names(s)[j]
}

} // verus!
