use vstd::prelude::*;

use crate::clock::time_ok;
use crate::event::EventModel;
use crate::event::FoundStatus;
use crate::event::ProcessStatus;
use crate::event::ScanEvent;
use crate::event::clone_string_vec;
use crate::event::event_wf;
use crate::settings::Settings;
use crate::settings::opts_wf;
use crate::store::EventStore;
use crate::store::store_wf;
use vstd::arithmetic::power2::lemma2_to64;
use vstd::arithmetic::power2::lemma2_to64_rest;
use vstd::arithmetic::power2::lemma_pow2_strictly_increases;
use vstd::arithmetic::power2::lemma_pow2_unfold;
use vstd::arithmetic::power2::pow2;

verus! {

/// What a filesystem probe of one event's path reported: the file is
/// absent (or unreadable), or present with the given content digest.
#[derive(Clone, Debug)]
pub enum FileCheck {
    Missing,
    Present { digest: String },
}

impl View for FileCheck {
    type V = Option<Seq<char>>;

    open spec fn view(&self) -> Option<Seq<char>> {
        match self {
            FileCheck::Missing => None,
            FileCheck::Present { digest } => Some(digest@),
        }
    }
}

pub open spec fn checks_view(checks: Seq<FileCheck>) -> Seq<Option<Seq<char>>> {
    checks.map_values(|c: FileCheck| c@)
}

/// How one event's found status reacts to one filesystem probe.  An event
/// already `Found` is not a candidate and is left untouched.  A missing file
/// changes no status.  A present file is `Found` when no digest was recorded
/// (first discovery, stamped with `found_at`) or when the recorded digest
/// matches, and `HashMismatch` when it differs — the recorded digest is
/// never updated, so a mismatch recurs on every later pass.
pub open spec fn resolve_step(ev: EventModel, check: Option<Seq<char>>, now: int) -> EventModel {
    if ev.found_status == FoundStatus::Found {
        ev
    } else {
        match check {
            None => EventModel { updated_at: now, ..ev },
            Some(digest) => match ev.file_hash {
                None => EventModel {
                    found_status: FoundStatus::Found,
                    found_at: Some(now),
                    updated_at: now,
                    ..ev
                },
                Some(h) => if h != digest {
                    EventModel {
                        found_status: FoundStatus::HashMismatch,
                        found_at: Some(now),
                        updated_at: now,
                        ..ev
                    }
                } else {
                    EventModel { found_status: FoundStatus::Found, updated_at: now, ..ev }
                },
            },
        }
    }
}

/// The probe discovered this event's file for the first time: the event was
/// not yet `Found`, the file is present, and no digest was recorded.
pub open spec fn newly_found(ev: EventModel, check: Option<Seq<char>>) -> bool {
    &&& ev.found_status != FoundStatus::Found
    &&& check is Some
    &&& ev.file_hash is None
}

/// One resolver pass over the whole queue.
pub open spec fn resolve_pass(
    evs: Seq<EventModel>,
    checks: Seq<Option<Seq<char>>>,
    now: int,
) -> Seq<EventModel> {
    Seq::new(evs.len(), |i: int| resolve_step(evs[i], checks[i], now))
}

/// The paths of the newly found events of one pass, in queue order, one
/// entry per event.
pub open spec fn found_batch(
    evs: Seq<EventModel>,
    checks: Seq<Option<Seq<char>>>,
) -> Seq<Seq<char>>
    decreases evs.len(),
{
    if evs.len() == 0 {
        Seq::empty()
    } else {
        let prefix = found_batch(evs.drop_last(), checks.drop_last());
        if newly_found(evs.last(), checks.last()) {
            prefix.push(evs.last().file_path)
        } else {
            prefix
        }
    }
}

/// What one dispatch over the configured targets reported for one event:
/// the names that succeeded and the names that failed, each target's
/// outcome isolated from the others.
#[derive(Clone, Debug)]
pub struct DispatchOutcome {
    pub succeeded: Vec<String>,
    pub failed: Vec<String>,
}

/// Mathematical model of a dispatch outcome.
#[verifier::ext_equal]
pub struct OutcomeModel {
    pub succeeded: Seq<Seq<char>>,
    pub failed: Seq<Seq<char>>,
}

impl View for DispatchOutcome {
    type V = OutcomeModel;

    open spec fn view(&self) -> OutcomeModel {
        OutcomeModel { succeeded: self.succeeded.deep_view(), failed: self.failed.deep_view() }
    }
}

pub open spec fn outcomes_view(outs: Seq<DispatchOutcome>) -> Seq<OutcomeModel> {
    outs.map_values(|o: DispatchOutcome| o@)
}

/// An event the advancer selects: not yet terminal, past its retry time
/// (if any), and — when the resolver is enabled — found on disk.
pub open spec fn eligible(ev: EventModel, now: int, check_path: bool) -> bool {
    &&& ev.process_status != ProcessStatus::Complete
    &&& ev.process_status != ProcessStatus::Failed
    &&& (ev.next_retry_at is None || ev.next_retry_at->0 < now)
    &&& (check_path ==> ev.found_status == FoundStatus::Found)
}

/// Seconds of backoff after the `failures`-th consecutive failure:
/// `2^(failures + 1)`, so 4s after the first, doubling with each one.
pub open spec fn backoff_secs(failures: nat) -> nat {
    pow2(failures + 1)
}

/// How one eligible event advances given one dispatch outcome.  Succeeded
/// targets are appended to `targets_hit`.  No failure completes the event
/// (an empty target set completes it vacuously on its first dispatch);
/// otherwise the failure count rises by one and the event either retries
/// after an exponential backoff or, at the retry ceiling, fails terminally.
pub open spec fn advance_step(
    ev: EventModel,
    out: OutcomeModel,
    now: int,
    max_retries: u32,
) -> EventModel {
    let hit = ev.targets_hit + out.succeeded;
    if out.failed.len() == 0 {
        EventModel {
            targets_hit: hit,
            process_status: ProcessStatus::Complete,
            processed_at: Some(now),
            next_retry_at: None,
            updated_at: now,
            ..ev
        }
    } else {
        let ft = ev.failed_times + 1;
        if ft >= max_retries {
            EventModel {
                targets_hit: hit,
                failed_times: ft,
                process_status: ProcessStatus::Failed,
                next_retry_at: None,
                updated_at: now,
                ..ev
            }
        } else {
            EventModel {
                targets_hit: hit,
                failed_times: ft,
                process_status: ProcessStatus::Retry,
                next_retry_at: Some(now + backoff_secs(ft as nat)),
                updated_at: now,
                ..ev
            }
        }
    }
}

/// One advancer pass over the whole queue: eligible events advance, the
/// rest are untouched.
pub open spec fn advance_pass(
    evs: Seq<EventModel>,
    outs: Seq<OutcomeModel>,
    now: int,
    max_retries: u32,
    check_path: bool,
) -> Seq<EventModel> {
    Seq::new(
        evs.len(),
        |i: int|
            if eligible(evs[i], now, check_path) {
                advance_step(evs[i], outs[i], now, max_retries)
            } else {
                evs[i]
            },
    )
}

/// The event completes in this pass.
pub open spec fn completes(ev: EventModel, out: OutcomeModel, now: int, check_path: bool) -> bool {
    eligible(ev, now, check_path) && out.failed.len() == 0
}

/// The event reaches the retry ceiling in this pass and fails terminally.
pub open spec fn exhausts(
    ev: EventModel,
    out: OutcomeModel,
    now: int,
    check_path: bool,
    max_retries: u32,
) -> bool {
    eligible(ev, now, check_path) && out.failed.len() > 0 && ev.failed_times + 1 >= max_retries
}

/// The paths of the events completing in one pass, in queue order.
pub open spec fn processed_batch(
    evs: Seq<EventModel>,
    outs: Seq<OutcomeModel>,
    now: int,
    check_path: bool,
) -> Seq<Seq<char>>
    decreases evs.len(),
{
    if evs.len() == 0 {
        Seq::empty()
    } else {
        let prefix = processed_batch(evs.drop_last(), outs.drop_last(), now, check_path);
        if completes(evs.last(), outs.last(), now, check_path) {
            prefix.push(evs.last().file_path)
        } else {
            prefix
        }
    }
}

/// The paths of the events failing terminally in one pass, in queue order.
pub open spec fn failed_batch(
    evs: Seq<EventModel>,
    outs: Seq<OutcomeModel>,
    now: int,
    check_path: bool,
    max_retries: u32,
) -> Seq<Seq<char>>
    decreases evs.len(),
{
    if evs.len() == 0 {
        Seq::empty()
    } else {
        let prefix = failed_batch(evs.drop_last(), outs.drop_last(), now, check_path, max_retries);
        if exhausts(evs.last(), outs.last(), now, check_path, max_retries) {
            prefix.push(evs.last().file_path)
        } else {
            prefix
        }
    }
}

/// How long a terminal event is kept after its file was found: ten days,
/// in seconds.
pub const RETENTION_SECS: i64 = 864000;

/// The retention cleaner deletes this event: it is terminally unfound or
/// terminally failed, and its file was found longer than the retention
/// window ago.  An event that never recorded `found_at` is kept.
pub open spec fn expired(ev: EventModel, now: int) -> bool {
    &&& (ev.found_status == FoundStatus::NotFound || ev.process_status == ProcessStatus::Failed)
    &&& ev.found_at is Some
    &&& ev.found_at->0 < now - RETENTION_SECS
}

/// The queue after one retention pass: the non-expired events, in order.
pub open spec fn retained(evs: Seq<EventModel>, now: int) -> Seq<EventModel>
    decreases evs.len(),
{
    if evs.len() == 0 {
        Seq::empty()
    } else {
        let prefix = retained(evs.drop_last(), now);
        if expired(evs.last(), now) {
            prefix
        } else {
            prefix.push(evs.last())
        }
    }
}

/// The retention cleaner only ever deletes events whole: every event of
/// the retained queue is one of the original events, unchanged, so no
/// terminal state is altered by cleanup.
pub proof fn lemma_retained_members(evs: Seq<EventModel>, now: int)
    ensures
        retained(evs, now).len() <= evs.len(),
        forall|k: int|
            0 <= k < retained(evs, now).len() ==> exists|j: int|
                0 <= j < evs.len() && #[trigger] retained(evs, now)[k] == evs[j],
    decreases evs.len(),
{
    if evs.len() > 0 {
        lemma_retained_members(evs.drop_last(), now);
        let pre = retained(evs.drop_last(), now);
        let ret = retained(evs, now);
        assert forall|k: int| 0 <= k < ret.len() implies exists|j: int|
            0 <= j < evs.len() && #[trigger] ret[k] == evs[j] by {
            if k < pre.len() {
                let j = choose|j: int|
                    0 <= j < evs.drop_last().len() && #[trigger] pre[k] == evs.drop_last()[j];
                assert(evs.drop_last()[j] == evs[j]);
                assert(ret[k] == evs[j]);
            } else {
                assert(ret[k] == evs[evs.len() - 1]);
            }
        }
    }
}

proof fn lemma_retained_sorted(evs: Seq<EventModel>, now: int)
    requires
        forall|k: int, l: int| 0 <= k < l < evs.len() ==> evs[k].id < evs[l].id,
    ensures
        forall|k: int, l: int|
            0 <= k < l < retained(evs, now).len() ==> retained(evs, now)[k].id < retained(
                evs,
                now,
            )[l].id,
    decreases evs.len(),
{
    if evs.len() > 0 {
        let src = evs.drop_last();
        assert forall|k: int, l: int| 0 <= k < l < src.len() implies src[k].id < src[l].id by {
            assert(src[k] == evs[k]);
            assert(src[l] == evs[l]);
        }
        lemma_retained_sorted(src, now);
        lemma_retained_members(src, now);
        let pre = retained(src, now);
        let ret = retained(evs, now);
        if !expired(evs.last(), now) {
            assert forall|k: int, l: int| 0 <= k < l < ret.len() implies ret[k].id < ret[l].id by {
                if l < ret.len() - 1 {
                    assert(ret[k] == pre[k]);
                    assert(ret[l] == pre[l]);
                } else {
                    assert(ret[k] == pre[k]);
                    let j = choose|j: int| 0 <= j < src.len() && #[trigger] pre[k] == src[j];
                    assert(src[j] == evs[j]);
                    assert(evs[j].id < evs[evs.len() - 1].id);
                    assert(ret[l] == evs[evs.len() - 1]);
                }
            }
        }
    }
}

/// The configured target names that are not yet in `hit`, in configuration
/// order: the targets the dispatcher still has to attempt for an event.
pub open spec fn pending_targets(names: Seq<Seq<char>>, hit: Seq<Seq<char>>) -> Seq<Seq<char>>
    decreases names.len(),
{
    if names.len() == 0 {
        Seq::empty()
    } else {
        let prefix = pending_targets(names.drop_last(), hit);
        if hit.contains(names.last()) {
            prefix
        } else {
            prefix.push(names.last())
        }
    }
}

/// The dispatch plan draws only from the configured names: every planned
/// target is one of them, unchanged.
pub proof fn lemma_pending_targets_members(names: Seq<Seq<char>>, hit: Seq<Seq<char>>)
    ensures
        pending_targets(names, hit).len() <= names.len(),
        forall|k: int|
            0 <= k < pending_targets(names, hit).len() ==> exists|j: int|
                0 <= j < names.len() && #[trigger] pending_targets(names, hit)[k] == names[j],
    decreases names.len(),
{
    if names.len() > 0 {
        lemma_pending_targets_members(names.drop_last(), hit);
        let pre = pending_targets(names.drop_last(), hit);
        let ret = pending_targets(names, hit);
        assert forall|k: int| 0 <= k < ret.len() implies exists|j: int|
            0 <= j < names.len() && #[trigger] ret[k] == names[j] by {
            if k < pre.len() {
                let j = choose|j: int|
                    0 <= j < names.drop_last().len() && #[trigger] pre[k] == names.drop_last()[j];
                assert(names.drop_last()[j] == names[j]);
                assert(ret[k] == names[j]);
            } else {
                assert(ret[k] == names[names.len() - 1]);
            }
        }
    }
}

fn vec_contains_string(v: &Vec<String>, name: &String) -> (r: bool)
    ensures
        r == v.deep_view().contains(name@),
{
    let mut i: usize = 0;
    while i < v.len()
        invariant
            i <= v@.len(),
            forall|j: int| 0 <= j < i ==> v.deep_view()[j] != name@,
        decreases v@.len() - i,
    {
        if v[i] == *name {
            proof {
                assert(v.deep_view()[i as int] == name@);
            }
            return true;
        }
        i += 1;
    }
    false
}

/// Advancing an eligible event preserves its invariant and identity.
pub proof fn lemma_advance_step_wf(ev: EventModel, out: OutcomeModel, now: int, max_retries: u32)
    requires
        event_wf(ev, max_retries),
        ev.process_status != ProcessStatus::Complete,
        ev.process_status != ProcessStatus::Failed,
    ensures
        event_wf(advance_step(ev, out, now, max_retries), max_retries),
        advance_step(ev, out, now, max_retries).id == ev.id,
{
}

fn backoff_delay(failures: u32) -> (r: i64)
    requires
        1 <= failures,
        failures <= 60,
    ensures
        r == backoff_secs(failures as nat),
        2 <= r <= 0x2000_0000_0000_0000,
{
    proof {
        lemma2_to64();
        lemma2_to64_rest();
    }
    let exp: u32 = failures + 1;
    let mut r: i64 = 1;
    let mut j: u32 = 0;
    while j < exp
        invariant
            j <= exp,
            exp == failures + 1,
            failures <= 60,
            r == pow2(j as nat),
        decreases exp - j,
    {
        proof {
            lemma2_to64();
            lemma2_to64_rest();
            if (j as nat) < 61 {
                lemma_pow2_strictly_increases(j as nat, 61);
            }
            lemma_pow2_unfold((j + 1) as nat);
        }
        r = r * 2;
        j += 1;
    }
    proof {
        lemma2_to64();
        lemma2_to64_rest();
        lemma_pow2_strictly_increases(1, (failures + 1) as nat);
        if ((failures + 1) as nat) < 61 {
            lemma_pow2_strictly_increases((failures + 1) as nat, 61);
        }
    }
    r
}

/// Runs the three reconciliation stages of one tick over a shared event
/// store: resolve found statuses, advance process statuses, retire stale
/// terminal events.
pub struct PulseRunner {
    pub settings: Settings,
}

impl PulseRunner {
    pub fn new(settings: Settings) -> (r: PulseRunner)
        ensures
            r.settings == settings,
    {
        PulseRunner { settings }
    }

    /// One resolver pass: reconcile each not-yet-`Found` event against the
    /// probe of its path, refresh `updated_at` of every visited event, and
    /// return the paths first found in this pass, in queue order.  With
    /// `check_path` disabled the pass is a no-op.
    pub fn update_found_status(
        &self,
        store: &mut EventStore,
        checks: &Vec<FileCheck>,
        now: i64,
    ) -> (batch: Vec<String>)
        requires
            self.settings.opts.check_path ==> checks@.len() == old(store)@.len(),
        ensures
            self.settings.opts.check_path ==> final(store)@ == resolve_pass(
                old(store)@,
                checks_view(checks@),
                now as int,
            ),
            self.settings.opts.check_path ==> batch.deep_view() == found_batch(
                old(store)@,
                checks_view(checks@),
            ),
            !self.settings.opts.check_path ==> *final(store) == *old(store) && batch@.len() == 0,
            final(store).next_id == old(store).next_id,
            forall|mr: u32| store_wf(*old(store), mr) ==> store_wf(*final(store), mr),
    {
        let mut batch: Vec<String> = Vec::new();
        if !self.settings.opts.check_path {
            return batch;
        }
        let ghost evs0 = store@;
        let ghost cks = checks_view(checks@);
        let mut i: usize = 0;
        while i < store.events.len()
            invariant
                i <= evs0.len(),
                store.events@.len() == evs0.len(),
                checks@.len() == evs0.len(),
                cks == checks_view(checks@),
                store.next_id == old(store).next_id,
                forall|j: int|
                    0 <= j < i ==> (#[trigger] store.events@[j])@ == resolve_step(
                        evs0[j],
                        cks[j],
                        now as int,
                    ),
                forall|j: int| i <= j < evs0.len() ==> (#[trigger] store.events@[j])@ == evs0[j],
                batch.deep_view() == found_batch(evs0.take(i as int), cks.take(i as int)),
            decreases evs0.len() - i,
        {
            proof {
                assert(evs0.take(i + 1).drop_last() =~= evs0.take(i as int));
                assert(cks.take(i + 1).drop_last() =~= cks.take(i as int));
                assert(evs0.take(i + 1).last() == evs0[i as int]);
                assert(cks.take(i + 1).last() == cks[i as int]);
                assert(cks[i as int] == checks@[i as int]@);
            }
            let candidate = match &store.events[i].found_status {
                FoundStatus::Found => false,
                _ => true,
            };
            if candidate {
                let mut ev = store.events[i].duplicate();
                match &checks[i] {
                    FileCheck::Missing => {
                        ev.updated_at = now;
                    },
                    FileCheck::Present { digest } => {
                        let has_hash = match &ev.file_hash {
                            Some(_) => true,
                            None => false,
                        };
                        if has_hash {
                            let differs = match &ev.file_hash {
                                Some(h) => !(*h == *digest),
                                None => false,
                            };
                            if differs {
                                ev.found_status = FoundStatus::HashMismatch;
                                ev.found_at = Some(now);
                            } else {
                                ev.found_status = FoundStatus::Found;
                            }
                            ev.updated_at = now;
                        } else {
                            ev.found_status = FoundStatus::Found;
                            ev.found_at = Some(now);
                            ev.updated_at = now;
                            batch.push(ev.file_path.clone());
                        }
                    },
                }
                proof {
                    assert(ev@ =~= resolve_step(evs0[i as int], cks[i as int], now as int));
                }
                store.events.set(i, ev);
            }
            proof {
                assert(store.events@[i as int]@ == resolve_step(
                    evs0[i as int],
                    cks[i as int],
                    now as int,
                ));
                assert(batch.deep_view() =~= found_batch(
                    evs0.take(i + 1),
                    cks.take(i + 1),
                ));
            }
            i += 1;
        }
        proof {
            assert(evs0.take(evs0.len() as int) =~= evs0);
            assert(cks.take(evs0.len() as int) =~= cks);
            assert forall|j: int| 0 <= j < evs0.len() implies store@[j] == resolve_step(
                evs0[j],
                cks[j],
                now as int,
            ) by {
                assert(store@[j] == store.events@[j]@);
            }
            assert(store@ =~= resolve_pass(evs0, cks, now as int));
        }
        batch
    }

    /// The advancer's selection filter for one event: not yet terminal,
    /// past its retry time (if any), and — when the resolver is enabled —
    /// found on disk.
    pub fn is_eligible(&self, ev: &ScanEvent, now: i64) -> (r: bool)
        ensures
            r == eligible(ev@, now as int, self.settings.opts.check_path),
    {
        let status_ok = ev.process_status != ProcessStatus::Complete && ev.process_status
            != ProcessStatus::Failed;
        let retry_ok = match ev.next_retry_at {
            None => true,
            Some(t) => t < now,
        };
        let found_ok = !self.settings.opts.check_path || ev.found_status == FoundStatus::Found;
        status_ok && retry_ok && found_ok
    }

    /// One advancer pass: every eligible event advances by the outcome the
    /// dispatcher reported for it (`outcomes` is aligned with the queue;
    /// entries of ineligible events are ignored).  Returns the paths that
    /// completed and the paths that failed terminally, in queue order.
    pub fn update_process_status(
        &self,
        store: &mut EventStore,
        outcomes: &Vec<DispatchOutcome>,
        now: i64,
    ) -> (batches: (Vec<String>, Vec<String>))
        requires
            outcomes@.len() == old(store)@.len(),
            store_wf(*old(store), self.settings.opts.max_retries),
            opts_wf(self.settings.opts),
            time_ok(now as int),
        ensures
            final(store)@ == advance_pass(
                old(store)@,
                outcomes_view(outcomes@),
                now as int,
                self.settings.opts.max_retries,
                self.settings.opts.check_path,
            ),
            batches.0.deep_view() == processed_batch(
                old(store)@,
                outcomes_view(outcomes@),
                now as int,
                self.settings.opts.check_path,
            ),
            batches.1.deep_view() == failed_batch(
                old(store)@,
                outcomes_view(outcomes@),
                now as int,
                self.settings.opts.check_path,
                self.settings.opts.max_retries,
            ),
            final(store).next_id == old(store).next_id,
            store_wf(*final(store), self.settings.opts.max_retries),
    {
        let ghost evs0 = store@;
        let ghost oms = outcomes_view(outcomes@);
        let ghost mr = self.settings.opts.max_retries;
        let ghost cp = self.settings.opts.check_path;
        let mut processed: Vec<String> = Vec::new();
        let mut failed: Vec<String> = Vec::new();
        let mut i: usize = 0;
        while i < store.events.len()
            invariant
                i <= evs0.len(),
                store.events@.len() == evs0.len(),
                outcomes@.len() == evs0.len(),
                oms == outcomes_view(outcomes@),
                mr == self.settings.opts.max_retries,
                cp == self.settings.opts.check_path,
                opts_wf(self.settings.opts),
                time_ok(now as int),
                store.next_id == old(store).next_id,
                store_wf(*old(store), mr),
                evs0 == old(store)@,
                forall|j: int|
                    0 <= j < i ==> (#[trigger] store.events@[j])@ == advance_pass(
                        evs0,
                        oms,
                        now as int,
                        mr,
                        cp,
                    )[j],
                forall|j: int| i <= j < evs0.len() ==> (#[trigger] store.events@[j])@ == evs0[j],
                processed.deep_view() == processed_batch(
                    evs0.take(i as int),
                    oms.take(i as int),
                    now as int,
                    cp,
                ),
                failed.deep_view() == failed_batch(
                    evs0.take(i as int),
                    oms.take(i as int),
                    now as int,
                    cp,
                    mr,
                ),
            decreases evs0.len() - i,
        {
            proof {
                assert(evs0.take(i + 1).drop_last() =~= evs0.take(i as int));
                assert(oms.take(i + 1).drop_last() =~= oms.take(i as int));
                assert(evs0.take(i + 1).last() == evs0[i as int]);
                assert(oms.take(i + 1).last() == oms[i as int]);
                assert(oms[i as int] == outcomes@[i as int]@);
                assert(event_wf(evs0[i as int], mr));
            }
            let el = self.is_eligible(&store.events[i], now);
            if el {
                let out = &outcomes[i];
                let mut ev = store.events[i].duplicate();
                let mut merged = clone_string_vec(&ev.targets_hit);
                proof {
                    assert(merged.deep_view() =~= evs0[i as int].targets_hit + oms[i as int]
                        .succeeded
                        .take(0));
                }
                let mut k: usize = 0;
                while k < out.succeeded.len()
                    invariant
                        k <= out.succeeded@.len(),
                        merged.deep_view() == evs0[i as int].targets_hit + oms[i as int]
                            .succeeded
                            .take(k as int),
                        oms[i as int] == out@,
                        0 <= i < evs0.len(),
                    decreases out.succeeded@.len() - k,
                {
                    let ghost before = merged.deep_view();
                    merged.push(out.succeeded[k].clone());
                    proof {
                        assert(merged.deep_view() =~= before.push(
                            oms[i as int].succeeded[k as int],
                        ));
                        assert(before.push(oms[i as int].succeeded[k as int]) =~= evs0[i as int]
                            .targets_hit + oms[i as int].succeeded.take(k + 1));
                    }
                    k += 1;
                }
                proof {
                    assert(oms[i as int].succeeded.take(out.succeeded@.len() as int) =~= oms[i
                        as int].succeeded);
                }
                ev.targets_hit = merged;
                if out.failed.len() == 0 {
                    ev.process_status = ProcessStatus::Complete;
                    ev.processed_at = Some(now);
                    ev.next_retry_at = None;
                    ev.updated_at = now;
                    processed.push(ev.file_path.clone());
                } else {
                    ev.failed_times = ev.failed_times + 1;
                    if ev.failed_times >= self.settings.opts.max_retries {
                        ev.process_status = ProcessStatus::Failed;
                        ev.next_retry_at = None;
                        ev.updated_at = now;
                        failed.push(ev.file_path.clone());
                    } else {
                        let delay = backoff_delay(ev.failed_times);
                        ev.process_status = ProcessStatus::Retry;
                        ev.next_retry_at = Some(now + delay);
                        ev.updated_at = now;
                    }
                }
                proof {
                    assert(ev@ =~= advance_step(evs0[i as int], oms[i as int], now as int, mr));
                }
                store.events.set(i, ev);
            }
            proof {
                assert(store.events@[i as int]@ == advance_pass(evs0, oms, now as int, mr, cp)[i
                    as int]);
                assert(processed.deep_view() =~= processed_batch(
                    evs0.take(i + 1),
                    oms.take(i + 1),
                    now as int,
                    cp,
                ));
                assert(failed.deep_view() =~= failed_batch(
                    evs0.take(i + 1),
                    oms.take(i + 1),
                    now as int,
                    cp,
                    mr,
                ));
            }
            i += 1;
        }
        proof {
            assert(evs0.take(evs0.len() as int) =~= evs0);
            assert(oms.take(evs0.len() as int) =~= oms);
            assert forall|j: int| 0 <= j < evs0.len() implies store@[j] == advance_pass(
                evs0,
                oms,
                now as int,
                mr,
                cp,
            )[j] by {
                assert(store@[j] == store.events@[j]@);
            }
            assert(store@ =~= advance_pass(evs0, oms, now as int, mr, cp));
            assert forall|j: int| 0 <= j < store@.len() implies 0 <= (#[trigger] store@[j]).id
                < store.next_id && event_wf(store@[j], mr) by {
                if eligible(evs0[j], now as int, cp) {
                    lemma_advance_step_wf(evs0[j], oms[j], now as int, mr);
                }
            }
            assert forall|k: int, l: int| 0 <= k < l < store@.len() implies store@[k].id
                < store@[l].id by {
                if eligible(evs0[k], now as int, cp) {
                    lemma_advance_step_wf(evs0[k], oms[k], now as int, mr);
                }
                if eligible(evs0[l], now as int, cp) {
                    lemma_advance_step_wf(evs0[l], oms[l], now as int, mr);
                }
            }
        }
        (processed, failed)
    }

    /// The targets the dispatcher still has to attempt for this event: the
    /// configured names not already in `targets_hit`, in configuration
    /// order.
    pub fn plan_targets(&self, ev: &ScanEvent) -> (plan: Vec<String>)
        ensures
            plan.deep_view() == pending_targets(
                crate::settings::target_names(self.settings),
                ev@.targets_hit,
            ),
    {
        let ghost names = crate::settings::target_names(self.settings);
        let ghost hit = ev@.targets_hit;
        let mut plan: Vec<String> = Vec::new();
        let mut i: usize = 0;
        proof {
            assert(plan.deep_view() =~= pending_targets(names.take(0), hit));
        }
        while i < self.settings.targets.len()
            invariant
                i <= names.len(),
                names == crate::settings::target_names(self.settings),
                hit == ev@.targets_hit,
                self.settings.targets@.len() == names.len(),
                plan.deep_view() == pending_targets(names.take(i as int), hit),
            decreases names.len() - i,
        {
            proof {
                assert(names.take(i + 1).drop_last() =~= names.take(i as int));
                assert(names.take(i + 1).last() == names[i as int]);
                assert(names[i as int] == self.settings.targets@[i as int].name@);
            }
            let entry = &self.settings.targets[i];
            if !vec_contains_string(&ev.targets_hit, &entry.name) {
                let ghost before = plan.deep_view();
                plan.push(entry.name.clone());
                proof {
                    assert(plan.deep_view() =~= before.push(names[i as int]));
                }
            }
            proof {
                assert(plan.deep_view() =~= pending_targets(names.take(i + 1), hit));
            }
            i += 1;
        }
        proof {
            assert(names.take(names.len() as int) =~= names);
        }
        plan
    }

    /// One retention pass: delete every event that is terminally unfound or
    /// terminally failed and whose file was found longer than the retention
    /// window ago; keep the rest in order.
    pub fn cleanup(&self, store: &mut EventStore, now: i64)
        requires
            time_ok(now as int),
        ensures
            final(store)@ == retained(old(store)@, now as int),
            final(store).next_id == old(store).next_id,
            forall|mr: u32| store_wf(*old(store), mr) ==> store_wf(*final(store), mr),
    {
        let ghost evs0 = store@;
        let mut kept: Vec<ScanEvent> = Vec::new();
        let mut i: usize = 0;
        proof {
            assert(kept@.map_values(|e: ScanEvent| e@) =~= retained(evs0.take(0), now as int));
        }
        while i < store.events.len()
            invariant
                i <= evs0.len(),
                store.events@.len() == evs0.len(),
                time_ok(now as int),
                forall|j: int| 0 <= j < evs0.len() ==> (#[trigger] store.events@[j])@ == evs0[j],
                kept@.map_values(|e: ScanEvent| e@) == retained(evs0.take(i as int), now as int),
            decreases evs0.len() - i,
        {
            proof {
                assert(evs0.take(i + 1).drop_last() =~= evs0.take(i as int));
                assert(evs0.take(i + 1).last() == evs0[i as int]);
            }
            let is_expired = {
                let ev = &store.events[i];
                let status_match = ev.found_status == FoundStatus::NotFound || ev.process_status
                    == ProcessStatus::Failed;
                let old_enough = match ev.found_at {
                    None => false,
                    Some(t) => t < now - RETENTION_SECS,
                };
                status_match && old_enough
            };
            proof {
                assert(is_expired == expired(evs0[i as int], now as int));
            }
            if !is_expired {
                let ghost before = kept@.map_values(|e: ScanEvent| e@);
                kept.push(store.events[i].duplicate());
                proof {
                    assert(kept@.map_values(|e: ScanEvent| e@) =~= before.push(evs0[i as int]));
                }
            }
            proof {
                assert(kept@.map_values(|e: ScanEvent| e@) =~= retained(
                    evs0.take(i + 1),
                    now as int,
                ));
            }
            i += 1;
        }
        store.events = kept;
        proof {
            assert(evs0.take(evs0.len() as int) =~= evs0);
            assert(store@ =~= retained(evs0, now as int));
            assert forall|mr: u32| store_wf(*old(store), mr) implies store_wf(*store, mr) by {
                lemma_retained_members(evs0, now as int);
                assert forall|k: int, l: int| 0 <= k < l < evs0.len() implies evs0[k].id
                    < evs0[l].id by {
                    assert(old(store)@[k].id < old(store)@[l].id);
                }
                lemma_retained_sorted(evs0, now as int);
                let ret = retained(evs0, now as int);
                assert forall|k: int| 0 <= k < ret.len() implies 0 <= (#[trigger] ret[k]).id
                    < store.next_id && event_wf(ret[k], mr) by {
                    let j = choose|j: int| 0 <= j < evs0.len() && #[trigger] ret[k] == evs0[j];
                    assert(0 <= evs0[j].id < old(store).next_id);
                    assert(event_wf(evs0[j], mr));
                }
            }
        }
    }
}

} // verus!
