use autopulse::event::FoundStatus;
use autopulse::event::ProcessStatus;
use autopulse::event::ScanEvent;
use autopulse::runner::DispatchOutcome;
use autopulse::runner::FileCheck;
use autopulse::runner::PulseRunner;
use autopulse::settings::App;
use autopulse::settings::Auth;
use autopulse::settings::Jellyfin;
use autopulse::settings::Opts;
use autopulse::settings::Settings;
use autopulse::settings::Target;
use autopulse::settings::TargetEntry;
use autopulse::store::EventStore;

fn base_settings(check_path: bool, max_retries: u32, target_names: Vec<&str>) -> Settings {
    let targets = target_names
        .into_iter()
        .map(|n| TargetEntry {
            name: n.to_string(),
            target: Target::Jellyfin(Jellyfin {
                url: "http://localhost:8096".to_string(),
                token: "token".to_string(),
            }),
        })
        .collect();
    Settings {
        app: App {
            hostname: "127.0.0.1".to_string(),
            port: 2875,
            database_url: "events.db".to_string(),
        },
        auth: Auth {
            username: "admin".to_string(),
            password: "password".to_string(),
        },
        opts: Opts {
            check_path,
            max_retries,
        },
        triggers: vec![],
        targets,
        webhooks: vec![],
    }
}

fn pending_event(id: i32, path: &str) -> ScanEvent {
    ScanEvent {
        id,
        file_path: path.to_string(),
        file_hash: None,
        found_status: FoundStatus::Pending,
        found_at: None,
        process_status: ProcessStatus::Pending,
        failed_times: 0,
        next_retry_at: None,
        targets_hit: vec![],
        processed_at: None,
        created_at: 0,
        updated_at: 0,
    }
}

fn store_of(events: Vec<ScanEvent>) -> EventStore {
    let next_id = events.iter().map(|e| e.id).max().unwrap_or(0) + 1;
    EventStore { events, next_id }
}

fn failing(names: Vec<&str>) -> DispatchOutcome {
    DispatchOutcome {
        succeeded: vec![],
        failed: names.into_iter().map(|n| n.to_string()).collect(),
    }
}

fn all_ok() -> DispatchOutcome {
    DispatchOutcome {
        succeeded: vec![],
        failed: vec![],
    }
}

#[test]
fn resolver_marks_new_file_found() {
    let runner = PulseRunner::new(base_settings(true, 3, vec![]));
    let mut store = store_of(vec![pending_event(1, "/media/a.mkv")]);
    let checks = vec![FileCheck::Present {
        digest: "d1".to_string(),
    }];
    let batch = runner.update_found_status(&mut store, &checks, 100);
    assert_eq!(store.events[0].found_status, FoundStatus::Found);
    assert_eq!(store.events[0].found_at, Some(100));
    assert_eq!(store.events[0].updated_at, 100);
    assert_eq!(batch, vec!["/media/a.mkv".to_string()]);
}

#[test]
fn resolver_missing_file_changes_no_status() {
    let runner = PulseRunner::new(base_settings(true, 3, vec![]));
    let mut store = store_of(vec![pending_event(1, "/media/a.mkv")]);
    let batch = runner.update_found_status(&mut store, &vec![FileCheck::Missing], 100);
    assert_eq!(store.events[0].found_status, FoundStatus::Pending);
    assert_eq!(store.events[0].found_at, None);
    assert_eq!(store.events[0].updated_at, 100);
    assert!(batch.is_empty());
}

#[test]
fn resolver_mismatch_is_permanent() {
    let runner = PulseRunner::new(base_settings(true, 3, vec![]));
    let mut ev = pending_event(1, "/media/a.mkv");
    ev.file_hash = Some("aaa".to_string());
    let mut store = store_of(vec![ev]);
    let checks = vec![FileCheck::Present {
        digest: "bbb".to_string(),
    }];
    let batch = runner.update_found_status(&mut store, &checks, 100);
    assert_eq!(store.events[0].found_status, FoundStatus::HashMismatch);
    assert_eq!(store.events[0].found_at, Some(100));
    assert!(batch.is_empty());
    // the stored digest is never updated, so the mismatch recurs
    let batch2 = runner.update_found_status(&mut store, &checks, 200);
    assert_eq!(store.events[0].found_status, FoundStatus::HashMismatch);
    assert_eq!(store.events[0].found_at, Some(200));
    assert_eq!(store.events[0].file_hash, Some("aaa".to_string()));
    assert!(batch2.is_empty());
}

#[test]
fn resolver_matching_hash_is_quiet() {
    let runner = PulseRunner::new(base_settings(true, 3, vec![]));
    let mut ev = pending_event(1, "/media/a.mkv");
    ev.file_hash = Some("aaa".to_string());
    let mut store = store_of(vec![ev]);
    let checks = vec![FileCheck::Present {
        digest: "aaa".to_string(),
    }];
    let batch = runner.update_found_status(&mut store, &checks, 100);
    assert_eq!(store.events[0].found_status, FoundStatus::Found);
    assert_eq!(store.events[0].found_at, None);
    assert!(batch.is_empty());
}

#[test]
fn resolver_disabled_is_noop() {
    let runner = PulseRunner::new(base_settings(false, 3, vec![]));
    let mut store = store_of(vec![pending_event(1, "/media/a.mkv")]);
    let batch = runner.update_found_status(&mut store, &vec![], 100);
    assert_eq!(store.events[0].found_status, FoundStatus::Pending);
    assert_eq!(store.events[0].updated_at, 0);
    assert!(batch.is_empty());
}

#[test]
fn advancer_completes_with_empty_targets() {
    let runner = PulseRunner::new(base_settings(false, 3, vec![]));
    let mut store = store_of(vec![pending_event(1, "/media/a.mkv")]);
    let (processed, failed) = runner.update_process_status(&mut store, &vec![all_ok()], 50);
    assert_eq!(store.events[0].process_status, ProcessStatus::Complete);
    assert_eq!(store.events[0].processed_at, Some(50));
    assert_eq!(store.events[0].next_retry_at, None);
    assert_eq!(processed, vec!["/media/a.mkv".to_string()]);
    assert!(failed.is_empty());
}

#[test]
fn advancer_backoff_doubles() {
    let runner = PulseRunner::new(base_settings(false, 10, vec!["t"]));
    let mut store = store_of(vec![pending_event(1, "/media/a.mkv")]);
    runner.update_process_status(&mut store, &vec![failing(vec!["t"])], 1000);
    assert_eq!(store.events[0].failed_times, 1);
    assert_eq!(store.events[0].process_status, ProcessStatus::Retry);
    assert_eq!(store.events[0].next_retry_at, Some(1004));
    runner.update_process_status(&mut store, &vec![failing(vec!["t"])], 1010);
    assert_eq!(store.events[0].failed_times, 2);
    assert_eq!(store.events[0].next_retry_at, Some(1018));
    runner.update_process_status(&mut store, &vec![failing(vec!["t"])], 1030);
    assert_eq!(store.events[0].failed_times, 3);
    assert_eq!(store.events[0].next_retry_at, Some(1046));
}

#[test]
fn advancer_retry_ceiling_is_terminal() {
    let runner = PulseRunner::new(base_settings(false, 2, vec!["t"]));
    let mut store = store_of(vec![pending_event(1, "/media/a.mkv")]);
    let (_, failed) = runner.update_process_status(&mut store, &vec![failing(vec!["t"])], 0);
    assert_eq!(store.events[0].process_status, ProcessStatus::Retry);
    assert_eq!(store.events[0].next_retry_at, Some(4));
    assert!(failed.is_empty());
    // before the retry time nothing changes
    runner.update_process_status(&mut store, &vec![failing(vec!["t"])], 3);
    assert_eq!(store.events[0].failed_times, 1);
    // past the retry time the ceiling is reached
    let (_, failed) = runner.update_process_status(&mut store, &vec![failing(vec!["t"])], 5);
    assert_eq!(store.events[0].failed_times, 2);
    assert_eq!(store.events[0].process_status, ProcessStatus::Failed);
    assert_eq!(store.events[0].next_retry_at, None);
    assert_eq!(failed, vec!["/media/a.mkv".to_string()]);
    // terminal: later passes leave the event alone
    runner.update_process_status(&mut store, &vec![failing(vec!["t"])], 100);
    assert_eq!(store.events[0].failed_times, 2);
    assert_eq!(store.events[0].process_status, ProcessStatus::Failed);
}

#[test]
fn dispatcher_skips_hit_targets() {
    let runner = PulseRunner::new(base_settings(false, 3, vec!["plex", "jellyfin"]));
    let mut ev = pending_event(1, "/media/a.mkv");
    ev.targets_hit = vec!["plex".to_string()];
    let plan = runner.plan_targets(&ev);
    assert_eq!(plan, vec!["jellyfin".to_string()]);
}

#[test]
fn advancer_merges_succeeded_targets() {
    let runner = PulseRunner::new(base_settings(false, 3, vec!["plex", "jellyfin"]));
    let mut ev = pending_event(1, "/media/a.mkv");
    ev.targets_hit = vec!["plex".to_string()];
    let mut store = store_of(vec![ev]);
    let outcome = DispatchOutcome {
        succeeded: vec!["jellyfin".to_string()],
        failed: vec![],
    };
    runner.update_process_status(&mut store, &vec![outcome], 50);
    assert_eq!(store.events[0].process_status, ProcessStatus::Complete);
    assert_eq!(
        store.events[0].targets_hit,
        vec!["plex".to_string(), "jellyfin".to_string()]
    );
}

#[test]
fn advancer_waits_for_found_when_checking() {
    let checking = PulseRunner::new(base_settings(true, 3, vec![]));
    let mut store = store_of(vec![pending_event(1, "/media/a.mkv")]);
    checking.update_process_status(&mut store, &vec![all_ok()], 50);
    assert_eq!(store.events[0].process_status, ProcessStatus::Pending);
    let unchecked = PulseRunner::new(base_settings(false, 3, vec![]));
    unchecked.update_process_status(&mut store, &vec![all_ok()], 60);
    assert_eq!(store.events[0].process_status, ProcessStatus::Complete);
}

#[test]
fn cleanup_removes_stale_terminal_events() {
    let runner = PulseRunner::new(base_settings(true, 3, vec![]));
    let now: i64 = 2_000_000;
    // threshold: found_at < now - 864000 = 1_136_000
    let mut e1 = pending_event(1, "/a");
    e1.found_status = FoundStatus::NotFound;
    e1.found_at = Some(0);
    let mut e2 = pending_event(2, "/b");
    e2.process_status = ProcessStatus::Failed;
    e2.found_at = Some(0);
    let mut e3 = pending_event(3, "/c");
    e3.process_status = ProcessStatus::Failed;
    e3.found_at = Some(1_500_000);
    let mut e4 = pending_event(4, "/d");
    e4.found_status = FoundStatus::NotFound;
    let mut e5 = pending_event(5, "/e");
    e5.found_status = FoundStatus::Found;
    e5.found_at = Some(0);
    let mut store = store_of(vec![e1, e2, e3, e4, e5]);
    runner.cleanup(&mut store, now);
    let ids: Vec<i32> = store.events.iter().map(|e| e.id).collect();
    assert_eq!(ids, vec![3, 4, 5]);
}
