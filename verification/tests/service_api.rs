use autopulse::event::FoundStatus;
use autopulse::event::NewScanEvent;
use autopulse::event::ProcessStatus;
use autopulse::event::ScanEvent;
use autopulse::runner::DispatchOutcome;
use autopulse::runner::FileCheck;
use autopulse::runner::PulseRunner;
use autopulse::service::PulseService;
use autopulse::settings::App;
use autopulse::settings::Auth;
use autopulse::settings::Command;
use autopulse::settings::Opts;
use autopulse::settings::Settings;
use autopulse::settings::Target;
use autopulse::settings::TargetEntry;

fn svc_settings(check_path: bool, max_retries: u32, target_names: Vec<&str>) -> Settings {
    let targets = target_names
        .into_iter()
        .map(|n| TargetEntry {
            name: n.to_string(),
            target: Target::Command(Command {
                command: "/usr/bin/true".to_string(),
            }),
        })
        .collect();
    Settings {
        app: App {
            hostname: "127.0.0.1".to_string(),
            port: 2875,
            database_url: "events.db".to_string(),
        },
        auth: Auth {
            username: "admin".to_string(),
            password: "password".to_string(),
        },
        opts: Opts {
            check_path,
            max_retries,
        },
        triggers: vec![],
        targets,
        webhooks: vec![],
    }
}

fn stat_event(id: i32, found: FoundStatus, process: ProcessStatus) -> ScanEvent {
    ScanEvent {
        id,
        file_path: format!("/media/{}.mkv", id),
        file_hash: None,
        found_status: found,
        found_at: None,
        process_status: process,
        failed_times: 0,
        next_retry_at: match process {
            ProcessStatus::Retry => Some(1_000),
            _ => None,
        },
        targets_hit: vec![],
        processed_at: None,
        created_at: 0,
        updated_at: 0,
    }
}

#[test]
fn add_and_get_event() {
    let mut svc = PulseService::new(svc_settings(true, 3, vec![]));
    let first = svc
        .add_event(&NewScanEvent {
            file_path: "/media/a.mkv".to_string(),
            file_hash: None,
        })
        .unwrap();
    let second = svc
        .add_event(&NewScanEvent {
            file_path: "/media/b.mkv".to_string(),
            file_hash: Some("aaa".to_string()),
        })
        .unwrap();
    assert_eq!(first.id, 1);
    assert_eq!(second.id, 2);
    assert_eq!(first.found_status, FoundStatus::Pending);
    assert_eq!(first.process_status, ProcessStatus::Pending);
    assert_eq!(first.failed_times, 0);
    assert_eq!(first.created_at, first.updated_at);
    assert_eq!(second.file_hash, Some("aaa".to_string()));
    let fetched = svc.get_event(&2).unwrap();
    assert_eq!(fetched.file_path, "/media/b.mkv".to_string());
    assert!(svc.get_event(&99).is_none());
}

#[test]
fn add_event_fails_when_ids_exhausted() {
    let mut svc = PulseService::new(svc_settings(true, 3, vec![]));
    svc.store.next_id = i32::MAX;
    let r = svc.add_event(&NewScanEvent {
        file_path: "/media/a.mkv".to_string(),
        file_hash: None,
    });
    assert!(r.is_none());
    assert!(svc.store.events.is_empty());
}

#[test]
fn stats_match_direct_filters() {
    let mut svc = PulseService::new(svc_settings(true, 3, vec![]));
    let mut events = vec![
        stat_event(1, FoundStatus::Found, ProcessStatus::Pending),
        stat_event(2, FoundStatus::Found, ProcessStatus::Pending),
        stat_event(3, FoundStatus::Found, ProcessStatus::Pending),
        stat_event(4, FoundStatus::Found, ProcessStatus::Complete),
        stat_event(5, FoundStatus::Found, ProcessStatus::Complete),
        stat_event(6, FoundStatus::Pending, ProcessStatus::Failed),
        stat_event(7, FoundStatus::Pending, ProcessStatus::Retry),
    ];
    svc.store.events.append(&mut events);
    svc.store.next_id = 8;
    let stats = svc.get_stats();
    assert_eq!(stats.total, 7);
    assert_eq!(stats.pending, 3);
    assert_eq!(stats.processed, 2);
    assert_eq!(stats.failed, 2);
    assert_eq!(stats.found, 5);
    assert!(stats.found >= 3);
}

#[test]
fn end_to_end_failing_target_exhausts_retries() {
    let settings = svc_settings(true, 2, vec!["t"]);
    let mut svc = PulseService::new(settings.clone());
    let runner = PulseRunner::new(settings);
    svc.add_event(&NewScanEvent {
        file_path: "/media/a.mkv".to_string(),
        file_hash: None,
    })
    .unwrap();

    // first tick: the file exists on disk, the event is found
    let t0: i64 = 10_000;
    let checks = vec![FileCheck::Present {
        digest: "d".to_string(),
    }];
    let found = runner.update_found_status(&mut svc.store, &checks, t0);
    assert_eq!(found, vec!["/media/a.mkv".to_string()]);
    assert_eq!(svc.store.events[0].found_status, FoundStatus::Found);

    // the dispatcher attempts the one configured target, which always fails
    let plan = runner.plan_targets(&svc.store.events[0]);
    assert_eq!(plan, vec!["t".to_string()]);
    let fail = DispatchOutcome {
        succeeded: vec![],
        failed: plan.clone(),
    };
    let (_, failed) = runner.update_process_status(&mut svc.store, &vec![fail.clone()], t0);
    assert!(failed.is_empty());
    assert_eq!(svc.store.events[0].failed_times, 1);
    assert_eq!(svc.store.events[0].process_status, ProcessStatus::Retry);
    assert_eq!(svc.store.events[0].next_retry_at, Some(t0 + 4));

    // second tick, before the backoff has elapsed: nothing changes
    runner.update_process_status(&mut svc.store, &vec![fail.clone()], t0 + 2);
    assert_eq!(svc.store.events[0].failed_times, 1);

    // third tick, past the backoff: the retry ceiling is reached
    let (_, failed) = runner.update_process_status(&mut svc.store, &vec![fail], t0 + 5);
    assert_eq!(svc.store.events[0].failed_times, 2);
    assert_eq!(svc.store.events[0].process_status, ProcessStatus::Failed);
    assert_eq!(failed, vec!["/media/a.mkv".to_string()]);

    let stats = svc.get_stats();
    assert_eq!(stats.total, 1);
    assert_eq!(stats.failed, 1);
}
