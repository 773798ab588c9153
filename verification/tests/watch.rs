use lzsync::environment::{Environment, Variable};
use lzsync::lock::{is_pid_alive, next_step, LockError, LockSeen, Probe, Reply, Step};
use lzsync::target::{CatchupMode, ConflictAction, WatchConfig};
use lzsync::watch::{
    canonical_or, classify_entry, default_lock_dir, fnv1a_hex, glob_match, list_files,
    load_state,
    matches_any, partition_catchup, resolve_path, start_poller, state_path, try_acquire_lock,
    unresolved, EntryAction, EntryKind, FolderEntry, FoundFile, LockHandle, PersistedState,
    PersistedWatchState, WatchEvent, WatchHandle,
};

const PID: u32 = 4242;

fn begin() -> (LockHandle, Step) {
    let (record, handle, step) = try_acquire_lock("w1", "/t/target", "/t/locks", PID, 7);
    assert_eq!(record.pid, PID);
    assert_eq!(record.path, "/t/target");
    (handle, step)
}

fn run(step: Step, replies: Vec<Reply>) -> Step {
    replies.into_iter().fold(step, next_step)
}

#[test]
fn watch_atomic_create_returns_handle() {
    let (h, step) = begin();
    let end = run(step, vec![Reply::Done, Reply::Done, Reply::Done]);
    assert!(matches!(end, Step::Acquired));
    assert_eq!(h.owner_pid, PID);
    assert_eq!(h.lock_path, format!("/t/locks/{}.lock", fnv1a_hex("/t/target")));
}

#[test]
fn watch_second_acquire_returns_held_when_alive() {
    let (_, step) = begin();
    let end = run(
        step,
        vec![
            Reply::Done,
            Reply::Exists,
            Reply::Record(Some(PID)),
            Reply::Probed(Probe::Delivered),
        ],
    );
    match end {
        Step::Refused(LockError::Held { pid }) => assert_eq!(pid, PID),
        other => panic!("expected Held, got {other:?}"),
    }
}

#[test]
fn watch_stale_lock_is_reclaimed() {
    let (h, step) = begin();
    let end = run(
        step,
        vec![
            Reply::Done,
            Reply::Exists,
            Reply::Record(Some(999_999_999)),
            Reply::Probed(Probe::Failed),
            Reply::Done,
        ],
    );
    assert!(matches!(end, Step::Acquired));
    assert_eq!(h.owner_pid, PID);
}

#[test]
fn watch_corrupt_lock_is_overwritten() {
    let (h, step) = begin();
    let end = run(step, vec![Reply::Done, Reply::Exists, Reply::Record(None), Reply::Done]);
    assert!(matches!(end, Step::Acquired));
    assert_eq!(h.owner_pid, PID);
}

#[test]
fn watch_drop_removes_our_lock() {
    let (h, _) = begin();
    assert!(h.owns(&LockSeen::Record(Some(PID))), "Drop should clean up our own lock");
    assert!(!h.owns(&LockSeen::Record(Some(1))));
    assert!(!h.owns(&LockSeen::Missing));
}

#[test]
fn explicit_release_also_removes_file() {
    let (h, step) = begin();
    let end = run(step, vec![Reply::Done, Reply::Done, Reply::Done]);
    assert!(matches!(end, Step::Acquired));
    assert!(h.owns(&LockSeen::Record(Some(PID))));
    assert_eq!(h.release(LockSeen::Record(Some(PID)), Ok(())), Ok(()));
}

#[test]
fn what_goes_wrong_with_a_release_is_reported() {
    let (h, _) = begin();
    let failed = || Err("busy".to_string());
    assert_eq!(h.release(LockSeen::Record(Some(PID)), failed()), failed());
    assert_eq!(h.release(LockSeen::Record(Some(1)), failed()), Ok(()));
    assert_eq!(h.release(LockSeen::Missing, failed()), Ok(()));
    assert_eq!(h.release(LockSeen::Unreadable("io".to_string()), Ok(())), Err("io".to_string()));
}

#[test]
fn errors_on_the_way_to_a_lock_are_named() {
    let err = || Reply::Error("no".to_string());
    let cases = vec![
        (vec![err()], "mkdir no"),
        (vec![Reply::Done, err()], "create lock: no"),
        (vec![Reply::Done, Reply::Done, err()], "write lock: no"),
        (vec![Reply::Done, Reply::Exists, err()], "read existing lock: no"),
        (
            vec![Reply::Done, Reply::Exists, Reply::Record(None), err()],
            "overwrite corrupt lock: no",
        ),
        (
            vec![
                Reply::Done,
                Reply::Exists,
                Reply::Record(Some(9)),
                Reply::Probed(Probe::Failed),
                err(),
            ],
            "steal stale lock: no",
        ),
    ];
    for (replies, want) in cases {
        let (_, step) = begin();
        match run(step, replies) {
            Step::Refused(e) => assert_eq!(e.message(), want),
            other => panic!("expected a refusal, got {other:?}"),
        }
    }
    assert_eq!(LockError::Held { pid: 12345 }.message(), "locked by PID 12345");
}

#[test]
fn fnv1a_is_deterministic() {
    let a = fnv1a_hex("/home/user/Desktop");
    let b = fnv1a_hex("/home/user/Desktop");
    assert_eq!(a, b);
    let c = fnv1a_hex("/home/user/Downloads");
    assert_ne!(a, c);
    assert_eq!(a.len(), 16);
}

#[test]
fn fnv1a_of_known_texts() {
    assert_eq!(fnv1a_hex(""), "cbf29ce484222325");
    assert_eq!(fnv1a_hex("a"), "af63dc4c8601ec8c");
    assert_eq!(fnv1a_hex("foobar"), "85944171f73967e8");
}

#[test]
fn live_process_is_detected_as_alive() {
    assert!(is_pid_alive(PID, Probe::Delivered));
    assert!(is_pid_alive(PID, Probe::NotPermitted));
    assert!(!is_pid_alive(PID, Probe::Failed));
}

#[test]
fn pid_zero_is_not_alive() {
    assert!(!is_pid_alive(0, Probe::Delivered));
}

#[test]
fn glob_matches_extensions() {
    assert!(glob_match("*.png", "screenshot.png"));
    assert!(glob_match("*.png", ".png"));
    assert!(!glob_match("*.png", "screenshot.jpg"));
}

#[test]
fn glob_matches_prefix_and_suffix() {
    assert!(glob_match("screenshot-*.png", "screenshot-2024-04-19.png"));
    assert!(!glob_match("screenshot-*.png", "shot.png"));
}

#[test]
fn matches_any_is_case_insensitive() {
    let pats = vec!["*.png".to_string()];
    assert!(matches_any(&pats, "Shot.PNG"));
    assert!(matches_any(&pats, "shot.png"));
}

#[test]
fn matches_any_empty_patterns_matches_all() {
    assert!(matches_any(&[], "anything.txt"));
}

#[test]
fn a_star_stands_for_any_run() {
    assert!(glob_match("a*b*c", "a-b-b-c"));
    assert!(!glob_match("a*b*c", "a-c-b"));
    assert!(glob_match("*", ""));
    assert!(!glob_match("", "x"));
    assert!(glob_match("a?c", "abc"));
}

fn entry(kind: EntryKind, path: &str, within: Vec<FolderEntry>) -> FolderEntry {
    FolderEntry { kind, file: found(path, 1, 2), within }
}

fn names_taken(entries: Vec<FolderEntry>, pats: &Vec<String>, recursive: bool) -> Vec<String> {
    list_files(&entries, pats, recursive).into_iter().map(|f| f.path).collect()
}

#[test]
fn list_files_filters_by_patterns() {
    let pats = vec!["*.png".to_string(), "*.jpg".to_string()];
    let entries = vec![
        entry(EntryKind::File, "/t/a.png", Vec::new()),
        entry(EntryKind::File, "/t/b.jpg", Vec::new()),
        entry(EntryKind::File, "/t/c.txt", Vec::new()),
        entry(EntryKind::Other, "/t/d.png", Vec::new()),
    ];
    assert_eq!(names_taken(entries, &pats, false), vec!["/t/a.png", "/t/b.jpg"]);
}

#[test]
fn list_files_recursive_walks_subdirs() {
    let pats = vec!["*.png".to_string()];
    let tree = || {
        let deep = entry(EntryKind::File, "/t/sub/deep/x.png", Vec::new());
        vec![
            entry(EntryKind::File, "/t/root.png", Vec::new()),
            entry(
                EntryKind::Directory,
                "/t/sub",
                vec![
                    entry(EntryKind::Directory, "/t/sub/deep", vec![deep]),
                    entry(EntryKind::File, "/t/sub/child.png", Vec::new()),
                    entry(EntryKind::File, "/t/sub/child.txt", Vec::new()),
                ],
            ),
        ]
    };
    assert_eq!(names_taken(tree(), &pats, false), vec!["/t/root.png"]);
    assert_eq!(
        names_taken(tree(), &pats, true),
        vec!["/t/root.png", "/t/sub/deep/x.png", "/t/sub/child.png"]
    );
    assert!(matches!(
        classify_entry(EntryKind::Directory, "/t/sub", &pats, false),
        EntryAction::Skip
    ));
    assert!(matches!(
        classify_entry(EntryKind::Directory, "/t/sub", &pats, true),
        EntryAction::Descend
    ));
    assert!(matches!(
        classify_entry(EntryKind::File, "/t/sub/child.png", &pats, true),
        EntryAction::Take
    ));
}

fn test_watch(name: &str) -> WatchConfig {
    WatchConfig {
        name: name.to_string(),
        path: "/t/target".to_string(),
        targets: vec!["dev".to_string()],
        patterns: vec!["*.png".to_string()],
        catchup: CatchupMode::Ignore,
        enabled: true,
        debounce_ms: 80,
        recursive: false,
        on_conflict: ConflictAction::Rename,
    }
}

fn found(path: &str, size: u64, mtime: u64) -> FoundFile {
    FoundFile { path: path.to_string(), size, mtime }
}

#[test]
fn poller_emits_new_file_after_debounce() {
    let (mut p, events) = start_poller(&test_watch("t1"), &Vec::new(), 0);
    assert!(events.is_empty());
    let listed = vec![("/t/target/shot.png".to_string(), 5u64)];
    let mut now = 0;
    let mut seen = Vec::new();
    for _ in 0..5 {
        seen.extend(p.tick(&listed, now));
        now += 30;
    }
    assert_eq!(seen.len(), 1);
    match &seen[0] {
        WatchEvent::NewFile { watch_name, path, size } => {
            assert_eq!(watch_name, "t1");
            assert!(path.ends_with("shot.png"));
            assert_eq!(*size, 5);
        }
        other => panic!("expected NewFile, got {other:?}"),
    }
    // Nothing is announced twice.
    assert!(p.tick(&listed, now + 1000).is_empty());
}

#[test]
fn a_growing_file_is_waited_for() {
    let (mut p, _) = start_poller(&test_watch("t1"), &Vec::new(), 0);
    for i in 0..10u64 {
        let listed = vec![("/t/a.png".to_string(), i)];
        assert!(p.tick(&listed, i * 50).is_empty());
    }
    let listed = vec![("/t/a.png".to_string(), 9u64)];
    assert_eq!(p.tick(&listed, 450 + 80).len(), 1);
}

#[test]
fn poller_ignores_files_already_present() {
    let there = vec![found("/t/target/pre-existing.png", 1, 10)];
    let (mut p, events) = start_poller(&test_watch("t2"), &there, 0);
    assert!(events.is_empty());
    let listed = vec![("/t/target/pre-existing.png".to_string(), 1u64)];
    for i in 0..20u64 {
        assert!(
            p.tick(&listed, i * 30).is_empty(),
            "pre-existing files must not be emitted"
        );
    }
}

#[test]
fn partition_catchup_splits_by_mtime() {
    let files = vec![found("/t/a.png", 1, 100), found("/t/b.png", 1, 200)];
    // threshold=0 → everything is "newer"
    let (newer, older) = partition_catchup(&files, 0);
    assert_eq!(newer.len(), 2);
    assert_eq!(older.len(), 0);
    // threshold=u64::MAX → everything is "older"
    let (newer, older) = partition_catchup(&files, u64::MAX);
    assert_eq!(newer.len(), 0);
    assert_eq!(older.len(), 2);
    let (newer, older) = partition_catchup(&files, 100);
    assert_eq!(newer, vec!["/t/b.png"]);
    assert_eq!(older, vec!["/t/a.png"]);
}

#[test]
fn poller_catchup_auto_resends_everything_when_threshold_is_zero() {
    let mut cfg = test_watch("caught");
    cfg.catchup = CatchupMode::Auto;
    let (_, events) = start_poller(&cfg, &vec![found("/t/target/caught.png", 1, 5)], 0);
    match &events[0] {
        WatchEvent::NewFile { path, .. } => assert!(path.ends_with("caught.png")),
        other => panic!("expected NewFile, got {other:?}"),
    }
}

#[test]
fn poller_catchup_prompt_emits_detected_event() {
    let mut cfg = test_watch("prompt");
    cfg.catchup = CatchupMode::Prompt;
    let (_, events) = start_poller(&cfg, &vec![found("/t/target/pending.png", 1, 5)], 0);
    match &events[0] {
        WatchEvent::CatchupDetected { watch_name, paths } => {
            assert_eq!(watch_name, "prompt");
            assert_eq!(paths.len(), 1);
            assert!(paths[0].ends_with("pending.png"));
        }
        other => panic!("expected CatchupDetected, got {other:?}"),
    }
}

#[test]
fn poller_filters_by_pattern() {
    let cfg = test_watch("t3");
    let entries = vec![entry(EntryKind::File, "/t/target/note.txt", Vec::new())];
    assert!(
        names_taken(entries, &cfg.patterns, cfg.recursive).is_empty(),
        "non-matching files must not be emitted"
    );
}

#[test]
fn folders_are_resolved_as_far_as_they_can_be() {
    let m = Environment {
        home: Some("/home/u".to_string()),
        vars: vec![Variable { name: "D".to_string(), value: Ok("/d".to_string()) }],
    };
    assert_eq!(resolve_path("~/Desktop", &m), Ok("/home/u/Desktop".to_string()));
    assert_eq!(resolve_path("/a/b", &m), Ok("/a/b".to_string()));
    assert_eq!(resolve_path("$D/b", &m), Ok("/d/b".to_string()));
    assert_eq!(
        resolve_path("$NONE/b", &m),
        Err("error looking key 'NONE' up: environment variable not found".to_string())
    );
    assert_eq!(
        resolve_path("/a/${NONE}", &m),
        Err("error looking key 'NONE' up: environment variable not found".to_string())
    );
    assert_eq!(canonical_or("/x".to_string(), None), "/x");
    assert_eq!(canonical_or("/x".to_string(), Some("/y".to_string())), "/y");
    match unresolved("w", "no home") {
        WatchEvent::LockLost { watch_name, reason } => {
            assert_eq!(watch_name, "w");
            assert_eq!(reason, "resolve path: no home");
        }
        other => panic!("expected LockLost, got {other:?}"),
    }
}

#[test]
fn state_that_cannot_be_read_is_empty() {
    assert!(load_state(None).watches.is_empty());
    let s = PersistedState {
        watches: vec![(
            "w".to_string(),
            PersistedWatchState { last_seen_mtime: 5, last_exit_at: 6 },
        )],
    };
    assert_eq!(load_state(Some(s)).watches[0].1.last_seen_mtime, 5);
    assert_eq!(state_path(Some("/c")).as_deref(), Some("/c/lzsync/watch-state.json"));
    assert_eq!(default_lock_dir(Some("/c")), "/c/lzsync/watch-locks");
    assert_eq!(default_lock_dir(None), ".lzsync/watch-locks");
    let mut h = WatchHandle::new("w".to_string());
    h.stop();
    assert!(h.stopping);
}

#[test]
fn a_watch_says_when_it_ends_and_then_nothing() {
    let ours = LockSeen::Record(Some(PID));
    let listed = vec![("/t/a.png".to_string(), 5u64)];
    let (mut p, _) = start_poller(&test_watch("t1"), &Vec::new(), 0);
    assert!(matches!(p.poll(false, &ours, PID, &listed, 0), (e, false) if e.is_empty()));
    let (events, over) = p.poll(false, &ours, PID, &listed, 1_000);
    assert!(!over);
    assert!(matches!(&events[..], [WatchEvent::NewFile { path, .. }] if path == "/t/a.png"));
    let (events, over) = p.poll(true, &LockSeen::Missing, PID, &listed, 2_000);
    assert!(over);
    assert!(matches!(&events[..], [WatchEvent::Stopped { watch_name }] if watch_name == "t1"));
}

#[test]
fn a_lost_lock_ends_a_watch() {
    let listed = vec![("/t/a.png".to_string(), 5u64)];
    for (seen, why) in [
        (LockSeen::Missing, "lock file is gone"),
        (LockSeen::Record(Some(77)), "lock taken over by PID 77"),
        (LockSeen::Record(None), "lock file was overwritten"),
    ] {
        let (mut p, _) = start_poller(&test_watch("t1"), &Vec::new(), 0);
        p.tick(&listed, 0);
        let (events, over) = p.poll(false, &seen, PID, &listed, 1_000);
        assert!(over);
        match &events[..] {
            [WatchEvent::LockLost { watch_name, reason }] => {
                assert_eq!(watch_name, "t1");
                assert_eq!(reason, why);
            }
            other => panic!("expected LockLost, got {other:?}"),
        }
    }
    let (mut p, _) = start_poller(&test_watch("t1"), &Vec::new(), 0);
    let unread = LockSeen::Unreadable("io".to_string());
    assert!(!p.poll(false, &unread, PID, &listed, 0).1);
}

#[test]
fn patterns_ignore_ascii_case_beside_other_letters() {
    let one = vec!["截图*.Png".to_string()];
    let two = vec!["*.gif".to_string(), "截图*.pNG".to_string()];
    for name in ["截图É1.PNG", "截图É1.png", "截图é1.pNg"] {
        assert!(matches_any(&one, name));
        assert!(matches_any(&two, name));
    }
    assert!(!matches_any(&one, "x.PNG"));
}

#[test]
fn exits_are_remembered() {
    let mut s = PersistedState::default();
    assert_eq!(s.last_seen("a"), 0);
    s.note_exit("a", 5);
    s.note_exit("b", 7);
    s.note_exit("a", 9);
    assert_eq!((s.last_seen("a"), s.last_seen("b"), s.last_seen("c")), (9, 7, 0));
    assert_eq!(s.watches.len(), 2);
}

#[test]
fn over_a_whole_run_each_file_is_announced_once() {
    let ours = LockSeen::Record(Some(PID));
    let mut cfg = test_watch("run");
    cfg.catchup = CatchupMode::Auto;
    cfg.recursive = true;
    let folder = |names: &[&str]| {
        let files = names.iter().map(|n| entry(EntryKind::File, n, Vec::new())).collect();
        list_files(&vec![entry(EntryKind::Directory, "/t/sub", files)], &cfg.patterns, true)
    };
    let (mut p, mut events) = start_poller(&cfg, &folder(&["/t/sub/a.png", "/t/sub/n.txt"]), 0);
    let names: [&[&str]; 4] = [
        &["/t/sub/a.png", "/t/sub/b.png", "/t/sub/n.txt"],
        &["/t/sub/b.png", "/t/sub/a.png"],
        &["/t/sub/b.png", "/t/sub/c.PNG"],
        &["/t/sub/c.PNG", "/t/sub/b.png"],
    ];
    for (i, ns) in names.iter().enumerate() {
        let listed = folder(ns).into_iter().map(|f| (f.path, f.size)).collect();
        let (more, over) = p.poll(false, &ours, PID, &listed, i as u64 * 100);
        assert!(!over);
        events.extend(more);
    }
    let (more, over) = p.poll(true, &ours, PID, &Vec::new(), 900);
    assert!(over);
    events.extend(more);
    let last = events.pop().unwrap();
    assert!(matches!(last, WatchEvent::Stopped { watch_name } if watch_name == "run"));
    let paths: Vec<String> = events
        .iter()
        .map(|e| match e {
            WatchEvent::NewFile { watch_name, path, .. } => {
                assert_eq!(watch_name, "run");
                path.clone()
            }
            other => panic!("expected NewFile, got {other:?}"),
        })
        .collect();
    assert_eq!(paths, vec!["/t/sub/a.png", "/t/sub/b.png", "/t/sub/c.PNG"]);
}
