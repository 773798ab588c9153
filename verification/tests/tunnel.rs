use lzsync::lock::{next_step, LockError, LockSeen, Probe, Reply, Step};
use lzsync::target::{Target, TunnelConfig};
use lzsync::tunnel::{
    build_ssh_args, classify_fatal, default_lock_dir, identity_file, is_fatal_stderr, next_backoff,
    ssh_args_with_key, stderr_log_line, try_acquire_lock, LockHandle, Tunnel, TunnelAction,
    TunnelEvent, TunnelHandle, TunnelInput, TunnelStatus,
};

const PID: u32 = 4242;

fn begin() -> (LockHandle, Step) {
    let (record, handle, step) = try_acquire_lock("jupyter", 8888, "/c/locks", PID, 7);
    assert_eq!(record.pid, PID);
    assert_eq!(record.local_port, 8888);
    assert_eq!(record.started_at, 7);
    (handle, step)
}

fn run(step: Step, replies: Vec<Reply>) -> Step {
    replies.into_iter().fold(step, next_step)
}

#[test]
fn tunnel_atomic_create_returns_handle() {
    let (h, step) = begin();
    let end = run(step, vec![Reply::Done, Reply::Done, Reply::Done]);
    assert!(matches!(end, Step::Acquired));
    assert_eq!(h.owner_pid, PID);
    assert_eq!(h.lock_path, "/c/locks/8888.lock");
}

#[test]
fn tunnel_second_acquire_returns_held_when_alive() {
    let (_, step) = begin();
    let end = run(
        step,
        vec![
            Reply::Done,
            Reply::Exists,
            Reply::Record(Some(PID)),
            Reply::Probed(Probe::Delivered),
        ],
    );
    match end {
        Step::Refused(LockError::Held { pid }) => assert_eq!(pid, PID),
        other => panic!("expected Held, got {other:?}"),
    }
}

#[test]
fn tunnel_stale_lock_is_reclaimed() {
    let (h, step) = begin();
    let end = run(
        step,
        vec![
            Reply::Done,
            Reply::Exists,
            Reply::Record(Some(999_999)),
            Reply::Probed(Probe::Failed),
            Reply::Done,
        ],
    );
    assert!(matches!(end, Step::Acquired));
    assert_eq!(h.owner_pid, PID);
}

#[test]
fn tunnel_drop_removes_our_lock() {
    let (h, _) = begin();
    assert!(h.owns(&LockSeen::Record(Some(PID))), "Drop should clean up our own lock");
    assert!(!h.owns(&LockSeen::Record(Some(PID + 1))));
    assert!(!h.owns(&LockSeen::Record(None)));
    let failed = || Err("busy".to_string());
    assert_eq!(h.release(LockSeen::Record(Some(PID)), failed()), failed());
    assert_eq!(h.release(LockSeen::Record(None), failed()), Ok(()));
}

#[test]
fn tunnel_corrupt_lock_is_overwritten() {
    let (h, step) = begin();
    let end = run(step, vec![Reply::Done, Reply::Exists, Reply::Record(None), Reply::Done]);
    assert!(matches!(end, Step::Acquired));
    assert_eq!(h.owner_pid, PID);
}

fn test_tunnel_cfg() -> TunnelConfig {
    TunnelConfig {
        name: "jupyter".to_string(),
        target: "mybox".to_string(),
        local_port: 8888,
        remote_host: "localhost".to_string(),
        remote_port: 8888,
        bind_address: "127.0.0.1".to_string(),
        autostart: false,
    }
}

fn test_target() -> Target {
    Target {
        name: "mybox".to_string(),
        host: "mybox.example.com".to_string(),
        user: Some("alice".to_string()),
        remote_dir: "/tmp".to_string(),
        ssh_port: Some(2222),
        ssh_key: Some("~/.ssh/id_ed25519".to_string()),
        clipboard_format: None,
    }
}

#[test]
fn ssh_args_contain_expected_flags_with_key_and_user() {
    let cfg = test_tunnel_cfg();
    let target = test_target();
    let home = shellexpand::tilde("~").into_owned();
    let args = build_ssh_args(&cfg, &target, Some(&home));

    // All non-negotiable flags present.
    assert!(args.contains(&"-N".to_string()));
    assert!(args.contains(&"ServerAliveInterval=30".to_string()));
    assert!(args.contains(&"ServerAliveCountMax=3".to_string()));
    assert!(args.contains(&"ExitOnForwardFailure=yes".to_string()));
    assert!(args.contains(&"StrictHostKeyChecking=accept-new".to_string()));

    // Port wiring.
    assert!(args.contains(&"-p".to_string()));
    assert!(args.contains(&"2222".to_string()));

    // Key expansion — `~` must be resolved.
    assert!(args.contains(&"-i".to_string()));
    let expanded = shellexpand::tilde("~/.ssh/id_ed25519").into_owned();
    assert!(
        args.contains(&expanded),
        "expected expanded key path in args: {args:?}"
    );
    assert!(
        !args.iter().any(|a| a.starts_with("~")),
        "no arg should still contain a literal `~`: {args:?}"
    );

    // Forward spec.
    assert!(args.contains(&"-L".to_string()));
    assert!(
        args.contains(&"127.0.0.1:8888:localhost:8888".to_string()),
        "expected forward spec in args: {args:?}"
    );

    // user@host always last.
    assert_eq!(args.last().unwrap(), "alice@mybox.example.com");
}

#[test]
fn ssh_args_omit_user_prefix_when_missing() {
    let cfg = test_tunnel_cfg();
    let mut target = test_target();
    target.user = None;
    let args = build_ssh_args(&cfg, &target, Some("/home/u"));
    assert_eq!(args.last().unwrap(), "mybox.example.com");
    assert!(
        !args.iter().any(|a| a.contains('@')),
        "no arg should contain '@' when user is None: {args:?}"
    );
}

#[test]
fn ssh_args_omit_key_when_none() {
    let cfg = test_tunnel_cfg();
    let mut target = test_target();
    target.ssh_key = None;
    let args = build_ssh_args(&cfg, &target, Some("/home/u"));
    assert!(
        !args.contains(&"-i".to_string()),
        "-i flag must be absent when ssh_key is None: {args:?}"
    );
}

#[test]
fn the_key_lies_in_the_home_directory() {
    let mut target = test_target();
    assert_eq!(
        identity_file(&target, Some("/home/u")).as_deref(),
        Some("/home/u/.ssh/id_ed25519")
    );
    assert_eq!(identity_file(&target, None).as_deref(), Some("~/.ssh/id_ed25519"));
    target.ssh_key = Some("/k".to_string());
    assert_eq!(identity_file(&target, Some("/home/u")).as_deref(), Some("/k"));
    target.ssh_key = None;
    assert_eq!(identity_file(&target, Some("/home/u")), None);
}

#[test]
fn next_backoff_climbs_then_caps() {
    assert_eq!(next_backoff(1), 2);
    assert_eq!(next_backoff(2), 5);
    assert_eq!(next_backoff(5), 10);
    assert_eq!(next_backoff(10), 30);
    assert_eq!(next_backoff(30), 30);
}

#[test]
fn fatal_detects_bind_address_already_in_use() {
    assert!(is_fatal_stderr("bind [127.0.0.1]:57988: Address already in use"));
    assert!(is_fatal_stderr(
        "channel_setup_fwd_listener_tcpip: cannot listen to port: 57988"
    ));
}

#[test]
fn fatal_detects_auth_failure() {
    assert!(is_fatal_stderr(
        "Permission denied (publickey,password,keyboard-interactive)."
    ));
}

#[test]
fn fatal_detects_dns_failure() {
    assert!(is_fatal_stderr(
        "ssh: Could not resolve hostname nosuchhost.local: nodename nor servname provided"
    ));
}

#[test]
fn fatal_ignores_transient_noise() {
    assert!(!is_fatal_stderr(
        "channel 2: open failed: connect failed: Connection refused"
    ));
    assert!(!is_fatal_stderr("Warning: Permanently added 'host' (ED25519)"));
}

#[test]
fn classify_fatal_mentions_local_port_for_bind_conflict() {
    let msg = classify_fatal("bind [127.0.0.1]:57988: Address already in use", 57988);
    assert!(msg.contains("57988"));
    assert!(msg.contains("already in use"));
}

#[test]
fn classify_fatal_labels_auth_failure() {
    let msg = classify_fatal("Permission denied (publickey).", 8888);
    assert!(msg.contains("auth"));
}

#[test]
fn a_given_key_is_used_as_it_is() {
    let args = ssh_args_with_key(&test_tunnel_cfg(), &test_target(), Some("/k"));
    assert!(args.contains(&"/k".to_string()));
}

#[test]
fn locks_of_forwarded_ports_have_a_place() {
    assert!(default_lock_dir(Some("/c")).starts_with("/c/lzsync/"));
    assert_eq!(stderr_log_line("jupyter", "oops").contains("oops"), true);
}

fn ended(events: &[TunnelEvent]) -> bool {
    matches!(events.last(), Some(TunnelEvent::Stopped { .. }))
}

#[test]
fn a_dropped_connection_is_taken_up_again_ever_more_slowly() {
    let mut t = Tunnel::new(&test_tunnel_cfg());
    let (_, a) = t.step(TunnelInput::Begin, false);
    assert_eq!(a, TunnelAction::Spawn);
    let mut waits = Vec::new();
    for _ in 0..6 {
        let (_, a) = t.step(TunnelInput::Spawned, false);
        assert_eq!(a, TunnelAction::Watch);
        let (_, a) = t.step(TunnelInput::Exited, false);
        match a {
            TunnelAction::Sleep(s) => waits.push(s),
            other => panic!("expected a wait, got {other:?}"),
        }
        let (_, a) = t.step(TunnelInput::WaitOver, false);
        assert_eq!(a, TunnelAction::Spawn);
    }
    assert_eq!(waits, vec![1, 2, 5, 10, 30, 30]);
}

#[test]
fn after_a_fatal_line_there_is_no_retry() {
    let mut t = Tunnel::new(&test_tunnel_cfg());
    t.step(TunnelInput::Begin, false);
    t.step(TunnelInput::Spawned, false);
    let (events, _) = t.step(
        TunnelInput::StderrLine("Permission denied (publickey).".to_string()),
        false,
    );
    assert!(matches!(
        &events[0],
        TunnelEvent::StatusChanged { status: TunnelStatus::Failed(_), .. }
    ));
    let (events, a) = t.step(TunnelInput::Exited, false);
    assert_eq!(a, TunnelAction::End);
    assert!(ended(&events));
}

#[test]
fn a_tunnel_that_is_told_to_end_does() {
    let mut t = Tunnel::new(&test_tunnel_cfg());
    let (events, a) = t.step(TunnelInput::Begin, true);
    assert_eq!(a, TunnelAction::End);
    assert!(ended(&events));
    let mut t = Tunnel::new(&test_tunnel_cfg());
    t.step(TunnelInput::Begin, false);
    t.step(TunnelInput::Spawned, false);
    let (_, a) = t.step(TunnelInput::StopSeen, true);
    assert_eq!(a, TunnelAction::Kill);
    let (events, a) = t.step(TunnelInput::Killed, true);
    assert_eq!(a, TunnelAction::End);
    assert!(ended(&events));
    let mut h = TunnelHandle::new("jupyter".to_string());
    assert!(!h.stopping);
    h.stop();
    assert!(h.stopping);
}

#[test]
fn ssh_that_cannot_be_started_ends_the_tunnel() {
    let mut t = Tunnel::new(&test_tunnel_cfg());
    t.step(TunnelInput::Begin, false);
    let (events, a) = t.step(TunnelInput::SpawnFailed("no ssh".to_string()), false);
    assert_eq!(a, TunnelAction::End);
    assert_eq!(events.len(), 2);
    match &events[0] {
        TunnelEvent::StatusChanged { status: TunnelStatus::Failed(m), .. } => {
            assert_eq!(m, "spawn ssh: no ssh");
        }
        other => panic!("expected a failure, got {other:?}"),
    }
}
