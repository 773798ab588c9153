use lzsync::target::Target;
use lzsync::transfer::{
    build_rsync_args, check_collision, collision_reply, explain_failure, explain_rsync_exit,
    install_reply, local_rsync_version, log_path, parse_progress_line, preflight, preflight_full,
    preflight_full_reply, preflight_reply, prep_reply, remote_install_rsync, rsync_candidates,
    rsync_command, shell_single_quote, spawn, spawn_with_rename, verbose_line, ProgressReader,
    RsyncFlags, RsyncStatus, RunAction, RunInput, Session, Transfer, TransferEvent, TransferState,
};

fn flags(info: bool, iconv: bool) -> RsyncFlags {
    RsyncFlags { info, iconv }
}

fn target() -> Target {
    Target {
        name: "dev".to_string(),
        host: "dev.example.com".to_string(),
        user: Some("ubuntu".to_string()),
        remote_dir: "~/uploads".to_string(),
        ssh_port: None,
        ssh_key: None,
        clipboard_format: None,
    }
}

#[test]
fn parse_progress_basic() {
    let p = parse_progress_line("     1,234,567  45%   12.34MB/s    0:00:03").expect("parses");
    assert_eq!(p.bytes, 1_234_567);
    assert_eq!(p.percent, 45);
    assert_eq!(p.rate, "12.34MB/s");
}

#[test]
fn parse_progress_no_commas() {
    let p = parse_progress_line("   500  5%  1.00KB/s 0:00:02").expect("parses");
    assert_eq!(p.bytes, 500);
    assert_eq!(p.percent, 5);
}

#[test]
fn parse_progress_complete() {
    let p = parse_progress_line("  12,345,678 100%   20.12MB/s    0:00:00 (xfr#1, to-chk=0/1)")
        .expect("parses");
    assert_eq!(p.percent, 100);
}

#[test]
fn parse_progress_ignores_random_line() {
    assert!(parse_progress_line("sending incremental file list").is_none());
}

#[test]
fn parse_progress_gbps_rate() {
    let p = parse_progress_line("     1,234  50%   1.25GB/s    0:00:01").expect("parses");
    assert_eq!(p.rate, "1.25GB/s");
}

#[test]
fn versions_are_read_from_the_first_line() {
    assert_eq!(
        local_rsync_version(Some("rsync  version 3.2.7  protocol version 31\nmore 9.9.9")),
        (3, 2, 7)
    );
    assert_eq!(local_rsync_version(Some("rsync  version 2.6.9  protocol version 29")), (2, 6, 9));
    assert_eq!(local_rsync_version(Some("no such thing")), (0, 0, 0));
    assert_eq!(local_rsync_version(None), (0, 0, 0));
}

#[test]
fn a_session_remembers_its_rsync() {
    let mut s = Session::default();
    assert_eq!(s.rsync_status(), RsyncStatus::Pending);
    assert!(!s.rsync_supports_iconv());
    s.cache_rsync_version((2, 6, 9));
    assert!(!s.rsync_supports_iconv());
    assert_eq!(s.rsync_status(), RsyncStatus::TooOld(2, 6));
    let mut s = Session::default();
    s.cache_rsync_version((3, 1, 0));
    assert!(s.rsync_supports_iconv());
    assert!(s.converts_names("macos"));
    assert!(!s.converts_names("linux"));
    assert_eq!(s.rsync_flags("macos"), flags(true, true));
    assert_eq!(s.rsync_flags("linux"), flags(true, false));
    assert_eq!(Session::default().rsync_flags("macos"), flags(true, false));
    let mut old = Session::default();
    old.cache_rsync_version((3, 0, 9));
    assert_eq!(old.rsync_flags("macos"), flags(false, true));
    assert_eq!(s.rsync_status(), RsyncStatus::Good);
    let mut s = Session::default();
    s.cache_rsync_version((0, 0, 0));
    assert_eq!(s.rsync_status(), RsyncStatus::Missing);
}

#[test]
fn lines_are_logged_only_where_logging_is_on() {
    let mut s = Session::default();
    s.set_log_enabled(false);
    assert!(!s.log_enabled());
    assert_eq!(s.log_line(7, "hello"), None);
    s.set_log_enabled(true);
    assert!(s.log_enabled());
    assert_eq!(s.log_line(7, "hello").as_deref(), Some("7 hello\n"));
    s.set_verbose_log(true);
    assert!(s.verbose_log());
    assert_eq!(log_path(Some("/c")), "/c/lzsync/transfer.log");
    assert_eq!(log_path(None), "lzsync-transfer.log");
}

#[test]
fn quoted_words_are_read_back_by_a_shell() {
    for w in ["plain", "two words", "it's", "$HOME `x` \\ \"", "截图 1.png"] {
        let q = shell_single_quote(w);
        assert_eq!(shlex::split(&q), Some(vec![w.to_string()]));
    }
    assert_eq!(shell_single_quote("it's"), "'it'\\''s'");
}

#[test]
fn the_first_rsync_that_exists_is_taken() {
    let c = rsync_candidates(Some("/opt/x/lzsync"), Some("/home/u"));
    assert_eq!(c, vec!["/opt/x/lzsync-rsync", "/home/u/.local/share/lzsync/lzsync-rsync"]);
    assert_eq!(rsync_command(&c, &vec![false, false]), "rsync");
    assert_eq!(rsync_command(&c, &vec![false, true]), c[1]);
    assert_eq!(rsync_command(&c, &vec![true, true]), c[0]);
}

#[test]
fn new_transfers_wait() {
    let t = Transfer::new(3, &target(), "/l/a".to_string());
    assert_eq!(t.state, TransferState::Pending);
    assert_eq!(t.target_name, "dev");
    assert_eq!(t.source_watch, None);
    let t = Transfer::new_from_watch(4, &target(), "/l/a".to_string(), "shots".to_string());
    assert_eq!(t.source_watch.as_deref(), Some("shots"));
    assert_eq!(t.percent, 0);
}

#[test]
fn the_remote_directory_is_read_from_the_reply() {
    assert_eq!(prep_reply(true, " /home/u/uploads\n", ""), Ok("/home/u/uploads".to_string()));
    assert_eq!(
        prep_reply(false, "", "Permission denied\n"),
        Err("ssh remote prep failed: Permission denied".to_string())
    );
    assert_eq!(
        prep_reply(true, "\n", ""),
        Err("remote dir resolution returned empty".to_string())
    );
}

#[test]
fn a_name_that_is_taken_gets_a_free_one() {
    let args = check_collision(&target(), None, Some("shots"), "a.png");
    let script = args.last().unwrap();
    assert!(script.starts_with("d='~/uploads'; d=\"${d/#~/$HOME}\"; t=\"$d\"/'shots'; base='a.png'"));
    assert_eq!(collision_reply(true, "MISS\n", "", "a.png"), Ok((false, None)));
    assert_eq!(
        collision_reply(true, "HIT a-1.png\n", "", "a.png"),
        Ok((true, Some("a-1.png".to_string())))
    );
    assert_eq!(
        collision_reply(true, "what?", "", "a.png"),
        Ok((true, Some("a.png.new".to_string())))
    );
    assert_eq!(
        collision_reply(false, "", "no route", "a.png"),
        Err("ssh collision check failed: no route".to_string())
    );
}

#[test]
fn preflights_say_what_is_missing() {
    assert_eq!(preflight_reply(true, true, ""), Ok(()));
    assert_eq!(
        preflight_reply(false, true, ""),
        Err("rsync not installed locally".to_string())
    );
    assert_eq!(preflight_reply(true, false, " oh\n"), Err("ssh unreachable: oh".to_string()));
    assert_eq!(preflight_full_reply(true, Some(0), ""), Ok(()));
    assert_eq!(
        preflight_full_reply(true, Some(66), ""),
        Err("rsync not found on remote".to_string())
    );
    assert_eq!(
        preflight_full_reply(true, Some(255), "ssh: no"),
        Err("ssh unreachable: ssh: no".to_string())
    );
    assert_eq!(preflight_full_reply(true, None, " "), Err("ssh unreachable".to_string()));
    assert_eq!(
        preflight_full_reply(false, Some(0), ""),
        Err("rsync not installed locally".to_string())
    );
    let args = preflight(&target(), None);
    assert_eq!(args.last().map(|s| s.as_str()), Some("true"));
    assert!(args.contains(&"ubuntu@dev.example.com".to_string()));
    assert!(preflight_full(&target(), Some("/k")).contains(&"/k".to_string()));
    assert!(remote_install_rsync(&target(), None).last().unwrap().contains("apt-get"));
    assert_eq!(install_reply(true, ""), Ok(()));
    assert_eq!(install_reply(false, "sudo: no\n"), Err("sudo: no".to_string()));
}

#[test]
fn rsync_is_told_where_to_send_the_file() {
    assert_eq!(
        build_rsync_args(&target(), Some("/k"), "/l/a.png", "/home/u/uploads", None, flags(true, false)),
        vec![
            "--info=progress2",
            "--partial",
            "-r",
            "-e",
            "ssh -p 22 -i /k -o BatchMode=no -o StrictHostKeyChecking=accept-new",
            "/l/a.png",
            "ubuntu@dev.example.com:/home/u/uploads/",
        ]
    );
    let args = build_rsync_args(&target(), None, "/l/a.png", "/r", Some("b.png"), flags(false, true));
    assert_eq!(args[0], "--progress");
    assert_eq!(args[3], "--iconv=utf-8-mac,utf-8");
    assert_eq!(args.last().map(|s| s.as_str()), Some("ubuntu@dev.example.com:/r/b.png"));
}

#[test]
fn exit_codes_are_explained() {
    assert_eq!(explain_rsync_exit(1), "syntax or usage error (wrong rsync option?)");
    assert_eq!(explain_rsync_exit(23), "partial transfer (some files could not be copied)");
    assert_eq!(explain_rsync_exit(99), "see above");
    assert_eq!(
        explain_failure(23, ""),
        "rsync exit 23: partial transfer (some files could not be copied)"
    );
    assert_eq!(explain_failure(12, "one\ntwo\n\n"), "rsync exit 12: two");
    assert_eq!(explain_failure(-1, ""), "rsync exit -1: see above");
}

#[test]
fn progress_is_read_the_same_however_it_is_cut() {
    let text = b"  100  10%  1.00KB/s 0:00:02\r  1,000 100%  2.00KB/s 0:00:00\nsent\n".to_vec();
    let mut whole = ProgressReader::new(1);
    let mut all = whole.read(&text);
    all.extend(whole.finish());
    let mut bits = ProgressReader::new(1);
    let mut some = Vec::new();
    for b in &text {
        some.extend(bits.read(&vec![*b]));
    }
    some.extend(bits.finish());
    assert_eq!(format!("{all:?}"), format!("{some:?}"));
    let percents: Vec<u8> = all
        .iter()
        .filter_map(|e| match e {
            TransferEvent::Progress { percent, .. } => Some(*percent),
            _ => None,
        })
        .collect();
    assert_eq!(percents, vec![10, 100]);
}

#[test]
fn bytes_that_are_no_text_are_replaced() {
    let mut r = ProgressReader::new(1);
    let events = r.read(&vec![b'a', 0xff, b'\n']);
    match &events[0] {
        TransferEvent::Line { line, .. } => assert_eq!(line, "a\u{fffd}"),
        other => panic!("expected a line, got {other:?}"),
    }
    assert_eq!(verbose_line(&events[0]).as_deref(), Some("id=1 stdout a\u{fffd}"));
}

fn prepared(dir: &str) -> RunInput {
    RunInput::Prepared {
        success: true,
        stdout: format!("{dir}\n"),
        stderr: String::new(),
    }
}

#[test]
fn a_run_goes_from_the_directory_to_rsync_to_the_end() {
    let mut r = spawn(9, target(), "/l/a.png".to_string(), None, flags(true, false), Some("/home/u"));
    let out = r.step(RunInput::Begin, false);
    assert!(matches!(out.events[0], TransferEvent::Started { id: 9, .. }));
    assert!(matches!(out.action, RunAction::Prepare(_)));
    assert_eq!(out.log, vec!["id=9 target=dev local=/l/a.png subdir= START"]);
    let out = r.step(prepared("/home/u/uploads"), false);
    assert!(matches!(out.action, RunAction::Rsync(_)));
    let out = r.step(RunInput::Exited { success: true, code: Some(0) }, false);
    assert!(matches!(out.action, RunAction::End));
    match &out.events[0] {
        TransferEvent::Completed { id, remote_abs_dir } => {
            assert_eq!(*id, 9);
            assert_eq!(remote_abs_dir, "/home/u/uploads");
        }
        other => panic!("expected the end, got {other:?}"),
    }
}

fn error_of(e: &TransferEvent) -> String {
    match e {
        TransferEvent::Failed { error, .. } => error.clone(),
        other => panic!("expected a failure, got {other:?}"),
    }
}

#[test]
fn a_failed_run_says_why() {
    let mut r = spawn_with_rename(
        2,
        target(),
        "/l/a.png".to_string(),
        Some("shots".to_string()),
        "b.png".to_string(),
        true,
        None,
    );
    r.step(RunInput::Begin, true);
    r.step(prepared("/r"), true);
    r.step(RunInput::StderrLine("rsync: no space left".to_string()), true);
    let out = r.step(RunInput::Exited { success: false, code: Some(11) }, true);
    assert_eq!(error_of(&out.events[0]), "rsync exit 11: rsync: no space left");
    let mut r = spawn(3, target(), "/l/a.png".to_string(), None, flags(true, false), Some("/home/u"));
    r.step(RunInput::Begin, false);
    let out = r.step(RunInput::PrepNotRun("no ssh".to_string()), false);
    assert_eq!(
        error_of(&out.events[0]),
        "resolving remote dir for target 'dev': ssh mkdir -p: no ssh"
    );
    let mut r = spawn(4, target(), "/l/a.png".to_string(), None, flags(true, false), Some("/home/u"));
    r.step(RunInput::Begin, false);
    r.step(prepared("/r"), false);
    let out = r.step(RunInput::RsyncNotRun("gone".to_string()), false);
    assert_eq!(error_of(&out.events[0]), "spawning rsync: gone");
}

#[test]
fn a_key_is_expanded_before_it_is_used() {
    let mut t = target();
    t.ssh_key = Some("~/.ssh/k".to_string());
    let mut r = spawn(1, t, "/l/a".to_string(), None, flags(true, false), Some("/home/u"));
    let out = r.step(RunInput::Begin, false);
    match out.action {
        RunAction::Prepare(args) => {
            assert!(args.contains(&"/home/u/.ssh/k".to_string()));
            assert!(!args.contains(&"~/.ssh/k".to_string()));
        }
        other => panic!("expected ssh, got {other:?}"),
    }
}
