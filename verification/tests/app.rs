use lzsync::app::edit::wrap_step;
use lzsync::app::types::{
    ActivityRef, App, AppEvent, Effect, Focus, HelpBarAction, HistoryNote, Key, KeyCode,
    MenuAction, ModalHit, Mouse, Rect, Tab, TargetKind, TargetStatus, UpdateStatus,
    WatchUiStatus,
};
use lzsync::app::types::{preflight_status, rect_contains};
use lzsync::config::Config;
use lzsync::environment::Environment;
use lzsync::history::HistoryStore;
use lzsync::ssh_config::SshHost;
use lzsync::target::{
    CatchupMode, ClipboardFormat, ConflictAction, Group, SyncMode, Target, WatchConfig,
};
use lzsync::transfer::{TransferEvent, TransferState};
use lzsync::watch::WatchEvent;

fn machine() -> Environment {
    Environment { home: Some("/home/u".to_string()), vars: Vec::new() }
}

fn target(name: &str) -> Target {
    Target {
        name: name.to_string(),
        host: format!("{name}.example.com"),
        user: Some("u".to_string()),
        remote_dir: "/up".to_string(),
        ssh_port: None,
        ssh_key: None,
        clipboard_format: None,
    }
}

fn config(targets: &[&str]) -> Config {
    let mut cfg = Config::default();
    for t in targets {
        cfg.targets.push(target(t));
    }
    cfg
}

fn app(targets: &[&str]) -> App {
    App::new(config(targets), HistoryStore::load_from("/h".to_string(), Vec::new()), machine())
}

fn key(code: KeyCode) -> AppEvent {
    AppEvent::Key(Key { code, ctrl: false, pressed: true })
}

fn ctrl(c: char) -> AppEvent {
    AppEvent::Key(Key { code: KeyCode::Char(c), ctrl: true, pressed: true })
}

fn toast(app: &App) -> String {
    match &app.toast {
        Some(t) => t.text.clone(),
        None => String::new(),
    }
}

/// The files and targets of the transfers that are to be started.
fn started(app: &App) -> Vec<(String, String)> {
    app.outbox
        .iter()
        .filter_map(|e| match e {
            Effect::StartTransfer { target, local, .. } => {
                Some((local.clone(), target.name.clone()))
            }
            _ => None,
        })
        .collect()
}

fn paste(app: &mut App, text: &str) {
    app.handle_event(AppEvent::Paste(text.to_string()), 0);
    let paths = match app.outbox.pop() {
        Some(Effect::CheckPaths { paths }) => paths,
        other => panic!("expected a question, got {other:?}"),
    };
    let exists = paths.iter().map(|p| !p.contains("missing")).collect();
    app.handle_event(AppEvent::PathsChecked { paths, exists }, 0);
}

#[test]
fn the_first_row_or_the_default_is_selected() {
    let a = app(&["a", "b"]);
    assert!(a.target_rows[0].selected);
    assert!(!a.target_rows[1].selected);
    assert_eq!(a.target_rows[0].summary, "u@a.example.com:/up");
    let mut cfg = config(&["a", "b"]);
    cfg.default_target = Some("b".to_string());
    cfg.groups.push(Group {
        name: "g".to_string(),
        targets: vec!["a".to_string(), "b".to_string()],
        primary: None,
    });
    let a = App::new(cfg, HistoryStore::load_from("/h".to_string(), Vec::new()), machine());
    assert!(a.target_rows[1].selected);
    assert_eq!(a.target_rows[2].kind, TargetKind::Group);
    assert_eq!(a.target_rows[2].summary, "group → a + b");
}

#[test]
fn a_pasted_file_is_sent_and_its_path_copied() {
    let mut a = app(&["dev"]);
    paste(&mut a, "/l/shot.png");
    assert_eq!(started(&a), vec![("/l/shot.png".to_string(), "dev".to_string())]);
    assert_eq!(toast(&a), "sync 1 file(s) → 1 target(s)");
    assert!(a.queue.is_empty());
    let id = a.transfers[0].id;
    a.outbox.clear();
    a.handle_event(
        AppEvent::TransferUpdate(TransferEvent::Completed {
            id,
            remote_abs_dir: "/home/u/up".to_string(),
        }),
        0,
    );
    assert_eq!(a.transfers[0].state, TransferState::Completed);
    assert_eq!(a.outbox.len(), 2);
    assert!(matches!(&a.outbox[0], Effect::RecordHistory { local, .. } if local == "/l/shot.png"));
    match &a.outbox[1] {
        Effect::WriteClipboard { text, remote_path } => {
            assert_eq!(text, "/home/u/up/shot.png");
            assert_eq!(remote_path.as_deref(), Some("/home/u/up/shot.png"));
        }
        other => panic!("expected the clipboard, got {other:?}"),
    }
    a.handle_event(
        AppEvent::ClipboardWritten {
            text: "/home/u/up/shot.png".to_string(),
            remote_path: Some("/home/u/up/shot.png".to_string()),
            result: Ok(()),
        },
        0,
    );
    assert_eq!(toast(&a), "clipboard ← /home/u/up/shot.png");
    assert_eq!(a.last_copied_remote.as_deref(), Some("/home/u/up/shot.png"));
    a.handle_event(
        AppEvent::HistoryWritten(HistoryNote {
            target_name: "dev".to_string(),
            local: "/l/shot.png".to_string(),
            remote_abs_dir: "/home/u/up".to_string(),
            source_watch: None,
            canonical: None,
            size: 5,
            synced_at: 9,
            written: Ok(()),
        }),
        0,
    );
    assert_eq!(a.history.entries[0].remote_path, "/home/u/up/shot.png");
    assert_eq!(a.history.entries[0].target_host, "u@dev.example.com");
    assert_eq!(a.activity_row_refs(), vec![ActivityRef::History(0)]);
}

#[test]
fn in_manual_mode_files_wait_for_enter() {
    let mut a = app(&["dev"]);
    a.handle_event(ctrl('n'), 0);
    assert_eq!(a.mode, SyncMode::Manual);
    assert_eq!(toast(&a), "mode: manual");
    a.outbox.clear();
    paste(&mut a, "/l/a /l/missing");
    assert!(started(&a).is_empty());
    assert_eq!(a.queue, vec!["/l/a"]);
    assert_eq!(a.last_paste_error.as_deref(), Some("1 path(s) not found"));
    a.handle_event(key(KeyCode::Enter), 0);
    assert_eq!(started(&a).len(), 1);
}

#[test]
fn a_pasted_tilde_is_the_home_directory() {
    let mut a = app(&["a"]);
    a.handle_event(AppEvent::Paste("~/x.png $NONE/y".to_string()), 0);
    match &a.outbox[..] {
        [Effect::CheckPaths { paths }] => assert_eq!(paths, &vec!["/home/u/x.png", "$NONE/y"]),
        other => panic!("expected a question, got {other:?}"),
    }
}

#[test]
fn pastes_that_name_nothing_are_refused() {
    let mut a = app(&["dev"]);
    a.handle_event(AppEvent::Paste("  ".to_string()), 0);
    assert_eq!(a.last_paste_error.as_deref(), Some("empty paste"));
    assert!(a.outbox.is_empty());
    paste(&mut a, "/l/missing1 /l/missing2");
    assert_eq!(
        a.last_paste_error.as_deref(),
        Some("no valid path: /l/missing1, /l/missing2")
    );
}

#[test]
fn unreachable_targets_are_left_out() {
    let mut a = app(&["a", "b"]);
    a.target_rows[1].selected = true;
    a.handle_event(
        AppEvent::PreflightResult {
            target_name: "a".to_string(),
            status: TargetStatus::Unreachable("gone".to_string()),
        },
        0,
    );
    a.queue.push("/l/x".to_string());
    a.handle_event(key(KeyCode::Enter), 0);
    assert_eq!(started(&a), vec![("/l/x".to_string(), "b".to_string())]);
    assert_eq!(toast(&a), "sync 1 file(s) → b (skipped a)");
    a.target_rows[1].status = TargetStatus::Unreachable("gone too".to_string());
    a.queue.push("/l/y".to_string());
    a.handle_event(key(KeyCode::Enter), 0);
    assert_eq!(toast(&a), "all selected targets unreachable (a, b)");
    assert_eq!(a.queue.len(), 1);
}

#[test]
fn there_is_nothing_to_send_without_files_or_targets() {
    let mut a = app(&["a"]);
    a.handle_event(key(KeyCode::Enter), 0);
    assert_eq!(toast(&a), "queue is empty");
    a.queue.push("/l/x".to_string());
    a.target_rows[0].selected = false;
    a.handle_event(key(KeyCode::Enter), 0);
    assert_eq!(toast(&a), "no target selected");
}

#[test]
fn ctrl_c_quits_through_everything() {
    let mut a = app(&["a"]);
    a.update_status = UpdateStatus::Available("9".to_string());
    a.menu_visible = true;
    a.handle_event(ctrl('c'), 0);
    assert!(a.should_quit);
}

#[test]
fn dragged_characters_do_nothing_in_the_drop_zone() {
    let mut a = app(&["a"]);
    for c in "/home/q 1jk2?".chars() {
        a.handle_event(key(KeyCode::Char(c)), 0);
    }
    assert!(!a.should_quit);
    assert_eq!(a.current_tab, Tab::Drop);
    assert!(a.target_rows[0].selected);
    assert!(a.outbox.is_empty());
}

#[test]
fn a_path_typed_key_by_key_counts_as_pasted() {
    let mut typed = app(&["dev"]);
    let path = "/tmp/a b.txt".replace(' ', "\\ ");
    let mut now = 1_000;
    for c in path.chars() {
        typed.handle_event(key(KeyCode::Char(c)), now);
        now += 3;
        typed.tick(now);
    }
    let last = now - 3;
    assert_eq!(typed.typed, path);
    assert_eq!(typed.outbox.len(), 0);
    typed.tick(last + 119);
    assert_eq!(typed.outbox.len(), 0);
    typed.tick(last + 120);
    assert_eq!(typed.typed, "");
    assert!(matches!(&typed.outbox[0], Effect::CheckPaths { paths } if *paths == ["/tmp/a b.txt"]));
    typed.tick(last + 500);
    assert_eq!(typed.outbox.len(), 1);
}

#[test]
fn released_keys_are_ignored() {
    let mut a = app(&["a"]);
    a.handle_event(
        AppEvent::Key(Key { code: KeyCode::Char('q'), ctrl: true, pressed: false }),
        0,
    );
    assert!(!a.should_quit);
}

#[test]
fn focus_goes_round() {
    let mut a = app(&["a"]);
    for want in [Focus::Targets, Focus::Progress, Focus::DropZone] {
        a.handle_event(key(KeyCode::Tab), 0);
        assert_eq!(a.focus, want);
    }
    a.handle_event(key(KeyCode::BackTab), 0);
    assert_eq!(a.focus, Focus::Progress);
}

#[test]
fn tabs_are_switched() {
    let mut a = app(&["a"]);
    a.handle_event(ctrl('2'), 0);
    assert_eq!(a.current_tab, Tab::Watch);
    assert_eq!(a.focus, Focus::Watches);
    a.handle_event(key(KeyCode::Char('1')), 0);
    assert_eq!(a.current_tab, Tab::Drop);
    assert_eq!(a.focus, Focus::DropZone);
}

#[test]
fn digits_and_space_toggle_targets() {
    let mut a = app(&["a", "b"]);
    a.handle_event(key(KeyCode::Tab), 0);
    a.handle_event(key(KeyCode::Char('2')), 0);
    assert!(a.target_rows[1].selected);
    assert_eq!(a.target_cursor, 1);
    a.handle_event(key(KeyCode::Char(' ')), 0);
    assert!(!a.target_rows[1].selected);
    a.handle_event(key(KeyCode::Char('9')), 0);
    assert_eq!(a.target_cursor, 1);
    a.handle_event(key(KeyCode::Char('k')), 0);
    assert_eq!(a.target_cursor, 0);
    a.handle_event(key(KeyCode::Up), 0);
    assert_eq!(a.target_cursor, 1);
}

#[test]
fn cursors_wrap_around() {
    assert_eq!(wrap_step(0, -1, 5), 4);
    assert_eq!(wrap_step(4, 1, 5), 0);
    assert_eq!(wrap_step(2, -7, 5), 0);
    assert_eq!(wrap_step(9, 0, 5), 4);
}

#[test]
fn a_queued_file_can_be_removed() {
    let mut a = app(&["a"]);
    a.queue = vec!["/x".to_string(), "/y".to_string()];
    a.queue_cursor = 1;
    a.handle_event(key(KeyCode::Backspace), 0);
    assert_eq!(a.queue, vec!["/x"]);
    assert_eq!(a.queue_cursor, 0);
    a.handle_event(key(KeyCode::Delete), 0);
    a.handle_event(key(KeyCode::Delete), 0);
    assert!(a.queue.is_empty());
}

#[test]
fn themes_and_formats_go_round() {
    let mut a = app(&["a"]);
    let mut seen = Vec::new();
    for _ in 0..5 {
        a.handle_event(ctrl('t'), 0);
        seen.push(a.cfg.theme.clone());
    }
    assert_eq!(seen, vec!["tokyo_night", "gruvbox", "nord", "dracula", "mocha"]);
    assert!(a.outbox.iter().all(|e| matches!(e, Effect::SaveConfig { .. })));
    for want in [
        ClipboardFormat::ScpStyle,
        ClipboardFormat::SshPath,
        ClipboardFormat::Custom,
        ClipboardFormat::RemotePath,
    ] {
        a.handle_event(ctrl('f'), 0);
        assert_eq!(a.clipboard_format, want);
        assert_eq!(a.cfg.clipboard_format, want);
    }
    assert_eq!(toast(&a), "clipboard: RemotePath");
}

#[test]
fn what_came_of_saving_is_shown() {
    let mut a = app(&["a"]);
    a.handle_event(
        AppEvent::ConfigSaved {
            result: Ok("/c/lzsync/config.toml".to_string()),
            then_toast: None,
        },
        0,
    );
    assert_eq!(toast(&a), "saved config.toml");
    a.handle_event(
        AppEvent::ConfigSaved { result: Err("full".to_string()), then_toast: None },
        0,
    );
    assert_eq!(toast(&a), "save failed: full");
    a.handle_event(
        AppEvent::ConfigSaved {
            result: Ok("/c".to_string()),
            then_toast: Some("added target: x".to_string()),
        },
        0,
    );
    assert_eq!(toast(&a), "added target: x");
}

#[test]
fn toasts_fade_after_four_seconds() {
    let mut a = app(&["a"]);
    a.handle_event(AppEvent::RsyncVersionWarning("old".to_string()), 1_000);
    a.tick(5_000);
    assert_eq!(toast(&a), "old");
    a.tick(5_001);
    assert!(a.toast.is_none());
}

#[test]
fn an_old_or_missing_rsync_is_complained_about() {
    let mut a = app(&["a"]);
    a.spawn_rsync_version_check();
    assert!(matches!(a.outbox[0], Effect::ProbeRsync));
    a.handle_event(AppEvent::RsyncVersion((3, 2, 0)), 0);
    assert_eq!(toast(&a), "");
    a.handle_event(AppEvent::RsyncVersion((2, 6, 9)), 0);
    assert_eq!(toast(&a), "local rsync is v2.6 (old); upgrade: brew install rsync");
    a.handle_event(AppEvent::RsyncVersion((0, 0, 0)), 0);
    assert_eq!(toast(&a), "rsync not found locally — install it: brew install rsync");
}

#[test]
fn hosts_can_be_picked_and_removed() {
    let mut a = app(&[]);
    a.run_menu_action(MenuAction::AddTargetFromSsh, 0);
    assert!(matches!(a.outbox.pop(), Some(Effect::LoadSshHosts)));
    let host = |n: &str| SshHost {
        name: n.to_string(),
        hostname: None,
        user: None,
        port: None,
        identity_file: None,
    };
    a.handle_event(AppEvent::SshHosts(vec![host("x"), host("y")]), 0);
    assert_eq!(a.ssh_picker.as_ref().map(|p| p.list.len()), Some(2));
    a.handle_event(key(KeyCode::Down), 0);
    a.handle_event(key(KeyCode::Enter), 0);
    assert!(a.ssh_picker.is_none());
    assert_eq!(a.cfg.targets[0].name, "y");
    assert_eq!(a.cfg.default_target.as_deref(), Some("y"));
    assert!(a.target_rows[0].selected);
    assert!(matches!(a.outbox[0], Effect::SaveConfig { .. }));
    assert!(matches!(a.outbox[1], Effect::Preflight { .. }));
    // A host that is a target already is not offered again.
    a.handle_event(AppEvent::SshHosts(vec![host("y")]), 0);
    assert_eq!(toast(&a), "no SSH hosts found (or all already added)");
    a.run_menu_action(MenuAction::RemoveCurrentTarget, 0);
    assert!(a.cfg.targets.is_empty());
    assert_eq!(a.cfg.default_target, None);
    assert!(a.target_rows.is_empty());
}

#[test]
fn the_menu_is_run_by_key_and_click() {
    let mut a = app(&["a"]);
    a.handle_event(ctrl('p'), 0);
    assert!(a.menu_visible);
    a.handle_event(key(KeyCode::Up), 0);
    assert_eq!(a.menu_cursor, 11);
    a.handle_event(key(KeyCode::Enter), 0);
    assert!(a.should_quit);
    assert!(!a.menu_visible);
    a.queue.push("/x".to_string());
    a.handle_event(ctrl('p'), 0);
    a.handle_event(key(KeyCode::Char('9')), 0);
    assert_eq!(toast(&a), "cleared 1 queued");
    a.handle_event(ctrl('p'), 0);
    a.hit_regions.menu_rows =
        vec![(Rect { x: 1, y: 1, width: 5, height: 1 }, MenuAction::ReprobeTargets)];
    a.handle_event(AppEvent::Mouse(Mouse::LeftDown { x: 3, y: 1 }), 0);
    assert_eq!(toast(&a), "re-probing targets…");
    assert_eq!(a.target_rows[0].status, TargetStatus::Probing);
    a.run_menu_action(MenuAction::ClearProgressHistory, 0);
    assert_eq!(toast(&a), "cleared 0 transfer(s)");
    a.run_menu_action(MenuAction::InstallRsyncOnSelected, 0);
    assert_eq!(toast(&a), "installing rsync on a…");
    assert_eq!(MenuAction::all().len(), 12);
    assert_eq!(MenuAction::Quit.label(), "Quit");
    assert_eq!(MenuAction::ToggleMode.shortcut(), "^A / ^N");
}

#[test]
fn installing_rsync_is_followed_up() {
    let mut a = app(&["a"]);
    a.handle_event(
        AppEvent::RemoteInstallResult { target_name: "a".to_string(), result: Ok(()) },
        0,
    );
    assert_eq!(toast(&a), "installed rsync on a");
    assert!(matches!(a.outbox[0], Effect::Preflight { after_install: true, .. }));
    a.handle_event(
        AppEvent::RemoteInstallResult {
            target_name: "a".to_string(),
            result: Err("sudo".to_string()),
        },
        0,
    );
    assert_eq!(toast(&a), "install failed: sudo");
    assert_eq!(a.target_rows[0].status, TargetStatus::NoRsync);
}

#[test]
fn preflights_tell_a_missing_rsync_apart() {
    let e = || Err("x: rsync not found on remote".to_string());
    assert_eq!(preflight_status(Ok(()), false), TargetStatus::Reachable);
    assert_eq!(preflight_status(e(), false), TargetStatus::NoRsync);
    assert_eq!(
        preflight_status(e(), true),
        TargetStatus::Unreachable("x: rsync not found on remote".to_string())
    );
}

#[test]
fn updates_are_offered_and_installed() {
    let mut a = app(&["a"]);
    a.handle_event(ctrl('u'), 0);
    assert_eq!(a.update_status, UpdateStatus::Checking);
    a.handle_event(ctrl('u'), 0);
    assert_eq!(a.outbox.len(), 1);
    a.handle_event(AppEvent::UpdateCheckResult(Ok(None)), 0);
    assert_eq!(toast(&a), "up to date (v0.4.0)");
    a.handle_event(AppEvent::UpdateCheckResult(Ok(Some("9.9.9".to_string()))), 0);
    a.handle_event(key(KeyCode::Char('y')), 0);
    assert_eq!(a.update_status, UpdateStatus::Installing("9.9.9".to_string()));
    assert!(matches!(a.outbox.last(), Some(Effect::InstallUpdate { .. })));
    a.handle_event(AppEvent::UpdateInstallResult(Ok(vec!["/x".to_string()])), 0);
    assert_eq!(a.update_status, UpdateStatus::Installed(vec!["/x".to_string()]));
    a.handle_event(key(KeyCode::Char('z')), 0);
    assert_eq!(a.update_status, UpdateStatus::Idle);
    a.handle_event(AppEvent::UpdateCheckResult(Err("offline".to_string())), 0);
    assert_eq!(a.update_status, UpdateStatus::Failed("offline".to_string()));
}

#[test]
fn the_update_box_can_be_clicked() {
    let mut a = app(&["a"]);
    let area = Rect { x: 0, y: 0, width: 20, height: 10 };
    let yes = Rect { x: 2, y: 8, width: 4, height: 1 };
    a.update_status = UpdateStatus::Available("9".to_string());
    a.hit_regions.modal_area = Some(area);
    a.hit_regions.modal_hits = vec![(yes, ModalHit::Confirm)];
    a.handle_event(AppEvent::Mouse(Mouse::LeftDown { x: 3, y: 8 }), 0);
    assert_eq!(a.update_status, UpdateStatus::Installing("9".to_string()));
    a.update_status = UpdateStatus::Failed("x".to_string());
    a.hit_regions.modal_hits.clear();
    a.handle_event(AppEvent::Mouse(Mouse::LeftDown { x: 0, y: 0 }), 0);
    assert_eq!(a.update_status, UpdateStatus::Idle);
}

#[test]
fn any_click_dismisses_the_help() {
    let mut a = app(&["a"]);
    a.help_visible = true;
    a.hit_regions.modal_area = Some(Rect { x: 0, y: 0, width: 100, height: 30 });
    a.handle_event(AppEvent::Mouse(Mouse::LeftDown { x: 5, y: 5 }), 0);
    assert!(!a.help_visible);
}

#[test]
fn clicks_on_targets_depend_on_their_state() {
    let mut a = app(&["a", "b", "c"]);
    let row = |y: u16| Rect { x: 0, y, width: 10, height: 1 };
    a.hit_regions.target_rows = vec![row(0), row(1), row(2)];
    a.target_rows[0].status = TargetStatus::NoRsync;
    a.target_rows[1].status = TargetStatus::Unreachable("  why  \nmore".to_string());
    let click = |y: u16| AppEvent::Mouse(Mouse::LeftDown { x: 1, y });
    a.handle_event(click(0), 0);
    assert_eq!(toast(&a), "installing rsync on a…");
    a.handle_event(click(1), 0);
    assert_eq!(toast(&a), "why");
    a.handle_event(click(2), 0);
    assert!(a.target_rows[2].selected);
    assert_eq!(a.focus, Focus::Targets);
}

#[test]
fn clicks_on_queue_activity_chips_and_panels() {
    let mut a = app(&["a"]);
    a.queue = vec!["/x".to_string(), "/y".to_string()];
    let r = |y: u16| Rect { x: 0, y, width: 10, height: 1 };
    a.hit_regions.queue_rows = vec![r(0), r(1)];
    a.hit_regions.activity_rows = vec![(r(2), 3, ActivityRef::Live(99))];
    a.hit_regions.help_bar_hits = vec![(r(4), HelpBarAction::CycleMode)];
    a.hit_regions.progress_panel = r(5);
    let click = |y: u16| AppEvent::Mouse(Mouse::LeftDown { x: 1, y });
    a.handle_event(click(1), 0);
    assert_eq!(a.queue_cursor, 1);
    a.handle_event(click(2), 0);
    assert_eq!(a.focus, Focus::Progress);
    assert_eq!(a.activity_cursor, 3);
    a.handle_event(click(4), 0);
    assert_eq!(a.mode, SyncMode::Manual);
    a.focus = Focus::DropZone;
    a.handle_event(click(5), 0);
    assert_eq!(a.focus, Focus::Progress);
    a.focus = Focus::DropZone;
    a.handle_event(AppEvent::Mouse(Mouse::ScrollDown), 0);
    assert_eq!(a.queue_cursor, 0);
    let corner = Rect { x: 65_530, y: 0, width: 100, height: 1 };
    assert!(rect_contains(corner, 65_535, 0));
    assert!(!rect_contains(corner, 0, 0));
}

#[test]
fn the_activity_filter_takes_text() {
    let mut a = app(&["a"]);
    a.focus = Focus::Progress;
    a.handle_event(ctrl('f'), 0);
    assert_eq!(a.activity_filter.as_deref(), Some(""));
    for c in "sho1".chars() {
        a.handle_event(key(KeyCode::Char(c)), 0);
    }
    a.handle_event(key(KeyCode::Backspace), 0);
    assert_eq!(a.activity_query(), "sho");
    a.activity_filter = Some("  FoO ".to_string());
    assert_eq!(a.activity_query(), "foo");
    a.handle_event(key(KeyCode::Esc), 0);
    assert_eq!(a.activity_filter, None);
    assert_eq!(a.activity_query(), "");
}

#[test]
fn failed_transfers_are_shown() {
    let mut a = app(&["dev"]);
    paste(&mut a, "/l/a");
    let id = a.transfers[0].id;
    a.handle_event(
        AppEvent::TransferUpdate(TransferEvent::Progress {
            id,
            bytes: 5,
            percent: 40,
            rate: "1KB/s".to_string(),
        }),
        0,
    );
    assert_eq!(a.transfers[0].percent, 40);
    a.focus = Focus::Progress;
    a.handle_event(key(KeyCode::Enter), 0);
    assert_eq!(toast(&a), "transfer not completed yet");
    a.handle_event(
        AppEvent::TransferUpdate(TransferEvent::Failed { id, error: "boom".to_string() }),
        0,
    );
    assert_eq!(toast(&a), "transfer failed: boom");
    assert_eq!(a.transfers[0].state, TransferState::Failed);
}

fn watching(mode: SyncMode) -> App {
    let mut cfg = config(&["a", "b"]);
    cfg.default_mode = mode;
    cfg.groups.push(Group {
        name: "g".to_string(),
        targets: vec!["a".to_string(), "b".to_string()],
        primary: None,
    });
    cfg.watches.push(WatchConfig {
        name: "shots".to_string(),
        path: "~/Desktop".to_string(),
        targets: vec!["a".to_string(), "g".to_string()],
        patterns: Vec::new(),
        catchup: CatchupMode::Prompt,
        enabled: true,
        debounce_ms: 500,
        recursive: false,
        on_conflict: ConflictAction::Rename,
    });
    App::new(cfg, HistoryStore::load_from("/h".to_string(), Vec::new()), machine())
}

fn new_file(path: &str) -> AppEvent {
    AppEvent::Watch(WatchEvent::NewFile {
        watch_name: "shots".to_string(),
        path: path.to_string(),
        size: 1,
    })
}

#[test]
fn watched_files_go_to_the_watchs_targets() {
    let mut a = watching(SyncMode::Auto);
    a.handle_event(new_file("/d/x.png"), 7);
    assert_eq!(
        started(&a),
        vec![
            ("/d/x.png".to_string(), "a".to_string()),
            ("/d/x.png".to_string(), "b".to_string()),
        ]
    );
    assert!(matches!(
        &a.outbox[0],
        Effect::StartTransfer { subdir: Some(s), .. } if s == "shots"
    ));
    assert_eq!(a.watches[0].synced_count, 1);
    assert_eq!(a.watch_recent[0].file_display, "x.png");
    assert_eq!(a.transfers[0].source_watch.as_deref(), Some("shots"));
}

#[test]
fn in_manual_mode_watched_files_wait_for_a_catchup() {
    let mut a = watching(SyncMode::Manual);
    a.handle_event(new_file("/d/x.png"), 0);
    a.handle_event(
        AppEvent::Watch(WatchEvent::CatchupDetected {
            watch_name: "shots".to_string(),
            paths: vec!["/d/x.png".to_string(), "/d/y.png".to_string()],
        }),
        0,
    );
    assert!(started(&a).is_empty());
    assert_eq!(a.watches[0].pending_catchup, vec!["/d/x.png", "/d/y.png"]);
    a.handle_event(ctrl('2'), 0);
    a.handle_event(key(KeyCode::Char('r')), 0);
    assert_eq!(started(&a).len(), 4);
    assert_eq!(toast(&a), "catching up on 2 file(s)");
    assert!(a.watches[0].pending_catchup.is_empty());
    a.handle_event(key(KeyCode::Enter), 0);
    assert_eq!(toast(&a), "nothing to catch up on");
}

#[test]
fn watches_are_started_and_stopped() {
    let mut a = watching(SyncMode::Auto);
    a.start_enabled_watches();
    assert_eq!(a.watches[0].status, WatchUiStatus::Starting);
    assert!(matches!(&a.outbox[0], Effect::StartWatch { name } if name == "shots"));
    let name = || "shots".to_string();
    a.handle_event(AppEvent::WatchStarted { name: name() }, 0);
    assert_eq!(a.watches[0].status, WatchUiStatus::Running);
    a.handle_event(ctrl('2'), 0);
    a.handle_event(key(KeyCode::Char(' ')), 0);
    assert_eq!(a.watches[0].status, WatchUiStatus::Off);
    assert!(matches!(a.outbox.last(), Some(Effect::StopWatch { .. })));
    a.handle_event(AppEvent::WatchLocked { name: name(), pid: 5 }, 0);
    assert_eq!(a.watches[0].status, WatchUiStatus::LockedByOther(5));
    a.handle_event(AppEvent::WatchFailed { name: name(), error: "x".to_string() }, 0);
    assert_eq!(a.watches[0].status, WatchUiStatus::Error("x".to_string()));
    a.handle_event(AppEvent::Watch(WatchEvent::Stopped { watch_name: name() }), 0);
    assert_eq!(a.watches[0].status, WatchUiStatus::Off);
    a.handle_event(
        AppEvent::Watch(WatchEvent::LockLost { watch_name: name(), reason: "gone".to_string() }),
        0,
    );
    assert_eq!(a.watches[0].status, WatchUiStatus::Error("gone".to_string()));
}

fn type_text(a: &mut App, text: &str) {
    for c in text.chars() {
        a.handle_event(key(KeyCode::Char(c)), 0);
    }
}

/// The messages that are to follow the saving of the configuration.
fn saved(a: &App) -> Vec<String> {
    a.outbox
        .iter()
        .filter_map(|e| match e {
            Effect::SaveConfig { then_toast } => then_toast.clone(),
            _ => None,
        })
        .collect()
}

#[test]
fn a_watched_folder_is_added_by_a_form() {
    let mut a = watching(SyncMode::Auto);
    a.handle_event(ctrl('2'), 0);
    type_text(&mut a, "a");
    type_text(&mut a, "shotx");
    a.handle_event(key(KeyCode::Backspace), 0);
    type_text(&mut a, "s");
    a.handle_event(key(KeyCode::Enter), 0);
    assert_eq!(toast(&a), "watch 'shots' missing path");
    a.handle_event(key(KeyCode::Tab), 0);
    type_text(&mut a, " ~/a dir ");
    a.handle_event(key(KeyCode::Enter), 0);
    assert_eq!(toast(&a), "watch 'shots' must reference at least one target");
    a.handle_event(key(KeyCode::Down), 0);
    type_text(&mut a, "b, ,nope");
    a.handle_event(key(KeyCode::Enter), 0);
    assert_eq!(toast(&a), "duplicate watch name: shots");
    a.handle_event(key(KeyCode::BackTab), 0);
    a.handle_event(key(KeyCode::Up), 0);
    type_text(&mut a, "2");
    a.handle_event(key(KeyCode::Enter), 0);
    assert_eq!(toast(&a), "watch 'shots2' references unknown target 'nope'");
    assert_eq!(a.cfg.watches.len(), 1);
    assert!(a.watch_form.is_some());
    a.handle_event(key(KeyCode::BackTab), 0);
    for _ in 0..4 {
        a.handle_event(key(KeyCode::Backspace), 0);
    }
    type_text(&mut a, "g");
    a.handle_event(key(KeyCode::Enter), 0);
    assert!(a.watch_form.is_none());
    assert_eq!(a.cfg.watches.len(), 2);
    let w = &a.cfg.watches[1];
    assert_eq!(w.name, "shots2");
    assert_eq!(w.path, "~/a dir");
    assert_eq!(w.targets, vec!["b", "g"]);
    assert!(!w.enabled);
    assert_eq!(w.catchup, CatchupMode::Prompt);
    assert_eq!(w.debounce_ms, 500);
    assert!(w.patterns.contains(&"*.png".to_string()));
    assert_eq!(a.watches[1].name, "shots2");
    assert_eq!(a.watches[1].targets_display, "b, g");
    assert_eq!(a.watches[1].status, WatchUiStatus::Off);
    assert_eq!(saved(&a), vec!["added watch: shots2"]);
}

#[test]
fn a_watched_folder_is_edited_by_a_form() {
    let mut a = watching(SyncMode::Auto);
    a.start_enabled_watches();
    a.outbox.clear();
    a.handle_event(ctrl('2'), 0);
    type_text(&mut a, "e");
    let f = a.watch_form.as_ref().unwrap();
    assert_eq!(f.editing.as_deref(), Some("shots"));
    assert_eq!((f.name.as_str(), f.path.as_str()), ("shots", "~/Desktop"));
    assert_eq!(f.targets, "a, g");
    type_text(&mut a, "!");
    a.handle_event(key(KeyCode::Enter), 0);
    assert_eq!(a.cfg.watches.len(), 1);
    assert_eq!(a.cfg.watches[0].name, "shots!");
    assert_eq!(a.cfg.watches[0].targets, vec!["a", "g"]);
    assert!(a.cfg.watches[0].enabled);
    assert_eq!(a.watches[0].name, "shots!");
    assert_eq!(a.watches[0].status, WatchUiStatus::Off);
    assert!(matches!(&a.outbox[0], Effect::StopWatch { name } if name == "shots"));
    assert_eq!(saved(&a), vec!["saved watch: shots!"]);
}

#[test]
fn a_form_sent_off_untouched_keeps_the_watch() {
    let mut a = watching(SyncMode::Auto);
    a.handle_event(ctrl('2'), 0);
    type_text(&mut a, "e");
    a.handle_event(key(KeyCode::Enter), 0);
    assert_eq!(a.cfg.watches.len(), 1);
    assert_eq!(a.cfg.watches[0].name, "shots");
    assert_eq!(a.cfg.watches[0].path, "~/Desktop");
    assert_eq!(a.cfg.watches[0].targets, vec!["a", "g"]);
    assert!(a.cfg.watches[0].patterns.is_empty());
    assert_eq!(a.outbox.len(), 1);
}

#[test]
fn a_form_is_left_by_escape_and_keeps_clicks_off() {
    let mut a = watching(SyncMode::Auto);
    a.handle_event(ctrl('2'), 0);
    type_text(&mut a, "a1");
    assert_eq!(a.current_tab, Tab::Watch);
    assert_eq!(a.watch_form.as_ref().unwrap().name, "1");
    a.handle_event(ctrl('t'), 0);
    assert!(a.outbox.is_empty());
    a.hit_regions.drop_zone = Rect { x: 0, y: 0, width: 9, height: 9 };
    a.handle_event(AppEvent::Mouse(Mouse::LeftDown { x: 1, y: 1 }), 0);
    assert_eq!(a.focus, Focus::Watches);
    a.handle_event(key(KeyCode::Esc), 0);
    assert!(a.watch_form.is_none());
    assert_eq!(a.cfg.watches.len(), 1);
    assert!(a.outbox.is_empty());
}

#[test]
fn a_watched_folder_is_deleted() {
    let mut a = watching(SyncMode::Auto);
    a.start_enabled_watches();
    a.outbox.clear();
    a.handle_event(ctrl('2'), 0);
    type_text(&mut a, "d");
    assert!(a.watches.is_empty());
    assert!(a.cfg.watches.is_empty());
    assert_eq!(a.watch_cursor, 0);
    assert_eq!(a.outbox.len(), 2);
    assert!(matches!(&a.outbox[0], Effect::StopWatch { name } if name == "shots"));
    assert_eq!(saved(&a), vec!["removed watch: shots"]);
    type_text(&mut a, "de");
    assert_eq!(a.outbox.len(), 2);
    assert!(a.watch_form.is_none());
}

#[test]
fn deleting_the_last_row_moves_the_cursor_up() {
    let mut cfg = watching(SyncMode::Auto).cfg;
    let mut second = cfg.watches[0].clone();
    second.name = "docs".to_string();
    cfg.watches.push(second);
    let mut a = App::new(cfg, HistoryStore::load_from("/h".to_string(), Vec::new()), machine());
    a.handle_event(ctrl('2'), 0);
    a.handle_event(key(KeyCode::Down), 0);
    assert_eq!(a.watch_cursor, 1);
    type_text(&mut a, "d");
    assert_eq!(a.watch_cursor, 0);
    assert_eq!(a.watches[0].name, "shots");
    assert_eq!(a.cfg.watches.len(), 1);
    assert_eq!(saved(&a), vec!["removed watch: docs"]);
}

#[test]
fn a_clipboard_that_cannot_be_written_is_reported() {
    let mut a = app(&["a"]);
    a.handle_event(
        AppEvent::ClipboardWritten {
            text: "x".to_string(),
            remote_path: None,
            result: Err("no display".to_string()),
        },
        0,
    );
    assert_eq!(toast(&a), "clipboard error: no display");
    assert_eq!(a.last_clipboard, None);
    a.clipboard_written("y".repeat(70), None, Ok(()), 0);
    assert_eq!(toast(&a), format!("clipboard ← {}…", "y".repeat(60)));
}
