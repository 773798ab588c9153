use lzsync::app::types::{
    ActivityRef, App, Focus, FormField, HelpBarAction, MenuAction, ModalHit, Rect, SshPicker,
    Tab, TargetStatus, Toast, UpdateStatus, WatchForm, WatchRecent, WatchUi, WatchUiStatus,
};
use lzsync::config::Config;
use lzsync::environment::Environment;
use lzsync::history::{HistoryEntry, HistoryStatus, HistoryStore};
use lzsync::ssh_config::SshHost;
use lzsync::target::Target;
use lzsync::transfer::{Transfer, TransferState};
use lzsync::ui::feed::draw_activity;
use lzsync::ui::overlays::{
    draw_help_overlay, draw_menu_overlay, draw_ssh_picker, draw_update_overlay,
    draw_watch_form,
};
use lzsync::ui::panels::{
    draw_drop_zone, draw_help_bar, draw_tab_bar, draw_targets, draw_title, draw_toast,
    draw_watch_recent, draw_watches, inner_area,
};
use lzsync::ui::rows::{
    center_line, group_history, humanize_elapsed, live_remote_matches, render_live_line,
    summarize_ssh_error,
};
use lzsync::ui::screen::{draw, draw_at, place, Body};
use lzsync::ui::style::{Canvas, Color, Line, Style, Widget};
use lzsync::ui::theme::palette;
use lzsync::ui::width::{display_width, pad_or_trunc, truncate_cols};

fn machine() -> Environment {
    Environment { home: Some("/home/u".to_string()), vars: Vec::new() }
}

#[test]
fn display_width_counts_cjk_and_emoji_as_two() {
    assert_eq!(display_width("abc"), 3);
    assert_eq!(display_width("截图"), 4);
    assert_eq!(display_width("a截b"), 4);
}

#[test]
fn truncate_cols_short_circuits_when_fits() {
    assert_eq!(truncate_cols("hello", 10), "hello");
    assert_eq!(truncate_cols("", 10), "");
}

#[test]
fn truncate_cols_never_overflows_budget() {
    for s in [
        "verylongfilenamewithoutanyspaces.png",
        "截图2026-04-19_11.31.26.png",
        "FireShot Capture 001 - Polymarket - [gemini.google.com].pdf",
        "🎉🎉🎉🎉🎉🎉.png",
    ] {
        for budget in [5, 10, 20, 40] {
            let t = truncate_cols(s, budget);
            assert!(
                display_width(&t) <= budget,
                "{s:?} trunc to {budget} → {t:?} (width {})",
                display_width(&t)
            );
        }
    }
}

#[test]
fn pad_or_trunc_is_exactly_cols_wide() {
    for (s, cols) in [
        ("dev", 10usize),
        ("devjp", 10),
        ("verylongtargetnamethatoverflows", 10),
        ("截图", 10),
    ] {
        assert_eq!(display_width(&pad_or_trunc(s, cols)), cols);
    }
}

#[test]
fn texts_are_cut_in_the_middle() {
    assert_eq!(truncate_cols("abcdefghij", 5), "ab…ij");
    assert_eq!(truncate_cols("abcdefghij", 6), "abc…ij");
    assert_eq!(truncate_cols("abcdefghij", 1), "…");
    assert_eq!(truncate_cols("abcdefghij", 0), "");
    assert_eq!(pad_or_trunc("ab", 4), "ab  ");
}

#[test]
fn no_character_is_wider_than_its_bytes() {
    let mut n: u32 = 0;
    while n <= 0x10_ffff {
        if let Some(c) = char::from_u32(n) {
            let s = c.to_string();
            assert!(display_width(&s) <= s.len(), "{n:x}");
            if (' '..='~').contains(&c) || c == '…' {
                assert_eq!(display_width(&s), 1);
            }
        }
        n += 1;
    }
    assert_eq!(display_width("\n\t"), 0);
}

fn line_text(l: &Line) -> String {
    l.spans.iter().map(|s| s.content.as_str()).collect()
}

/// The lines of the last thing painted.
fn last_lines(c: &Canvas) -> Vec<String> {
    match &c.paints.last().unwrap().widget {
        Widget::Text { page, .. } => page.lines.iter().map(line_text).collect(),
        Widget::Items { page, .. } => page.lines.iter().map(line_text).collect(),
        other => panic!("expected text, got {other:?}"),
    }
}

fn rect(x: u16, y: u16, width: u16, height: u16) -> Rect {
    Rect { x, y, width, height }
}

fn target(name: &str) -> Target {
    Target {
        name: name.to_string(),
        host: format!("{name}.example.com"),
        user: Some("u".to_string()),
        remote_dir: "/up".to_string(),
        ssh_port: None,
        ssh_key: None,
        clipboard_format: None,
    }
}

fn entry(name: &str, target: &str, remote: &str, at: u64) -> HistoryEntry {
    HistoryEntry {
        local_path: format!("/l/{name}"),
        local_name: name.to_string(),
        size: 1,
        target_name: target.to_string(),
        target_host: "h".to_string(),
        remote_path: remote.to_string(),
        synced_at: at,
        status: HistoryStatus::Completed,
        source_watch: None,
    }
}

fn app_with(targets: &[&str], entries: Vec<HistoryEntry>) -> App {
    let mut cfg = Config::default();
    for t in targets {
        cfg.targets.push(target(t));
    }
    App::new(cfg, HistoryStore::load_from("/h".to_string(), entries), machine())
}

#[test]
fn themes_have_their_colours() {
    assert_eq!(palette("mocha").bg, Color::rgb(30, 30, 46));
    assert_eq!(palette("no such theme"), palette("mocha"));
    assert_eq!(palette("tokyonight"), palette("tokyo_night"));
    assert_eq!(palette("tokyo_night").accent, Color::rgb(122, 162, 247));
    assert_eq!(palette("gruvbox").fg, Color::rgb(235, 219, 178));
    assert_eq!(palette("nord").muted, Color::rgb(110, 122, 142));
    assert_eq!(palette("dracula").diff_del, Color::rgb(255, 85, 85));
}

#[test]
fn a_style_takes_on_what_another_one_sets() {
    let p = palette("mocha");
    let s = Style::plain().fg(p.fg).bold().patch(Style::plain().bg(p.bg).dim());
    assert_eq!(s, Style { fg: Some(p.fg), bg: Some(p.bg), bold: true, dim: true });
    assert_eq!(Style::plain().fg(p.fg).patch(Style::plain().fg(p.bg)).fg, Some(p.bg));
}

#[test]
fn ssh_errors_get_short_labels() {
    assert_eq!(summarize_ssh_error("x: Permission denied (publickey)"), "auth denied — add key to ssh-agent");
    assert_eq!(summarize_ssh_error("Connection timed out\nmore"), "timed out");
    assert_eq!(summarize_ssh_error("  odd  \nmore"), "odd");
    assert_eq!(summarize_ssh_error(""), "");
    let long = "x".repeat(60);
    assert_eq!(summarize_ssh_error(&long), format!("{}…", "x".repeat(48)));
}

#[test]
fn elapsed_times_grow() {
    assert_eq!(humanize_elapsed(0), "0s ago");
    assert_eq!(humanize_elapsed(59), "59s ago");
    assert_eq!(humanize_elapsed(60), "1m ago");
    assert_eq!(humanize_elapsed(3600), "1h ago");
    assert_eq!(humanize_elapsed(90_000), "25h ago");
}

#[test]
fn entries_of_one_remote_path_share_a_row() {
    let es = vec![
        entry("a", "dev", "/r/a", 3),
        entry("b", "dev", "/r/b", 2),
        entry("a", "jp", "/r/a", 1),
    ];
    let refs: Vec<&HistoryEntry> = es.iter().collect();
    let gs = group_history(&refs);
    assert_eq!(gs.len(), 2);
    assert_eq!(gs[0].targets, vec!["dev", "jp"]);
    assert_eq!(gs[0].primary_idx, 0);
    assert_eq!(gs[1].primary_idx, 1);
}

#[test]
fn a_copied_live_transfer_is_recognised() {
    let mut t = Transfer::new(1, &target("dev"), "/l/a.png".to_string());
    assert!(!live_remote_matches(&t, "/r/a.png"));
    t.remote_abs_dir = "/r/".to_string();
    assert!(live_remote_matches(&t, "/r/a.png"));
    assert!(!live_remote_matches(&t, "/r/b.png"));
}

#[test]
fn a_live_row_fills_its_line() {
    let p = palette("mocha");
    let mut t = Transfer::new(1, &target("dev"), "/l/a.png".to_string());
    assert_eq!(
        line_text(&render_live_line(&t, 40, &p, false, false)),
        " ·  dev             a.png       queued  "
    );
    t.state = TransferState::Running;
    t.percent = 7;
    t.rate = "1KB/s".to_string();
    let l = line_text(&render_live_line(&t, 60, &p, true, true));
    assert!(l.contains("  7%  1KB/s"));
    assert!(l.contains("📋 on clipboard"));
    assert_eq!(display_width(&l), 60);
    t.state = TransferState::Failed;
    t.last_error = Some("boom".to_string());
    assert!(line_text(&render_live_line(&t, 60, &p, false, false)).contains("boom"));
}

#[test]
fn lines_are_centred() {
    let l = center_line(12, Line::of("abcd", Style::plain()));
    assert_eq!(line_text(&l), "   abcd");
    let l = center_line(4, Line::of("abcd", Style::plain()));
    assert_eq!(line_text(&l), "abcd");
}

#[test]
fn bars_say_what_is_going_on() {
    let p = palette("mocha");
    let mut app = app_with(&["dev"], Vec::new());
    let mut c = Canvas::new();
    draw_title(&mut c, rect(0, 0, 80, 1), &app, &p);
    assert_eq!(last_lines(&c), vec![" lzsync  v0.4.0   [auto]   clipboard: RemotePath"]);
    draw_tab_bar(&mut c, rect(0, 1, 80, 1), &app, &p);
    assert_eq!(last_lines(&c), vec!["  1 Drop   2 Watch "]);
    app.watches.push(WatchUi {
        name: "w".to_string(),
        path_display: "~/D".to_string(),
        targets_display: "dev".to_string(),
        status: WatchUiStatus::Running,
        synced_count: 2,
        pending_catchup: Vec::new(),
    });
    draw_tab_bar(&mut c, rect(0, 1, 80, 1), &app, &p);
    assert_eq!(last_lines(&c), vec!["  1 Drop   2 Watch    ● 1 watching"]);
    draw_toast(&mut c, rect(0, 2, 80, 1), &app, &p);
    assert_eq!(last_lines(&c), vec![""]);
    app.toast = Some(Toast { text: "hi".to_string(), at_ms: 0 });
    draw_toast(&mut c, rect(0, 2, 80, 1), &app, &p);
    assert_eq!(last_lines(&c), vec![" • hi"]);
}

#[test]
fn chips_that_do_not_fit_are_dropped() {
    let p = palette("mocha");
    let mut c = Canvas::new();
    let hits = draw_help_bar(&mut c, rect(0, 9, 80, 1), &p);
    assert_eq!(hits.len(), 6);
    assert_eq!(hits[0], (rect(0, 9, 12, 1), HelpBarAction::CycleFocus));
    assert_eq!(hits[1], (rect(12, 9, 13, 1), HelpBarAction::Sync));
    assert_eq!(
        last_lines(&c),
        vec![" Tab focus   Enter sync   ^U update   ^P menu   ^H help   ^Q quit"]
    );
    let hits = draw_help_bar(&mut c, rect(0, 9, 24, 1), &p);
    assert_eq!(hits.len(), 1);
}

#[test]
fn the_drop_zone_invites_or_lists() {
    let p = palette("mocha");
    let mut app = app_with(&["dev"], Vec::new());
    let mut c = Canvas::new();
    let hits = draw_drop_zone(&mut c, rect(0, 0, 60, 8), &app, &Vec::new(), &p);
    assert!(hits.is_empty());
    assert!(last_lines(&c).iter().any(|l| l.trim() == "→ will send to: dev"));
    app.queue = vec!["/l/a".to_string(), "/l/b".to_string(), "/l/c".to_string()];
    let sizes = vec!["1 B".to_string()];
    let hits = draw_drop_zone(&mut c, rect(0, 0, 60, 4), &app, &sizes, &p);
    assert_eq!(hits, vec![rect(1, 1, 58, 1), rect(1, 2, 58, 1)]);
    assert_eq!(last_lines(&c), vec![" /l/a  1 B", " /l/b  ?", " /l/c  ?"]);
}

#[test]
fn targets_show_their_state() {
    let p = palette("mocha");
    let mut app = app_with(&["dev", "jp"], Vec::new());
    app.target_rows[1].status = TargetStatus::NoRsync;
    let mut c = Canvas::new();
    let hits = draw_targets(&mut c, rect(0, 0, 60, 10), &app, &p);
    assert_eq!(hits.len(), 2);
    let lines = last_lines(&c);
    assert!(lines[0].starts_with(" ● [?] 1. dev  "));
    assert!(lines[1].starts_with(" ○ [⚠] 2. jp  "));
    assert!(lines[1].ends_with(" no rsync — click to install"));
    let app = app_with(&[], Vec::new());
    draw_targets(&mut c, rect(0, 0, 60, 10), &app, &p);
    assert_eq!(last_lines(&c)[1], "  No targets yet.");
}

#[test]
fn activity_lists_live_transfers_before_the_past() {
    let p = palette("mocha");
    let mut app = app_with(&["dev"], vec![entry("old.png", "dev", "/r/old.png", 100)]);
    app.transfers.push(Transfer::new(7, &target("dev"), "/l/new.png".to_string()));
    app.activity_cursor = 99;
    let mut c = Canvas::new();
    let hits = draw_activity(&mut c, rect(0, 0, 60, 10), &mut app, &p, 160);
    assert_eq!(app.activity_cursor, 1);
    assert_eq!(hits.len(), 2);
    assert_eq!(hits[0].2, ActivityRef::Live(7));
    assert_eq!(hits[1], (rect(1, 2, 58, 1), 1, ActivityRef::History(0)));
    assert_eq!(app.activity_row_refs(), vec![ActivityRef::Live(7), ActivityRef::History(0)]);
    assert!(last_lines(&c)[0].contains("old.png"));
    assert!(last_lines(&c)[0].contains("1m ago"));
    // Too narrow for rows.
    let hits = draw_activity(&mut c, rect(0, 0, 12, 10), &mut app, &p, 160);
    assert!(hits.is_empty());
}

#[test]
fn a_filter_narrows_the_activity() {
    let p = palette("mocha");
    let mut app = app_with(
        &["dev"],
        vec![entry("shot.png", "dev", "/r/shot.png", 1), entry("a.pdf", "dev", "/r/a.pdf", 2)],
    );
    app.activity_filter = Some("SHOT".to_string());
    let mut c = Canvas::new();
    let hits = draw_activity(&mut c, rect(0, 0, 60, 10), &mut app, &p, 160);
    assert_eq!(hits.len(), 1);
    assert_eq!(hits[0].0.y, 2);
    app.activity_filter = Some("nothing".to_string());
    draw_activity(&mut c, rect(0, 0, 60, 10), &mut app, &p, 160);
    assert_eq!(last_lines(&c), vec!["  no matches"]);
}

#[test]
fn watches_and_what_they_sent_are_listed() {
    let p = palette("mocha");
    let mut app = app_with(&["dev"], Vec::new());
    let mut c = Canvas::new();
    draw_watches(&mut c, rect(0, 0, 90, 10), &mut app, &p);
    assert_eq!(last_lines(&c)[0], "  No watches configured.");
    app.watches.push(WatchUi {
        name: "shots".to_string(),
        path_display: "~/Desktop".to_string(),
        targets_display: "dev".to_string(),
        status: WatchUiStatus::LockedByOther(12),
        synced_count: 0,
        pending_catchup: vec!["/l/a".to_string()],
    });
    app.watch_cursor = 4;
    draw_watches(&mut c, rect(0, 0, 90, 10), &mut app, &p);
    assert_eq!(app.watch_cursor, 0);
    let l = last_lines(&c)[0].clone();
    assert!(l.starts_with(" ⚠ shots "));
    assert!(l.ends_with("locked by PID 12  (1 new — press r)"));
    draw_watch_recent(&mut c, rect(0, 0, 90, 3), &app, &p, 0);
    assert!(last_lines(&c)[0].contains("no files synced yet"));
    for i in 0..3u64 {
        app.watch_recent.push(WatchRecent {
            file_display: format!("f{i}"),
            watch_name: "shots".to_string(),
            at_ms: 1000,
        });
    }
    draw_watch_recent(&mut c, rect(0, 0, 90, 4), &app, &p, 6000);
    assert_eq!(last_lines(&c).len(), 2);
    assert!(last_lines(&c)[0].ends_with("→ shots  5s ago"));
}

#[test]
fn the_form_marks_the_line_that_is_typed_in() {
    let p = palette("mocha");
    let mut c = Canvas::new();
    let f = WatchForm {
        editing: None,
        field: FormField::Path,
        name: "shots".to_string(),
        path: "~/D".to_string(),
        targets: "dev".to_string(),
    };
    draw_watch_form(&mut c, &f, rect(0, 0, 100, 30), &p);
    let lines = last_lines(&c);
    assert_eq!(lines.len(), 5);
    assert_eq!(lines[0], "  name     shots");
    assert_eq!(lines[1], "> folder   ~/D_");
    assert_eq!(lines[2], "  targets  dev");
    assert_eq!(lines[4], "  Tab next line   Enter save   Esc cancel");
}

#[test]
fn overlays_say_where_they_can_be_clicked() {
    let p = palette("mocha");
    let size = rect(0, 0, 100, 30);
    let mut app = app_with(&["dev"], Vec::new());
    let mut c = Canvas::new();
    draw_help_overlay(&mut c, size, &p);
    assert_eq!(last_lines(&c).len(), 18);
    let (r, rows) = draw_menu_overlay(&mut c, size, &app, &p);
    assert_eq!(r, rect(26, 7, 48, 16));
    assert_eq!(rows.len(), 12);
    assert_eq!(rows[0], (rect(27, 9, 46, 1), MenuAction::AddTargetFromSsh));
    assert!(last_lines(&c)[12].starts_with("  12. Quit"));
    assert!(last_lines(&c)[12].ends_with("  [^Q]"));

    app.update_status = UpdateStatus::Available("9.9.9".to_string());
    let (r, hits) = draw_update_overlay(&mut c, size, &app, &p);
    assert_eq!(r, rect(20, 10, 60, 10));
    assert_eq!(hits.len(), 2);
    assert_eq!(hits[0], (rect(22, 18, 4, 1), ModalHit::Confirm));
    assert_eq!(hits[1], (rect(41, 18, 9, 1), ModalHit::Cancel));
    assert_eq!(last_lines(&c)[6], " y   confirm      n / Esc   cancel");
    assert_eq!(last_lines(&c)[2], "  latest:  v9.9.9");
    app.update_status = UpdateStatus::Failed("boom".to_string());
    let (r, hits) = draw_update_overlay(&mut c, size, &app, &p);
    assert_eq!(hits, vec![(r, ModalHit::Dismiss)]);
    app.update_status = UpdateStatus::Installed(vec!["/x".to_string()]);
    draw_update_overlay(&mut c, size, &app, &p);
    assert_eq!(last_lines(&c)[3], "    /x");
    app.update_status = UpdateStatus::Installing("9".to_string());
    draw_update_overlay(&mut c, size, &app, &p);
    assert_eq!(last_lines(&c)[1], "  Downloading v9…");

    let picker = SshPicker {
        list: vec![SshHost {
            name: "box".to_string(),
            hostname: Some("1.2.3.4".to_string()),
            user: Some("me".to_string()),
            port: None,
            identity_file: None,
        }],
        cursor: 0,
    };
    let (r, rows) = draw_ssh_picker(&mut c, size, &picker, &p);
    assert_eq!(r, rect(14, 12, 72, 6));
    assert_eq!(rows, vec![rect(15, 14, 70, 1)]);
    assert_eq!(last_lines(&c)[1].trim_end(), "  1. box  me@1.2.3.4");
    assert_eq!(last_lines(&c)[1].chars().count(), 70);
}

#[test]
fn the_inside_of_a_border() {
    assert_eq!(inner_area(rect(2, 3, 10, 5)), rect(3, 4, 8, 3));
    assert_eq!(inner_area(rect(2, 3, 0, 0)), rect(2, 3, 0, 0));
    assert_eq!(inner_area(rect(2, 3, 1, 1)), rect(3, 4, 0, 0));
}

#[test]
fn a_frame_covers_the_screen() {
    let size = rect(0, 0, 100, 30);
    let at = place(size, Tab::Drop);
    assert_eq!(at.title, rect(0, 0, 100, 1));
    assert_eq!(at.tab_bar, rect(0, 1, 100, 1));
    assert_eq!(at.toast, rect(0, 28, 100, 1));
    assert_eq!(at.help_bar, rect(0, 29, 100, 1));
    match at.body {
        Body::Drop { targets, activity, drop_zone } => {
            assert_eq!(drop_zone, rect(0, 20, 100, 8));
            assert_eq!(targets, rect(0, 2, 50, 18));
            assert_eq!(activity, rect(50, 2, 50, 18));
        }
        other => panic!("expected the Drop tab, got {other:?}"),
    }
    match place(size, Tab::Watch).body {
        Body::Watch { watches, recent } => {
            assert_eq!(watches.height + recent.height, 26);
            assert_eq!(recent.y, watches.y + watches.height);
        }
        other => panic!("expected the Watch tab, got {other:?}"),
    }
}

#[test]
fn a_frame_remembers_what_can_be_clicked() {
    let size = rect(0, 0, 100, 30);
    let mut app = app_with(&["dev", "jp"], Vec::new());
    app.focus = Focus::Targets;
    let c = draw(&mut app, size, &Vec::new(), 0, 0);
    assert_eq!(c.paints.len(), 8);
    assert_eq!(app.hit_regions.target_rows.len(), 2);
    assert_eq!(app.hit_regions.help_bar_hits.len(), 6);
    assert_eq!(app.hit_regions.modal_area, None);
    app.help_visible = true;
    draw(&mut app, size, &Vec::new(), 0, 0);
    assert_eq!(app.hit_regions.modal_area, Some(size));
    app.menu_visible = true;
    let at = place(size, app.current_tab);
    draw_at(&mut app, size, at, &Vec::new(), 0, 0);
    assert_eq!(app.hit_regions.menu_rows.len(), 12);
    assert_eq!(app.hit_regions.modal_area, Some(rect(26, 7, 48, 16)));
    app.current_tab = Tab::Watch;
    app.menu_visible = false;
    app.help_visible = false;
    draw(&mut app, size, &Vec::new(), 0, 0);
    assert!(app.hit_regions.target_rows.is_empty());
}

fn is_inside(r: Rect, whole: Rect) -> bool {
    r.x >= whole.x
        && r.x + r.width <= whole.x + whole.width
        && r.y >= whole.y
        && r.y + r.height <= whole.y + whole.height
}

#[test]
fn the_screen_is_shared_out() {
    let line = |size: Rect, y: u16, height: u16| Rect { x: size.x, y, width: size.width, height };
    for height in 0..120u16 {
        for width in [0u16, 1, 2, 3, 20, 79, 80, 81, 100, 213] {
            for (x, y) in [(0u16, 0u16), (3, 7)] {
                let size = Rect { x, y, width, height };
                let bottom = y + height;
                let drop = place(size, Tab::Drop);
                let watch = place(size, Tab::Watch);
                for bar in [drop.title, drop.tab_bar, drop.toast, drop.help_bar] {
                    assert!(is_inside(bar, size));
                }
                if height >= 10 {
                    assert_eq!(drop.title, line(size, y, 1));
                    assert_eq!(drop.tab_bar, line(size, y + 1, 1));
                    assert_eq!(drop.toast, line(size, bottom - 2, 1));
                    assert_eq!(drop.help_bar, line(size, bottom - 1, 1));
                }
                match drop.body {
                    Body::Drop { targets, activity, drop_zone } => {
                        for r in [targets, activity, drop_zone] {
                            assert!(is_inside(r, size));
                        }
                        let half = width.div_ceil(2);
                        assert_eq!((targets.x, targets.width), (x, half));
                        assert_eq!((activity.x, activity.width), (x + half, width - half));
                        if height >= 18 {
                            assert_eq!((targets.y, targets.height), (y + 2, height - 12));
                            assert_eq!(drop_zone, line(size, bottom - 10, 8));
                        }
                    }
                    Body::Watch { .. } => panic!("the wrong tab"),
                }
                match watch.body {
                    Body::Watch { watches, recent } => {
                        assert!(is_inside(watches, size) && is_inside(recent, size));
                        if height >= 10 {
                            let body = height - 4;
                            let upper = ((body as u32 * 55 + 50) / 100) as u16;
                            assert_eq!(watches, line(size, y + 2, upper));
                            assert_eq!(recent, line(size, y + 2 + upper, body - upper));
                        }
                    }
                    Body::Drop { .. } => panic!("the wrong tab"),
                }
            }
        }
    }
}
