use lzsync::history::{
    format_time_ago, format_time_between, history_dir, is_history_file, now_epoch, sanitize_filename,
    HistoryEntry, HistoryStatus, HistoryStore,
};

fn entry(local: &str, target: &str, remote: &str, at: u64) -> HistoryEntry {
    HistoryEntry {
        local_path: local.to_string(),
        local_name: local.rsplit('/').next().unwrap_or("").to_string(),
        size: 123,
        target_name: target.to_string(),
        target_host: format!("user@{target}"),
        remote_path: remote.to_string(),
        synced_at: at,
        status: HistoryStatus::Completed,
        source_watch: None,
    }
}

fn empty_store() -> HistoryStore {
    HistoryStore::load_from("/h".to_string(), Vec::new())
}

#[test]
fn append_then_reload_round_trip() {
    let mut store = empty_store();
    assert!(store.entries.is_empty());
    let mut lines = Vec::new();
    for e in [
        entry("/a/b/shot.png", "devjp", "/r/shot.png", 100),
        entry("/a/b/report.pdf", "dev", "/r/report.pdf", 200),
    ] {
        lines.push(e.clone());
        store.append(e, Ok(())).unwrap();
    }
    let reloaded = HistoryStore::load_from("/h".to_string(), lines);
    assert_eq!(reloaded.entries.len(), 2);
    assert_eq!(reloaded.entries[0].local_name, "report.pdf"); // newest first
    assert_eq!(reloaded.entries[1].local_name, "shot.png");
    assert_eq!(store.entries[0].local_name, "report.pdf");
}

#[test]
fn dedupe_on_reload_keeps_latest() {
    let mut store = empty_store();
    let mut lines = Vec::new();
    for e in [
        entry("/a/shot.png", "devjp", "/r/old.png", 100),
        entry("/a/shot.png", "devjp", "/r/new.png", 300),
    ] {
        lines.push(e.clone());
        store.append(e, Ok(())).unwrap();
    }
    let reloaded = HistoryStore::load_from("/h".to_string(), lines);
    assert_eq!(reloaded.entries.len(), 1);
    assert_eq!(reloaded.entries[0].remote_path, "/r/new.png");
    assert_eq!(store.entries.len(), 1);
}

#[test]
fn same_file_different_targets_are_separate_entries() {
    let reloaded = HistoryStore::load_from(
        "/h".to_string(),
        vec![
            entry("/a/shot.png", "devjp", "/r/jp/shot.png", 100),
            entry("/a/shot.png", "dev", "/r/dev/shot.png", 110),
        ],
    );
    assert_eq!(reloaded.entries.len(), 2);
}

#[test]
fn filter_matches_name_path_or_target() {
    let mut store = empty_store();
    store.append(entry("/a/shot.png", "devjp", "/r/shot.png", 100), Ok(())).unwrap();
    store.append(entry("/b/report.pdf", "dev", "/r/report.pdf", 200), Ok(())).unwrap();
    assert_eq!(store.filter("shot").len(), 1);
    assert_eq!(store.filter("devjp").len(), 1);
    assert_eq!(store.filter("/b/").len(), 1);
    assert_eq!(store.filter("xyz").len(), 0);
    assert_eq!(store.filter("").len(), 2);
}

#[test]
fn sanitize_filename_replaces_slashes() {
    assert_eq!(sanitize_filename("dev/jp"), "dev_jp");
    assert_eq!(sanitize_filename("a@b"), "a_b");
    assert_eq!(sanitize_filename("ok-name_1"), "ok-name_1");
}

#[test]
fn format_time_ago_buckets() {
    let now = now_epoch();
    assert_eq!(format_time_ago(now), "just now");
    assert_eq!(format_time_ago(now.saturating_sub(120)), "2m ago");
    assert_eq!(format_time_ago(now.saturating_sub(3 * 3600)), "3h ago");
    assert_eq!(format_time_ago(now.saturating_sub(2 * 86_400)), "2d ago");
}

#[test]
fn times_change_their_unit_at_the_right_second() {
    assert_eq!(format_time_between(1_000, 2_000), "just now");
    assert_eq!(format_time_between(59, 0), "just now");
    assert_eq!(format_time_between(60, 0), "1m ago");
    assert_eq!(format_time_between(3_599, 0), "59m ago");
    assert_eq!(format_time_between(3_600, 0), "1h ago");
    assert_eq!(format_time_between(86_399, 0), "23h ago");
    assert_eq!(format_time_between(86_400, 0), "1d ago");
    assert_eq!(format_time_between(604_799, 0), "6d ago");
    assert_eq!(format_time_between(604_800, 0), "1w ago");
}

#[test]
fn the_clock_is_read() {
    // Well after the first release.
    assert!(now_epoch() > 1_600_000_000);
}

#[test]
fn a_filter_ignores_case_and_blanks_around_it() {
    let store = HistoryStore::load_from(
        "/h".to_string(),
        vec![entry("/a/SHOT.png", "Dev", "/r/x", 1)],
    );
    assert_eq!(store.filter("  shot ").len(), 1);
    assert_eq!(store.filter("dEV").len(), 1);
    assert_eq!(store.filter("/r/x").len(), 0);
}

#[test]
fn a_record_that_could_not_be_written_is_not_kept() {
    let mut store = empty_store();
    let r = store.append(entry("/a/b", "dev", "/r/b", 1), Err("disk full".to_string()));
    assert_eq!(r, Err("disk full".to_string()));
    assert!(store.entries.is_empty());
}

#[test]
fn without_a_directory_there_is_no_history() {
    match HistoryStore::load(None, Vec::new()) {
        Err(e) => assert_eq!(e, "no config dir"),
        Ok(_) => panic!("loaded from nowhere"),
    }
    assert_eq!(
        HistoryStore::load(history_dir(Some("/c")), Vec::new()).unwrap().base,
        "/c/lzsync/history"
    );
}

#[test]
fn records_go_to_a_file_of_their_target() {
    let store = empty_store();
    assert_eq!(store.file_for("dev/jp"), "/h/dev_jp.jsonl");
    assert_eq!(store.file_for(""), "/h/unknown.jsonl");
}

#[test]
fn a_store_that_cannot_be_read_is_empty() {
    let s = HistoryStore::empty(Some("/home/u/.config"));
    assert!(s.entries.is_empty());
    assert_eq!(s.base, "/home/u/.config/lzsync/history");
    assert_eq!(HistoryStore::empty(None).base, ".lzscp/history");
}

#[test]
fn records_are_read_from_the_files_they_go_to() {
    let s = HistoryStore::empty(Some("/c"));
    for name in ["dev", "", "a/b", ".", "..", "x.jsonl"] {
        assert!(is_history_file(&s.file_for(name)), "{name:?}");
    }
    for path in ["/c/.jsonl", "/c/a.json", "/c/ajsonl", "/c/a.jsonl/..", "/", "/c/a.jsonl.bak"] {
        assert!(!is_history_file(path), "{path:?}");
    }
    assert!(is_history_file("a.jsonl"));
}
