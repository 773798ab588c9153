//! Single rows: targets' states, live transfers, history and watches.
use vstd::prelude::*;

use crate::app::activity;
use crate::app::input;
use crate::app::sync;
use crate::app::types::{
    TargetStatus, TargetStatusView, WatchUi, WatchUiStatus, WatchUiStatusView, WatchUiView,
};
use crate::clipboard;
use crate::history;
use crate::history::{EntryView, HistoryEntry};
use crate::paths;
use crate::text;
use crate::transfer::{Transfer, TransferState, TransferView};
use crate::ui::style;
use crate::ui::style::{Color, Line, Span, SpanView, Style};
use crate::ui::theme::Palette;
use crate::ui::width;

verus! {

/// `a - b`, or zero.
pub open spec fn monus(a: nat, b: nat) -> nat {
    if a >= b {
        (a - b) as nat
    } else {
        0
    }
}

// ---------------------------------------------------------------------------
// The state of a target
// ---------------------------------------------------------------------------
/// The first line of an ssh error, or a short label for what commonly goes wrong.
pub open spec fn error_label(e: Seq<char>) -> Seq<char> {
    let first = input::first_line(e);
    if text::contains(first, "Invalid command"@) {
        "not a shell host (ssh rejects cmd)"@
    } else if text::contains(first, "Connection closed"@) {
        "connection closed"@
    } else if text::contains(first, "Connection timed out"@) || text::contains(
        first,
        "ConnectTimeout"@,
    ) {
        "timed out"@
    } else if text::contains(first, "Permission denied"@) {
        "auth denied — add key to ssh-agent"@
    } else if text::contains(first, "Could not resolve hostname"@) {
        "hostname not resolvable"@
    } else if text::contains(first, "Host key verification failed"@) {
        "host key failed — accept in ssh first"@
    } else if text::contains(first, "No route to host"@) {
        "no route to host"@
    } else {
        activity::shortened(first, 48)
    }
}

pub fn summarize_ssh_error(e: &str) -> (r: String)
    ensures
        r@ == error_label(e@),
{
    let line = input::first_line_of(e);
    let first = line.as_str();
    if text::has_substring(first, "Invalid command") {
        return "not a shell host (ssh rejects cmd)".to_owned();
    }
    if text::has_substring(first, "Connection closed") {
        return "connection closed".to_owned();
    }
    if text::has_substring(first, "Connection timed out") || text::has_substring(
        first,
        "ConnectTimeout",
    ) {
        return "timed out".to_owned();
    }
    if text::has_substring(first, "Permission denied") {
        return "auth denied — add key to ssh-agent".to_owned();
    }
    if text::has_substring(first, "Could not resolve hostname") {
        return "hostname not resolvable".to_owned();
    }
    if text::has_substring(first, "Host key verification failed") {
        return "host key failed — accept in ssh first".to_owned();
    }
    if text::has_substring(first, "No route to host") {
        return "no route to host".to_owned();
    }
    activity::trunc(first, 48)
}

/// A target's state as a sign, its style, and a few words.
pub open spec fn status_shown(s: TargetStatusView, p: Palette) -> (Seq<char>, Style, Seq<char>) {
    match s {
        TargetStatusView::Unknown => ("[?]"@, Style::plain().fg(p.muted), ""@),
        TargetStatusView::Probing => ("[…]"@, Style::plain().fg(p.accent), "probing"@),
        TargetStatusView::Reachable => ("[✓]"@, Style::plain().fg(p.diff_add), ""@),
        TargetStatusView::NoRsync => (
            "[⚠]"@,
            Style::plain().fg(p.accent).bold(),
            "no rsync — click to install"@,
        ),
        TargetStatusView::Unreachable(e) => (
            "[✗]"@,
            Style::plain().fg(p.diff_del),
            error_label(e),
        ),
    }
}

pub fn status_display(s: &TargetStatus, p: &Palette) -> (r: (String, Style, String))
    ensures
        (r.0@, r.1, r.2@) == status_shown(s@, *p),
{
    match s {
        TargetStatus::Unknown => (
            "[?]".to_owned(),
            Style::plain().fg(p.muted),
            "".to_owned(),
        ),
        TargetStatus::Probing => (
            "[…]".to_owned(),
            Style::plain().fg(p.accent),
            "probing".to_owned(),
        ),
        TargetStatus::Reachable => (
            "[✓]".to_owned(),
            Style::plain().fg(p.diff_add),
            "".to_owned(),
        ),
        TargetStatus::NoRsync => (
            "[⚠]".to_owned(),
            Style::plain().fg(p.accent).bold(),
            "no rsync — click to install".to_owned(),
        ),
        TargetStatus::Unreachable(e) => (
            "[✗]".to_owned(),
            Style::plain().fg(p.diff_del),
            summarize_ssh_error(e.as_str()),
        ),
    }
}

// ---------------------------------------------------------------------------
// Times
// ---------------------------------------------------------------------------
pub open spec fn elapsed_text(secs: nat) -> Seq<char> {
    if secs < 60 {
        text::decimal(secs) + "s ago"@
    } else if secs < 3600 {
        text::decimal(secs / 60) + "m ago"@
    } else {
        text::decimal(secs / 3600) + "h ago"@
    }
}

/// How long ago something was, in the largest unit that fits.
pub fn humanize_elapsed(secs: u64) -> (r: String)
    ensures
        r@ == elapsed_text(secs as nat),
{
    let (n, unit) = if secs < 60 {
        (secs, "s ago")
    } else if secs < 3600 {
        (secs / 60, "m ago")
    } else {
        (secs / 3600, "h ago")
    };
    let mut r = text::to_decimal(n);
    r.append(unit);
    r
}

// ---------------------------------------------------------------------------
// History, grouped
// ---------------------------------------------------------------------------
/// Merged history row. `primary` is the newest entry for this remote_path;
/// `targets` collects every target that's synced the same file to the same
/// absolute remote path (usually one or two, occasionally more).
#[derive(Debug)]
pub struct HistoryGroup {
    pub primary: HistoryEntry,
    /// Index of `primary` in the filtered history list. Matches
    /// `ActivityRef::History`.
    pub primary_idx: usize,
    pub targets: Vec<String>,
}

pub ghost struct GroupRow {
    pub primary: EntryView,
    pub primary_idx: usize,
    pub targets: Seq<Seq<char>>,
}

impl View for HistoryGroup {
    type V = GroupRow;

    open spec fn view(&self) -> GroupRow {
        GroupRow {
            primary: self.primary@,
            primary_idx: self.primary_idx,
            targets: text::strs(self.targets@),
        }
    }
}

/// The group of that remote path; past the end where there is none.
pub open spec fn group_at(gs: Seq<GroupRow>, remote: Seq<char>) -> int
    decreases gs.len(),
{
    if gs.len() == 0 || gs[0].primary.remote_path == remote {
        0
    } else {
        1 + group_at(gs.drop_first(), remote)
    }
}

/// Entries merged by remote path, in the order of their first ones.
pub open spec fn grouped(es: Seq<EntryView>) -> Seq<GroupRow>
    decreases es.len(),
{
    if es.len() == 0 {
        seq![]
    } else {
        let gs = grouped(es.drop_last());
        let e = es.last();
        let g = group_at(gs, e.remote_path);
        if g < gs.len() {
            gs.update(
                g,
                GroupRow {
                    targets: sync::with_missing(gs[g].targets, seq![e.target_name]),
                    ..gs[g]
                },
            )
        } else {
            gs.push(
                GroupRow {
                    primary: e,
                    primary_idx: (es.len() - 1) as usize,
                    targets: seq![e.target_name],
                },
            )
        }
    }
}

pub proof fn lemma_group_at(gs: Seq<GroupRow>, remote: Seq<char>)
    ensures
        0 <= group_at(gs, remote) <= gs.len(),
        group_at(gs, remote) < gs.len() ==> gs[group_at(gs, remote)].primary.remote_path == remote,
        forall|i: int|
            0 <= i < group_at(gs, remote) ==> (#[trigger] gs[i]).primary.remote_path != remote,
    decreases gs.len(),
{
    if gs.len() > 0 && gs[0].primary.remote_path != remote {
        lemma_group_at(gs.drop_first(), remote);
        assert forall|i: int| 0 <= i < group_at(gs, remote) implies (
        #[trigger] gs[i]).primary.remote_path != remote by {
            if i > 0 {
                assert(gs.drop_first()[i - 1] == gs[i]);
            }
        }
    }
}

fn find_group(gs: &Vec<HistoryGroup>, remote: &str) -> (r: usize)
    ensures
        r == group_at(text::views(gs@), remote@),
        r <= gs@.len(),
{
    let ghost all = text::views(gs@);
    let mut i: usize = 0;
    assert(all.skip(0) =~= all);
    while i < gs.len()
        invariant
            i <= gs@.len(),
            all == text::views(gs@),
            group_at(all, remote@) == i + group_at(all.skip(i as int), remote@),
        decreases gs@.len() - i,
    {
        assert(all.skip(i as int)[0] == gs@[i as int]@);
        if text::same(gs[i].primary.remote_path.as_str(), remote) {
            return i;
        }
        assert(all.skip(i as int).drop_first() =~= all.skip(i + 1));
        i = i + 1;
    }
    i
}

fn only(name: &str) -> (r: Vec<String>)
    ensures
        text::strs(r@) == seq![name@],
{
    let mut v = text::no_strs();
    text::push_str(&mut v, name);
    assert(text::strs(v@) =~= seq![name@]);
    v
}

/// Merges entries of one remote path into one row.
pub fn group_history(matches: &Vec<&HistoryEntry>) -> (r: Vec<HistoryGroup>)
    ensures
        text::views(r@) == grouped(text::views(matches@)),
{
    let ghost all = text::views(matches@);
    let mut out: Vec<HistoryGroup> = Vec::new();
    let mut i: usize = 0;
    assert(text::views(out@) =~= grouped(all.take(0)));
    while i < matches.len()
        invariant
            i <= matches@.len(),
            all == text::views(matches@),
            text::views(out@) == grouped(all.take(i as int)),
        decreases matches@.len() - i,
    {
        let e = matches[i];
        assert(all.take(i + 1).drop_last() =~= all.take(i as int));
        assert(all.take(i + 1).last() == e@);
        let ghost before = text::views(out@);
        let g = find_group(&out, e.remote_path.as_str());
        if g < out.len() {
            assert(before[g as int] == out@[g as int]@);
            let mut targets = text::clone_strs(&out[g].targets);
            let one = only(e.target_name.as_str());
            sync::add_missing(&mut targets, &one);
            let ghost ts = text::strs(targets@);
            out[g].targets = targets;
            assert(text::views(out@) =~= before.update(
                g as int,
                GroupRow { targets: ts, ..before[g as int] },
            ));
        } else {
            let n = HistoryGroup {
                primary: e.clone(),
                primary_idx: i,
                targets: only(e.target_name.as_str()),
            };
            proof {
                text::lemma_views_push(out@, n);
            }
            out.push(n);
        }
        i = i + 1;
    }
    assert(all.take(i as int) =~= all);
    out
}

/// The rows that are drawn for the history are the ones that the cursor goes
/// through.
pub proof fn law_groups_are_the_rows(es: Seq<EntryView>)
    requires
        es.len() <= usize::MAX,
    ensures
        grouped(es).len() == activity::first_of_each(es).len(),
        forall|k: int|
            0 <= k < grouped(es).len() ==> (#[trigger] grouped(es)[k]).primary_idx
                == activity::first_of_each(es)[k] && grouped(es)[k].primary_idx < es.len()
                && grouped(es)[k].primary == es[grouped(es)[k].primary_idx as int],
        forall|i: int|
            0 <= i < es.len() ==> group_at(grouped(es), (#[trigger] es[i]).remote_path) < grouped(
                es,
            ).len(),
    decreases es.len(),
{
    if es.len() > 0 {
        let l = es.drop_last();
        law_groups_are_the_rows(l);
        let gs = grouped(l);
        let all = grouped(es);
        let e = es.last();
        let g = group_at(gs, e.remote_path);
        lemma_group_at(gs, e.remote_path);
        if activity::has_remote(l, e.remote_path) {
            let m = choose|m: int|
                0 <= m < l.len() && (#[trigger] l[m]).remote_path == e.remote_path;
            assert(g < gs.len());
        } else if g < gs.len() {
            let m = gs[g].primary_idx as int;
            assert(l[m].remote_path == e.remote_path);
        }
        assert forall|k: int| 0 <= k < all.len() implies (#[trigger] all[k]).primary_idx
            == activity::first_of_each(es)[k] && all[k].primary_idx < es.len() && all[k].primary
            == es[all[k].primary_idx as int] by {
            if k < gs.len() {
                assert(all[k].primary_idx == gs[k].primary_idx);
                assert(all[k].primary == gs[k].primary);
                assert(l[gs[k].primary_idx as int] == es[gs[k].primary_idx as int]);
            }
        }
        assert forall|i: int| 0 <= i < es.len() implies group_at(
            all,
            (#[trigger] es[i]).remote_path,
        ) < all.len() by {
            let r = es[i].remote_path;
            lemma_group_at(all, r);
            if i < l.len() {
                assert(l[i] == es[i]);
                let j = group_at(gs, r);
                lemma_group_at(gs, r);
                assert(all[j].primary == gs[j].primary);
            } else if g < gs.len() {
                assert(all[g].primary == gs[g].primary);
            } else {
                assert(all[gs.len() as int].primary == e);
            }
        }
    }
}

// ---------------------------------------------------------------------------
// Activity rows
// ---------------------------------------------------------------------------
/// Whether a live transfer is the one whose remote path was copied.
pub open spec fn is_remote_of(t: TransferView, expected: Seq<char>) -> bool {
    &&& t.remote_abs_dir.len() > 0
    &&& paths::base_name(t.local) matches Some(n) && clipboard::remote_file(t.remote_abs_dir, n)
        == expected
}

pub fn live_remote_matches(t: &Transfer, expected_remote: &str) -> (r: bool)
    ensures
        r == is_remote_of(t@, expected_remote@),
{
    if t.remote_abs_dir.as_str().is_empty() {
        return false;
    }
    match paths::file_name(t.local.as_str()) {
        Some(n) => {
            let joined = clipboard::remote_path(t.remote_abs_dir.as_str(), n.as_str());
            text::same(joined.as_str(), expected_remote)
        },
        None => false,
    }
}

pub const TARGET_COL: usize = 14;

/// A space, the icon, two spaces, the target and two spaces.
pub const LEFT_FIXED: usize = 20;

pub const RIGHT_GUTTER: usize = 2;

pub const COPIED_BADGE: &'static str = " 📋 on clipboard";

/// What an Activity row says.
pub ghost struct RowText {
    pub icon: Seq<char>,
    pub icon_color: Color,
    pub target: Seq<char>,
    pub filename: Seq<char>,
    pub right: Seq<char>,
    pub right_style: Style,
}

pub open spec fn badge_columns(is_copied: bool) -> nat {
    if is_copied {
        width::width(COPIED_BADGE@)
    } else {
        0
    }
}

/// The name of the file, cut so that the row fits.
pub open spec fn row_name(r: RowText, inner_w: nat, is_copied: bool) -> Seq<char> {
    let used = width::width(r.right) + badge_columns(is_copied) + RIGHT_GUTTER as nat;
    let budget = monus(monus(inner_w, LEFT_FIXED as nat), used);
    width::truncated(
        r.filename,
        if budget < 3 {
            3
        } else {
            budget
        },
    )
}

/// The spaces between the name and what stands on the right.
pub open spec fn row_gap(r: RowText, inner_w: nat, is_copied: bool) -> nat {
    let used = LEFT_FIXED as nat + width::width(row_name(r, inner_w, is_copied)) + width::width(
        r.right,
    ) + badge_columns(is_copied) + RIGHT_GUTTER as nat;
    let gap = monus(inner_w, used);
    if gap < 1 {
        1
    } else {
        gap
    }
}

/// An Activity row: icon, target, name, and on the right its state; the row under
/// the cursor stands out.
pub open spec fn row_line(
    r: RowText,
    inner_w: nat,
    p: Palette,
    is_cursor: bool,
    is_copied: bool,
) -> Seq<SpanView> {
    let back = if is_cursor {
        Style::plain().bg(p.selection)
    } else {
        Style::plain()
    };
    let name_style = if is_cursor {
        Style::plain().fg(p.fg).bg(p.selection).bold()
    } else {
        Style::plain().fg(p.fg)
    };
    let spans = seq![
        style::styled(" "@, back),
        style::styled(r.icon, Style::plain().fg(r.icon_color).bold().patch(back)),
        style::styled("  "@, back),
        style::styled(r.target, Style::plain().fg(p.accent).bold().patch(back)),
        style::styled("  "@, back),
        style::styled(row_name(r, inner_w, is_copied), name_style),
        style::styled(text::blank(row_gap(r, inner_w, is_copied)), back),
        style::styled(r.right, r.right_style.patch(back)),
    ];
    let marked = if is_copied {
        spans.push(
            style::styled(COPIED_BADGE@, Style::plain().fg(p.accent).bold().patch(back)),
        )
    } else {
        spans
    };
    marked.push(style::styled("  "@, back))
}

/// What an Activity row says, to be drawn.
pub struct RowParts {
    pub icon: &'static str,
    pub icon_color: Color,
    pub target: String,
    pub filename: String,
    pub right: String,
    pub right_style: Style,
}

impl View for RowParts {
    type V = RowText;

    open spec fn view(&self) -> RowText {
        RowText {
            icon: self.icon@,
            icon_color: self.icon_color,
            target: self.target@,
            filename: self.filename@,
            right: self.right@,
            right_style: self.right_style,
        }
    }
}

fn fit_name(r: &RowParts, inner_w: usize, is_copied: bool) -> (n: (String, usize))
    ensures
        n.0@ == row_name(r@, inner_w as nat, is_copied),
        n.1 == row_gap(r@, inner_w as nat, is_copied),
{
    let badge_w = if is_copied {
        width::display_width(COPIED_BADGE)
    } else {
        0
    };
    let right_w = width::display_width(r.right.as_str());
    let used = right_w.saturating_add(badge_w).saturating_add(RIGHT_GUTTER);
    let budget = inner_w.saturating_sub(LEFT_FIXED).saturating_sub(used);
    let name = width::truncate_cols(
        r.filename.as_str(),
        if budget < 3 {
            3
        } else {
            budget
        },
    );
    let name_w = width::display_width(name.as_str());
    let gap = inner_w.saturating_sub(LEFT_FIXED.saturating_add(name_w).saturating_add(used));
    (
        name,
        if gap < 1 {
            1
        } else {
            gap
        },
    )
}

pub fn build_row_line(
    r: &RowParts,
    inner_w: usize,
    p: &Palette,
    is_cursor: bool,
    is_copied: bool,
) -> (l: Line)
    ensures
        l@ == row_line(r@, inner_w as nat, *p, is_cursor, is_copied),
{
    let (name, gap) = fit_name(r, inner_w, is_copied);
    let pad = text::spaces(gap);
    let back = if is_cursor {
        Style::plain().bg(p.selection)
    } else {
        Style::plain()
    };
    let name_style = if is_cursor {
        Style::plain().fg(p.fg).bg(p.selection).bold()
    } else {
        Style::plain().fg(p.fg)
    };
    let mut l = Line::new();
    l.put(" ", back);
    l.put(r.icon, Style::plain().fg(r.icon_color).bold().patch(back));
    l.put("  ", back);
    l.put(r.target.as_str(), Style::plain().fg(p.accent).bold().patch(back));
    l.put("  ", back);
    l.put(name.as_str(), name_style);
    l.put(pad.as_str(), back);
    l.put(r.right.as_str(), r.right_style.patch(back));
    if is_copied {
        l.put(COPIED_BADGE, Style::plain().fg(p.accent).bold().patch(back));
    }
    l.put("  ", back);
    l
}

/// Files that a watch has sent carry a camera.
pub open spec fn with_camera(name: Seq<char>, source_watch: Option<Seq<char>>) -> Seq<char> {
    if source_watch is Some {
        "📸 "@ + name
    } else {
        name
    }
}

fn camera(name: String, from_watch: bool) -> (r: String)
    ensures
        r@ == (if from_watch {
            "📸 "@ + name@
        } else {
            name@
        }),
{
    if from_watch {
        let mut r = "📸 ".to_owned();
        r.append(name.as_str());
        r
    } else {
        name
    }
}

/// A percentage, right-aligned to three digits.
pub open spec fn percent_text(percent: u8) -> Seq<char> {
    let d = text::decimal(
        if percent > 100 {
            100
        } else {
            percent as nat
        },
    );
    text::blank(monus(3, d.len())) + d + "%"@
}

fn percent_of(percent: u8) -> (r: String)
    ensures
        r@ == percent_text(percent),
{
    let n: u64 = if percent > 100 {
        100
    } else {
        percent as u64
    };
    let d = text::to_decimal(n);
    let cs = text::chars_of(d.as_str());
    let mut r = text::spaces(3usize.saturating_sub(cs.len()));
    r.append(d.as_str());
    r.append("%");
    r
}

pub open spec fn live_text(t: TransferView, p: Palette) -> RowText {
    let filename = with_camera(clipboard::basename(t.local), t.source_watch);
    let target = width::padded(t.target_name, TARGET_COL as nat);
    match t.state {
        TransferState::Running => RowText {
            icon: "●"@,
            icon_color: p.accent,
            target,
            filename,
            right: if t.rate.len() == 0 {
                percent_text(t.percent)
            } else {
                percent_text(t.percent) + "  "@ + t.rate
            },
            right_style: Style::plain().fg(p.accent).bold(),
        },
        TransferState::Pending => RowText {
            icon: "·"@,
            icon_color: p.muted,
            target,
            filename,
            right: "queued"@,
            right_style: Style::plain().fg(p.muted),
        },
        TransferState::Failed => RowText {
            icon: "✗"@,
            icon_color: p.diff_del,
            target,
            filename,
            right: match t.last_error {
                Some(e) => width::truncated(e, 30),
                None => "failed"@,
            },
            right_style: Style::plain().fg(p.diff_del),
        },
        TransferState::Completed => RowText {
            icon: "✓"@,
            icon_color: p.diff_add,
            target,
            filename,
            right: "100%"@,
            right_style: Style::plain().fg(p.diff_add),
        },
    }
}

pub fn render_live_line(
    t: &Transfer,
    inner_w: usize,
    p: &Palette,
    is_cursor: bool,
    is_copied: bool,
) -> (l: Line)
    ensures
        l@ == row_line(live_text(t@, *p), inner_w as nat, *p, is_cursor, is_copied),
{
    let target = width::pad_or_trunc(t.target_name.as_str(), TARGET_COL);
    let filename = camera(clipboard::local_basename(t.local.as_str()), t.source_watch.is_some());
    let (icon, icon_color, right, right_style) = match t.state {
        TransferState::Running => {
            let mut right = percent_of(t.percent);
            if !t.rate.as_str().is_empty() {
                right.append("  ");
                right.append(t.rate.as_str());
            }
            ("●", p.accent, right, Style::plain().fg(p.accent).bold())
        },
        TransferState::Pending => (
            "·",
            p.muted,
            "queued".to_owned(),
            Style::plain().fg(p.muted),
        ),
        TransferState::Failed => {
            let right = match &t.last_error {
                Some(e) => width::truncate_cols(e.as_str(), 30),
                None => "failed".to_owned(),
            };
            ("✗", p.diff_del, right, Style::plain().fg(p.diff_del))
        },
        TransferState::Completed => (
            "✓",
            p.diff_add,
            "100%".to_owned(),
            Style::plain().fg(p.diff_add),
        ),
    };
    let r = RowParts { icon, icon_color, target, filename, right, right_style };
    build_row_line(&r, inner_w, p, is_cursor, is_copied)
}

/// The target of a group, or its targets as far as they fit, or how many there
/// are.
pub open spec fn group_label(targets: Seq<Seq<char>>) -> Seq<char> {
    let all = text::joined(targets, ","@);
    if targets.len() == 1 {
        targets[0]
    } else if width::width(all) <= TARGET_COL {
        all
    } else {
        text::decimal(targets.len()) + " hosts"@
    }
}

pub open spec fn group_text(g: GroupRow, p: Palette, now: u64) -> RowText {
    RowText {
        icon: "✓"@,
        icon_color: p.diff_add,
        target: width::padded(group_label(g.targets), TARGET_COL as nat),
        filename: with_camera(g.primary.local_name, g.primary.source_watch),
        right: history::time_ago(now as nat, g.primary.synced_at as nat),
        right_style: Style::plain().fg(p.muted),
    }
}

fn label_of(targets: &Vec<String>) -> (r: String)
    ensures
        r@ == group_label(text::strs(targets@)),
{
    assert(text::strs(targets@).len() == targets@.len());
    if targets.len() == 1 {
        assert(text::strs(targets@)[0] == targets@[0]@);
        return targets[0].clone();
    }
    let joined = text::join(targets, ",");
    if width::display_width(joined.as_str()) <= TARGET_COL {
        joined
    } else {
        let mut r = text::to_decimal(targets.len() as u64);
        r.append(" hosts");
        r
    }
}

pub fn render_history_group_line(
    g: &HistoryGroup,
    inner_w: usize,
    p: &Palette,
    is_cursor: bool,
    is_copied: bool,
    now: u64,
) -> (l: Line)
    ensures
        l@ == row_line(group_text(g@, *p, now), inner_w as nat, *p, is_cursor, is_copied),
{
    let label = label_of(&g.targets);
    let r = RowParts {
        icon: "✓",
        icon_color: p.diff_add,
        target: width::pad_or_trunc(label.as_str(), TARGET_COL),
        filename: camera(g.primary.local_name.clone(), g.primary.source_watch.is_some()),
        right: history::format_time_between(now, g.primary.synced_at),
        right_style: Style::plain().fg(p.muted),
    };
    build_row_line(&r, inner_w, p, is_cursor, is_copied)
}

// ---------------------------------------------------------------------------
// Watches
// ---------------------------------------------------------------------------
pub open spec fn synced_text(n: u64) -> Seq<char> {
    text::decimal(n as nat) + " synced"@
}

/// What stands at the end of a watch's row.
pub open spec fn watch_tail(w: WatchUiView) -> Seq<char> {
    let base = match w.status {
        WatchUiStatusView::Off => synced_text(w.synced_count),
        WatchUiStatusView::Starting => "starting…"@,
        WatchUiStatusView::Running => synced_text(w.synced_count),
        WatchUiStatusView::LockedByOther(pid) => "locked by PID "@ + text::decimal(pid as nat),
        WatchUiStatusView::Error(e) => width::truncated(e, 30),
    };
    if w.pending_catchup.len() > 0 {
        base + "  ("@ + text::decimal(w.pending_catchup.len()) + " new — press r)"@
    } else {
        base
    }
}

pub open spec fn watch_glyph(s: WatchUiStatusView, p: Palette) -> (Seq<char>, Style) {
    match s {
        WatchUiStatusView::Off => ("○"@, Style::plain().fg(p.muted)),
        WatchUiStatusView::Starting => ("●"@, Style::plain().fg(p.accent)),
        WatchUiStatusView::Running => ("●"@, Style::plain().fg(p.diff_add).bold()),
        WatchUiStatusView::LockedByOther(_) => ("⚠"@, Style::plain().fg(p.diff_del)),
        WatchUiStatusView::Error(_) => ("✗"@, Style::plain().fg(p.diff_del)),
    }
}

pub open spec fn watch_color(s: WatchUiStatusView, p: Palette) -> Color {
    match s {
        WatchUiStatusView::Off => p.muted,
        WatchUiStatusView::Starting => p.accent,
        WatchUiStatusView::Running => p.diff_add,
        WatchUiStatusView::LockedByOther(_) => p.diff_del,
        WatchUiStatusView::Error(_) => p.diff_del,
    }
}

pub open spec fn watch_line(w: WatchUiView, is_cursor: bool, p: Palette) -> Seq<SpanView> {
    let base = if is_cursor {
        Style::plain().bg(p.selection).bold()
    } else {
        Style::plain().fg(p.fg)
    };
    let (glyph, glyph_style) = watch_glyph(w.status, p);
    seq![
        style::styled(" "@, base),
        style::styled(glyph, glyph_style.patch(base)),
        style::styled(" "@, base),
        style::styled(width::padded(w.name, 14), base),
        style::styled(" "@, base),
        style::styled(width::padded(w.path_display, 30), base.patch(Style::plain().fg(p.muted))),
        style::styled(" "@, base),
        style::styled(
            width::padded("→ "@ + w.targets_display, 22),
            base.patch(Style::plain().fg(p.accent)),
        ),
        style::styled(" "@, base),
        style::styled(watch_tail(w), base.patch(Style::plain().fg(watch_color(w.status, p)))),
    ]
}

fn synced(n: u64) -> (r: String)
    ensures
        r@ == synced_text(n),
{
    let mut r = text::to_decimal(n);
    r.append(" synced");
    r
}

fn tail_of_watch(w: &WatchUi) -> (r: String)
    ensures
        r@ == watch_tail(w@),
{
    let mut base = match &w.status {
        WatchUiStatus::Off => synced(w.synced_count),
        WatchUiStatus::Starting => "starting…".to_owned(),
        WatchUiStatus::Running => synced(w.synced_count),
        WatchUiStatus::LockedByOther(pid) => {
            let mut r = "locked by PID ".to_owned();
            let d = text::to_decimal(*pid as u64);
            r.append(d.as_str());
            r
        },
        WatchUiStatus::Error(e) => width::truncate_cols(e.as_str(), 30),
    };
    assert(text::strs(w.pending_catchup@).len() == w.pending_catchup@.len());
    if w.pending_catchup.len() > 0 {
        base.append("  (");
        let n = text::to_decimal(w.pending_catchup.len() as u64);
        base.append(n.as_str());
        base.append(" new — press r)");
    }
    base
}

pub fn render_watch_row(w: &WatchUi, is_cursor: bool, p: &Palette) -> (l: Line)
    ensures
        l@ == watch_line(w@, is_cursor, *p),
{
    let base = if is_cursor {
        Style::plain().bg(p.selection).bold()
    } else {
        Style::plain().fg(p.fg)
    };
    let (glyph, glyph_style, color) = match &w.status {
        WatchUiStatus::Off => ("○", Style::plain().fg(p.muted), p.muted),
        WatchUiStatus::Starting => ("●", Style::plain().fg(p.accent), p.accent),
        WatchUiStatus::Running => ("●", Style::plain().fg(p.diff_add).bold(), p.diff_add),
        WatchUiStatus::LockedByOther(_) => ("⚠", Style::plain().fg(p.diff_del), p.diff_del),
        WatchUiStatus::Error(_) => ("✗", Style::plain().fg(p.diff_del), p.diff_del),
    };
    let name = width::pad_or_trunc(w.name.as_str(), 14);
    let path = width::pad_or_trunc(w.path_display.as_str(), 30);
    let mut arrow = "→ ".to_owned();
    arrow.append(w.targets_display.as_str());
    let targets = width::pad_or_trunc(arrow.as_str(), 22);
    let tail = tail_of_watch(w);
    let mut l = Line::new();
    l.put(" ", base);
    l.put(glyph, glyph_style.patch(base));
    l.put(" ", base);
    l.put(name.as_str(), base);
    l.put(" ", base);
    l.put(path.as_str(), base.patch(Style::plain().fg(p.muted)));
    l.put(" ", base);
    l.put(targets.as_str(), base.patch(Style::plain().fg(p.accent)));
    l.put(" ", base);
    l.put(tail.as_str(), base.patch(Style::plain().fg(color)));
    l
}

// ---------------------------------------------------------------------------
// Centred lines
// ---------------------------------------------------------------------------
/// The columns of some pieces of text together.
pub open spec fn spans_width(spans: Seq<SpanView>) -> nat
    decreases spans.len(),
{
    if spans.len() == 0 {
        0
    } else {
        spans_width(spans.drop_last()) + width::width(spans.last().content)
    }
}

/// The pieces, centred in a panel of that width, borders included.
pub open spec fn centered(panel: u16, inner: Seq<SpanView>) -> Seq<SpanView> {
    let left = monus(monus(panel as nat, 2), spans_width(inner)) / 2;
    if left > 0 {
        seq![style::raw(text::blank(left))] + inner
    } else {
        inner
    }
}

fn width_of_spans(spans: &Vec<Span>) -> (r: usize)
    ensures
        r == spans_width(text::views(spans@)) || (r == usize::MAX && spans_width(
            text::views(spans@),
        ) > usize::MAX),
{
    let ghost all = text::views(spans@);
    let mut total: usize = 0;
    let mut i: usize = 0;
    assert(all.take(0) =~= seq![]);
    while i < spans.len()
        invariant
            i <= spans@.len(),
            all == text::views(spans@),
            total == spans_width(all.take(i as int)) || (total == usize::MAX && spans_width(
                all.take(i as int),
            ) > usize::MAX),
        decreases spans@.len() - i,
    {
        assert(all.take(i + 1).drop_last() =~= all.take(i as int));
        assert(all.take(i + 1).last() == spans@[i as int]@);
        let w = width::display_width(spans[i].content.as_str());
        total = total.saturating_add(w);
        i = i + 1;
    }
    assert(all.take(i as int) =~= all);
    total
}

pub fn center_line(panel: u16, inner: Line) -> (l: Line)
    ensures
        l@ == centered(panel, inner@),
{
    let content_w = width_of_spans(&inner.spans);
    let inner_area_w = panel.saturating_sub(2) as usize;
    let left = inner_area_w.saturating_sub(content_w) / 2;
    if left > 0 {
        let pad = text::spaces(left);
        let mut l = Line::new();
        l.put_raw(pad.as_str());
        let ghost a = l.spans@;
        let ghost b = inner.spans@;
        let mut rest = inner.spans;
        l.spans.append(&mut rest);
        assert(text::views(l.spans@) =~= text::views(a) + text::views(b));
        l
    } else {
        inner
    }
}

} // verus!
