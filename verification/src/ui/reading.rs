//! What can be read on the screen.
use vstd::prelude::*;

use crate::app::choices;
use crate::app::edit;
use crate::app::input;
use crate::app::types;
use crate::app::types::{
    AppView, Focus, FormField, FormView, KeyCode, PickerView, Rect, RowView, Tab, TargetKind,
    TargetStatusView, UpdateView, WatchUiStatusView, WatchUiView,
};
use crate::ssh_config::HostView;
use crate::target::{ClipboardFormat, SyncMode};
use crate::text;
use crate::transfer::{TransferState, TransferView};
use crate::ui::feed;
use crate::ui::overlays;
use crate::ui::panels;
use crate::ui::rows;
use crate::ui::rows::RowText;
use crate::ui::style::{PaintView, SpanView, WidgetView};
use crate::ui::screen;
use crate::ui::theme;
use crate::ui::theme::Palette;
use crate::ui::width;

verus! {

/// Whether a text can be read in a line.
pub open spec fn line_shows(l: Seq<SpanView>, s: Seq<char>) -> bool {
    exists|i: int| 0 <= i < l.len() && text::contains((#[trigger] l[i]).content, s)
}

/// Whether a text can be read on a page.
pub open spec fn page_shows(page: Seq<Seq<SpanView>>, s: Seq<char>) -> bool {
    exists|i: int| 0 <= i < page.len() && #[trigger] line_shows(page[i], s)
}

/// The lines that a widget shows.
pub open spec fn lines_of(w: PaintView) -> Seq<Seq<SpanView>> {
    match w.widget {
        WidgetView::Text { page, .. } => page,
        WidgetView::Items { page, .. } => page,
        _ => seq![],
    }
}

proof fn lemma_at_start(s: Seq<char>, post: Seq<char>)
    ensures
        text::contains(s + post, s),
{
    let none = Seq::<char>::empty();
    text::lemma_contains_within(none, s, post);
    assert(none + s + post =~= s + post);
}

proof fn lemma_at_end(pre: Seq<char>, s: Seq<char>)
    ensures
        text::contains(pre + s, s),
{
    let none = Seq::<char>::empty();
    text::lemma_contains_within(pre, s, none);
    assert(pre + s + none =~= pre + s);
}

proof fn lemma_whole(s: Seq<char>)
    ensures
        text::contains(s, s),
{
    let none = Seq::<char>::empty();
    lemma_at_start(s, none);
    assert(s + none =~= s);
}

// ---------------------------------------------------------------------------
// Panels
// ---------------------------------------------------------------------------
/// Every row of a target or a group is drawn, in order: with its number, its name, what
/// it stands for, and whether it is selected.
pub proof fn law_every_target_can_be_read(a: AppView, area: Rect, p: Palette, i: int)
    requires
        0 <= i < a.target_rows.len(),
    ensures
        ({
            let row = a.target_rows[i];
            let page = lines_of(panels::targets_panel(a, area, p));
            &&& page.len() == a.target_rows.len()
            &&& line_shows(page[i], row.name)
            &&& line_shows(page[i], row.summary)
            &&& line_shows(page[i], text::decimal((i + 1) as nat))
            &&& page[i][0].content.contains('●') <==> row.selected
            &&& page[i][0].content.contains('○') <==> !row.selected
            &&& row.status matches TargetStatusView::Unreachable(e) ==> line_shows(
                page[i],
                rows::error_label(e),
            )
        }),
{
    reveal_strlit(" ● ");
    reveal_strlit(" ○ ");
    let row = a.target_rows[i];
    let l = lines_of(panels::targets_panel(a, area, p))[i];
    lemma_at_start(text::decimal((i + 1) as nat), ". "@);
    assert(text::contains(l[3].content, text::decimal((i + 1) as nat)));
    lemma_at_start(row.name, match row.kind {
        TargetKind::Single => ""@,
        TargetKind::Group => " (group)"@,
    });
    assert(text::contains(l[4].content, row.name));
    lemma_whole(row.summary);
    assert(text::contains(l[6].content, row.summary));
    if let TargetStatusView::Unreachable(e) = row.status {
        lemma_whole(rows::error_label(e));
        assert(text::contains(l[8].content, rows::error_label(e)));
    }
    let mark = l[0].content;
    if row.selected {
        assert(mark[1] == '●');
    } else {
        assert(mark[1] == '○');
    }
}

/// A target's state can be told from its sign: a tick for one that can be reached, a
/// cross for one that cannot, a warning where rsync is missing.
pub proof fn law_signs_tell_the_state(s: TargetStatusView, p: Palette)
    ensures
        rows::status_shown(s, p).0.contains('✓') <==> s is Reachable,
        rows::status_shown(s, p).0.contains('✗') <==> s is Unreachable,
        rows::status_shown(s, p).0.contains('⚠') <==> s is NoRsync,
        rows::status_shown(s, p).0.contains('…') <==> s is Probing,
        rows::status_shown(s, p).0.contains('?') <==> s is Unknown,
{
    reveal_strlit("[?]");
    reveal_strlit("[…]");
    reveal_strlit("[✓]");
    reveal_strlit("[⚠]");
    reveal_strlit("[✗]");
    let sign = rows::status_shown(s, p).0;
    assert(sign.len() == 3);
    assert(sign[1] == match s {
        TargetStatusView::Unknown => '?',
        TargetStatusView::Probing => '…',
        TargetStatusView::Reachable => '✓',
        TargetStatusView::NoRsync => '⚠',
        TargetStatusView::Unreachable(_) => '✗',
    });
    assert(sign[0] == '[' && sign[2] == ']');
}

/// The names of the selected rows, and no others, are where files would go.
pub proof fn law_the_invitation_names_the_selected(rs: Seq<RowView>, name: Seq<char>)
    ensures
        panels::chosen(rs).contains(name) <==> exists|i: int|
            0 <= i < rs.len() && (#[trigger] rs[i]).selected && rs[i].name == name,
    decreases rs.len(),
{
    if rs.len() > 0 {
        let init = rs.drop_last();
        let last = rs.last();
        let out = panels::chosen(init);
        law_the_invitation_names_the_selected(init, name);
        assert(rs[rs.len() - 1] == last);
        if out.contains(name) {
            let i = choose|i: int|
                0 <= i < init.len() && (#[trigger] init[i]).selected && init[i].name == name;
            assert(rs[i] == init[i]);
        }
        if exists|i: int| 0 <= i < rs.len() && (#[trigger] rs[i]).selected && rs[i].name == name {
            let i = choose|i: int|
                0 <= i < rs.len() && (#[trigger] rs[i]).selected && rs[i].name == name;
            if i < init.len() {
                assert(init[i] == rs[i]);
            }
        }
        if last.selected {
            let q = out.push(last.name);
            assert(q[out.len() as int] == last.name);
            if out.contains(name) {
                let k = choose|k: int| 0 <= k < out.len() && out[k] == name;
                assert(q[k] == name);
            }
            if q.contains(name) && name != last.name {
                let k = choose|k: int| 0 <= k < q.len() && q[k] == name;
                assert(out[k] == name);
            }
        }
    }
}

/// Every queued file is listed, in order, with its size; while none is, what was wrong
/// with the last paste can be read.
pub proof fn law_the_queue_can_be_read(
    a: AppView,
    area: Rect,
    sizes: Seq<Seq<char>>,
    p: Palette,
    i: int,
)
    ensures
        ({
            let page = lines_of(panels::drop_zone(a, area, sizes, p));
            &&& 0 <= i < a.queue.len() ==> page.len() == a.queue.len() && line_shows(
                page[i],
                a.queue[i],
            )
            &&& 0 <= i < a.queue.len() && i < sizes.len() ==> line_shows(page[i], sizes[i])
            &&& a.queue.len() == 0 && a.last_paste_error is Some ==> page_shows(
                page,
                a.last_paste_error->Some_0,
            )
        }),
{
    let page = lines_of(panels::drop_zone(a, area, sizes, p));
    if 0 <= i < a.queue.len() {
        lemma_at_end(" "@, a.queue[i]);
        assert(text::contains(page[i][0].content, a.queue[i]));
        if i < sizes.len() {
            lemma_whole(sizes[i]);
            assert(text::contains(page[i][2].content, sizes[i]));
        }
    }
    if a.queue.len() == 0 && a.last_paste_error is Some {
        let e = a.last_paste_error->Some_0;
        lemma_at_end("⚠ "@, e);
        let l = page[page.len() - 1];
        assert(l.len() > 0);
        assert(text::contains(l[l.len() - 1].content, e));
        assert(line_shows(l, e));
    }
}

/// The bars say which mode and which clipboard format are set, and what there is to say.
pub proof fn law_the_bars_tell_the_settings(a: AppView, area: Rect, p: Palette)
    ensures
        page_shows(lines_of(panels::title_bar(a, area, p)), panels::mode_name(a.mode)),
        page_shows(
            lines_of(panels::title_bar(a, area, p)),
            edit::format_name(a.clipboard_format),
        ),
        a.toast is Some ==> page_shows(
            lines_of(panels::toast_bar(a, area, p)),
            a.toast->Some_0.0,
        ),
{
    let t = lines_of(panels::title_bar(a, area, p));
    let mode = panels::mode_name(a.mode);
    text::lemma_contains_within("["@, mode, "]"@);
    assert(text::contains(t[0][4].content, mode));
    assert(line_shows(t[0], mode));
    let f = edit::format_name(a.clipboard_format);
    lemma_at_end("clipboard: "@, f);
    assert(text::contains(t[0][6].content, f));
    assert(line_shows(t[0], f));
    if let Some(m) = a.toast {
        let b = lines_of(panels::toast_bar(a, area, p));
        lemma_at_end(" • "@, m.0);
        assert(text::contains(b[0][0].content, m.0));
        assert(line_shows(b[0], m.0));
    }
}

/// No two modes and no two clipboard formats read the same.
pub proof fn law_settings_read_differently(f: ClipboardFormat, g: ClipboardFormat)
    ensures
        panels::mode_name(SyncMode::Auto) != panels::mode_name(SyncMode::Manual),
        edit::format_name(f) == edit::format_name(g) ==> f == g,
{
    reveal_strlit("auto");
    reveal_strlit("manual");
    reveal_strlit("RemotePath");
    reveal_strlit("ScpStyle");
    reveal_strlit("SshPath");
    reveal_strlit("Custom");
    assert("auto"@.len() == 4 && "manual"@.len() == 6);
    assert("RemotePath"@.len() == 10 && "ScpStyle"@.len() == 8 && "SshPath"@.len() == 7
        && "Custom"@.len() == 6);
}

/// From the Drop tab it can be read how many watches run: all that do, and no others.
pub proof fn law_running_watches_are_counted(a: AppView, area: Rect, p: Palette)
    ensures
        panels::live_watches(a.watches) == a.watches.filter(
            |w: WatchUiView| w.status is Starting || w.status is Running,
        ).len(),
        a.current_tab == Tab::Drop && panels::live_watches(a.watches) > 0 ==> page_shows(
            lines_of(panels::tab_bar(a, area, p)),
            text::decimal(panels::live_watches(a.watches)),
        ),
{
    lemma_live_watches(a.watches);
    let n = panels::live_watches(a.watches);
    if a.current_tab == Tab::Drop && n > 0 {
        let t = lines_of(panels::tab_bar(a, area, p));
        text::lemma_contains_within("● "@, text::decimal(n), " watching"@);
        assert(text::contains(t[0][5].content, text::decimal(n)));
        assert(line_shows(t[0], text::decimal(n)));
    }
}

proof fn lemma_live_watches(ws: Seq<WatchUiView>)
    ensures
        panels::live_watches(ws) == ws.filter(
            |w: WatchUiView| w.status is Starting || w.status is Running,
        ).len(),
    decreases ws.len(),
{
    reveal(Seq::filter);
    if ws.len() > 0 {
        lemma_live_watches(ws.drop_last());
    }
}

/// A chip of the help bar does what the key does that it names.
pub proof fn law_chips_do_what_their_keys_do(a: AppView, now: u64)
    requires
        choices::panels_open(a),
        a.focus == Focus::DropZone || a.focus == Focus::Targets,
    ensures
        text::contains(panels::chip(0).0, "Tab"@),
        a.current_tab == Tab::Drop ==> a.chip_pressed(panels::chip(0).2, now) == a.key_handled(
            choices::alone(KeyCode::Tab),
            now,
        ),
        text::contains(panels::chip(1).0, "Enter"@),
        a.chip_pressed(panels::chip(1).2, now) == a.key_handled(
            choices::alone(KeyCode::Enter),
            now,
        ),
        text::contains(panels::chip(2).0, "^U"@),
        a.chip_pressed(panels::chip(2).2, now) == a.key_handled(choices::with_ctrl('u'), now),
        text::contains(panels::chip(3).0, "^P"@),
        a.chip_pressed(panels::chip(3).2, now) == a.key_handled(choices::with_ctrl('p'), now),
        text::contains(panels::chip(4).0, "^H"@),
        a.chip_pressed(panels::chip(4).2, now) == a.key_handled(choices::with_ctrl('h'), now),
        text::contains(panels::chip(5).0, "^Q"@),
        a.chip_pressed(panels::chip(5).2, now) == a.key_handled(choices::with_ctrl('q'), now),
{
    lemma_chip_keys();
    lemma_chip_actions(a, now);
}

proof fn lemma_chip_actions(a: AppView, now: u64)
    requires
        choices::panels_open(a),
        a.focus == Focus::DropZone || a.focus == Focus::Targets,
    ensures
        a.current_tab == Tab::Drop ==> a.chip_pressed(panels::chip(0).2, now) == a.key_handled(
            choices::alone(KeyCode::Tab),
            now,
        ),
        a.chip_pressed(panels::chip(1).2, now) == a.key_handled(
            choices::alone(KeyCode::Enter),
            now,
        ),
        a.chip_pressed(panels::chip(2).2, now) == a.key_handled(choices::with_ctrl('u'), now),
        a.chip_pressed(panels::chip(3).2, now) == a.key_handled(choices::with_ctrl('p'), now),
        a.chip_pressed(panels::chip(4).2, now) == a.key_handled(choices::with_ctrl('h'), now),
        a.chip_pressed(panels::chip(5).2, now) == a.key_handled(choices::with_ctrl('q'), now),
{
    reveal(AppView::panel_key);
}

proof fn lemma_between_blanks(s: Seq<char>, all: Seq<char>)
    requires
        all.len() == s.len() + 2,
        forall|i: int| 0 <= i < s.len() ==> all[i + 1] == #[trigger] s[i],
    ensures
        text::contains(all, s),
{
    let (a, b) = (all.take(1), all.skip((s.len() + 1) as int));
    text::lemma_contains_within(a, s, b);
    assert(a + s + b =~= all);
}

proof fn lemma_chip_keys()
    ensures
        text::contains(panels::chip(0).0, "Tab"@),
        text::contains(panels::chip(1).0, "Enter"@),
        text::contains(panels::chip(2).0, "^U"@),
        text::contains(panels::chip(3).0, "^P"@),
        text::contains(panels::chip(4).0, "^H"@),
        text::contains(panels::chip(5).0, "^Q"@),
{
    assert(text::contains(" Tab "@, "Tab"@)) by {
        reveal_strlit(" Tab ");
        reveal_strlit("Tab");
        lemma_between_blanks("Tab"@, " Tab "@);
    }
    assert(text::contains(" Enter "@, "Enter"@)) by {
        reveal_strlit(" Enter ");
        reveal_strlit("Enter");
        lemma_between_blanks("Enter"@, " Enter "@);
    }
    assert(text::contains(" ^U "@, "^U"@)) by {
        reveal_strlit(" ^U ");
        reveal_strlit("^U");
        lemma_between_blanks("^U"@, " ^U "@);
    }
    assert(text::contains(" ^P "@, "^P"@)) by {
        reveal_strlit(" ^P ");
        reveal_strlit("^P");
        lemma_between_blanks("^P"@, " ^P "@);
    }
    assert(text::contains(" ^H "@, "^H"@)) by {
        reveal_strlit(" ^H ");
        reveal_strlit("^H");
        lemma_between_blanks("^H"@, " ^H "@);
    }
    assert(text::contains(" ^Q "@, "^Q"@)) by {
        reveal_strlit(" ^Q ");
        reveal_strlit("^Q");
        lemma_between_blanks("^Q"@, " ^Q "@);
    }
}

// ---------------------------------------------------------------------------
// Rows
// ---------------------------------------------------------------------------
/// An error of `ssh` that is short, and not one of those that have a label of their own,
/// is told as it is, without the lines that follow its first one.
pub proof fn law_other_errors_are_told(e: Seq<char>)
    requires
        input::first_line(e).len() <= 48,
        !text::contains(input::first_line(e), "Invalid command"@),
        !text::contains(input::first_line(e), "Connection closed"@),
        !text::contains(input::first_line(e), "Connection timed out"@),
        !text::contains(input::first_line(e), "ConnectTimeout"@),
        !text::contains(input::first_line(e), "Permission denied"@),
        !text::contains(input::first_line(e), "Could not resolve hostname"@),
        !text::contains(input::first_line(e), "Host key verification failed"@),
        !text::contains(input::first_line(e), "No route to host"@),
    ensures
        rows::error_label(e) == input::first_line(e),
{
}

/// How long ago something was is told in seconds, minutes or hours, whichever is the
/// largest of which it was at least one.
pub proof fn law_elapsed_times_are_told_in_their_unit(n: nat, rest: nat)
    ensures
        n < 60 ==> rows::elapsed_text(n) == text::decimal(n) + "s ago"@,
        0 < n < 60 && rest < 60 ==> rows::elapsed_text(n * 60 + rest) == text::decimal(n)
            + "m ago"@,
        0 < n && rest < 3600 ==> rows::elapsed_text(n * 3600 + rest) == text::decimal(n)
            + "h ago"@,
{
    if rest < 60 {
        assert((n * 60 + rest) / 60 == n) by (nonlinear_arith)
            requires
                rest < 60,
        ;
    }
    if rest < 3600 {
        assert((n * 3600 + rest) / 3600 == n) by (nonlinear_arith)
            requires
                rest < 3600,
        ;
    }
}

/// A transfer that runs shows how far it is and how fast; one that failed shows why, as
/// far as there is room; all show their file and their target.
pub proof fn law_transfers_show_their_progress(t: TransferView, p: Palette)
    requires
        t.percent <= 100,
    ensures
        ({
            let r = rows::live_text(t, p);
            &&& t.state == TransferState::Running ==> text::contains(
                r.right,
                text::decimal(t.percent as nat) + seq!['%'],
            )
            &&& t.state == TransferState::Running ==> text::contains(r.right, t.rate)
            &&& t.state == TransferState::Failed && t.last_error is Some && width::width(
                t.last_error->Some_0,
            ) <= 30 ==> r.right == t.last_error->Some_0
            &&& t.source_watch is None ==> r.filename == crate::clipboard::basename(t.local)
            &&& text::contains(r.filename, crate::clipboard::basename(t.local))
            &&& width::width(t.target_name) <= 14 ==> t.target_name.is_prefix_of(r.target)
            &&& r.icon.contains('✗') <==> t.state == TransferState::Failed
        }),
{
    reveal_strlit("%");
    reveal_strlit("●");
    reveal_strlit("·");
    reveal_strlit("✗");
    reveal_strlit("✓");
    assert("%"@ =~= seq!['%']);
    let r = rows::live_text(t, p);
    let name = crate::clipboard::basename(t.local);
    lemma_whole(name);
    lemma_at_end("📸 "@, name);
    let d = text::decimal(t.percent as nat);
    let s = d + seq!['%'];
    let lead = text::blank(rows::monus(3, d.len()));
    if t.state == TransferState::Running {
        assert(rows::percent_text(t.percent) =~= lead + s);
        if t.rate.len() == 0 {
            lemma_at_end(lead, s);
            let none = Seq::<char>::empty();
            lemma_at_start(none, r.right);
            assert(none + r.right =~= r.right);
            assert(t.rate =~= none);
        } else {
            text::lemma_contains_within(lead, s, "  "@ + t.rate);
            assert(lead + s + ("  "@ + t.rate) =~= r.right);
            lemma_at_end(rows::percent_text(t.percent) + "  "@, t.rate);
        }
    }
    if width::width(t.target_name) <= 14 {
        width::law_padding_is_blank(t.target_name, 14);
    }
    assert(r.icon.len() == 1);
    assert(r.icon[0] == '✗' <==> t.state == TransferState::Failed);
    if t.state == TransferState::Failed && t.last_error is Some {
        width::law_cutting_keeps_both_ends(t.last_error->Some_0, 30);
    }
}

/// A row of the history names its one target; or all of its targets where they fit, and
/// else how many they are.
pub proof fn law_history_rows_name_their_targets(targets: Seq<Seq<char>>)
    ensures
        targets.len() == 1 ==> rows::group_label(targets) == targets[0],
        targets.len() != 1 && width::width(text::joined(targets, ","@)) <= 14 ==> rows::group_label(
            targets,
        ) == text::joined(targets, ","@),
        targets.len() != 1 && width::width(text::joined(targets, ","@)) > 14 ==> text::contains(
            rows::group_label(targets),
            text::decimal(targets.len()),
        ),
{
    lemma_at_start(text::decimal(targets.len()), " hosts"@);
}

/// The row of a watch names it, its folder and where it sends, as far as they fit, and
/// says how it is: how many files it sent, who holds its lock, what is wrong, and how many
/// files wait.
pub proof fn law_watches_tell_how_they_are(w: WatchUiView, is_cursor: bool, p: Palette)
    ensures
        ({
            let l = rows::watch_line(w, is_cursor, p);
            &&& width::width(w.name) <= 14 ==> line_shows(l, w.name)
            &&& width::width(w.path_display) <= 30 ==> line_shows(l, w.path_display)
            &&& width::width("→ "@ + w.targets_display) <= 22 ==> line_shows(l, w.targets_display)
            &&& w.status is Running || w.status is Off ==> line_shows(
                l,
                text::decimal(w.synced_count as nat),
            )
            &&& w.status matches WatchUiStatusView::LockedByOther(pid) ==> line_shows(
                l,
                text::decimal(pid as nat),
            )
            &&& w.status matches WatchUiStatusView::Error(e) ==> width::width(e) <= 30
                ==> line_shows(l, e)
            &&& w.pending_catchup.len() > 0 ==> line_shows(
                l,
                text::decimal(w.pending_catchup.len()),
            )
        }),
{
    let l = rows::watch_line(w, is_cursor, p);
    if width::width(w.name) <= 14 {
        lemma_padded(w.name, 14);
        assert(text::contains(l[3].content, w.name));
    }
    if width::width(w.path_display) <= 30 {
        lemma_padded(w.path_display, 30);
        assert(text::contains(l[5].content, w.path_display));
    }
    let to = "→ "@ + w.targets_display;
    if width::width(to) <= 22 {
        width::law_padding_is_blank(to, 22);
        let s = width::padded(to, 22);
        let post = s.skip(to.len() as int);
        text::lemma_contains_within("→ "@, w.targets_display, post);
        assert(s =~= "→ "@ + w.targets_display + post);
        assert(text::contains(l[7].content, w.targets_display));
    }
    lemma_watch_tail(w);
    assert(l[9].content == rows::watch_tail(w));
}

proof fn lemma_watch_tail(w: WatchUiView)
    ensures
        ({
            let tail = rows::watch_tail(w);
            &&& w.status is Running || w.status is Off ==> text::contains(
                tail,
                text::decimal(w.synced_count as nat),
            )
            &&& w.status matches WatchUiStatusView::LockedByOther(pid) ==> text::contains(
                tail,
                text::decimal(pid as nat),
            )
            &&& w.status matches WatchUiStatusView::Error(e) ==> width::width(e) <= 30
                ==> text::contains(tail, e)
            &&& w.pending_catchup.len() > 0 ==> text::contains(
                tail,
                text::decimal(w.pending_catchup.len()),
            )
        }),
{
    let tail = rows::watch_tail(w);
    let waiting = text::decimal(w.pending_catchup.len());
    let more = if w.pending_catchup.len() > 0 {
        "  ("@ + waiting + " new — press r)"@
    } else {
        Seq::<char>::empty()
    };
    if w.status is Running || w.status is Off {
        let d = text::decimal(w.synced_count as nat);
        assert(text::contains(tail, d)) by {
            lemma_at_start(d, " synced"@ + more);
            assert(d + (" synced"@ + more) =~= tail);
        }
    }
    if let WatchUiStatusView::LockedByOther(pid) = w.status {
        let d = text::decimal(pid as nat);
        assert(text::contains(tail, d)) by {
            text::lemma_contains_within("locked by PID "@, d, more);
            assert("locked by PID "@ + d + more =~= tail);
        }
    }
    if let WatchUiStatusView::Error(e) = w.status {
        if width::width(e) <= 30 {
            assert(text::contains(tail, e)) by {
                width::law_cutting_keeps_both_ends(e, 30);
                lemma_at_start(e, more);
                assert(e + more =~= tail);
            }
        }
    }
    if w.pending_catchup.len() > 0 {
        assert(text::contains(tail, waiting)) by {
            let base = tail.take(tail.len() - more.len());
            assert(tail =~= base + more);
            text::lemma_contains_within(base + "  ("@, waiting, " new — press r)"@);
            assert(base + "  ("@ + waiting + " new — press r)"@ =~= tail);
        }
    }
}

proof fn lemma_padded(s: Seq<char>, cols: nat)
    requires
        width::width(s) <= cols,
    ensures
        text::contains(width::padded(s, cols), s),
{
    width::law_padding_is_blank(s, cols);
    let all = width::padded(s, cols);
    lemma_at_start(s, all.skip(s.len() as int));
    assert(s + all.skip(s.len() as int) =~= all);
}

// ---------------------------------------------------------------------------
// Boxes
// ---------------------------------------------------------------------------
/// Every entry of the menu has a line with its number, its title and its key, and a click
/// on that line runs it.
pub proof fn law_the_menu_can_be_read(cursor: usize, area: Rect, p: Palette, i: int)
    requires
        0 <= i < types::menu().len(),
    ensures
        ({
            let page = overlays::menu_page(cursor, area, p);
            let entry = types::menu()[i];
            &&& page.len() == types::menu().len() + 1
            &&& line_shows(page[i + 1], entry.title())
            &&& line_shows(page[i + 1], entry.keys())
            &&& line_shows(page[i + 1], text::decimal((i + 1) as nat))
            &&& overlays::menu_hits(area)[i] == (
                overlays::box_line(overlays::menu_rect(area), i as nat),
                entry,
            )
        }),
{
    let entry = types::menu()[i];
    let l = overlays::menu_page(cursor, area, p)[i + 1];
    let d = text::decimal((i + 1) as nat);
    lemma_at_end("  "@ + d + ". "@, entry.title());
    assert(text::contains(l[0].content, entry.title()));
    text::lemma_contains_within("  "@, d, ". "@ + entry.title());
    assert("  "@ + d + (". "@ + entry.title()) =~= l[0].content);
    assert(text::contains(l[0].content, d));
    text::lemma_contains_within("  ["@, entry.keys(), "]"@);
    assert(text::contains(l[l.len() - 1].content, entry.keys()));
}

/// A form shows what has been typed into each of its lines, and marks the one that is
/// being typed in.
pub proof fn law_the_form_can_be_read(f: FormView, p: Palette)
    ensures
        ({
            let page = overlays::form_page(f, p);
            &&& line_shows(page[0], f.name)
            &&& line_shows(page[1], f.path)
            &&& line_shows(page[2], f.targets)
            &&& page[0][0].content[0] == '>' <==> f.field == FormField::Name
            &&& page[1][0].content[0] == '>' <==> f.field == FormField::Path
            &&& page[2][0].content[0] == '>' <==> f.field == FormField::Targets
        }),
{
    reveal_strlit("> ");
    reveal_strlit("  ");
    let page = overlays::form_page(f, p);
    lemma_at_start(f.name, "_"@);
    lemma_whole(f.name);
    assert(text::contains(page[0][1].content, f.name));
    lemma_at_start(f.path, "_"@);
    lemma_whole(f.path);
    assert(text::contains(page[1][1].content, f.path));
    lemma_at_start(f.targets, "_"@);
    lemma_whole(f.targets);
    assert(text::contains(page[2][1].content, f.targets));
}

/// An offered version, what was installed where, and why an update failed can be read.
pub proof fn law_updates_can_be_read(v: Seq<char>, paths: Seq<Seq<char>>, i: int, p: Palette)
    requires
        0 <= i < paths.len(),
    ensures
        page_shows(overlays::update_page(UpdateView::Available(v), p), v),
        page_shows(overlays::update_page(UpdateView::Installing(v), p), v),
        page_shows(overlays::update_page(UpdateView::Failed(v), p), v),
        page_shows(overlays::update_page(UpdateView::Installed(paths), p), paths[i]),
{
    let a = overlays::update_page(UpdateView::Available(v), p);
    lemma_at_end("v"@, v);
    assert(text::contains(a[2][1].content, v));
    assert(line_shows(a[2], v));
    let b = overlays::update_page(UpdateView::Installing(v), p);
    text::lemma_contains_within("  Downloading v"@, v, "…"@);
    assert(text::contains(b[1][0].content, v));
    assert(line_shows(b[1], v));
    let c = overlays::update_page(UpdateView::Failed(v), p);
    lemma_at_end("  "@, v);
    assert(text::contains(c[2][0].content, v));
    assert(line_shows(c[2], v));
    let d = overlays::update_page(UpdateView::Installed(paths), p);
    lemma_at_end("    "@, paths[i]);
    assert(d[i + 3] == overlays::path_lines(paths, p)[i]);
    assert(text::contains(d[i + 3][0].content, paths[i]));
    assert(line_shows(d[i + 3], paths[i]));
}

/// Every host that the picker has room for has a line with its number, its name, and
/// where it is reached; a click on that line is a click on that host.
pub proof fn law_the_picker_can_be_read(k: PickerView, area: Rect, p: Palette, i: int)
    requires
        0 <= i < overlays::picker_rows(k, area),
    ensures
        ({
            let l = overlays::picker_page(k, area, p)[i + 1];
            let h = k.list[i];
            let address = if h.hostname is Some {
                h.hostname->Some_0
            } else {
                h.name
            };
            &&& i < k.list.len()
            &&& line_shows(l, h.name)
            &&& line_shows(l, address)
            &&& h.user is Some ==> line_shows(l, h.user->Some_0 + "@"@ + address)
            &&& line_shows(l, text::decimal((i + 1) as nat))
            &&& overlays::picker_hits(k, area)[i] == overlays::box_line(
                overlays::picker_rect(k, area),
                i as nat,
            )
        }),
{
    let l = overlays::picker_page(k, area, p)[i + 1];
    let w = overlays::picker_rect(k, area).width;
    lemma_picker_text(k.list[i], i, w);
    assert(l[0].content == overlays::picker_text(k.list[i], i, w));
}

proof fn lemma_picker_text(h: HostView, i: int, w: u16)
    requires
        i >= 0,
    ensures
        ({
            let c = overlays::picker_text(h, i, w);
            let address = if h.hostname is Some {
                h.hostname->Some_0
            } else {
                h.name
            };
            &&& text::contains(c, h.name)
            &&& text::contains(c, address)
            &&& h.user is Some ==> text::contains(c, h.user->Some_0 + "@"@ + address)
            &&& text::contains(c, text::decimal((i + 1) as nat))
        }),
{
    let c = overlays::picker_text(h, i, w);
    let d = text::decimal((i + 1) as nat);
    let e = overlays::host_endpoint(h);
    let address = match h.hostname {
        Some(x) => x,
        None => h.name,
    };
    let (b, dot) = ("  "@, ". "@);
    let t = b + d + dot + h.name + b + e;
    let post = c.skip(t.len() as int);
    assert(c =~= t + post);
    assert(text::contains(c, e)) by {
        text::lemma_contains_within(b + d + dot + h.name + b, e, post);
    }
    assert(text::contains(c, h.name)) by {
        text::lemma_contains_within(b + d + dot, h.name, b + e + post);
        assert(b + d + dot + h.name + (b + e + post) =~= c);
    }
    assert(text::contains(c, d)) by {
        text::lemma_contains_within(b, d, dot + h.name + b + e + post);
        assert(b + d + (dot + h.name + b + e + post) =~= c);
    }
    if let Some(u) = h.user {
        assert(text::contains(c, address)) by {
            let front = b + d + dot + h.name + b + u + "@"@;
            text::lemma_contains_within(front, address, post);
            assert(front + address + post =~= c);
        }
    }
}

/// A row of the activity shows its sign, its target and its state; its file, too, as far
/// as there is room; and a badge just where its path was copied last.
pub proof fn law_activity_rows_can_be_read(
    r: RowText,
    inner_w: nat,
    p: Palette,
    is_cursor: bool,
    is_copied: bool,
)
    ensures
        ({
            let l = rows::row_line(r, inner_w, p, is_cursor, is_copied);
            &&& line_shows(l, r.icon)
            &&& line_shows(l, r.target)
            &&& line_shows(l, r.right)
            &&& width::width(r.filename) + width::width(r.right) + rows::badge_columns(is_copied)
                + 22 <= inner_w ==> line_shows(l, r.filename)
            &&& l.len() == if is_copied {
                10nat
            } else {
                9
            }
            &&& is_copied ==> l[8].content == rows::COPIED_BADGE@
        }),
{
    let l = rows::row_line(r, inner_w, p, is_cursor, is_copied);
    lemma_whole(r.icon);
    assert(text::contains(l[1].content, r.icon));
    lemma_whole(r.target);
    assert(text::contains(l[3].content, r.target));
    lemma_whole(r.right);
    assert(text::contains(l[7].content, r.right));
    if width::width(r.filename) + width::width(r.right) + rows::badge_columns(is_copied) + 22
        <= inner_w {
        let used = width::width(r.right) + rows::badge_columns(is_copied)
            + rows::RIGHT_GUTTER as nat;
        let budget = rows::monus(rows::monus(inner_w, rows::LEFT_FIXED as nat), used);
        width::law_cutting_keeps_both_ends(r.filename, if budget < 3 {
            3
        } else {
            budget
        });
        lemma_whole(r.filename);
        assert(text::contains(l[5].content, r.filename));
    }
}

/// The title of the activity says how many rows are live and how many records there are.
pub proof fn law_the_activity_is_counted(a: AppView, p: Palette)
    requires
        a.activity_filter is None,
        a.history.len() > 0,
    ensures
        line_shows(feed::feed_title(a, p), text::decimal(a.history.len())),
        line_shows(feed::feed_title(a, p), text::decimal(feed::live_of(a).len())),
{
    let l = feed::feed_title(a, p);
    let (live, past) = (text::decimal(feed::live_of(a).len()), text::decimal(a.history.len()));
    let c = l[1].content;
    let (x, y, z) = ("· "@, " live · "@, " in history "@);
    assert(text::contains(c, live)) by {
        text::lemma_contains_within(x, live, y + past + z);
        assert(x + live + (y + past + z) =~= c);
    }
    assert(text::contains(c, past)) by {
        text::lemma_contains_within(x + live + y, past, z);
    }
}

/// The row `i` of a panel is its line `i` inside the border, and no other row is there.
pub proof fn law_rows_lie_on_their_lines(area: Rect, n: nat, i: int, x: u16, y: u16)
    requires
        area.x + area.width <= u16::MAX,
        area.y + area.height <= u16::MAX,
        0 <= i < panels::row_rects(area, n).len(),
    ensures
        panels::row_rects(area, n)[i].has(x, y) <==> y == area.y + 1 + i && area.x < x && x + 1
            < area.x + area.width,
        panels::row_rects(area, n).len() <= n,
        area.y + 1 + i < area.y + area.height - 1,
{
}

/// The chip `i` of the help bar lies behind those before it and is as wide as its text; a
/// click on it is a click on that chip.
pub proof fn law_chips_lie_side_by_side(area: Rect, n: nat, i: int)
    requires
        0 <= i < n <= 6,
        panels::chip_start(n, area.x as nat) <= u16::MAX,
    ensures
        ({
            let hits = panels::chip_hits(n, area);
            &&& hits.len() == n
            &&& hits[i].1 == panels::chip(i as nat).2
            &&& hits[i].0.y == area.y && hits[i].0.height == 1
            &&& hits[0].0.x == area.x
            &&& i + 1 < n ==> hits[i + 1].0.x == hits[i].0.x + panels::chip(i as nat).0.len()
                + panels::chip(i as nat).1.len()
        }),
{
    lemma_chip_start(i as nat, n, area.x as nat);
    if i + 1 < n {
        lemma_chip_start((i + 1) as nat, n, area.x as nat);
    }
}

proof fn lemma_chip_start(i: nat, n: nat, x: nat)
    requires
        i <= n,
    ensures
        panels::chip_start(i, x) <= panels::chip_start(n, x),
    decreases n,
{
    if i < n {
        lemma_chip_start(i, (n - 1) as nat, x);
    }
}

/// A file that a watch sent is listed with its name, its watch, and how long ago it was.
pub proof fn law_recent_files_can_be_read(e: types::RecentView, p: Palette, now_ms: u64)
    requires
        e.at_ms <= now_ms,
    ensures
        ({
            let l = panels::recent_line(e, p, now_ms);
            &&& width::width(e.file_display) <= 28 ==> line_shows(l, e.file_display)
            &&& line_shows(l, e.watch_name)
            &&& line_shows(l, rows::elapsed_text(((now_ms - e.at_ms) / 1000) as nat))
        }),
{
    let l = panels::recent_line(e, p, now_ms);
    if width::width(e.file_display) <= 28 {
        lemma_padded(e.file_display, 28);
        assert(text::contains(l[3].content, e.file_display));
    }
    lemma_at_end("→ "@, e.watch_name);
    assert(text::contains(l[5].content, e.watch_name));
    let t = rows::elapsed_text(((now_ms - e.at_ms) / 1000) as nat);
    lemma_whole(t);
    assert(text::contains(l[7].content, t));
}

/// In the Watch tab every watch has its line, in order.
pub proof fn law_every_watch_can_be_read(a: AppView, area: Rect, p: Palette, i: int)
    requires
        0 <= i < a.watches.len(),
    ensures
        ({
            let page = lines_of(panels::watches_panel(a, area, p)[1]);
            &&& page.len() == a.watches.len()
            &&& width::width(a.watches[i].name) <= 14 ==> line_shows(page[i], a.watches[i].name)
        }),
{
    let l = lines_of(panels::watches_panel(a, area, p)[1])[i];
    if width::width(a.watches[i].name) <= 14 {
        lemma_padded(a.watches[i].name, 14);
        assert(text::contains(l[3].content, a.watches[i].name));
    }
}

/// What a frame shows: the bars, the panels of the tab, and whatever lies over them, the
/// host picker on top of all.
pub proof fn law_frames_show_everything(
    a: AppView,
    size: Rect,
    at: screen::Places,
    m: screen::Moment,
)
    ensures
        ({
            let p = theme::colors(a.cfg.theme);
            let all = screen::picture(a, size, at, m);
            &&& all.contains(panels::title_bar(a, at.title, p))
            &&& all.contains(panels::tab_bar(a, at.tab_bar, p))
            &&& all.contains(panels::toast_bar(a, at.toast, p))
            &&& all.contains(panels::help_bar(at.help_bar, p))
            &&& at.body matches screen::Body::Drop { targets, activity, drop_zone }
                ==> all.contains(panels::targets_panel(a, targets, p)) && all.contains(
                panels::drop_zone(a, drop_zone, m.sizes, p),
            )
            &&& a.ssh_picker matches Some(k) ==> lines_of(all.last())
                == overlays::picker_page(k, size, p)
            &&& a.ssh_picker is None && a.menu_visible ==> lines_of(all.last())
                == overlays::menu_page(a.menu_cursor, size, p)
        }),
{
    let p = theme::colors(a.cfg.theme);
    let all = screen::picture(a, size, at, m);
    let body = screen::body_picture(a, at.body, p, m);
    let n = body.len() as int;
    let over = screen::overlay_picture(a, size, p);
    assert(all[0] == panels::title_bar(a, at.title, p));
    assert(all[1] == panels::tab_bar(a, at.tab_bar, p));
    assert(all[2 + n] == panels::toast_bar(a, at.toast, p));
    assert(all[3 + n] == panels::help_bar(at.help_bar, p));
    if let screen::Body::Drop { targets, activity, drop_zone } = at.body {
        assert(all[2] == body[0]);
        assert(all[2 + n - 1] == body[n - 1]);
    }
    if over.len() > 0 {
        assert(all.last() == over.last());
    }
}

} // verus!
