//! The Activity panel: live transfers at the top, then history groups (same
//! remote_path collapsed into one row).
use vstd::prelude::*;

use crate::app::activity;
use crate::app::types::{ActivityRef, App, AppView, Focus, Rect};
use crate::history;
use crate::history::EntryView;
use crate::text;
use crate::transfer::{Transfer, TransferView};
use crate::ui::panels;
use crate::ui::rows;
use crate::ui::rows::{GroupRow, HistoryGroup};
use crate::ui::style;
use crate::ui::style::{Canvas, Frame, Line, Page, PaintView, SpanView, Style, Widget, WidgetView};
use crate::ui::theme::Palette;

verus! {

pub open spec fn live_of(a: AppView) -> Seq<TransferView> {
    activity::live_transfers(a.transfers, activity::query_of(a))
}

pub open spec fn groups_of(a: AppView) -> Seq<GroupRow> {
    rows::grouped(history::filtered(a.history, activity::query_of(a)))
}

pub open spec fn feed_title(a: AppView, p: Palette) -> Seq<SpanView> {
    let live = live_of(a).len();
    if a.activity_filter is Some {
        seq![
            style::raw(" Activity "@),
            style::styled(
                "· "@ + text::decimal(live + groups_of(a).len()) + " shown "@,
                Style::plain().fg(p.muted),
            ),
        ]
    } else if a.history.len() == 0 && live == 0 {
        seq![style::raw(" Activity "@)]
    } else {
        seq![
            style::raw(" Activity "@),
            style::styled(
                "· "@ + text::decimal(live) + " live · "@ + text::decimal(a.history.len())
                    + " in history "@,
                Style::plain().fg(p.muted),
            ),
        ]
    }
}

/// The line in which the filter is typed.
pub open spec fn filter_line(query: Seq<char>, p: Palette) -> Seq<SpanView> {
    seq![
        style::raw(" "@),
        style::styled("/"@, Style::plain().fg(p.accent).bold()),
        style::styled(query, Style::plain().fg(p.fg)),
        style::styled("▏"@, Style::plain().fg(p.accent)),
        style::raw("  "@),
        style::styled("Esc to close"@, Style::plain().fg(p.muted).dim()),
    ]
}

/// The line at `n` of an area.
pub open spec fn line_rect(inner: Rect, n: nat) -> Rect {
    Rect { x: inner.x, y: panels::plus(inner.y, n), width: inner.width, height: 1 }
}

/// Too small for rows.
pub open spec fn cramped(inner: Rect) -> bool {
    inner.width < 16 || inner.height == 0
}

/// Lines above the rows: one for the filter, while it is typed.
pub open spec fn rows_above(a: AppView) -> nat {
    if a.activity_filter is Some {
        1
    } else {
        0
    }
}

pub open spec fn total_rows(a: AppView) -> nat {
    live_of(a).len() + groups_of(a).len()
}

/// The rows that there is room for.
pub open spec fn rows_shown(a: AppView, inner: Rect) -> nat {
    let room = rows::monus(inner.height as nat, rows_above(a));
    if cramped(inner) {
        0
    } else if total_rows(a) < room {
        total_rows(a)
    } else {
        room
    }
}

/// The cursor, moved back onto the rows where they are drawn.
pub open spec fn cursor_shown(a: AppView, inner: Rect) -> usize {
    if !cramped(inner) && total_rows(a) > 0 && a.activity_cursor >= total_rows(a) {
        (total_rows(a) - 1) as usize
    } else {
        a.activity_cursor
    }
}

pub open spec fn feed_line(a: AppView, inner: Rect, k: int, p: Palette, now: u64) -> Seq<SpanView> {
    let live = live_of(a);
    let groups = groups_of(a);
    let is_cursor = a.focus == Focus::Progress && k == cursor_shown(a, inner);
    let w = inner.width as nat;
    if k < live.len() {
        let copied = a.last_copied_remote is Some && rows::is_remote_of(
            live[k],
            a.last_copied_remote->Some_0,
        );
        rows::row_line(rows::live_text(live[k], p), w, p, is_cursor, copied)
    } else {
        let g = groups[k - live.len()];
        let copied = a.last_copied_remote == Some(g.primary.remote_path);
        rows::row_line(rows::group_text(g, p, now), w, p, is_cursor, copied)
    }
}

pub open spec fn feed_ref(a: AppView, k: int) -> ActivityRef {
    let live = live_of(a);
    if k < live.len() {
        ActivityRef::Live(live[k].id)
    } else {
        ActivityRef::History(groups_of(a)[k - live.len()].primary_idx)
    }
}

/// What is painted for the rows.
pub open spec fn feed_rows(a: AppView, inner: Rect, p: Palette, now: u64) -> Seq<PaintView> {
    Seq::new(
        rows_shown(a, inner),
        |k: int|
            style::bare_text(
                line_rect(inner, rows_above(a) + k as nat),
                seq![feed_line(a, inner, k, p, now)],
                Style::plain().bg(p.bg),
            ),
    )
}

/// Where the rows can be clicked, and what they stand for.
pub open spec fn feed_hits(a: AppView, inner: Rect) -> Seq<(Rect, usize, ActivityRef)> {
    Seq::new(
        rows_shown(a, inner),
        |k: int|
            (line_rect(inner, rows_above(a) + k as nat), k as usize, feed_ref(a, k)),
    )
}

/// What is painted above the rows.
pub open spec fn feed_head(a: AppView, area: Rect, p: Palette) -> Seq<PaintView> {
    let inner = panels::inside(area);
    let frame = seq![
        PaintView {
            area,
            widget: WidgetView::Frame(
                panels::panel_frame(feed_title(a, p), a.focus == Focus::Progress, p),
            ),
        },
    ];
    if !cramped(inner) && a.activity_filter is Some {
        frame.push(
            style::bare_text(
                line_rect(inner, 0),
                seq![filter_line(activity::query_of(a), p)],
                Style::plain().bg(p.bg),
            ),
        )
    } else {
        frame
    }
}

/// What is said where there are no rows.
pub open spec fn feed_hint(a: AppView, inner: Rect, p: Palette) -> Seq<PaintView> {
    if !cramped(inner) && total_rows(a) == 0 && rows_above(a) < inner.height {
        seq![
            style::bare_text(
                line_rect(inner, rows_above(a)),
                seq![
                    seq![
                        style::styled(
                            if a.activity_filter is Some {
                                "  no matches"@
                            } else {
                                "  drop a file to start — history will appear here"@
                            },
                            Style::plain().fg(p.muted),
                        ),
                    ],
                ],
                Style::plain().bg(p.bg),
            ),
        ]
    } else {
        seq![]
    }
}

pub open spec fn feed(a: AppView, area: Rect, p: Palette, now: u64) -> Seq<PaintView> {
    let inner = panels::inside(area);
    feed_head(a, area, p) + feed_hint(a, inner, p) + feed_rows(a, inner, p, now)
}

fn title_of_feed(
    filter_active: bool,
    live: usize,
    groups: usize,
    entries: usize,
    p: &Palette,
    Ghost(a): Ghost<AppView>,
) -> (l: Line)
    requires
        filter_active == (a.activity_filter is Some),
        live == live_of(a).len(),
        groups == groups_of(a).len(),
        entries == a.history.len(),
    ensures
        l@ == feed_title(a, *p),
{
    let mut l = Line::new();
    l.put_raw(" Activity ");
    if filter_active {
        let n: u128 = live as u128 + groups as u128;
        let mut t = "· ".to_owned();
        let d = text::to_decimal_wide(n);
        t.append(d.as_str());
        t.append(" shown ");
        l.put(t.as_str(), Style::plain().fg(p.muted));
    } else if entries > 0 || live > 0 {
        let mut t = "· ".to_owned();
        let d = text::to_decimal(live as u64);
        t.append(d.as_str());
        t.append(" live · ");
        let e = text::to_decimal(entries as u64);
        t.append(e.as_str());
        t.append(" in history ");
        l.put(t.as_str(), Style::plain().fg(p.muted));
    }
    assert(l@ =~= feed_title(a, *p));
    l
}

/// One row of the panel.
fn line_of_feed(
    app: &App,
    live: &Vec<Transfer>,
    groups: &Vec<HistoryGroup>,
    k: usize,
    inner: Rect,
    p: &Palette,
    now: u64,
    Ghost(a): Ghost<AppView>,
) -> (r: (Line, ActivityRef))
    requires
        text::views(live@) == live_of(a),
        text::views(groups@) == groups_of(a),
        k < live@.len() + groups@.len(),
        app@ == (AppView { activity_cursor: cursor_shown(a, inner), ..a }),
    ensures
        r.0@ == feed_line(a, inner, k as int, *p, now),
        r.1 == feed_ref(a, k as int),
{
    assert(live@.len() == live_of(a).len());
    let is_cursor = app.focus == Focus::Progress && k == app.activity_cursor;
    let w: usize = inner.width as usize;
    if k < live.len() {
        let t = &live[k];
        assert(live_of(a)[k as int] == t@);
        let copied = match &app.last_copied_remote {
            Some(cp) => rows::live_remote_matches(t, cp.as_str()),
            None => false,
        };
        (rows::render_live_line(t, w, p, is_cursor, copied), ActivityRef::Live(t.id))
    } else {
        let g = &groups[k - live.len()];
        assert(groups_of(a)[k - live_of(a).len()] == g@);
        let copied = match &app.last_copied_remote {
            Some(cp) => text::same(cp.as_str(), g.primary.remote_path.as_str()),
            None => false,
        };
        (
            rows::render_history_group_line(g, w, p, is_cursor, copied, now),
            ActivityRef::History(g.primary_idx),
        )
    }
}

fn page_of_filter(query: &str, p: &Palette) -> (r: Page)
    ensures
        r@ == seq![filter_line(query@, *p)],
{
    let mut l = Line::new();
    l.put_raw(" ");
    l.put("/", Style::plain().fg(p.accent).bold());
    l.put(query, Style::plain().fg(p.fg));
    l.put("▏", Style::plain().fg(p.accent));
    l.put_raw("  ");
    l.put("Esc to close", Style::plain().fg(p.muted).dim());
    assert(l@ == filter_line(query@, *p));
    Page::of(l)
}

fn rect_of_line(inner: Rect, n: u16) -> (r: Rect)
    ensures
        r == line_rect(inner, n as nat),
{
    Rect { x: inner.x, y: inner.y.saturating_add(n), width: inner.width, height: 1 }
}

/// Draws the rows that there is room for.
fn draw_rows(
    c: &mut Canvas,
    app: &App,
    live: &Vec<Transfer>,
    groups: &Vec<HistoryGroup>,
    inner: Rect,
    above: u16,
    p: &Palette,
    now: u64,
    Ghost(a): Ghost<AppView>,
) -> (hits: Vec<(Rect, usize, ActivityRef)>)
    requires
        text::views(live@) == live_of(a),
        text::views(groups@) == groups_of(a),
        above == rows_above(a),
        !cramped(inner),
        app@ == (AppView { activity_cursor: cursor_shown(a, inner), ..a }),
    ensures
        final(c)@ == old(c)@ + feed_rows(a, inner, *p, now),
        hits@ == feed_hits(a, inner),
{
    assert(live@.len() == live_of(a).len());
    assert(groups@.len() == groups_of(a).len());
    let total: u128 = live.len() as u128 + groups.len() as u128;
    let room: u16 = inner.height.saturating_sub(above);
    let n: u16 = if total < room as u128 {
        total as u16
    } else {
        room
    };
    let ghost before = c@;
    let ghost want = feed_rows(a, inner, *p, now);
    let mut hits: Vec<(Rect, usize, ActivityRef)> = Vec::new();
    let mut k: u16 = 0;
    assert(c@ =~= before + want.take(0));
    assert(hits@ =~= feed_hits(a, inner).take(0));
    while k < n
        invariant
            k <= n,
            n == rows_shown(a, inner),
            n <= live@.len() + groups@.len(),
            n + above <= 65535,
            text::views(live@) == live_of(a),
            text::views(groups@) == groups_of(a),
            above == rows_above(a),
            app@ == (AppView { activity_cursor: cursor_shown(a, inner), ..a }),
            want == feed_rows(a, inner, *p, now),
            c@ == before + want.take(k as int),
            hits@ == feed_hits(a, inner).take(k as int),
        decreases n - k,
    {
        let (l, r) = line_of_feed(app, live, groups, k as usize, inner, p, now, Ghost(a));
        let rect = rect_of_line(inner, above + k);
        let page = Page::of(l);
        c.put_text(rect, page, Style::plain().bg(p.bg));
        hits.push((rect, k as usize, r));
        assert(want[k as int] == style::bare_text(
            line_rect(inner, rows_above(a) + k as nat),
            seq![feed_line(a, inner, k as int, *p, now)],
            Style::plain().bg(p.bg),
        ));
        assert(c@ =~= before + want.take(k + 1));
        assert(hits@ =~= feed_hits(a, inner).take(k + 1));
        k = k + 1;
    }
    assert(want.take(k as int) =~= want);
    assert(feed_hits(a, inner).take(k as int) =~= feed_hits(a, inner));
    hits
}

/// Draws the Activity panel, and says where its rows can be clicked. Click or
/// cursor+Enter copies the row's remote path; the last-copied row keeps a
/// `📋 on clipboard` badge so the user always knows what's in the paste buffer.
pub fn draw_activity(c: &mut Canvas, area: Rect, app: &mut App, p: &Palette, now: u64) -> (hits:
    Vec<(Rect, usize, ActivityRef)>)
    ensures
        final(c)@ == old(c)@ + feed(old(app)@, area, *p, now),
        hits@ == feed_hits(old(app)@, panels::inside(area)),
        final(app)@ == (AppView {
            activity_cursor: cursor_shown(old(app)@, panels::inside(area)),
            ..old(app)@
        }),
{
    let ghost a = app@;
    let ghost before = c@;
    let filter_active = app.activity_filter.is_some();
    let query = app.activity_query();
    let live = activity::collect_live(&app.transfers, query.as_str());
    let matches = app.history.filter(query.as_str());
    let groups = rows::group_history(&matches);
    assert(live@.len() == live_of(a).len());
    assert(groups@.len() == groups_of(a).len());
    assert(app.history@.len() == app.history.entries@.len());
    let title = title_of_feed(
        filter_active,
        live.len(),
        groups.len(),
        app.history.entries.len(),
        p,
        Ghost(a),
    );
    let frame = Frame {
        title,
        border: panels::border_style(app.focus == Focus::Progress, p),
        style: Style::plain().fg(p.fg).bg(p.bg),
    };
    c.put(area, Widget::Frame(frame));
    let inner = panels::inner_area(area);
    if inner.width < 16 || inner.height == 0 {
        let none: Vec<(Rect, usize, ActivityRef)> = Vec::new();
        assert(none@ =~= feed_hits(a, inner));
        assert(feed_rows(a, inner, *p, now) =~= seq![]);
        assert(c@ =~= before + feed(a, area, *p, now));
        return none;
    }
    let mut above: u16 = 0;
    if filter_active {
        let page = page_of_filter(query.as_str(), p);
        c.put_text(rect_of_line(inner, 0), page, Style::plain().bg(p.bg));
        above = 1;
    }
    assert(c@ =~= before + feed_head(a, area, *p));
    if live.len() == 0 && groups.len() == 0 {
        if above < inner.height {
            let hint = Line::of(
                if filter_active {
                    "  no matches"
                } else {
                    "  drop a file to start — history will appear here"
                },
                Style::plain().fg(p.muted),
            );
            c.put_text(rect_of_line(inner, above), Page::of(hint), Style::plain().bg(p.bg));
        }
        assert(c@ =~= before + feed_head(a, area, *p) + feed_hint(a, inner, *p));
        let none: Vec<(Rect, usize, ActivityRef)> = Vec::new();
        assert(none@ =~= feed_hits(a, inner));
        assert(feed_rows(a, inner, *p, now) =~= seq![]);
        assert(c@ =~= before + feed(a, area, *p, now));
        return none;
    }
    let total: u128 = live.len() as u128 + groups.len() as u128;
    if app.activity_cursor as u128 >= total {
        app.activity_cursor = (total - 1) as usize;
    }
    let hits = draw_rows(c, app, &live, &groups, inner, above, p, now, Ghost(a));
    assert(c@ =~= before + feed(a, area, *p, now));
    hits
}

proof fn lemma_filtered_len(es: Seq<EntryView>, q: Seq<char>)
    ensures
        history::filtered(es, q).len() <= es.len(),
    decreases es.len(),
{
    if es.len() > 0 {
        lemma_filtered_len(es.drop_last(), q);
    }
}

/// A click on a row, and Enter with the cursor on it, mean the same thing: the
/// rows that are drawn are the ones that the cursor goes through, in order.
pub proof fn law_drawn_rows_are_the_cursors_rows(a: AppView, inner: Rect, k: int)
    requires
        a.history.len() <= usize::MAX,
        0 <= k < feed_hits(a, inner).len(),
    ensures
        feed_hits(a, inner)[k].1 == k,
        k < activity::row_refs(a).len(),
        feed_hits(a, inner)[k].2 == activity::row_refs(a)[k],
{
    let es = history::filtered(a.history, activity::query_of(a));
    lemma_filtered_len(a.history, activity::query_of(a));
    rows::law_groups_are_the_rows(es);
    let live = live_of(a);
    if k >= live.len() {
        assert(groups_of(a)[k - live.len()].primary_idx == activity::first_of_each(
            es,
        )[k - live.len()]);
    }
}

} // verus!
