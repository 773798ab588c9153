//! The bars and panels of both tabs.
use vstd::prelude::*;

use crate::app::edit;
use crate::app::types::{
    App, AppView, Focus, HelpBarAction, Rect, RowView, Tab, TargetKind, TargetRow, WatchRecent,
    RecentView, WatchUi, WatchUiStatus, WatchUiView,
};
use crate::target::SyncMode;
use crate::text;
use crate::ui::rows;
use crate::ui::style;
use crate::ui::style::{
    Canvas, Frame, FrameView, Line, Page, PaintView, SpanView, Style, Widget, WidgetView,
};
use crate::ui::theme::Palette;
use crate::ui::width;
use crate::update;

verus! {

// ---------------------------------------------------------------------------
// Cells
// ---------------------------------------------------------------------------
/// `a + b`, or the largest number.
pub open spec fn plus(a: u16, b: nat) -> u16 {
    if a + b > u16::MAX {
        u16::MAX
    } else {
        (a + b) as u16
    }
}

/// `a - b`, or zero.
pub open spec fn less(a: u16, b: nat) -> u16 {
    if a >= b {
        (a - b) as u16
    } else {
        0
    }
}

/// What is left of an area inside a border.
pub open spec fn inside(r: Rect) -> Rect {
    Rect {
        x: if r.width > 0 {
            plus(r.x, 1)
        } else {
            r.x
        },
        y: if r.height > 0 {
            plus(r.y, 1)
        } else {
            r.y
        },
        width: less(r.width, 2),
        height: less(r.height, 2),
    }
}

pub fn inner_area(r: Rect) -> (i: Rect)
    ensures
        i == inside(r),
{
    Rect {
        x: if r.width > 0 {
            r.x.saturating_add(1)
        } else {
            r.x
        },
        y: if r.height > 0 {
            r.y.saturating_add(1)
        } else {
            r.y
        },
        width: r.width.saturating_sub(2),
        height: r.height.saturating_sub(2),
    }
}

/// The lines inside a border, as far as there are lines to show.
pub open spec fn row_rects(area: Rect, n: nat) -> Seq<Rect> {
    let room = less(area.height, 2) as nat;
    Seq::new(
        if n < room {
            n
        } else {
            room
        },
        |i: int|
            Rect {
                x: plus(area.x, 1),
                y: plus(area.y, (1 + i) as nat),
                width: less(area.width, 2),
                height: 1,
            },
    )
}

fn rects_for_rows(area: Rect, n: usize) -> (r: Vec<Rect>)
    ensures
        r@ == row_rects(area, n as nat),
{
    let room: usize = area.height.saturating_sub(2) as usize;
    let count = if n < room {
        n
    } else {
        room
    };
    let mut out: Vec<Rect> = Vec::new();
    let mut i: usize = 0;
    while i < count
        invariant
            i <= count <= 65533,
            out@.len() == i,
            forall|k: int|
                0 <= k < i ==> (#[trigger] out@[k]) == (Rect {
                    x: plus(area.x, 1),
                    y: plus(area.y, (1 + k) as nat),
                    width: less(area.width, 2),
                    height: 1,
                }),
        decreases count - i,
    {
        out.push(
            Rect {
                x: area.x.saturating_add(1),
                y: area.y.saturating_add(1 + i as u16),
                width: area.width.saturating_sub(2),
                height: 1,
            },
        );
        i = i + 1;
    }
    assert(out@ =~= row_rects(area, n as nat));
    out
}

// ---------------------------------------------------------------------------
// Frames
// ---------------------------------------------------------------------------
/// The border of a panel: it stands out where the panel is focused.
#[verifier::allow_in_spec]
pub fn border_style(focused: bool, p: &Palette) -> (s: Style)
    returns
        (if focused {
            Style::plain().fg(p.accent).bold()
        } else {
            Style::plain().fg(p.muted)
        }),
{
    if focused {
        Style::plain().fg(p.accent).bold()
    } else {
        Style::plain().fg(p.muted)
    }
}

/// A panel's frame, on the theme's background.
pub open spec fn panel_frame(title: Seq<SpanView>, focused: bool, p: Palette) -> FrameView {
    FrameView {
        title,
        border: border_style(focused, &p),
        style: Style::plain().fg(p.fg).bg(p.bg),
    }
}

fn frame_of(title: Line, focused: bool, p: &Palette) -> (f: Frame)
    ensures
        f@ == panel_frame(title@, focused, *p),
{
    Frame {
        title,
        border: border_style(focused, p),
        style: Style::plain().fg(p.fg).bg(p.bg),
    }
}

fn titled(title: &str) -> (l: Line)
    ensures
        l@ == seq![style::raw(title@)],
{
    let mut l = Line::new();
    l.put_raw(title);
    l
}

// ---------------------------------------------------------------------------
// Bars
// ---------------------------------------------------------------------------
pub open spec fn mode_name(m: SyncMode) -> Seq<char> {
    match m {
        SyncMode::Auto => "auto"@,
        SyncMode::Manual => "manual"@,
    }
}

pub open spec fn title_line(a: AppView, p: Palette) -> Seq<SpanView> {
    seq![
        style::styled(" lzsync "@, Style::plain().bg(p.accent).fg(p.bg).bold()),
        style::raw(" "@),
        style::styled("v"@ + update::VERSION@, Style::plain().fg(p.muted)),
        style::raw("   "@),
        style::styled("["@ + mode_name(a.mode) + "]"@, Style::plain().fg(p.accent)),
        style::raw("   "@),
        style::styled(
            "clipboard: "@ + edit::format_name(a.clipboard_format),
            Style::plain().fg(p.muted),
        ),
    ]
}

/// The first line of the screen.
pub open spec fn title_bar(a: AppView, area: Rect, p: Palette) -> PaintView {
    style::bare_text(area, seq![title_line(a, p)], Style::plain().fg(p.fg).bg(p.bg))
}

pub fn draw_title(c: &mut Canvas, area: Rect, app: &App, p: &Palette)
    ensures
        final(c)@ == old(c)@.push(title_bar(app@, area, *p)),
{
    let mut version = "v".to_owned();
    version.append(update::VERSION);
    let mut mode = "[".to_owned();
    match app.mode {
        SyncMode::Auto => mode.append("auto"),
        SyncMode::Manual => mode.append("manual"),
    }
    mode.append("]");
    let mut format = "clipboard: ".to_owned();
    format.append(edit::name_of_format(app.clipboard_format));
    let mut l = Line::new();
    l.put(" lzsync ", Style::plain().bg(p.accent).fg(p.bg).bold());
    l.put_raw(" ");
    l.put(version.as_str(), Style::plain().fg(p.muted));
    l.put_raw("   ");
    l.put(mode.as_str(), Style::plain().fg(p.accent));
    l.put_raw("   ");
    l.put(format.as_str(), Style::plain().fg(p.muted));
    assert(l@ == title_line(app@, *p));
    c.put_text(area, Page::of(l), Style::plain().fg(p.fg).bg(p.bg));
}

/// How many watches run or are about to.
pub open spec fn live_watches(ws: Seq<WatchUiView>) -> nat
    decreases ws.len(),
{
    if ws.len() == 0 {
        0
    } else {
        let s = ws.last().status;
        live_watches(ws.drop_last()) + if s is Starting || s is Running {
            1nat
        } else {
            0
        }
    }
}

fn count_live_watches(ws: &Vec<WatchUi>) -> (r: usize)
    ensures
        r == live_watches(text::views(ws@)),
{
    let ghost all = text::views(ws@);
    let mut n: usize = 0;
    let mut i: usize = 0;
    while i < ws.len()
        invariant
            i <= ws@.len(),
            n <= i,
            all == text::views(ws@),
            n == live_watches(all.take(i as int)),
        decreases ws@.len() - i,
    {
        assert(all.take(i + 1).drop_last() =~= all.take(i as int));
        assert(all.take(i + 1).last() == ws@[i as int]@);
        match &ws[i].status {
            WatchUiStatus::Starting | WatchUiStatus::Running => {
                n = n + 1;
            },
            _ => {},
        }
        i = i + 1;
    }
    assert(all.take(i as int) =~= all);
    n
}

pub open spec fn tab_style(active: bool, p: Palette) -> Style {
    if active {
        Style::plain().bg(p.accent).fg(p.bg).bold()
    } else {
        Style::plain().fg(p.muted)
    }
}

/// The tabs, and on the Drop tab how many watches run behind it.
pub open spec fn tab_line(a: AppView, p: Palette) -> Seq<SpanView> {
    let tabs = seq![
        style::raw(" "@),
        style::styled(" 1 Drop "@, tab_style(a.current_tab == Tab::Drop, p)),
        style::raw(" "@),
        style::styled(" 2 Watch "@, tab_style(a.current_tab == Tab::Watch, p)),
    ];
    let n = live_watches(a.watches);
    if n > 0 && a.current_tab != Tab::Watch {
        tabs.push(style::raw("   "@)).push(
            style::styled(
                "● "@ + text::decimal(n) + " watching"@,
                Style::plain().fg(p.diff_add),
            ),
        )
    } else {
        tabs
    }
}

pub open spec fn tab_bar(a: AppView, area: Rect, p: Palette) -> PaintView {
    style::bare_text(area, seq![tab_line(a, p)], Style::plain())
}

fn style_of_tab(active: bool, p: &Palette) -> (s: Style)
    ensures
        s == tab_style(active, *p),
{
    if active {
        Style::plain().bg(p.accent).fg(p.bg).bold()
    } else {
        Style::plain().fg(p.muted)
    }
}

pub fn draw_tab_bar(c: &mut Canvas, area: Rect, app: &App, p: &Palette)
    ensures
        final(c)@ == old(c)@.push(tab_bar(app@, area, *p)),
{
    let mut l = Line::new();
    l.put_raw(" ");
    l.put(" 1 Drop ", style_of_tab(app.current_tab == Tab::Drop, p));
    l.put_raw(" ");
    l.put(" 2 Watch ", style_of_tab(app.current_tab == Tab::Watch, p));
    let n = count_live_watches(&app.watches);
    if n > 0 && app.current_tab != Tab::Watch {
        let mut t = "● ".to_owned();
        let d = text::to_decimal(n as u64);
        t.append(d.as_str());
        t.append(" watching");
        l.put_raw("   ");
        l.put(t.as_str(), Style::plain().fg(p.diff_add));
    }
    assert(l@ == tab_line(app@, *p));
    c.put_text(area, Page::of(l), Style::plain());
}

pub open spec fn toast_line(a: AppView, p: Palette) -> Seq<SpanView> {
    match a.toast {
        Some(t) => seq![style::styled(" • "@ + t.0, Style::plain().fg(p.diff_add))],
        None => seq![],
    }
}

pub open spec fn toast_bar(a: AppView, area: Rect, p: Palette) -> PaintView {
    style::bare_text(area, seq![toast_line(a, p)], Style::plain().bg(p.bg))
}

pub fn draw_toast(c: &mut Canvas, area: Rect, app: &App, p: &Palette)
    ensures
        final(c)@ == old(c)@.push(toast_bar(app@, area, *p)),
{
    let l = match &app.toast {
        Some(t) => {
            let mut s = " • ".to_owned();
            s.append(t.text.as_str());
            Line::of(s.as_str(), Style::plain().fg(p.diff_add))
        },
        None => Line::new(),
    };
    c.put_text(area, Page::of(l), Style::plain().bg(p.bg));
}

// ---------------------------------------------------------------------------
// The help bar
// ---------------------------------------------------------------------------
/// The chips of the help bar: key, description and what a click does.
pub open spec fn chip(i: nat) -> (Seq<char>, Seq<char>, HelpBarAction) {
    if i == 0 {
        (" Tab "@, "focus  "@, HelpBarAction::CycleFocus)
    } else if i == 1 {
        (" Enter "@, "sync  "@, HelpBarAction::Sync)
    } else if i == 2 {
        (" ^U "@, "update  "@, HelpBarAction::CheckUpdate)
    } else if i == 3 {
        (" ^P "@, "menu  "@, HelpBarAction::OpenMenu)
    } else if i == 4 {
        (" ^H "@, "help  "@, HelpBarAction::ToggleHelp)
    } else {
        (" ^Q "@, "quit"@, HelpBarAction::Quit)
    }
}

pub open spec fn chip_columns(i: nat) -> nat {
    chip(i).0.len() + chip(i).1.len()
}

/// How many chips fit before column `limit`, from the one at `i` on.
pub open spec fn chips_that_fit(i: nat, x: nat, limit: nat) -> nat
    decreases 6 - i,
{
    if i >= 6 || x + chip_columns(i) > limit {
        0
    } else {
        1 + chips_that_fit(i + 1, x + chip_columns(i), limit)
    }
}

/// Where the chip at `i` starts.
pub open spec fn chip_start(i: nat, x: nat) -> nat
    decreases i,
{
    if i == 0 {
        x
    } else {
        chip_start((i - 1) as nat, x) + chip_columns((i - 1) as nat)
    }
}

pub open spec fn bar_limit(area: Rect) -> nat {
    if area.x + area.width > u16::MAX {
        u16::MAX as nat
    } else {
        (area.x + area.width) as nat
    }
}

/// The chips that the bar has room for.
pub open spec fn bar_chips(area: Rect) -> nat {
    chips_that_fit(0, area.x as nat, bar_limit(area))
}

pub open spec fn chip_spans(n: nat, p: Palette) -> Seq<SpanView>
    decreases n,
{
    if n == 0 {
        seq![]
    } else {
        let c = chip((n - 1) as nat);
        chip_spans((n - 1) as nat, p).push(
            style::styled(c.0, Style::plain().fg(p.accent).bold()),
        ).push(style::styled(c.1, Style::plain().fg(p.muted)))
    }
}

pub open spec fn chip_hits(n: nat, area: Rect) -> Seq<(Rect, HelpBarAction)> {
    Seq::new(
        n,
        |i: int|
            (
                Rect {
                    x: chip_start(i as nat, area.x as nat) as u16,
                    y: area.y,
                    width: chip_columns(i as nat) as u16,
                    height: 1,
                },
                chip(i as nat).2,
            ),
    )
}

pub open spec fn help_bar(area: Rect, p: Palette) -> PaintView {
    style::bare_text(area, seq![chip_spans(bar_chips(area), p)], Style::plain().bg(p.bg))
}

fn chip_parts(i: usize) -> (r: (&'static str, &'static str, HelpBarAction))
    ensures
        (r.0@, r.1@, r.2) == chip(i as nat),
{
    if i == 0 {
        (" Tab ", "focus  ", HelpBarAction::CycleFocus)
    } else if i == 1 {
        (" Enter ", "sync  ", HelpBarAction::Sync)
    } else if i == 2 {
        (" ^U ", "update  ", HelpBarAction::CheckUpdate)
    } else if i == 3 {
        (" ^P ", "menu  ", HelpBarAction::OpenMenu)
    } else if i == 4 {
        (" ^H ", "help  ", HelpBarAction::ToggleHelp)
    } else {
        (" ^Q ", "quit", HelpBarAction::Quit)
    }
}

proof fn lemma_chip_columns(i: nat)
    ensures
        chip_columns(i) <= 13,
{
    reveal_strlit(" Tab ");
    reveal_strlit("focus  ");
    reveal_strlit(" Enter ");
    reveal_strlit("sync  ");
    reveal_strlit(" ^U ");
    reveal_strlit("update  ");
    reveal_strlit(" ^P ");
    reveal_strlit("menu  ");
    reveal_strlit(" ^H ");
    reveal_strlit("help  ");
    reveal_strlit(" ^Q ");
    reveal_strlit("quit");
}

/// Draws the help bar, and says where its chips can be clicked.
pub fn draw_help_bar(c: &mut Canvas, area: Rect, p: &Palette) -> (hits: Vec<(Rect, HelpBarAction)>)
    ensures
        final(c)@ == old(c)@.push(help_bar(area, *p)),
        hits@ == chip_hits(bar_chips(area), area),
{
    let mut l = Line::new();
    let mut hits: Vec<(Rect, HelpBarAction)> = Vec::new();
    let end: u32 = area.x as u32 + area.width as u32;
    let limit: u32 = if end > 65535 {
        65535
    } else {
        end
    };
    let mut x: u32 = area.x as u32;
    let mut i: usize = 0;
    let mut done = false;
    assert(hits@ =~= chip_hits(0, area));
    while i < 6 && !done
        invariant
            i <= 6,
            x <= 65535,
            limit <= 65535,
            limit == bar_limit(area),
            x == chip_start(i as nat, area.x as nat),
            l@ == chip_spans(i as nat, *p),
            hits@ == chip_hits(i as nat, area),
            bar_chips(area) == i + if done {
                0
            } else {
                chips_that_fit(i as nat, x as nat, limit as nat)
            },
        decreases 6 - i, !done as int,
    {
        let (key, desc, action) = chip_parts(i);
        proof {
            lemma_chip_columns(i as nat);
        }
        let key_chars = text::chars_of(key);
        let desc_chars = text::chars_of(desc);
        let w: u32 = (key_chars.len() + desc_chars.len()) as u32;
        if x + w > limit {
            done = true;
        } else {
            hits.push((Rect { x: x as u16, y: area.y, width: w as u16, height: 1 }, action));
            assert(hits@ =~= chip_hits((i + 1) as nat, area));
            l.put(key, Style::plain().fg(p.accent).bold());
            l.put(desc, Style::plain().fg(p.muted));
            x = x + w;
            i = i + 1;
        }
    }
    c.put_text(area, Page::of(l), Style::plain().bg(p.bg));
    hits
}

// ---------------------------------------------------------------------------
// The drop zone
// ---------------------------------------------------------------------------
/// The names of the selected rows, in order.
pub open spec fn chosen(rs: Seq<RowView>) -> Seq<Seq<char>>
    decreases rs.len(),
{
    if rs.len() == 0 {
        seq![]
    } else if rs.last().selected {
        chosen(rs.drop_last()).push(rs.last().name)
    } else {
        chosen(rs.drop_last())
    }
}

fn chosen_names(rs: &Vec<TargetRow>) -> (r: Vec<String>)
    ensures
        text::strs(r@) == chosen(text::views(rs@)),
{
    let ghost all = text::views(rs@);
    let mut out = text::no_strs();
    let mut i: usize = 0;
    while i < rs.len()
        invariant
            i <= rs@.len(),
            all == text::views(rs@),
            text::strs(out@) == chosen(all.take(i as int)),
        decreases rs@.len() - i,
    {
        assert(all.take(i + 1).drop_last() =~= all.take(i as int));
        assert(all.take(i + 1).last() == rs@[i as int]@);
        if rs[i].selected {
            text::push_str(&mut out, rs[i].name.as_str());
        }
        i = i + 1;
    }
    assert(all.take(i as int) =~= all);
    out
}

pub open spec fn blank_lines(n: nat) -> Seq<Seq<SpanView>> {
    Seq::new(n, |i: int| seq![])
}

/// What the drop zone says while nothing is queued: where files would go.
pub open spec fn drop_invitation(a: AppView, area: Rect, p: Palette) -> Seq<Seq<SpanView>> {
    let names = chosen(a.target_rows);
    let content: nat = if names.len() == 0 {
        4
    } else {
        6
    };
    let top = rows::monus(less(area.height, 2) as nat, content) / 2;
    let w = area.width;
    blank_lines(top).push(
        rows::centered(
            w,
            seq![style::styled("⬇  Drop files here"@, Style::plain().fg(p.accent).bold())],
        ),
    ).push(
        rows::centered(
            w,
            seq![
                style::styled(
                    "or Cmd+V / Ctrl+Shift+V paste paths"@,
                    Style::plain().fg(p.fg),
                ),
            ],
        ),
    ).push(seq![]).push(
        if names.len() > 0 {
            rows::centered(
                w,
                seq![
                    style::styled("→ will send to: "@, Style::plain().fg(p.muted)),
                    style::styled(
                        text::joined(names, ", "@),
                        Style::plain().fg(p.accent).bold(),
                    ),
                ],
            )
        } else {
            rows::centered(
                w,
                seq![
                    style::styled(
                        "(select a target above first)"@,
                        Style::plain().fg(p.diff_del),
                    ),
                ],
            )
        },
    )
}

/// The invitation, and what was wrong with the last paste.
pub open spec fn drop_hint(a: AppView, area: Rect, p: Palette) -> Seq<Seq<SpanView>> {
    let page = drop_invitation(a, area, p);
    let w = area.width;
    match a.last_paste_error {
        Some(e) => page.push(seq![]).push(
            rows::centered(
                w,
                seq![style::styled("⚠ "@ + e, Style::plain().fg(p.diff_del))],
            ),
        ),
        None => page,
    }
}

/// The size shown for the queue's file `i`.
pub open spec fn size_at(sizes: Seq<Seq<char>>, i: int) -> Seq<char> {
    if i < sizes.len() {
        sizes[i]
    } else {
        "?"@
    }
}

pub open spec fn item_style(cursor: bool, p: Palette) -> Style {
    if cursor {
        Style::plain().fg(p.fg).bg(p.selection).bold()
    } else {
        Style::plain().fg(p.fg)
    }
}

pub open spec fn queue_line(
    a: AppView,
    i: int,
    sizes: Seq<Seq<char>>,
    p: Palette,
) -> Seq<SpanView> {
    seq![
        style::styled(
            " "@ + a.queue[i],
            item_style(a.focus == Focus::DropZone && i == a.queue_cursor, p),
        ),
        style::raw("  "@),
        style::styled(size_at(sizes, i), Style::plain().fg(p.muted)),
    ]
}

pub open spec fn drop_zone(
    a: AppView,
    area: Rect,
    sizes: Seq<Seq<char>>,
    p: Palette,
) -> PaintView {
    let focused = a.focus == Focus::DropZone;
    if a.queue.len() == 0 {
        style::framed_text(
            area,
            drop_hint(a, area, p),
            panel_frame(seq![style::raw(" Drop files / paste paths "@)], focused, p),
            true,
        )
    } else {
        PaintView {
            area,
            widget: WidgetView::Items {
                page: Seq::new(a.queue.len(), |i: int| queue_line(a, i, sizes, p)),
                frame: panel_frame(seq![style::raw(" Queue "@)], focused, p),
            },
        }
    }
}

fn style_of_item(cursor: bool, p: &Palette) -> (s: Style)
    ensures
        s == item_style(cursor, *p),
{
    if cursor {
        Style::plain().fg(p.fg).bg(p.selection).bold()
    } else {
        Style::plain().fg(p.fg)
    }
}

fn hint_page(app: &App, area: Rect, p: &Palette) -> (r: Page)
    ensures
        r@ == drop_hint(app@, area, *p),
{
    let names = chosen_names(&app.target_rows);
    assert(text::strs(names@).len() == names@.len());
    let inner_h = area.height.saturating_sub(2);
    let content: u16 = if names.len() == 0 {
        4
    } else {
        6
    };
    let top: u16 = inner_h.saturating_sub(content) / 2;
    let mut page = Page::new();
    let mut i: u16 = 0;
    assert(page@ =~= blank_lines(0));
    while i < top
        invariant
            i <= top,
            page@ == blank_lines(i as nat),
        decreases top - i,
    {
        page.skip();
        i = i + 1;
        assert(page@ =~= blank_lines(i as nat));
    }
    let l1 = Line::of("⬇  Drop files here", Style::plain().fg(p.accent).bold());
    page.put(rows::center_line(area.width, l1));
    let l2 = Line::of("or Cmd+V / Ctrl+Shift+V paste paths", Style::plain().fg(p.fg));
    page.put(rows::center_line(area.width, l2));
    page.skip();
    if names.len() > 0 {
        let list = text::join(&names, ", ");
        let mut l = Line::new();
        l.put("→ will send to: ", Style::plain().fg(p.muted));
        l.put(list.as_str(), Style::plain().fg(p.accent).bold());
        assert(l@ == seq![
            style::styled("→ will send to: "@, Style::plain().fg(p.muted)),
            style::styled(
                text::joined(chosen(app@.target_rows), ", "@),
                Style::plain().fg(p.accent).bold(),
            ),
        ]);
        page.put(rows::center_line(area.width, l));
    } else {
        let l = Line::of("(select a target above first)", Style::plain().fg(p.diff_del));
        page.put(rows::center_line(area.width, l));
    }
    assert(page@ =~= drop_invitation(app@, area, *p));
    if let Some(e) = &app.last_paste_error {
        let mut t = "⚠ ".to_owned();
        t.append(e.as_str());
        page.skip();
        let l = Line::of(t.as_str(), Style::plain().fg(p.diff_del));
        page.put(rows::center_line(area.width, l));
    }
    page
}

fn queue_page(app: &App, sizes: &Vec<String>, p: &Palette) -> (r: Page)
    ensures
        r@ == Seq::new(
            app@.queue.len(),
            |i: int| queue_line(app@, i, text::strs(sizes@), *p),
        ),
{
    let focused = app.focus == Focus::DropZone;
    let ghost want = Seq::new(
        app@.queue.len(),
        |i: int| queue_line(app@, i, text::strs(sizes@), *p),
    );
    let mut page = Page::new();
    let mut i: usize = 0;
    assert(app@.queue.len() == app.queue@.len());
    assert(page@ =~= want.take(0));
    while i < app.queue.len()
        invariant
            i <= app.queue@.len(),
            want.len() == app.queue@.len(),
            focused == (app.focus == Focus::DropZone),
            want == Seq::new(
                app@.queue.len(),
                |i: int| queue_line(app@, i, text::strs(sizes@), *p),
            ),
            page@ == want.take(i as int),
        decreases app.queue@.len() - i,
    {
        assert(app@.queue[i as int] == app.queue@[i as int]@);
        assert(text::strs(sizes@).len() == sizes@.len());
        let mut name = " ".to_owned();
        name.append(app.queue[i].as_str());
        let mut l = Line::new();
        l.put(name.as_str(), style_of_item(focused && i == app.queue_cursor, p));
        l.put_raw("  ");
        if i < sizes.len() {
            assert(text::strs(sizes@)[i as int] == sizes@[i as int]@);
            l.put(sizes[i].as_str(), Style::plain().fg(p.muted));
        } else {
            l.put("?", Style::plain().fg(p.muted));
        }
        assert(l@ == want[i as int]);
        page.put(l);
        assert(page@ =~= want.take(i + 1));
        i = i + 1;
    }
    assert(want.take(i as int) =~= want);
    page
}

/// Draws the drop zone, and says where its rows can be clicked. The sizes of the
/// queued files are shown beside them.
pub fn draw_drop_zone(c: &mut Canvas, area: Rect, app: &App, sizes: &Vec<String>, p: &Palette) -> (
    hits: Vec<Rect>)
    ensures
        final(c)@ == old(c)@.push(drop_zone(app@, area, text::strs(sizes@), *p)),
        hits@ == row_rects(area, app@.queue.len()),
{
    let focused = app.focus == Focus::DropZone;
    assert(app@.queue.len() == app.queue@.len());
    if app.queue.len() == 0 {
        let page = hint_page(app, area, p);
        c.put_framed(area, page, frame_of(titled(" Drop files / paste paths "), focused, p), true);
    } else {
        let page = queue_page(app, sizes, p);
        let frame = frame_of(titled(" Queue "), focused, p);
        c.put(area, Widget::Items { page, frame });
    }
    rects_for_rows(area, app.queue.len())
}

// ---------------------------------------------------------------------------
// Targets
// ---------------------------------------------------------------------------
pub open spec fn no_targets_page(p: Palette) -> Seq<Seq<SpanView>> {
    let muted = Style::plain().fg(p.muted);
    seq![
        seq![],
        seq![style::styled("  No targets yet."@, Style::plain().fg(p.fg).bold())],
        seq![],
        seq![style::styled("  1.  Press Ctrl+P (or click the menu chip below)"@, muted)],
        seq![style::styled("  2.  Choose \"Add target from ~/.ssh/config\""@, muted)],
        seq![style::styled("  3.  Pick a host — that's it."@, muted)],
    ]
}

pub open spec fn target_line(a: AppView, i: int, p: Palette) -> Seq<SpanView> {
    let row = a.target_rows[i];
    let (icon, icon_style, words) = rows::status_shown(row.status, p);
    seq![
        style::styled(
            if row.selected {
                " ● "@
            } else {
                " ○ "@
            },
            if row.selected {
                Style::plain().fg(p.accent).bold()
            } else {
                Style::plain().fg(p.muted)
            },
        ),
        style::styled(icon, icon_style),
        style::raw(" "@),
        style::styled(text::decimal((i + 1) as nat) + ". "@, Style::plain().fg(p.muted)),
        style::styled(
            row.name + match row.kind {
                TargetKind::Single => ""@,
                TargetKind::Group => " (group)"@,
            },
            item_style(a.focus == Focus::Targets && i == a.target_cursor, p),
        ),
        style::raw("  "@),
        style::styled(row.summary, Style::plain().fg(p.muted)),
        style::raw(" "@),
        style::styled(words, Style::plain().fg(p.muted)),
    ]
}

pub open spec fn targets_panel(a: AppView, area: Rect, p: Palette) -> PaintView {
    let frame = panel_frame(seq![style::raw(" Targets "@)], a.focus == Focus::Targets, p);
    if a.target_rows.len() == 0 {
        style::framed_text(area, no_targets_page(p), frame, false)
    } else {
        PaintView {
            area,
            widget: WidgetView::Items {
                page: Seq::new(a.target_rows.len(), |i: int| target_line(a, i, p)),
                frame,
            },
        }
    }
}

fn line_of_target(app: &App, i: usize, p: &Palette) -> (l: Line)
    requires
        i < app.target_rows@.len(),
    ensures
        l@ == target_line(app@, i as int, *p),
{
    let row = &app.target_rows[i];
    assert(app@.target_rows[i as int] == row@);
    let (icon, icon_style, words) = rows::status_display(&row.status, p);
    let n = app.target_rows.len();
    assert(i < n);
    let mut number = text::to_decimal((i + 1) as u64);
    number.append(". ");
    let mut name = row.name.clone();
    match row.kind {
        TargetKind::Single => name.append(""),
        TargetKind::Group => name.append(" (group)"),
    }
    let mut l = Line::new();
    if row.selected {
        l.put(" ● ", Style::plain().fg(p.accent).bold());
    } else {
        l.put(" ○ ", Style::plain().fg(p.muted));
    }
    l.put(icon.as_str(), icon_style);
    l.put_raw(" ");
    l.put(number.as_str(), Style::plain().fg(p.muted));
    l.put(
        name.as_str(),
        style_of_item(app.focus == Focus::Targets && i == app.target_cursor, p),
    );
    l.put_raw("  ");
    l.put(row.summary.as_str(), Style::plain().fg(p.muted));
    l.put_raw(" ");
    l.put(words.as_str(), Style::plain().fg(p.muted));
    assert(l@ =~= target_line(app@, i as int, *p));
    l
}

fn empty_targets(p: &Palette) -> (r: Page)
    ensures
        r@ == no_targets_page(*p),
{
    let muted = Style::plain().fg(p.muted);
    let mut page = Page::new();
    page.skip();
    page.say("  No targets yet.", Style::plain().fg(p.fg).bold());
    page.skip();
    page.say("  1.  Press Ctrl+P (or click the menu chip below)", muted);
    page.say("  2.  Choose \"Add target from ~/.ssh/config\"", muted);
    page.say("  3.  Pick a host — that's it.", muted);
    page
}

/// Draws the targets, and says where their rows can be clicked.
pub fn draw_targets(c: &mut Canvas, area: Rect, app: &App, p: &Palette) -> (hits: Vec<Rect>)
    ensures
        final(c)@ == old(c)@.push(targets_panel(app@, area, *p)),
        hits@ == row_rects(area, app@.target_rows.len()),
{
    let frame = frame_of(titled(" Targets "), app.focus == Focus::Targets, p);
    assert(app@.target_rows.len() == app.target_rows@.len());
    if app.target_rows.len() == 0 {
        let page = empty_targets(p);
        c.put_framed(area, page, frame, false);
    } else {
        let ghost want = Seq::new(app@.target_rows.len(), |i: int| target_line(app@, i, *p));
        let mut page = Page::new();
        let mut i: usize = 0;
        assert(page@ =~= want.take(0));
        while i < app.target_rows.len()
            invariant
                i <= app.target_rows@.len(),
                want.len() == app.target_rows@.len(),
                want == Seq::new(app@.target_rows.len(), |i: int| target_line(app@, i, *p)),
                page@ == want.take(i as int),
            decreases app.target_rows@.len() - i,
        {
            let l = line_of_target(app, i, p);
            assert(l@ == want[i as int]);
            page.put(l);
            assert(page@ =~= want.take(i + 1));
            i = i + 1;
        }
        assert(want.take(i as int) =~= want);
        c.put(area, Widget::Items { page, frame });
    }
    rects_for_rows(area, app.target_rows.len())
}

// ---------------------------------------------------------------------------
// Watches
// ---------------------------------------------------------------------------
pub open spec fn no_watches_page(p: Palette) -> Seq<Seq<SpanView>> {
    let muted = Style::plain().fg(p.muted);
    seq![
        seq![style::styled("  No watches configured."@, muted)],
        seq![],
        seq![
            style::styled("  Add a [[watch]] block to your config.toml — see examples/"@, muted),
        ],
        seq![],
        seq![style::styled("    [[watch]]"@, muted)],
        seq![style::styled("    name    = \"screenshots\""@, muted)],
        seq![style::styled("    path    = \"~/Desktop\""@, muted)],
        seq![style::styled("    targets = [\"dev\"]"@, muted)],
    ]
}

/// The cursor of the Watch tab, moved back onto the list.
pub open spec fn watch_cursor_shown(a: AppView) -> usize {
    if a.watches.len() > 0 && a.watch_cursor >= a.watches.len() {
        (a.watches.len() - 1) as usize
    } else {
        a.watch_cursor
    }
}

pub open spec fn plain_frame(title: Seq<char>, border: Style) -> FrameView {
    FrameView { title: seq![style::raw(title)], border, style: Style::plain() }
}

pub open spec fn watches_panel(a: AppView, area: Rect, p: Palette) -> Seq<PaintView> {
    let focused = a.focus == Focus::Watches;
    let frame = plain_frame(
        if focused {
            " Folders "@
        } else {
            " folders "@
        },
        border_style(focused, &p),
    );
    let cursor = watch_cursor_shown(a);
    seq![
        PaintView { area, widget: WidgetView::Frame(frame) },
        if a.watches.len() == 0 {
            PaintView {
                area: inside(area),
                widget: WidgetView::Text {
                    page: no_watches_page(p),
                    style: Style::plain(),
                    frame: None,
                    wrap: true,
                },
            }
        } else {
            style::bare_text(
                inside(area),
                Seq::new(
                    a.watches.len(),
                    |i: int| rows::watch_line(a.watches[i], i == cursor && focused, p),
                ),
                Style::plain(),
            )
        },
    ]
}

fn empty_watches(p: &Palette) -> (r: Page)
    ensures
        r@ == no_watches_page(*p),
{
    let muted = Style::plain().fg(p.muted);
    let mut page = Page::new();
    page.say("  No watches configured.", muted);
    page.skip();
    page.say("  Add a [[watch]] block to your config.toml — see examples/", muted);
    page.skip();
    page.say("    [[watch]]", muted);
    page.say("    name    = \"screenshots\"", muted);
    page.say("    path    = \"~/Desktop\"", muted);
    page.say("    targets = [\"dev\"]", muted);
    page
}

fn watch_rows(ws: &Vec<WatchUi>, cursor: usize, focused: bool, p: &Palette) -> (r: Page)
    ensures
        r@ == Seq::new(
            ws@.len(),
            |i: int| rows::watch_line(text::views(ws@)[i], i == cursor && focused, *p),
        ),
{
    let ghost want = Seq::new(
        ws@.len(),
        |i: int| rows::watch_line(text::views(ws@)[i], i == cursor && focused, *p),
    );
    let mut page = Page::new();
    let mut i: usize = 0;
    assert(page@ =~= want.take(0));
    while i < ws.len()
        invariant
            i <= ws@.len(),
            want == Seq::new(
                ws@.len(),
                |i: int| rows::watch_line(text::views(ws@)[i], i == cursor && focused, *p),
            ),
            page@ == want.take(i as int),
        decreases ws@.len() - i,
    {
        let l = rows::render_watch_row(&ws[i], i == cursor && focused, p);
        assert(l@ == want[i as int]);
        page.put(l);
        assert(page@ =~= want.take(i + 1));
        i = i + 1;
    }
    assert(want.take(i as int) =~= want);
    page
}

/// Draws the watched folders; a cursor past the end is moved back.
pub fn draw_watches(c: &mut Canvas, area: Rect, app: &mut App, p: &Palette)
    ensures
        final(c)@ == old(c)@ + watches_panel(old(app)@, area, *p),
        final(app)@ == (AppView {
            watch_cursor: watch_cursor_shown(old(app)@),
            ..old(app)@
        }),
{
    let ghost a = app@;
    let ghost before = c@;
    let focused = app.focus == Focus::Watches;
    let frame = Frame {
        title: titled(
            if focused {
                " Folders "
            } else {
                " folders "
            },
        ),
        border: border_style(focused, p),
        style: Style::plain(),
    };
    c.put(area, Widget::Frame(frame));
    let inner = inner_area(area);
    assert(app@.watches.len() == app.watches@.len());
    if app.watches.len() == 0 {
        let page = empty_watches(p);
        c.put(inner, Widget::Text { page, style: Style::plain(), frame: None, wrap: true });
    } else {
        if app.watch_cursor >= app.watches.len() {
            app.watch_cursor = app.watches.len() - 1;
        }
        let page = watch_rows(&app.watches, app.watch_cursor, focused, p);
        c.put_text(inner, page, Style::plain());
    }
    assert(c@ =~= before + watches_panel(a, area, *p));
}

pub open spec fn recent_line(e: RecentView, p: Palette, now_ms: u64) -> Seq<SpanView> {
    let secs = rows::monus(now_ms as nat, e.at_ms as nat) / 1000;
    seq![
        style::raw(" "@),
        style::styled("📸"@, Style::plain().fg(p.accent)),
        style::raw(" "@),
        style::styled(width::padded(e.file_display, 28), Style::plain().fg(p.fg)),
        style::raw(" "@),
        style::styled("→ "@ + e.watch_name, Style::plain().fg(p.accent)),
        style::raw("  "@),
        style::styled(rows::elapsed_text(secs), Style::plain().fg(p.muted)),
    ]
}

/// The files that watches have sent, as many as fit.
pub open spec fn recent_panel(a: AppView, area: Rect, p: Palette, now_ms: u64) -> Seq<PaintView> {
    let room = inside(area).height as nat;
    seq![
        PaintView {
            area,
            widget: WidgetView::Frame(plain_frame(" recent "@, Style::plain().fg(p.muted))),
        },
        style::bare_text(
            inside(area),
            if a.watch_recent.len() == 0 {
                seq![
                    seq![
                        style::styled(
                            "  (no files synced yet — enable a watch above with Space)"@,
                            Style::plain().fg(p.muted),
                        ),
                    ],
                ]
            } else {
                Seq::new(
                    if a.watch_recent.len() < room {
                        a.watch_recent.len()
                    } else {
                        room
                    },
                    |i: int| recent_line(a.watch_recent[i], p, now_ms),
                )
            },
            Style::plain(),
        ),
    ]
}

fn line_of_recent(e: &WatchRecent, p: &Palette, now_ms: u64) -> (l: Line)
    ensures
        l@ == recent_line(e@, *p, now_ms),
{
    let ago = rows::humanize_elapsed(now_ms.saturating_sub(e.at_ms) / 1000);
    let file = width::pad_or_trunc(e.file_display.as_str(), 28);
    let mut to = "→ ".to_owned();
    to.append(e.watch_name.as_str());
    let mut l = Line::new();
    l.put_raw(" ");
    l.put("📸", Style::plain().fg(p.accent));
    l.put_raw(" ");
    l.put(file.as_str(), Style::plain().fg(p.fg));
    l.put_raw(" ");
    l.put(to.as_str(), Style::plain().fg(p.accent));
    l.put_raw("  ");
    l.put(ago.as_str(), Style::plain().fg(p.muted));
    l
}

pub fn draw_watch_recent(c: &mut Canvas, area: Rect, app: &App, p: &Palette, now_ms: u64)
    ensures
        final(c)@ == old(c)@ + recent_panel(app@, area, *p, now_ms),
{
    let ghost before = c@;
    let frame = Frame {
        title: titled(" recent "),
        border: Style::plain().fg(p.muted),
        style: Style::plain(),
    };
    c.put(area, Widget::Frame(frame));
    let inner = inner_area(area);
    assert(app@.watch_recent.len() == app.watch_recent@.len());
    if app.watch_recent.len() == 0 {
        let l = Line::of(
            "  (no files synced yet — enable a watch above with Space)",
            Style::plain().fg(p.muted),
        );
        c.put_text(inner, Page::of(l), Style::plain());
    } else {
        let room: usize = inner.height as usize;
        let n = if app.watch_recent.len() < room {
            app.watch_recent.len()
        } else {
            room
        };
        let ghost want = Seq::new(
            n as nat,
            |i: int| recent_line(app@.watch_recent[i], *p, now_ms),
        );
        let mut page = Page::new();
        let mut i: usize = 0;
        assert(page@ =~= want.take(0));
        while i < n
            invariant
                i <= n <= app.watch_recent@.len(),
                want == Seq::new(
                    n as nat,
                    |i: int| recent_line(app@.watch_recent[i], *p, now_ms),
                ),
                page@ == want.take(i as int),
            decreases n - i,
        {
            assert(app@.watch_recent[i as int] == app.watch_recent@[i as int]@);
            let l = line_of_recent(&app.watch_recent[i], p, now_ms);
            assert(l@ == want[i as int]);
            page.put(l);
            assert(page@ =~= want.take(i + 1));
            i = i + 1;
        }
        assert(want.take(i as int) =~= want);
        c.put_text(inner, page, Style::plain());
    }
    assert(c@ =~= before + recent_panel(app@, area, *p, now_ms));
}

} // verus!
