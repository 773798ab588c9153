//! What lies over the panels: the form for watched folders, help, updates, the menu
//! and the host picker.
use vstd::prelude::*;

use crate::app::types;
use crate::app::types::{
    App, FormField, FormView, MenuAction, ModalHit, PickerView, Rect, SshPicker, UpdateStatus,
    UpdateView, WatchForm,
};
use crate::ssh_config::{HostView, SshHost};
use crate::text;
use crate::ui::panels;
use crate::ui::rows;
use crate::ui::style;
use crate::ui::style::{
    Canvas, Color, Frame, FrameView, Line, Page, PaintView, SpanView, Style, Widget, WidgetView,
};
use crate::ui::theme::Palette;
use crate::update;

verus! {

// ---------------------------------------------------------------------------
// Boxes
// ---------------------------------------------------------------------------
pub open spec fn smaller(a: nat, b: nat) -> nat {
    if a < b {
        a
    } else {
        b
    }
}

/// A box of that size in the middle of an area.
pub open spec fn middle(area: Rect, w: u16, h: u16) -> Rect {
    Rect {
        x: panels::plus(area.x, (panels::less(area.width, w as nat) / 2) as nat),
        y: panels::plus(area.y, (panels::less(area.height, h as nat) / 2) as nat),
        width: w,
        height: h,
    }
}

fn middle_of(area: Rect, w: u16, h: u16) -> (r: Rect)
    ensures
        r == middle(area, w, h),
{
    Rect {
        x: area.x.saturating_add(area.width.saturating_sub(w) / 2),
        y: area.y.saturating_add(area.height.saturating_sub(h) / 2),
        width: w,
        height: h,
    }
}

/// No wider (or higher) than `most`, with two cells to spare on each side.
pub open spec fn fitting(most: nat, room: u16) -> u16 {
    smaller(most, panels::less(room, 4) as nat) as u16
}

fn fit(most: u16, room: u16) -> (r: u16)
    ensures
        r == fitting(most as nat, room),
{
    let left = room.saturating_sub(4);
    if most < left {
        most
    } else {
        left
    }
}

pub open spec fn box_frame(title: Seq<char>, border: Style, p: Palette) -> FrameView {
    FrameView {
        title: seq![style::raw(title)],
        border,
        style: Style::plain().bg(p.bg).fg(p.fg),
    }
}

/// What was there is wiped, and a box with text takes its place.
pub open spec fn boxed(rect: Rect, page: Seq<Seq<SpanView>>, frame: FrameView) -> Seq<PaintView> {
    seq![
        PaintView { area: rect, widget: WidgetView::Clear },
        style::framed_text(rect, page, frame, false),
    ]
}

fn draw_box(c: &mut Canvas, rect: Rect, page: Page, title: &str, border: Style, p: &Palette)
    ensures
        final(c)@ == old(c)@ + boxed(rect, page@, box_frame(title@, border, *p)),
{
    let ghost before = c@;
    let mut t = Line::new();
    t.put_raw(title);
    let frame = Frame { title: t, border, style: Style::plain().bg(p.bg).fg(p.fg) };
    let ghost f = frame@;
    let ghost lines = page@;
    c.put(rect, Widget::Clear);
    c.put_framed(rect, page, frame, false);
    assert(c@ =~= before + boxed(rect, lines, f));
}

// ---------------------------------------------------------------------------
// Help
// ---------------------------------------------------------------------------
pub open spec fn help_page(p: Palette) -> Seq<Seq<SpanView>> {
    let muted = Style::plain().fg(p.muted);
    seq![
        seq![style::raw("  Ctrl+1 / Ctrl+2    switch Drop / Watch tab"@)],
        seq![style::raw("  Ctrl+P             open menu / command palette"@)],
        seq![style::raw("  Ctrl+H             toggle this help"@)],
        seq![style::raw("  Ctrl+Q / Ctrl+C    quit"@)],
        seq![style::raw("  Ctrl+U             check for update"@)],
        seq![style::raw("  Ctrl+T             cycle theme"@)],
        seq![style::raw("  Ctrl+A / Ctrl+N    auto / manual mode"@)],
        seq![
            style::raw(
                "  Ctrl+F             cycle clipboard format (or filter in Activity)"@,
            ),
        ],
        seq![],
        seq![style::raw("  Tab / Shift+Tab    cycle focus within tab"@)],
        seq![style::raw("  Up / Down / j / k  move cursor"@)],
        seq![style::raw("  Enter              sync (DropZone) or copy (Activity)"@)],
        seq![style::raw("  Space              toggle target / watch folder"@)],
        seq![style::raw("  Backspace          remove queued file under cursor"@)],
        seq![style::raw("  click a row        copy that remote path to clipboard"@)],
        seq![],
        seq![style::styled("  All letter shortcuts use Ctrl so nothing in a dragged"@, muted)],
        seq![style::styled("  path can trigger them by accident."@, muted)],
    ]
}

pub open spec fn help_box(area: Rect, p: Palette) -> Seq<PaintView> {
    boxed(
        middle(area, fitting(62, area.width), fitting(20, area.height)),
        help_page(p),
        box_frame(" Help "@, Style::plain().fg(p.accent), p),
    )
}

pub fn draw_help_overlay(c: &mut Canvas, area: Rect, p: &Palette)
    ensures
        final(c)@ == old(c)@ + help_box(area, *p),
{
    let rect = middle_of(area, fit(62, area.width), fit(20, area.height));
    let plain = Style::plain();
    let muted = Style::plain().fg(p.muted);
    let mut page = Page::new();
    page.say("  Ctrl+1 / Ctrl+2    switch Drop / Watch tab", plain);
    page.say("  Ctrl+P             open menu / command palette", plain);
    page.say("  Ctrl+H             toggle this help", plain);
    page.say("  Ctrl+Q / Ctrl+C    quit", plain);
    page.say("  Ctrl+U             check for update", plain);
    page.say("  Ctrl+T             cycle theme", plain);
    page.say("  Ctrl+A / Ctrl+N    auto / manual mode", plain);
    page.say("  Ctrl+F             cycle clipboard format (or filter in Activity)", plain);
    page.skip();
    page.say("  Tab / Shift+Tab    cycle focus within tab", plain);
    page.say("  Up / Down / j / k  move cursor", plain);
    page.say("  Enter              sync (DropZone) or copy (Activity)", plain);
    page.say("  Space              toggle target / watch folder", plain);
    page.say("  Backspace          remove queued file under cursor", plain);
    page.say("  click a row        copy that remote path to clipboard", plain);
    page.skip();
    page.say("  All letter shortcuts use Ctrl so nothing in a dragged", muted);
    page.say("  path can trigger them by accident.", muted);
    assert(page@ == help_page(*p));
    draw_box(c, rect, page, " Help ", Style::plain().fg(p.accent), p);
}

// ---------------------------------------------------------------------------
// The form for a watched folder
// ---------------------------------------------------------------------------
/// A line of the form; the one that is being typed in is marked and ends in a
/// cursor.
pub open spec fn form_line(label: Seq<char>, t: Seq<char>, on: bool, p: Palette) -> Seq<SpanView> {
    let muted = Style::plain().fg(p.muted);
    let fg = Style::plain().fg(p.fg);
    if on {
        seq![
            style::styled("> "@ + label, Style::plain().fg(p.accent).bold()),
            style::styled(t + "_"@, fg),
        ]
    } else {
        seq![style::styled("  "@ + label, muted), style::styled(t, fg)]
    }
}

pub open spec fn form_page(f: FormView, p: Palette) -> Seq<Seq<SpanView>> {
    let muted = Style::plain().fg(p.muted);
    seq![
        form_line("name     "@, f.name, f.field == FormField::Name, p),
        form_line("folder   "@, f.path, f.field == FormField::Path, p),
        form_line("targets  "@, f.targets, f.field == FormField::Targets, p),
        seq![],
        seq![style::styled("  Tab next line   Enter save   Esc cancel"@, muted)],
    ]
}

pub open spec fn form_title(f: FormView) -> Seq<char> {
    match f.editing {
        Some(_) => " Edit watch folder "@,
        None => " Add watch folder "@,
    }
}

pub open spec fn form_box(f: FormView, area: Rect, p: Palette) -> Seq<PaintView> {
    boxed(
        middle(area, fitting(62, area.width), fitting(7, area.height)),
        form_page(f, p),
        box_frame(form_title(f), Style::plain().fg(p.accent), p),
    )
}

fn line_of_form(label: &str, t: &str, on: bool, p: &Palette) -> (r: Line)
    ensures
        r@ == form_line(label@, t@, on, *p),
{
    let mut r = Line::new();
    let fg = Style::plain().fg(p.fg);
    if on {
        let mut l = "> ".to_owned();
        l.append(label);
        let mut typed = t.to_owned();
        typed.append("_");
        r.put(l.as_str(), Style::plain().fg(p.accent).bold());
        r.put(typed.as_str(), fg);
    } else {
        let mut l = "  ".to_owned();
        l.append(label);
        r.put(l.as_str(), Style::plain().fg(p.muted));
        r.put(t, fg);
    }
    assert(r@ =~= form_line(label@, t@, on, *p));
    r
}

pub fn draw_watch_form(c: &mut Canvas, f: &WatchForm, area: Rect, p: &Palette)
    ensures
        final(c)@ == old(c)@ + form_box(f@, area, *p),
{
    let rect = middle_of(area, fit(62, area.width), fit(7, area.height));
    let mut page = Page::new();
    page.put(line_of_form("name     ", f.name.as_str(), f.field == FormField::Name, p));
    page.put(line_of_form("folder   ", f.path.as_str(), f.field == FormField::Path, p));
    page.put(line_of_form("targets  ", f.targets.as_str(), f.field == FormField::Targets, p));
    page.skip();
    page.say("  Tab next line   Enter save   Esc cancel", Style::plain().fg(p.muted));
    assert(page@ =~= form_page(f@, *p));
    let title = match &f.editing {
        Some(_) => " Edit watch folder ",
        None => " Add watch folder ",
    };
    draw_box(c, rect, page, title, Style::plain().fg(p.accent), p);
}

// ---------------------------------------------------------------------------
// Updates
// ---------------------------------------------------------------------------
pub open spec fn update_title(s: UpdateView) -> Seq<char> {
    match s {
        UpdateView::Idle => " Update "@,
        UpdateView::Checking => " Update "@,
        UpdateView::Available(_) => " Update available "@,
        UpdateView::Installing(_) => " Updating "@,
        UpdateView::Installed(_) => " Update complete "@,
        UpdateView::Failed(_) => " Update failed "@,
    }
}

pub open spec fn offer_page(version: Seq<char>, p: Palette) -> Seq<Seq<SpanView>> {
    let muted = Style::plain().fg(p.muted);
    seq![
        seq![],
        seq![
            style::styled("  current: "@, muted),
            style::styled("v"@ + update::VERSION@, Style::plain().fg(p.fg)),
        ],
        seq![
            style::styled("  latest:  "@, muted),
            style::styled("v"@ + version, Style::plain().fg(p.diff_add).bold()),
        ],
        seq![],
        seq![style::styled("  Download and install now?"@, Style::plain().fg(p.fg))],
        seq![],
        seq![
            style::styled(" y "@, Style::plain().fg(p.bg).bg(p.diff_add).bold()),
            style::styled("  confirm     "@, muted),
            style::styled(" n / Esc "@, Style::plain().fg(p.bg).bg(p.muted).bold()),
            style::styled("  cancel"@, muted),
        ],
    ]
}

pub open spec fn path_lines(paths: Seq<Seq<char>>, p: Palette) -> Seq<Seq<SpanView>> {
    Seq::new(
        paths.len(),
        |i: int| seq![style::styled("    "@ + paths[i], Style::plain().fg(p.muted))],
    )
}

pub open spec fn installed_page(paths: Seq<Seq<char>>, p: Palette) -> Seq<Seq<SpanView>> {
    let start = seq![
        seq![],
        seq![style::styled("  Update installed."@, Style::plain().fg(p.diff_add).bold())],
        seq![],
    ];
    (start + path_lines(paths, p)).push(seq![]).push(
        seq![
            style::styled(
                "  Restart lzsync to use the new version."@,
                Style::plain().fg(p.fg),
            ),
        ],
    ).push(seq![]).push(
        seq![style::styled("  (press any key to dismiss)"@, Style::plain().fg(p.muted))],
    )
}

pub open spec fn update_page(s: UpdateView, p: Palette) -> Seq<Seq<SpanView>> {
    let fg = Style::plain().fg(p.fg);
    let muted = Style::plain().fg(p.muted);
    match s {
        UpdateView::Idle => seq![],
        UpdateView::Checking => seq![
            seq![],
            seq![style::styled("  Checking for updates…"@, fg)],
        ],
        UpdateView::Available(v) => offer_page(v, p),
        UpdateView::Installing(v) => seq![
            seq![],
            seq![style::styled("  Downloading v"@ + v + "…"@, fg)],
            seq![],
            seq![
                style::styled("  (~5 MB binary; may take a while on slow links)"@, muted),
            ],
        ],
        UpdateView::Installed(paths) => installed_page(paths, p),
        UpdateView::Failed(e) => seq![
            seq![],
            seq![style::styled("  Could not update:"@, Style::plain().fg(p.diff_del).bold())],
            seq![style::styled("  "@ + e, fg)],
            seq![],
            seq![style::styled("  (press any key to dismiss)"@, muted)],
        ],
    }
}

pub open spec fn update_color(s: UpdateView, p: Palette) -> Color {
    match s {
        UpdateView::Available(_) => p.diff_add,
        UpdateView::Failed(_) => p.diff_del,
        _ => p.accent,
    }
}

pub open spec fn update_rect(area: Rect) -> Rect {
    middle(area, fitting(60, area.width), fitting(10, area.height))
}

pub open spec fn update_box(s: UpdateView, area: Rect, p: Palette) -> Seq<PaintView> {
    boxed(
        update_rect(area),
        update_page(s, p),
        box_frame(update_title(s), Style::plain().fg(update_color(s, p)).bold(), p),
    )
}

/// Where the box can be clicked: on two zones in its last line for an offer, as far
/// as there is room for them, or anywhere once there is nothing to decide.
pub open spec fn update_hits(s: UpdateView, area: Rect) -> Seq<(Rect, ModalHit)> {
    let rect = update_rect(area);
    let row = panels::plus(rect.y, 8);
    match s {
        UpdateView::Available(_) => if rect.height > 9 {
            seq![
                (Rect { x: panels::plus(rect.x, 2), y: row, width: 4, height: 1 }, ModalHit::Confirm),
                (Rect { x: panels::plus(rect.x, 21), y: row, width: 9, height: 1 }, ModalHit::Cancel),
            ]
        } else {
            seq![]
        },
        UpdateView::Installed(_) => seq![(rect, ModalHit::Dismiss)],
        UpdateView::Failed(_) => seq![(rect, ModalHit::Dismiss)],
        _ => seq![],
    }
}

/// No click on an offer's box both confirms and cancels, and both zones lie in the
/// last line above the border.
pub proof fn law_offers_are_confirmed_or_cancelled(version: Seq<char>, area: Rect, x: u16, y: u16)
    requires
        update_rect(area).height > 9,
        update_rect(area).x + 30 <= u16::MAX,
        update_rect(area).y + 10 <= u16::MAX,
    ensures
        ({
            let rect = update_rect(area);
            let hits = update_hits(UpdateView::Available(version), area);
            &&& hits.len() == 2
            &&& hits[0].1 == ModalHit::Confirm && hits[1].1 == ModalHit::Cancel
            &&& !(hits[0].0.has(x, y) && hits[1].0.has(x, y))
            &&& hits[0].0.has(x, y) || hits[1].0.has(x, y) ==> y == rect.y + rect.height - 2
        }),
{
}

fn page_of_offer(version: &str, p: &Palette) -> (page: Page)
    ensures
        page@ == offer_page(version@, *p),
{
    let muted = Style::plain().fg(p.muted);
    let mut current = "v".to_owned();
    current.append(update::VERSION);
    let mut latest = "v".to_owned();
    latest.append(version);
    let mut page = Page::new();
    page.skip();
    let mut l1 = Line::new();
    l1.put("  current: ", muted);
    l1.put(current.as_str(), Style::plain().fg(p.fg));
    assert(l1@ == seq![
        style::styled("  current: "@, muted),
        style::styled("v"@ + update::VERSION@, Style::plain().fg(p.fg)),
    ]);
    page.put(l1);
    let mut l2 = Line::new();
    l2.put("  latest:  ", muted);
    l2.put(latest.as_str(), Style::plain().fg(p.diff_add).bold());
    assert(l2@ == seq![
        style::styled("  latest:  "@, muted),
        style::styled("v"@ + version@, Style::plain().fg(p.diff_add).bold()),
    ]);
    page.put(l2);
    page.skip();
    page.say("  Download and install now?", Style::plain().fg(p.fg));
    page.skip();
    let mut l3 = Line::new();
    l3.put(" y ", Style::plain().fg(p.bg).bg(p.diff_add).bold());
    l3.put("  confirm     ", muted);
    l3.put(" n / Esc ", Style::plain().fg(p.bg).bg(p.muted).bold());
    l3.put("  cancel", muted);
    assert(l3@ == seq![
        style::styled(" y "@, Style::plain().fg(p.bg).bg(p.diff_add).bold()),
        style::styled("  confirm     "@, muted),
        style::styled(" n / Esc "@, Style::plain().fg(p.bg).bg(p.muted).bold()),
        style::styled("  cancel"@, muted),
    ]);
    page.put(l3);
    assert(page@ =~= offer_page(version@, *p));
    page
}

fn page_of_installed(paths: &Vec<String>, p: &Palette) -> (page: Page)
    ensures
        page@ == installed_page(text::strs(paths@), *p),
{
    let ghost ps = text::strs(paths@);
    let muted = Style::plain().fg(p.muted);
    let mut page = Page::new();
    page.skip();
    page.say("  Update installed.", Style::plain().fg(p.diff_add).bold());
    page.skip();
    let ghost start = page@;
    let mut i: usize = 0;
    assert(page@ =~= start + path_lines(ps, *p).take(0));
    while i < paths.len()
        invariant
            i <= paths@.len(),
            ps == text::strs(paths@),
            muted == Style::plain().fg(p.muted),
            page@ == start + path_lines(ps, *p).take(i as int),
        decreases paths@.len() - i,
    {
        assert(ps[i as int] == paths@[i as int]@);
        let mut t = "    ".to_owned();
        t.append(paths[i].as_str());
        page.say(t.as_str(), muted);
        assert(path_lines(ps, *p)[i as int] == seq![style::styled("    "@ + ps[i as int], muted)]);
        assert(page@ =~= start + path_lines(ps, *p).take(i + 1));
        i = i + 1;
    }
    assert(path_lines(ps, *p).take(i as int) =~= path_lines(ps, *p));
    page.skip();
    page.say("  Restart lzsync to use the new version.", Style::plain().fg(p.fg));
    page.skip();
    page.say("  (press any key to dismiss)", muted);
    page
}

fn page_of_update(s: &UpdateStatus, p: &Palette) -> (page: Page)
    ensures
        page@ == update_page(s@, *p),
{
    let fg = Style::plain().fg(p.fg);
    let muted = Style::plain().fg(p.muted);
    match s {
        UpdateStatus::Idle => Page::new(),
        UpdateStatus::Checking => {
            let mut page = Page::new();
            page.skip();
            page.say("  Checking for updates…", fg);
            page
        },
        UpdateStatus::Available(v) => page_of_offer(v.as_str(), p),
        UpdateStatus::Installing(v) => {
            let mut t = "  Downloading v".to_owned();
            t.append(v.as_str());
            t.append("…");
            let mut page = Page::new();
            page.skip();
            page.say(t.as_str(), fg);
            page.skip();
            page.say("  (~5 MB binary; may take a while on slow links)", muted);
            page
        },
        UpdateStatus::Installed(paths) => page_of_installed(paths, p),
        UpdateStatus::Failed(e) => {
            let mut t = "  ".to_owned();
            t.append(e.as_str());
            let mut page = Page::new();
            page.skip();
            page.say("  Could not update:", Style::plain().fg(p.diff_del).bold());
            page.say(t.as_str(), fg);
            page.skip();
            page.say("  (press any key to dismiss)", muted);
            page
        },
    }
}

/// Draws the update box, and says where it is and where it can be clicked.
pub fn draw_update_overlay(c: &mut Canvas, area: Rect, app: &App, p: &Palette) -> (r: (
    Rect,
    Vec<(Rect, ModalHit)>,
))
    ensures
        final(c)@ == old(c)@ + update_box(app@.update_status, area, *p),
        r.0 == update_rect(area),
        r.1@ == update_hits(app@.update_status, area),
{
    let rect = middle_of(area, fit(60, area.width), fit(10, area.height));
    let page = page_of_update(&app.update_status, p);
    let (title, color) = match &app.update_status {
        UpdateStatus::Idle => (" Update ", p.accent),
        UpdateStatus::Checking => (" Update ", p.accent),
        UpdateStatus::Available(_) => (" Update available ", p.diff_add),
        UpdateStatus::Installing(_) => (" Updating ", p.accent),
        UpdateStatus::Installed(_) => (" Update complete ", p.accent),
        UpdateStatus::Failed(_) => (" Update failed ", p.diff_del),
    };
    draw_box(c, rect, page, title, Style::plain().fg(color).bold(), p);
    let mut hits: Vec<(Rect, ModalHit)> = Vec::new();
    match &app.update_status {
        UpdateStatus::Available(_) => {
            if rect.height > 9 {
                let y = rect.y.saturating_add(8);
                let yes = Rect { x: rect.x.saturating_add(2), y, width: 4, height: 1 };
                let no = Rect { x: rect.x.saturating_add(21), y, width: 9, height: 1 };
                hits.push((yes, ModalHit::Confirm));
                hits.push((no, ModalHit::Cancel));
            }
        },
        UpdateStatus::Installed(_) | UpdateStatus::Failed(_) => {
            hits.push((rect, ModalHit::Dismiss));
        },
        _ => {},
    }
    assert(hits@ =~= update_hits(app@.update_status, area));
    (rect, hits)
}

// ---------------------------------------------------------------------------
// The menu
// ---------------------------------------------------------------------------
/// What a row that is under the cursor, or is not, looks like.
pub open spec fn choice_style(selected: bool, p: Palette) -> Style {
    if selected {
        Style::plain().fg(p.bg).bg(p.accent).bold()
    } else {
        Style::plain().fg(p.fg)
    }
}

fn style_of_choice(selected: bool, p: &Palette) -> (s: Style)
    ensures
        s == choice_style(selected, *p),
{
    if selected {
        Style::plain().fg(p.bg).bg(p.accent).bold()
    } else {
        Style::plain().fg(p.fg)
    }
}

/// A line of the menu: its number and title on the left, its shortcut on the
/// right.
pub open spec fn menu_line(i: int, cursor: usize, w: u16, p: Palette) -> Seq<SpanView> {
    let a = types::menu()[i];
    let selected = i == cursor;
    let pad = rows::monus(panels::less(w, 2) as nat, 9 + a.title().len() + a.keys().len());
    let label = seq![
        style::styled(
            "  "@ + text::decimal((i + 1) as nat) + ". "@ + a.title(),
            choice_style(selected, p),
        ),
    ];
    let gap = if pad > 0 {
        label.push(style::raw(text::blank(pad)))
    } else {
        label
    };
    gap.push(
        style::styled(
            "  ["@ + a.keys() + "]"@,
            Style::plain().fg(
                if selected {
                    p.bg
                } else {
                    p.muted
                },
            ),
        ),
    )
}

pub open spec fn menu_rect(area: Rect) -> Rect {
    middle(area, fitting(48, area.width), fitting(types::menu().len() + 4, area.height))
}

pub open spec fn menu_page(cursor: usize, area: Rect, p: Palette) -> Seq<Seq<SpanView>> {
    seq![seq![]] + Seq::new(
        types::menu().len(),
        |i: int| menu_line(i, cursor, menu_rect(area).width, p),
    )
}

pub open spec fn menu_box(cursor: usize, area: Rect, p: Palette) -> Seq<PaintView> {
    boxed(
        menu_rect(area),
        menu_page(cursor, area, p),
        box_frame(" Menu  (Ctrl+P) "@, Style::plain().fg(p.accent).bold(), p),
    )
}

/// The line at `i` of a box, below an empty one.
pub open spec fn box_line(rect: Rect, i: nat) -> Rect {
    Rect {
        x: panels::plus(rect.x, 1),
        y: panels::plus(rect.y, i + 2),
        width: panels::less(rect.width, 2),
        height: 1,
    }
}

pub open spec fn menu_hits(area: Rect) -> Seq<(Rect, MenuAction)> {
    Seq::new(
        types::menu().len(),
        |i: int| (box_line(menu_rect(area), i as nat), types::menu()[i]),
    )
}

fn line_of_box(rect: Rect, i: u16) -> (r: Rect)
    requires
        i < 65533,
    ensures
        r == box_line(rect, i as nat),
{
    Rect {
        x: rect.x.saturating_add(1),
        y: rect.y.saturating_add(i + 2),
        width: rect.width.saturating_sub(2),
        height: 1,
    }
}

proof fn lemma_menu_texts(a: MenuAction)
    ensures
        a.title().len() + a.keys().len() < 100,
{
    reveal_strlit("Add target from ~/.ssh/config");
    reveal_strlit("Remove selected target");
    reveal_strlit("Re-probe all targets");
    reveal_strlit("Install rsync on selected target");
    reveal_strlit("Clear transfer history");
    reveal_strlit("Toggle auto / manual mode");
    reveal_strlit("Cycle clipboard format");
    reveal_strlit("Cycle theme");
    reveal_strlit("Clear queue");
    reveal_strlit("Check for update");
    reveal_strlit("Show help");
    reveal_strlit("Quit");
    reveal_strlit("^A / ^N");
    reveal_strlit("^F");
    reveal_strlit("^T");
    reveal_strlit("^U");
    reveal_strlit("^H");
    reveal_strlit("^Q");
    reveal_strlit("");
}

fn line_of_menu(i: usize, a: MenuAction, cursor: usize, w: u16, p: &Palette) -> (l: Line)
    requires
        i < types::menu().len(),
        a == types::menu()[i as int],
    ensures
        l@ == menu_line(i as int, cursor, w, *p),
{
    let selected = i == cursor;
    let title = a.label();
    let keys = a.shortcut();
    let title_chars = text::chars_of(title);
    let keys_chars = text::chars_of(keys);
    proof {
        lemma_menu_texts(a);
    }
    let used: usize = 9 + title_chars.len() + keys_chars.len();
    let pad = (w.saturating_sub(2) as usize).saturating_sub(used);
    let mut label = "  ".to_owned();
    let d = text::to_decimal((i + 1) as u64);
    label.append(d.as_str());
    label.append(". ");
    label.append(title);
    let mut hint = "  [".to_owned();
    hint.append(keys);
    hint.append("]");
    let mut l = Line::new();
    l.put(label.as_str(), style_of_choice(selected, p));
    if pad > 0 {
        let gap = text::spaces(pad);
        l.put_raw(gap.as_str());
    }
    l.put(
        hint.as_str(),
        Style::plain().fg(
            if selected {
                p.bg
            } else {
                p.muted
            },
        ),
    );
    assert(l@ =~= menu_line(i as int, cursor, w, *p));
    l
}

/// Draws the menu, and says where it is and where its lines can be clicked.
pub fn draw_menu_overlay(c: &mut Canvas, area: Rect, app: &App, p: &Palette) -> (r: (
    Rect,
    Vec<(Rect, MenuAction)>,
))
    ensures
        final(c)@ == old(c)@ + menu_box(app.menu_cursor, area, *p),
        r.0 == menu_rect(area),
        r.1@ == menu_hits(area),
{
    let actions = MenuAction::all();
    let cursor = app.menu_cursor;
    let rect = middle_of(area, fit(48, area.width), fit(16, area.height));
    let ghost want = Seq::new(
        types::menu().len(),
        |i: int| menu_line(i, cursor, rect.width, *p),
    );
    let mut page = Page::new();
    page.skip();
    let mut hits: Vec<(Rect, MenuAction)> = Vec::new();
    let mut i: usize = 0;
    assert(page@ =~= seq![seq![]] + want.take(0));
    assert(hits@ =~= menu_hits(area).take(0));
    while i < actions.len()
        invariant
            actions@ == types::menu(),
            actions@.len() == 12,
            i <= 12,
            rect == menu_rect(area),
            want == Seq::new(
                types::menu().len(),
                |i: int| menu_line(i, cursor, rect.width, *p),
            ),
            page@ == seq![seq![]] + want.take(i as int),
            hits@ == menu_hits(area).take(i as int),
        decreases 12 - i,
    {
        let l = line_of_menu(i, actions[i], cursor, rect.width, p);
        assert(l@ == want[i as int]);
        page.put(l);
        hits.push((line_of_box(rect, i as u16), actions[i]));
        assert(page@ =~= seq![seq![]] + want.take(i + 1));
        assert(hits@ =~= menu_hits(area).take(i + 1));
        i = i + 1;
    }
    assert(want.take(i as int) =~= want);
    assert(menu_hits(area).take(i as int) =~= menu_hits(area));
    assert(page@ == menu_page(cursor, area, *p));
    draw_box(c, rect, page, " Menu  (Ctrl+P) ", Style::plain().fg(p.accent).bold(), p);
    (rect, hits)
}

// ---------------------------------------------------------------------------
// The host picker
// ---------------------------------------------------------------------------
/// Where a host is reached: its user, where it has one, and its address.
pub open spec fn host_endpoint(h: HostView) -> Seq<char> {
    let address = match h.hostname {
        Some(a) => a,
        None => h.name,
    };
    match h.user {
        Some(u) => u + "@"@ + address,
        None => address,
    }
}

pub open spec fn picker_rect(p: PickerView, area: Rect) -> Rect {
    let h = smaller(p.list.len() + 4, panels::less(area.height, 4) as nat);
    middle(
        area,
        fitting(72, area.width),
        if h < 6 {
            6
        } else {
            h as u16
        },
    )
}

/// The hosts that the box has room for.
pub open spec fn picker_rows(p: PickerView, area: Rect) -> nat {
    smaller(p.list.len(), panels::less(picker_rect(p, area).height, 3) as nat)
}

pub open spec fn picker_text(h: HostView, i: int, w: u16) -> Seq<char> {
    let t = "  "@ + text::decimal((i + 1) as nat) + ". "@ + h.name + "  "@ + host_endpoint(h);
    t + text::blank(rows::monus(panels::less(w, 2) as nat, t.len()))
}

pub open spec fn picker_page(k: PickerView, area: Rect, p: Palette) -> Seq<Seq<SpanView>> {
    (seq![seq![]] + Seq::new(
        picker_rows(k, area),
        |i: int|
            seq![
                style::styled(
                    picker_text(k.list[i], i, picker_rect(k, area).width),
                    choice_style(i == k.cursor, p),
                ),
            ],
    )).push(seq![]).push(
        seq![style::styled("  Enter to add · Esc to cancel"@, Style::plain().fg(p.muted))],
    )
}

pub open spec fn picker_box(k: PickerView, area: Rect, p: Palette) -> Seq<PaintView> {
    boxed(
        picker_rect(k, area),
        picker_page(k, area, p),
        box_frame(" Add target from ~/.ssh/config "@, Style::plain().fg(p.accent).bold(), p),
    )
}

pub open spec fn picker_hits(k: PickerView, area: Rect) -> Seq<Rect> {
    Seq::new(picker_rows(k, area), |i: int| box_line(picker_rect(k, area), i as nat))
}

fn endpoint_of(h: &SshHost) -> (r: String)
    ensures
        r@ == host_endpoint(h@),
{
    let address = match &h.hostname {
        Some(a) => a.clone(),
        None => h.name.clone(),
    };
    match &h.user {
        Some(u) => {
            let mut r = u.clone();
            r.append("@");
            r.append(address.as_str());
            r
        },
        None => address,
    }
}

fn text_of_host(h: &SshHost, i: u16, w: u16) -> (r: String)
    requires
        i < 65535,
    ensures
        r@ == picker_text(h@, i as int, w),
{
    let mut t = "  ".to_owned();
    let d = text::to_decimal((i + 1) as u64);
    t.append(d.as_str());
    t.append(". ");
    t.append(h.name.as_str());
    t.append("  ");
    let e = endpoint_of(h);
    t.append(e.as_str());
    let cs = text::chars_of(t.as_str());
    let pad = text::spaces((w.saturating_sub(2) as usize).saturating_sub(cs.len()));
    t.append(pad.as_str());
    t
}

/// Draws the picker, and says where it is and where its rows can be clicked.
pub fn draw_ssh_picker(c: &mut Canvas, area: Rect, k: &SshPicker, p: &Palette) -> (r: (
    Rect,
    Vec<Rect>,
))
    ensures
        final(c)@ == old(c)@ + picker_box(k@, area, *p),
        r.0 == picker_rect(k@, area),
        r.1@ == picker_hits(k@, area),
{
    assert(k@.list.len() == k.list@.len());
    let room: u16 = area.height.saturating_sub(4);
    let most: u128 = k.list.len() as u128 + 4;
    let high: u16 = if most < room as u128 {
        most as u16
    } else {
        room
    };
    let h: u16 = if high < 6 {
        6
    } else {
        high
    };
    let rect = middle_of(area, fit(72, area.width), h);
    let left: u16 = h.saturating_sub(3);
    let n: u16 = if k.list.len() < left as usize {
        k.list.len() as u16
    } else {
        left
    };
    let ghost want = Seq::new(
        picker_rows(k@, area),
        |i: int|
            seq![
                style::styled(
                    picker_text(k@.list[i], i, picker_rect(k@, area).width),
                    choice_style(i == k@.cursor, *p),
                ),
            ],
    );
    let mut page = Page::new();
    page.skip();
    let mut hits: Vec<Rect> = Vec::new();
    let mut i: u16 = 0;
    assert(page@ =~= seq![seq![]] + want.take(0));
    assert(hits@ =~= picker_hits(k@, area).take(0));
    while i < n
        invariant
            i <= n <= 65532,
            n == picker_rows(k@, area),
            n <= k.list@.len(),
            rect == picker_rect(k@, area),
            want == Seq::new(
                picker_rows(k@, area),
                |i: int|
                    seq![
                        style::styled(
                            picker_text(k@.list[i], i, picker_rect(k@, area).width),
                            choice_style(i == k@.cursor, *p),
                        ),
                    ],
            ),
            page@ == seq![seq![]] + want.take(i as int),
            hits@ == picker_hits(k@, area).take(i as int),
        decreases n - i,
    {
        assert(k@.list[i as int] == k.list@[i as int]@);
        let t = text_of_host(&k.list[i as usize], i, rect.width);
        let s = style_of_choice(i as usize == k.cursor, p);
        page.say(t.as_str(), s);
        assert(want[i as int] == seq![style::styled(t@, s)]);
        hits.push(line_of_box(rect, i));
        assert(page@ =~= seq![seq![]] + want.take(i + 1));
        assert(hits@ =~= picker_hits(k@, area).take(i + 1));
        i = i + 1;
    }
    assert(want.take(i as int) =~= want);
    assert(picker_hits(k@, area).take(i as int) =~= picker_hits(k@, area));
    page.skip();
    page.say("  Enter to add · Esc to cancel", Style::plain().fg(p.muted));
    assert(page@ == picker_page(k@, area, *p));
    draw_box(
        c,
        rect,
        page,
        " Add target from ~/.ssh/config ",
        Style::plain().fg(p.accent).bold(),
        p,
    );
    (rect, hits)
}

} // verus!
