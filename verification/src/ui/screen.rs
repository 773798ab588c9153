//! A whole frame.
use vstd::prelude::*;

use crate::app::types;
use crate::app::types::{App, AppView, HitRegions, HitView, Rect, Tab, UpdateStatus};
use crate::outside;
use crate::text;
use crate::ui::feed;
use crate::ui::overlays;
use crate::ui::panels;
use crate::ui::style::{Canvas, PaintView, Part};
use crate::ui::theme;
use crate::ui::theme::Palette;

verus! {

// ---------------------------------------------------------------------------
// Places
// ---------------------------------------------------------------------------
/// Where the panels of a tab are.
#[derive(Debug, Clone, Copy, PartialEq, Eq)]
pub enum Body {
    Drop { targets: Rect, activity: Rect, drop_zone: Rect },
    Watch { watches: Rect, recent: Rect },
}

/// Where everything is.
#[derive(Debug, Clone, Copy, PartialEq, Eq)]
pub struct Places {
    pub title: Rect,
    pub tab_bar: Rect,
    pub body: Body,
    pub toast: Rect,
    pub help_bar: Rect,
}

pub open spec fn spans_width_of(r: Rect, whole: Rect) -> bool {
    r.x == whole.x && r.width == whole.width
}

pub open spec fn inside(r: Rect, whole: Rect) -> bool {
    &&& whole.x <= r.x && r.x + r.width <= whole.x + whole.width
    &&& whole.y <= r.y && r.y + r.height <= whole.y + whole.height
}

/// The lines from `y` on, over the whole width.
pub open spec fn lines_of(whole: Rect, y: int, height: int) -> Rect {
    Rect { x: whole.x, y: y as u16, width: whole.width, height: height as u16 }
}

/// All edges can be told in cells.
pub open spec fn on_grid(r: Rect) -> bool {
    r.x + r.width <= u16::MAX && r.y + r.height <= u16::MAX
}

/// Targets and activity stand side by side, above the drop zone, which is eight
/// lines high where there is room; watches stand above what was sent last.
pub open spec fn placed_body(area: Rect, tab: Tab, body: Body) -> bool {
    match body {
        Body::Drop { targets, activity, drop_zone } => {
            &&& tab == Tab::Drop
            &&& inside(targets, area) && inside(activity, area) && inside(drop_zone, area)
            &&& spans_width_of(drop_zone, area)
            &&& targets.y == activity.y && targets.height == activity.height
            &&& on_grid(area) ==> {
                &&& targets.x == area.x
                &&& targets.width == (area.width + 1) / 2
                &&& activity.x == targets.x + targets.width
                &&& activity.x + activity.width == area.x + area.width
            }
            &&& on_grid(area) && area.height >= 14 ==> {
                &&& targets.y == area.y
                &&& targets.height == area.height - 8
                &&& drop_zone == lines_of(area, area.y + area.height - 8, 8)
            }
        },
        Body::Watch { watches, recent } => {
            let h = (area.height * 55 + 50) / 100;
            &&& tab == Tab::Watch
            &&& inside(watches, area) && inside(recent, area)
            &&& spans_width_of(watches, area) && spans_width_of(recent, area)
            &&& on_grid(area) ==> watches == lines_of(area, area.y as int, h) && recent
                == lines_of(area, area.y + h, area.height - h)
        },
    }
}

/// The body lies between the two lines of the header and the two at the bottom,
/// where there is room for six lines of it.
pub open spec fn placed_around(size: Rect, tab: Tab, at: Places, area: Rect) -> bool {
    &&& spans_width_of(area, size) && inside(area, size)
    &&& on_grid(size) && size.height >= 10 ==> area == lines_of(
        size,
        size.y + 2,
        size.height - 4,
    )
    &&& placed_body(area, tab, at.body)
}

/// The bars span the whole width: title and tabs at the top, message and help at
/// the bottom.
pub open spec fn placed(size: Rect, tab: Tab, at: Places) -> bool {
    &&& spans_width_of(at.title, size) && inside(at.title, size)
    &&& spans_width_of(at.tab_bar, size) && inside(at.tab_bar, size)
    &&& spans_width_of(at.toast, size) && inside(at.toast, size)
    &&& spans_width_of(at.help_bar, size) && inside(at.help_bar, size)
    &&& on_grid(size) && size.height >= 10 ==> {
        &&& at.title == lines_of(size, size.y as int, 1)
        &&& at.tab_bar == lines_of(size, size.y + 1, 1)
        &&& at.toast == lines_of(size, size.y + size.height - 2, 1)
        &&& at.help_bar == lines_of(size, size.y + size.height - 1, 1)
    }
    &&& exists|area: Rect| #[trigger] placed_around(size, tab, at, area)
}

fn place_body(area: Rect, tab: Tab) -> (r: Body)
    ensures
        placed_body(area, tab, r),
{
    match tab {
        Tab::Drop => {
            let room = area.height.saturating_sub(2);
            let drop_zone_h: u16 = if room < 8 {
                room
            } else {
                8
            };
            let mut parts: Vec<Part> = Vec::new();
            parts.push(Part::Min(6));
            parts.push(Part::Length(drop_zone_h));
            let chunks = outside::split_area(area, true, &parts);
            proof {
                reveal_with_fuel(outside::asked, 3);
                assert(outside::grows_at(parts@, 0));
                assert(parts@.drop_last().drop_last() =~= seq![]);
                assert(outside::asked(parts@) == 6 + drop_zone_h);
            }
            let upper = chunks[0];
            let lower = chunks[1];
            let mut halves: Vec<Part> = Vec::new();
            halves.push(Part::Percentage(50));
            halves.push(Part::Percentage(50));
            let row = outside::split_area(upper, false, &halves);
            assert(halves@ =~= seq![Part::Percentage(50), Part::Percentage(50)]);
            let left = row[0];
            let right = row[1];
            Body::Drop { targets: left, activity: right, drop_zone: lower }
        },
        Tab::Watch => {
            let mut parts: Vec<Part> = Vec::new();
            parts.push(Part::Percentage(55));
            parts.push(Part::Percentage(45));
            let chunks = outside::split_area(area, true, &parts);
            assert(parts@ =~= seq![Part::Percentage(55), Part::Percentage(45)]);
            let upper = chunks[0];
            let lower = chunks[1];
            Body::Watch { watches: upper, recent: lower }
        },
    }
}

/// Divides the screen: a two-line header (title + tab bar), the body, a toast
/// line and the help bar.
pub fn place(size: Rect, tab: Tab) -> (r: Places)
    ensures
        placed(size, tab, r),
{
    let mut parts: Vec<Part> = Vec::new();
    parts.push(Part::Length(1));
    parts.push(Part::Length(1));
    parts.push(Part::Min(6));
    parts.push(Part::Length(1));
    parts.push(Part::Length(1));
    let chunks = outside::split_area(size, true, &parts);
    proof {
        reveal_with_fuel(outside::asked, 6);
        assert(outside::grows_at(parts@, 2));
        assert(outside::asked(parts@) == 10);
    }
    let title = chunks[0];
    let tab_bar = chunks[1];
    let area = chunks[2];
    let toast = chunks[3];
    let help_bar = chunks[4];
    let r = Places { title, tab_bar, body: place_body(area, tab), toast, help_bar };
    assert(placed_around(size, tab, r, area));
    r
}

/// Whatever the size of the screen, every panel lies on it.
pub proof fn law_panels_lie_on_the_screen(size: Rect, tab: Tab, at: Places)
    requires
        placed(size, tab, at),
    ensures
        inside(at.title, size),
        inside(at.tab_bar, size),
        inside(at.toast, size),
        inside(at.help_bar, size),
        match at.body {
            Body::Drop { targets, activity, drop_zone } => inside(targets, size) && inside(
                activity,
                size,
            ) && inside(drop_zone, size),
            Body::Watch { watches, recent } => inside(watches, size) && inside(recent, size),
        },
{
}

/// On a screen of eighteen lines or more no cell belongs to two panels, and every
/// cell to one.
pub proof fn law_every_cell_has_one_panel(size: Rect, tab: Tab, at: Places, x: u16, y: u16)
    requires
        placed(size, tab, at),
        on_grid(size),
        size.height >= 18,
        size.has(x, y),
    ensures
        ({
            let n = |r: Rect| if r.has(x, y) {
                1int
            } else {
                0int
            };
            n(at.title) + n(at.tab_bar) + n(at.toast) + n(at.help_bar) + match at.body {
                Body::Drop { targets, activity, drop_zone } => n(targets) + n(activity) + n(
                    drop_zone,
                ),
                Body::Watch { watches, recent } => n(watches) + n(recent),
            } == 1
        }),
{
}

// ---------------------------------------------------------------------------
// The frame
// ---------------------------------------------------------------------------
/// What a frame is drawn from, besides the state: the sizes of the queued files,
/// the program's clock in milliseconds, and the time since the epoch in seconds.
pub ghost struct Moment {
    pub sizes: Seq<Seq<char>>,
    pub now_ms: u64,
    pub now: u64,
}

pub open spec fn body_picture(a: AppView, body: Body, p: Palette, m: Moment) -> Seq<PaintView> {
    match body {
        Body::Drop { targets, activity, drop_zone } => seq![panels::targets_panel(a, targets, p)]
            + feed::feed(a, activity, p, m.now) + seq![
            panels::drop_zone(a, drop_zone, m.sizes, p),
        ],
        Body::Watch { watches, recent } => panels::watches_panel(a, watches, p)
            + panels::recent_panel(a, recent, p, m.now_ms),
    }
}

/// The form and the help.
pub open spec fn reading_picture(a: AppView, size: Rect, p: Palette) -> Seq<PaintView> {
    (match a.watch_form {
        Some(f) => overlays::form_box(f, size, p),
        None => seq![],
    }) + (if a.help_visible {
        overlays::help_box(size, p)
    } else {
        seq![]
    })
}

/// What lies over the panels, from the bottom to the top.
pub open spec fn overlay_picture(a: AppView, size: Rect, p: Palette) -> Seq<PaintView> {
    reading_picture(a, size, p) + (if a.update_status is Idle {
        seq![]
    } else {
        overlays::update_box(a.update_status, size, p)
    }) + (if a.menu_visible {
        overlays::menu_box(a.menu_cursor, size, p)
    } else {
        seq![]
    }) + (match a.ssh_picker {
        Some(k) => overlays::picker_box(k, size, p),
        None => seq![],
    })
}

/// Everything that is painted for a frame.
pub open spec fn picture(a: AppView, size: Rect, at: Places, m: Moment) -> Seq<PaintView> {
    let p = theme::colors(a.cfg.theme);
    seq![panels::title_bar(a, at.title, p), panels::tab_bar(a, at.tab_bar, p)] + body_picture(
        a,
        at.body,
        p,
        m,
    ) + seq![panels::toast_bar(a, at.toast, p), panels::help_bar(at.help_bar, p)]
        + overlay_picture(a, size, p)
}

pub open spec fn body_hits(a: AppView, body: Body) -> HitView {
    match body {
        Body::Drop { targets, activity, drop_zone } => HitView {
            drop_zone,
            targets_panel: targets,
            progress_panel: activity,
            target_rows: panels::row_rects(targets, a.target_rows.len()),
            activity_rows: feed::feed_hits(a, panels::inside(activity)),
            queue_rows: panels::row_rects(drop_zone, a.queue.len()),
            ..types::no_hits()
        },
        Body::Watch { .. } => types::no_hits(),
    }
}

/// Where the topmost overlay is.
pub open spec fn modal_place(a: AppView, size: Rect) -> Option<Rect> {
    match a.ssh_picker {
        Some(k) => Some(overlays::picker_rect(k, size)),
        None => if a.menu_visible {
            Some(overlays::menu_rect(size))
        } else if !(a.update_status is Idle) {
            Some(overlays::update_rect(size))
        } else if a.help_visible {
            Some(size)
        } else {
            None
        },
    }
}

/// What can be clicked in a frame.
pub open spec fn frame_hits(a: AppView, size: Rect, at: Places) -> HitView {
    HitView {
        help_bar_hits: panels::chip_hits(panels::bar_chips(at.help_bar), at.help_bar),
        modal_area: modal_place(a, size),
        modal_hits: overlays::update_hits(a.update_status, size),
        menu_rows: if a.menu_visible {
            overlays::menu_hits(size)
        } else {
            seq![]
        },
        ssh_picker_rows: match a.ssh_picker {
            Some(k) => overlays::picker_hits(k, size),
            None => seq![],
        },
        ..body_hits(a, at.body)
    }
}

/// The state after a frame: it knows what can be clicked, and cursors past the
/// end of what is shown have been moved back.
pub open spec fn drawn(a: AppView, size: Rect, at: Places) -> AppView {
    let b = match at.body {
        Body::Drop { activity, .. } => AppView {
            activity_cursor: feed::cursor_shown(a, panels::inside(activity)),
            ..a
        },
        Body::Watch { .. } => AppView { watch_cursor: panels::watch_cursor_shown(a), ..a },
    };
    AppView { hit_regions: frame_hits(a, size, at), ..b }
}

fn draw_body(
    c: &mut Canvas,
    app: &mut App,
    body: Body,
    p: &Palette,
    sizes: &Vec<String>,
    now_ms: u64,
    now: u64,
) -> (hits: HitRegions)
    ensures
        final(c)@ == old(c)@ + body_picture(
            old(app)@,
            body,
            *p,
            (Moment { sizes: text::strs(sizes@), now_ms, now }),
        ),
        hits@ == body_hits(old(app)@, body),
        final(app)@ == (match body {
            Body::Drop { activity, .. } => AppView {
                activity_cursor: feed::cursor_shown(old(app)@, panels::inside(activity)),
                ..old(app)@
            },
            Body::Watch { .. } => AppView {
                watch_cursor: panels::watch_cursor_shown(old(app)@),
                ..old(app)@
            },
        }),
{
    let ghost a = app@;
    let ghost before = c@;
    let ghost m = Moment { sizes: text::strs(sizes@), now_ms, now };
    let mut hits = HitRegions::default();
    match body {
        Body::Drop { targets, activity, drop_zone } => {
            hits.targets_panel = targets;
            hits.progress_panel = activity;
            hits.drop_zone = drop_zone;
            hits.target_rows = panels::draw_targets(c, targets, app, p);
            hits.activity_rows = feed::draw_activity(c, activity, app, p, now);
            hits.queue_rows = panels::draw_drop_zone(c, drop_zone, app, sizes, p);
            let ghost b = app@;
            assert(Seq::new(b.queue.len(), |i: int| panels::queue_line(b, i, m.sizes, *p))
                =~= Seq::new(a.queue.len(), |i: int| panels::queue_line(a, i, m.sizes, *p)));
            assert(c@ =~= before + body_picture(a, body, *p, m));
        },
        Body::Watch { watches, recent } => {
            panels::draw_watches(c, watches, app, p);
            panels::draw_watch_recent(c, recent, app, p, now_ms);
            assert(c@ =~= before + body_picture(a, body, *p, m));
        },
    }
    hits
}

fn draw_reading(c: &mut Canvas, app: &App, size: Rect, p: &Palette)
    ensures
        final(c)@ == old(c)@ + reading_picture(app@, size, *p),
{
    let ghost before = c@;
    if let Some(f) = &app.watch_form {
        overlays::draw_watch_form(c, f, size, p);
    }
    if app.help_visible {
        overlays::draw_help_overlay(c, size, p);
    }
    assert(c@ =~= before + reading_picture(app@, size, *p));
}

fn draw_overlays(c: &mut Canvas, app: &App, size: Rect, p: &Palette, hits: &mut HitRegions)
    requires
        old(hits)@.modal_area is None,
        old(hits)@.modal_hits == Seq::<(Rect, types::ModalHit)>::empty(),
        old(hits)@.menu_rows == Seq::<(Rect, types::MenuAction)>::empty(),
        old(hits)@.ssh_picker_rows == Seq::<Rect>::empty(),
    ensures
        final(c)@ == old(c)@ + overlay_picture(app@, size, *p),
        final(hits)@ == (HitView {
            modal_area: modal_place(app@, size),
            modal_hits: overlays::update_hits(app@.update_status, size),
            menu_rows: if app@.menu_visible {
                overlays::menu_hits(size)
            } else {
                seq![]
            },
            ssh_picker_rows: match app@.ssh_picker {
                Some(k) => overlays::picker_hits(k, size),
                None => seq![],
            },
            ..old(hits)@
        }),
{
    let ghost before = c@;
    draw_reading(c, app, size, p);
    if app.help_visible {
        hits.modal_area = Some(size);
    }
    let idle = match &app.update_status {
        UpdateStatus::Idle => true,
        _ => false,
    };
    if !idle {
        let (rect, buttons) = overlays::draw_update_overlay(c, size, app, p);
        hits.modal_area = Some(rect);
        hits.modal_hits = buttons;
    }
    if app.menu_visible {
        let (rect, lines) = overlays::draw_menu_overlay(c, size, app, p);
        hits.modal_area = Some(rect);
        hits.menu_rows = lines;
    }
    if let Some(k) = &app.ssh_picker {
        let (rect, lines) = overlays::draw_ssh_picker(c, size, k, p);
        hits.modal_area = Some(rect);
        hits.ssh_picker_rows = lines;
    }
    assert(c@ =~= before + overlay_picture(app@, size, *p));
}

/// Draws a frame with everything in its place.
pub fn draw_at(
    app: &mut App,
    size: Rect,
    at: Places,
    sizes: &Vec<String>,
    now_ms: u64,
    now: u64,
) -> (c: Canvas)
    ensures
        c@ == picture(
            old(app)@,
            size,
            at,
            (Moment { sizes: text::strs(sizes@), now_ms, now }),
        ),
        final(app)@ == drawn(old(app)@, size, at),
{
    let ghost a = app@;
    let ghost m = Moment { sizes: text::strs(sizes@), now_ms, now };
    let p = theme::palette(app.cfg.theme.as_str());
    let mut c = Canvas::new();
    panels::draw_title(&mut c, at.title, app, &p);
    panels::draw_tab_bar(&mut c, at.tab_bar, app, &p);
    let mut hits = draw_body(&mut c, app, at.body, &p, sizes, now_ms, now);
    panels::draw_toast(&mut c, at.toast, app, &p);
    hits.help_bar_hits = panels::draw_help_bar(&mut c, at.help_bar, &p);
    draw_overlays(&mut c, app, size, &p, &mut hits);
    app.hit_regions = hits;
    assert(c@ =~= picture(a, size, at, m));
    c
}

/// Draws a frame onto a screen of that size.
pub fn draw(app: &mut App, size: Rect, sizes: &Vec<String>, now_ms: u64, now: u64) -> (c: Canvas)
    ensures
        exists|at: Places| #[trigger]
            placed(size, old(app)@.current_tab, at) && c@ == picture(
                old(app)@,
                size,
                at,
                (Moment { sizes: text::strs(sizes@), now_ms, now }),
            ) && final(app)@ == drawn(old(app)@, size, at),
{
    let at = place(size, app.current_tab);
    draw_at(app, size, at, sizes, now_ms, now)
}

} // verus!
