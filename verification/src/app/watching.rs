//! The Watch tab: starting and stopping watches, and what becomes of the files
//! they find.
use vstd::prelude::*;

use crate::app::sync;
use crate::app::types::{
    App, AppView, Effect, EffectView, RecentView, WatchRecent, WatchUi, WatchUiStatus,
    WatchUiStatusView, WatchUiView,
};
use crate::clipboard;
use crate::config;
use crate::config::{Config, ConfigView};
use crate::target::{SyncMode, WatchView};
use crate::text;
use crate::watch::{WatchEvent, WatchEventView};

verus! {

// ---------------------------------------------------------------------------
// Finding watches
// ---------------------------------------------------------------------------
/// Where the watch of that name stands; past the end where there is none.
pub open spec fn watch_index(ws: Seq<WatchUiView>, name: Seq<char>) -> int
    decreases ws.len(),
{
    if ws.len() == 0 || ws[0].name == name {
        0
    } else {
        1 + watch_index(ws.drop_first(), name)
    }
}

/// The targets that a watch called `name` sends to; groups stand for their
/// members.
pub open spec fn destinations(cfg: ConfigView, name: Seq<char>) -> Seq<Seq<char>> {
    match configured(cfg.watches, name) {
        Some(w) => spread(cfg, w.targets),
        None => seq![],
    }
}

pub open spec fn configured(ws: Seq<WatchView>, name: Seq<char>) -> Option<WatchView>
    decreases ws.len(),
{
    if ws.len() == 0 {
        None
    } else if ws[0].name == name {
        Some(ws[0])
    } else {
        configured(ws.drop_first(), name)
    }
}

/// The given names with groups replaced by their members, each once.
pub open spec fn spread(cfg: ConfigView, names: Seq<Seq<char>>) -> Seq<Seq<char>>
    decreases names.len(),
{
    if names.len() == 0 {
        seq![]
    } else {
        let before = spread(cfg, names.drop_last());
        match config::find_group(cfg.groups, names.last()) {
            Some(g) => sync::with_missing(before, g.targets),
            None => sync::with_missing(before, seq![names.last()]),
        }
    }
}

pub(crate) fn find_watch(ws: &Vec<WatchUi>, name: &str) -> (r: usize)
    ensures
        r == watch_index(text::views(ws@), name@),
        r <= ws@.len(),
{
    let ghost all = text::views(ws@);
    let mut i: usize = 0;
    assert(all.skip(0) =~= all);
    while i < ws.len()
        invariant
            i <= ws@.len(),
            all == text::views(ws@),
            watch_index(all, name@) == i + watch_index(all.skip(i as int), name@),
        decreases ws@.len() - i,
    {
        assert(all.skip(i as int)[0] == ws@[i as int]@);
        if text::same(ws[i].name.as_str(), name) {
            return i;
        }
        assert(all.skip(i as int).drop_first() =~= all.skip(i + 1));
        i = i + 1;
    }
    i
}

fn one_name(name: &str) -> (r: Vec<String>)
    ensures
        text::strs(r@) == seq![name@],
{
    let mut v = text::no_strs();
    text::push_str(&mut v, name);
    assert(text::strs(v@) =~= seq![name@]);
    v
}

fn spread_names(cfg: &Config, names: &Vec<String>) -> (r: Vec<String>)
    ensures
        text::strs(r@) == spread(cfg@, text::strs(names@)),
{
    let ghost ns = text::strs(names@);
    let mut out = text::no_strs();
    let mut i: usize = 0;
    while i < names.len()
        invariant
            i <= names@.len(),
            ns == text::strs(names@),
            text::strs(out@) == spread(cfg@, ns.take(i as int)),
        decreases names@.len() - i,
    {
        assert(ns.take(i + 1).drop_last() =~= ns.take(i as int));
        assert(ns.take(i + 1).last() == names@[i as int]@);
        match cfg.group_by_name(names[i].as_str()) {
            Some(g) => sync::add_missing(&mut out, &g.targets),
            None => {
                let one = one_name(names[i].as_str());
                sync::add_missing(&mut out, &one);
            },
        }
        i = i + 1;
    }
    assert(ns.take(i as int) =~= ns);
    out
}

/// The targets that a watch called `name` sends to.
pub fn watch_destinations(cfg: &Config, name: &str) -> (r: Vec<String>)
    ensures
        text::strs(r@) == destinations(cfg@, name@),
{
    let ghost all = cfg@.watches;
    let mut i: usize = 0;
    assert(all.skip(0) =~= all);
    while i < cfg.watches.len()
        invariant
            i <= cfg.watches@.len(),
            all == cfg@.watches,
            configured(all, name@) == configured(all.skip(i as int), name@),
        decreases cfg.watches@.len() - i,
    {
        assert(all.skip(i as int)[0] == cfg.watches@[i as int]@);
        if text::same(cfg.watches[i].name.as_str(), name) {
            return spread_names(cfg, &cfg.watches[i].targets);
        }
        assert(all.skip(i as int).drop_first() =~= all.skip(i + 1));
        i = i + 1;
    }
    text::no_strs()
}

// ---------------------------------------------------------------------------
// What a watch finds
// ---------------------------------------------------------------------------
/// `recent` with the files put before it, the last one first.
pub open spec fn with_recent(
    recent: Seq<RecentView>,
    files: Seq<Seq<char>>,
    name: Seq<char>,
    now: u64,
) -> Seq<RecentView>
    decreases files.len(),
{
    if files.len() == 0 {
        recent
    } else {
        seq![
            RecentView {
                file_display: clipboard::basename(files.last()),
                watch_name: name,
                at_ms: now,
            },
        ] + with_recent(recent, files.drop_last(), name, now)
    }
}

pub open spec fn counted(n: u64, more: nat) -> u64 {
    if n + more > u64::MAX {
        u64::MAX
    } else {
        (n + more) as u64
    }
}

impl AppView {
    /// The watch at `i` looks like `w`.
    pub open spec fn with_watch(self, i: int, w: WatchUiView) -> AppView {
        AppView { watches: self.watches.update(i, w), ..self }
    }

    pub open spec fn with_watch_status(self, name: Seq<char>, status: WatchUiStatusView) -> AppView {
        let i = watch_index(self.watches, name);
        if i < self.watches.len() {
            self.with_watch(i, WatchUiView { status, ..self.watches[i] })
        } else {
            self
        }
    }

    /// Files of the watch at `i` are sent to its targets.
    pub open spec fn watch_sent(self, i: int, files: Seq<Seq<char>>, now: u64) -> AppView {
        let w = self.watches[i];
        AppView {
            watch_recent: with_recent(self.watch_recent, files, w.name, now),
            ..self.with_watch(
                i,
                WatchUiView { synced_count: counted(w.synced_count, files.len()), ..w },
            )
        }.sent_all(files, destinations(self.cfg, w.name), Some(w.name))
    }

    /// Files of the watch at `i` wait until the user asks for them.
    pub open spec fn watch_held(self, i: int, files: Seq<Seq<char>>) -> AppView {
        let w = self.watches[i];
        self.with_watch(
            i,
            WatchUiView { pending_catchup: sync::with_missing(w.pending_catchup, files), ..w },
        )
    }

    /// A running watch has something to say. A new file is sent at once in auto
    /// mode, and waits in manual mode.
    pub open spec fn watch_heard(self, ev: WatchEventView, now: u64) -> AppView {
        match ev {
            WatchEventView::NewFile { watch_name, path, size } => {
                let i = watch_index(self.watches, watch_name);
                if i >= self.watches.len() {
                    self
                } else if self.mode == SyncMode::Auto {
                    self.watch_sent(i, seq![path], now)
                } else {
                    self.watch_held(i, seq![path])
                }
            },
            WatchEventView::CatchupDetected { watch_name, paths } => {
                let i = watch_index(self.watches, watch_name);
                if i >= self.watches.len() {
                    self
                } else {
                    self.watch_held(i, paths)
                }
            },
            WatchEventView::LockLost { watch_name, reason } => self.with_watch_status(
                watch_name,
                WatchUiStatusView::Error(reason),
            ),
            WatchEventView::Stopped { watch_name } => {
                let i = watch_index(self.watches, watch_name);
                if i < self.watches.len() && self.watches[i].status is Starting {
                    self
                } else {
                    self.with_watch_status(watch_name, WatchUiStatusView::Off)
                }
            },
        }
    }

    /// The watch under the cursor is started, or stopped where it runs.
    pub open spec fn watch_toggled(self) -> AppView {
        let i = self.watch_cursor as int;
        if i >= self.watches.len() {
            self
        } else {
            let w = self.watches[i];
            if w.status is Starting || w.status is Running {
                self.with_watch(i, WatchUiView { status: WatchUiStatusView::Off, ..w }).emit(
                    EffectView::StopWatch { name: w.name },
                )
            } else {
                self.watch_starting(i)
            }
        }
    }

    pub open spec fn watch_starting(self, i: int) -> AppView {
        let w = self.watches[i];
        self.with_watch(i, WatchUiView { status: WatchUiStatusView::Starting, ..w }).emit(
            EffectView::StartWatch { name: w.name },
        )
    }

    /// The files that wait for the watch under the cursor are sent.
    pub open spec fn caught_up(self, now: u64) -> AppView {
        let i = self.watch_cursor as int;
        if i >= self.watches.len() {
            self
        } else {
            let w = self.watches[i];
            if w.pending_catchup.len() == 0 {
                self.toasted("nothing to catch up on"@, now)
            } else {
                self.with_watch(i, WatchUiView { pending_catchup: seq![], ..w }).watch_sent(
                    i,
                    w.pending_catchup,
                    now,
                ).toasted(
                    "catching up on "@ + text::decimal(w.pending_catchup.len()) + " file(s)"@,
                    now,
                )
            }
        }
    }

    /// The first `n` watches are started, as far as they are enabled.
    pub open spec fn watches_launched(self, n: nat) -> AppView
        decreases n,
    {
        if n == 0 {
            self
        } else {
            let a = self.watches_launched((n - 1) as nat);
            if n <= self.cfg.watches.len() && self.cfg.watches[n - 1].enabled {
                a.watch_starting(n - 1)
            } else {
                a
            }
        }
    }
}

fn copy_watch(w: &WatchUi) -> (r: WatchUi)
    ensures
        r@ == w@,
{
    WatchUi {
        name: w.name.clone(),
        path_display: w.path_display.clone(),
        targets_display: w.targets_display.clone(),
        status: copy_status(&w.status),
        synced_count: w.synced_count,
        pending_catchup: text::clone_strs(&w.pending_catchup),
    }
}

fn copy_status(s: &WatchUiStatus) -> (r: WatchUiStatus)
    ensures
        r@ == s@,
{
    match s {
        WatchUiStatus::Off => WatchUiStatus::Off,
        WatchUiStatus::Starting => WatchUiStatus::Starting,
        WatchUiStatus::Running => WatchUiStatus::Running,
        WatchUiStatus::LockedByOther(pid) => WatchUiStatus::LockedByOther(*pid),
        WatchUiStatus::Error(e) => WatchUiStatus::Error(e.clone()),
    }
}

fn extend_recent(recent: &mut Vec<WatchRecent>, files: &Vec<String>, name: &str, now: u64)
    ensures
        text::views(final(recent)@) == with_recent(
            text::views(old(recent)@),
            text::strs(files@),
            name@,
            now,
        ),
{
    let ghost fs = text::strs(files@);
    let ghost start = text::views(recent@);
    let mut i: usize = 0;
    while i < files.len()
        invariant
            i <= files@.len(),
            fs == text::strs(files@),
            text::views(recent@) == with_recent(start, fs.take(i as int), name@, now),
        decreases files@.len() - i,
    {
        assert(fs.take(i + 1).drop_last() =~= fs.take(i as int));
        assert(fs.take(i + 1).last() == files@[i as int]@);
        let ghost before = recent@;
        let e = WatchRecent {
            file_display: clipboard::local_basename(files[i].as_str()),
            watch_name: name.to_owned(),
            at_ms: now,
        };
        let ghost v = e@;
        recent.insert(0, e);
        assert(text::views(recent@) =~= seq![v] + text::views(before));
        i = i + 1;
    }
    assert(fs.take(i as int) =~= fs);
}

impl App {
    fn set_watch(&mut self, i: usize, w: WatchUi)
        requires
            i < old(self).watches@.len(),
        ensures
            final(self)@ == old(self)@.with_watch(i as int, w@),
            final(self).watches@.len() == old(self).watches@.len(),
    {
        let ghost before = self.watches@;
        self.watches.set(i, w);
        assert(text::views(self.watches@) =~= text::views(before).update(i as int, w@));
    }

    fn watch_at(&self, i: usize) -> (r: WatchUi)
        requires
            i < self.watches@.len(),
        ensures
            r@ == self@.watches[i as int],
    {
        copy_watch(&self.watches[i])
    }

    pub fn set_watch_status(&mut self, name: &str, status: WatchUiStatus)
        ensures
            final(self)@ == old(self)@.with_watch_status(name@, status@),
    {
        let i = find_watch(&self.watches, name);
        if i < self.watches.len() {
            let mut w = self.watch_at(i);
            w.status = status;
            self.set_watch(i, w);
        }
    }

    fn send_from_watch(&mut self, i: usize, files: &Vec<String>, now: u64)
        requires
            i < old(self).watches@.len(),
        ensures
            final(self)@ == old(self)@.watch_sent(i as int, text::strs(files@), now),
    {
        let mut w = self.watch_at(i);
        let name = w.name.clone();
        assert(text::strs(files@).len() == files@.len());
        let n: u64 = files.len() as u64;
        w.synced_count = if w.synced_count > u64::MAX - n {
            u64::MAX
        } else {
            w.synced_count + n
        };
        let dests = watch_destinations(&self.cfg, name.as_str());
        self.set_watch(i, w);
        extend_recent(&mut self.watch_recent, files, name.as_str(), now);
        self.send_all(files, &dests, Some(name.as_str()));
    }

    fn hold_for_watch(&mut self, i: usize, files: &Vec<String>)
        requires
            i < old(self).watches@.len(),
        ensures
            final(self)@ == old(self)@.watch_held(i as int, text::strs(files@)),
    {
        let mut w = self.watch_at(i);
        let mut pending = text::clone_strs(&w.pending_catchup);
        sync::add_missing(&mut pending, files);
        w.pending_catchup = pending;
        self.set_watch(i, w);
    }

    pub fn handle_watch_event(&mut self, ev: WatchEvent, now: u64)
        ensures
            final(self)@ == old(self)@.watch_heard(ev@, now),
    {
        match ev {
            WatchEvent::NewFile { watch_name, path, size: _ } => {
                let i = find_watch(&self.watches, watch_name.as_str());
                if i < self.watches.len() {
                    let one = one_name(path.as_str());
                    if self.mode == SyncMode::Auto {
                        self.send_from_watch(i, &one, now);
                    } else {
                        self.hold_for_watch(i, &one);
                    }
                }
            },
            WatchEvent::CatchupDetected { watch_name, paths } => {
                let i = find_watch(&self.watches, watch_name.as_str());
                if i < self.watches.len() {
                    self.hold_for_watch(i, &paths);
                }
            },
            WatchEvent::LockLost { watch_name, reason } => {
                self.set_watch_status(watch_name.as_str(), WatchUiStatus::Error(reason));
            },
            WatchEvent::Stopped { watch_name } => {
                let i = find_watch(&self.watches, watch_name.as_str());
                let starting = if i < self.watches.len() {
                    let w = self.watch_at(i);
                    match w.status {
                        WatchUiStatus::Starting => true,
                        _ => false,
                    }
                } else {
                    false
                };
                if !starting {
                    self.set_watch_status(watch_name.as_str(), WatchUiStatus::Off);
                }
            },
        }
    }

    fn start_watch(&mut self, i: usize)
        requires
            i < old(self).watches@.len(),
        ensures
            final(self)@ == old(self)@.watch_starting(i as int),
            final(self).watches@.len() == old(self).watches@.len(),
    {
        let mut w = self.watch_at(i);
        let name = w.name.clone();
        w.status = WatchUiStatus::Starting;
        self.set_watch(i, w);
        let ghost n = self.watches@.len();
        self.emit(Effect::StartWatch { name });
        assert(self@.watches.len() == n);
    }

    pub fn toggle_watch(&mut self)
        ensures
            final(self)@ == old(self)@.watch_toggled(),
    {
        let i = self.watch_cursor;
        if i >= self.watches.len() {
            return;
        }
        let mut w = self.watch_at(i);
        let on = match w.status {
            WatchUiStatus::Starting | WatchUiStatus::Running => true,
            _ => false,
        };
        if on {
            let name = w.name.clone();
            w.status = WatchUiStatus::Off;
            self.set_watch(i, w);
            self.emit(Effect::StopWatch { name });
        } else {
            self.start_watch(i);
        }
    }

    pub fn run_catchup(&mut self, now: u64)
        ensures
            final(self)@ == old(self)@.caught_up(now),
    {
        let i = self.watch_cursor;
        if i >= self.watches.len() {
            return;
        }
        let mut w = self.watch_at(i);
        assert(text::strs(w.pending_catchup@).len() == w.pending_catchup@.len());
        if w.pending_catchup.len() == 0 {
            self.show("nothing to catch up on", now);
            return;
        }
        let files = text::clone_strs(&w.pending_catchup);
        w.pending_catchup = text::no_strs();
        let mut m = "catching up on ".to_owned();
        assert(text::strs(files@).len() == files@.len());
        let n = text::to_decimal(files.len() as u64);
        m.append(n.as_str());
        m.append(" file(s)");
        self.set_watch(i, w);
        self.send_from_watch(i, &files, now);
        self.show(m.as_str(), now);
    }

    /// Starts every watch that is enabled, as is done on launch.
    pub fn start_enabled_watches(&mut self)
        requires
            old(self).watches@.len() == old(self).cfg.watches@.len(),
        ensures
            final(self)@ == old(self)@.watches_launched(old(self)@.watches.len()),
    {
        let ghost a = self@;
        let n = self.watches.len();
        let mut i: usize = 0;
        while i < n
            invariant
                i <= n,
                n == self.watches@.len(),
                n == a.cfg.watches.len(),
                self@.cfg == a.cfg,
                self@ == a.watches_launched(i as nat),
            decreases n - i,
        {
            assert(a.cfg.watches[i as int] == self@.cfg.watches[i as int]);
            assert(self@.cfg.watches.len() == self.cfg.watches@.len());
            if self.cfg.watches[i].enabled {
                self.start_watch(i);
            }
            i = i + 1;
        }
    }
}

} // verus!
