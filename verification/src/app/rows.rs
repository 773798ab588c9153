//! Targets: the rows that show them, which of them are selected, and how they
//! come and go.
use vstd::prelude::*;

use crate::app::types::{
    App, AppView, Effect, EffectView, Focus, HitRegions, RowView, Tab, TargetKind, TargetRow,
    TargetStatus, TargetStatusView, Toast, UpdateStatus, UpdateView, WatchUi, WatchUiStatus,
    WatchUiStatusView, WatchUiView,
};
use crate::app::types;
use crate::config;
use crate::config::{Config, ConfigView};
use crate::environment::{Environment, EnvironmentView};
use crate::history::{EntryView, HistoryStore};
use crate::target::{Group, GroupView, Target, TargetView, WatchConfig, WatchView};
use crate::text;

verus! {

// ---------------------------------------------------------------------------
// Messages and effects
// ---------------------------------------------------------------------------
impl AppView {
    /// Shows a message.
    pub open spec fn toasted(self, msg: Seq<char>, now: u64) -> AppView {
        AppView { toast: Some((msg, now)), ..self }
    }

    /// Asks for something to be done outside.
    pub open spec fn emit(self, e: EffectView) -> AppView {
        AppView { outbox: self.outbox.push(e), ..self }
    }

    /// A message goes after four seconds.
    pub open spec fn ticked(self, now: u64) -> AppView {
        AppView {
            toast: match self.toast {
                Some((_, at)) => if now - at > 4000 {
                    None
                } else {
                    self.toast
                },
                None => None,
            },
            ..self
        }
    }

    /// Characters were typed over the drop zone, and none came for 120 ms.
    pub open spec fn typing_over(self, now: u64) -> bool {
        self.typed.len() > 0 && now - self.typed_at_ms >= 120
    }

    /// What a tick makes of the state: once the typing is over, what was typed
    /// counts as a paste.
    pub open spec fn after_tick(self, now: u64) -> AppView {
        if self.typing_over(now) {
            AppView { typed: seq![], ..self.ticked(now) }.pasted(self.typed)
        } else {
            self.ticked(now)
        }
    }
}

impl App {
    pub fn show(&mut self, msg: &str, now: u64)
        ensures
            final(self)@ == old(self)@.toasted(msg@, now),
    {
        self.toast = Some(Toast { text: msg.to_owned(), at_ms: now });
    }

    pub fn emit(&mut self, e: Effect)
        ensures
            final(self)@ == old(self)@.emit(e@),
    {
        proof {
            text::lemma_views_push(self.outbox@, e);
        }
        self.outbox.push(e);
    }

    pub fn tick(&mut self, now: u64)
        ensures
            final(self)@ == old(self)@.after_tick(now),
    {
        let gone = match &self.toast {
            Some(t) => now > t.at_ms && now - t.at_ms > 4000,
            None => false,
        };
        if gone {
            self.toast = None;
        }
        if !self.typed.as_str().is_empty() && now >= self.typed_at_ms && now - self.typed_at_ms
            >= 120 {
            let raw = self.typed.clone();
            self.typed = "".to_owned();
            proof {
                reveal_strlit("");
                assert(self.typed@ =~= seq![]);
            }
            self.handle_paste(raw.as_str());
        }
    }
}

// ---------------------------------------------------------------------------
// Rows
// ---------------------------------------------------------------------------
pub open spec fn target_row(t: TargetView, selected: bool, status: TargetStatusView) -> RowView {
    RowView { name: t.name, kind: TargetKind::Single, summary: t.endpoint(), selected, status }
}

pub open spec fn group_row(g: GroupView, selected: bool, status: TargetStatusView) -> RowView {
    RowView {
        name: g.name,
        kind: TargetKind::Group,
        summary: "group → "@ + text::joined(g.targets, " + "@),
        selected,
        status,
    }
}

/// A row for each target, then one for each group, none of them selected.
pub open spec fn plain_rows(cfg: ConfigView) -> Seq<RowView> {
    Seq::new(
        cfg.targets.len(),
        |i: int| target_row(cfg.targets[i], false, TargetStatusView::Unknown),
    ) + Seq::new(
        cfg.groups.len(),
        |i: int| group_row(cfg.groups[i], false, TargetStatusView::Unknown),
    )
}

/// Where the first row of that name stands; past the end where there is none.
pub open spec fn row_index(rows: Seq<RowView>, name: Seq<char>) -> int
    decreases rows.len(),
{
    if rows.len() == 0 || rows[0].name == name {
        0
    } else {
        1 + row_index(rows.drop_first(), name)
    }
}

pub open spec fn with_selected(rows: Seq<RowView>, i: int, selected: bool) -> Seq<RowView> {
    if 0 <= i < rows.len() {
        rows.update(i, RowView { selected, ..rows[i] })
    } else {
        rows
    }
}

pub open spec fn with_status(rows: Seq<RowView>, i: int, status: TargetStatusView) -> Seq<RowView> {
    if 0 <= i < rows.len() {
        rows.update(i, RowView { status, ..rows[i] })
    } else {
        rows
    }
}

/// The rows to start with: the default target is selected, or the first row
/// where no default is set.
pub open spec fn first_rows(cfg: ConfigView) -> Seq<RowView> {
    let rows = plain_rows(cfg);
    match cfg.default_target {
        Some(n) => with_selected(rows, row_index(rows, n), true),
        None => with_selected(rows, 0, true),
    }
}

pub proof fn lemma_row_index(rows: Seq<RowView>, name: Seq<char>)
    ensures
        0 <= row_index(rows, name) <= rows.len(),
        row_index(rows, name) < rows.len() ==> rows[row_index(rows, name)].name == name,
        forall|i: int| 0 <= i < row_index(rows, name) ==> (#[trigger] rows[i]).name != name,
    decreases rows.len(),
{
    if rows.len() > 0 && rows[0].name != name {
        lemma_row_index(rows.drop_first(), name);
        assert forall|i: int| 0 <= i < row_index(rows, name) implies (#[trigger] rows[i]).name
            != name by {
            if i > 0 {
                assert(rows.drop_first()[i - 1] == rows[i]);
            }
        }
    }
}

pub fn find_row(rows: &Vec<TargetRow>, name: &str) -> (r: usize)
    ensures
        r == row_index(text::views(rows@), name@),
        r <= rows@.len(),
{
    let ghost all = text::views(rows@);
    proof {
        lemma_row_index(all, name@);
    }
    let mut i: usize = 0;
    while i < rows.len()
        invariant
            all == text::views(rows@),
            i <= row_index(all, name@) <= all.len(),
            row_index(all, name@) < all.len() ==> all[row_index(all, name@)].name == name@,
            forall|k: int| 0 <= k < row_index(all, name@) ==> (#[trigger] all[k]).name != name@,
        decreases rows@.len() - i,
    {
        assert(all[i as int].name == rows@[i as int].name@);
        if text::same(rows[i].name.as_str(), name) {
            return i;
        }
        i = i + 1;
    }
    i
}

fn set_selected(rows: &mut Vec<TargetRow>, i: usize, selected: bool)
    ensures
        text::views(final(rows)@) == with_selected(text::views(old(rows)@), i as int, selected),
{
    let ghost before = text::views(rows@);
    if i < rows.len() {
        rows[i].selected = selected;
        assert(text::views(rows@) =~= with_selected(before, i as int, selected));
    }
}

pub fn set_status(rows: &mut Vec<TargetRow>, i: usize, status: TargetStatus)
    ensures
        text::views(final(rows)@) == with_status(text::views(old(rows)@), i as int, status@),
{
    let ghost before = text::views(rows@);
    if i < rows.len() {
        rows[i].status = status;
        assert(text::views(rows@) =~= with_status(before, i as int, status@));
    }
}

fn row_for_target(t: &Target, selected: bool, status: TargetStatus) -> (r: TargetRow)
    ensures
        r@ == target_row(t@, selected, status@),
{
    TargetRow {
        name: t.name.clone(),
        kind: TargetKind::Single,
        summary: t.display_endpoint(),
        selected,
        status,
    }
}

fn row_for_group(g: &Group, selected: bool, status: TargetStatus) -> (r: TargetRow)
    ensures
        r@ == group_row(g@, selected, status@),
{
    let mut summary = "group → ".to_owned();
    let names = text::join(&g.targets, " + ");
    summary.append(names.as_str());
    TargetRow { name: g.name.clone(), kind: TargetKind::Group, summary, selected, status }
}

fn build_rows(cfg: &Config) -> (r: Vec<TargetRow>)
    ensures
        text::views(r@) == plain_rows(cfg@),
{
    let mut rows: Vec<TargetRow> = Vec::new();
    let mut i: usize = 0;
    while i < cfg.targets.len()
        invariant
            i <= cfg.targets@.len(),
            rows@.len() == i,
            forall|k: int|
                0 <= k < i ==> (#[trigger] rows@[k])@ == target_row(
                    cfg@.targets[k],
                    false,
                    TargetStatusView::Unknown,
                ),
        decreases cfg.targets@.len() - i,
    {
        rows.push(row_for_target(&cfg.targets[i], false, TargetStatus::Unknown));
        i = i + 1;
    }
    let ghost n = rows@.len();
    let mut k: usize = 0;
    while k < cfg.groups.len()
        invariant
            k <= cfg.groups@.len(),
            n == cfg@.targets.len(),
            rows@.len() == n + k,
            forall|x: int|
                0 <= x < n ==> (#[trigger] rows@[x])@ == target_row(
                    cfg@.targets[x],
                    false,
                    TargetStatusView::Unknown,
                ),
            forall|x: int|
                n <= x < n + k ==> (#[trigger] rows@[x])@ == group_row(
                    cfg@.groups[x - n],
                    false,
                    TargetStatusView::Unknown,
                ),
        decreases cfg.groups@.len() - k,
    {
        rows.push(row_for_group(&cfg.groups[k], false, TargetStatus::Unknown));
        k = k + 1;
    }
    assert(text::views(rows@) =~= plain_rows(cfg@));
    rows
}

/// A watch as it is shown before it has been started.
pub open spec fn idle_watch(w: WatchView) -> WatchUiView {
    WatchUiView {
        name: w.name,
        path_display: w.path,
        targets_display: text::joined(w.targets, ", "@),
        status: WatchUiStatusView::Off,
        synced_count: 0,
        pending_catchup: seq![],
    }
}

pub open spec fn idle_watches(cfg: ConfigView) -> Seq<WatchUiView> {
    Seq::new(cfg.watches.len(), |i: int| idle_watch(cfg.watches[i]))
}

pub(crate) fn idle_row(w: &WatchConfig) -> (r: WatchUi)
    ensures
        r@ == idle_watch(w@),
{
    WatchUi {
        name: w.name.clone(),
        path_display: w.path.clone(),
        targets_display: text::join(&w.targets, ", "),
        status: WatchUiStatus::Off,
        synced_count: 0,
        pending_catchup: text::no_strs(),
    }
}

fn build_watches(cfg: &Config) -> (r: Vec<WatchUi>)
    ensures
        text::views(r@) == idle_watches(cfg@),
{
    let mut ws: Vec<WatchUi> = Vec::new();
    let mut i: usize = 0;
    while i < cfg.watches.len()
        invariant
            i <= cfg.watches@.len(),
            ws@.len() == i,
            forall|k: int| 0 <= k < i ==> (#[trigger] ws@[k])@ == idle_watch(cfg@.watches[k]),
        decreases cfg.watches@.len() - i,
    {
        ws.push(idle_row(&cfg.watches[i]));
        i = i + 1;
    }
    assert(text::views(ws@) =~= idle_watches(cfg@));
    ws
}

/// The state to start with.
pub open spec fn fresh_app(
    cfg: ConfigView,
    history: Seq<EntryView>,
    history_base: Seq<char>,
    env: EnvironmentView,
) -> AppView {
    AppView {
        cfg,
        mode: cfg.default_mode,
        clipboard_format: cfg.clipboard_format,
        focus: Focus::DropZone,
        current_tab: Tab::Drop,
        should_quit: false,
        target_rows: first_rows(cfg),
        target_cursor: 0,
        queue: seq![],
        queue_cursor: 0,
        last_paste_error: None,
        transfers: seq![],
        next_transfer_id: 1,
        last_clipboard: None,
        toast: None,
        help_visible: false,
        menu_visible: false,
        menu_cursor: 0,
        ssh_picker: None,
        activity_filter: None,
        activity_cursor: 0,
        last_copied_remote: None,
        history,
        history_base,
        update_status: UpdateView::Idle,
        hit_regions: types::no_hits(),
        watches: idle_watches(cfg),
        watch_cursor: 0,
        env,
        watch_recent: seq![],
        watch_form: None,
        typed: ""@,
        typed_at_ms: 0,
        outbox: seq![],
    }
}

impl App {
    pub fn new(cfg: Config, history: HistoryStore, env: Environment) -> (r: Self)
        ensures
            r@ == fresh_app(cfg@, history@, history.base@, env@),
            r@.wf(),
    {
        let mut rows = build_rows(&cfg);
        match &cfg.default_target {
            Some(name) => {
                let i = find_row(&rows, name.as_str());
                set_selected(&mut rows, i, true);
            },
            None => {
                set_selected(&mut rows, 0, true);
            },
        }
        let watches = build_watches(&cfg);
        let mode = cfg.default_mode;
        let clipboard_format = cfg.clipboard_format;
        let r = App {
            cfg,
            mode,
            clipboard_format,
            focus: Focus::DropZone,
            current_tab: Tab::Drop,
            should_quit: false,
            target_rows: rows,
            target_cursor: 0,
            queue: Vec::new(),
            queue_cursor: 0,
            last_paste_error: None,
            transfers: Vec::new(),
            next_transfer_id: 1,
            last_clipboard: None,
            toast: None,
            help_visible: false,
            menu_visible: false,
            menu_cursor: 0,
            ssh_picker: None,
            activity_filter: None,
            activity_cursor: 0,
            last_copied_remote: None,
            history,
            update_status: UpdateStatus::Idle,
            hit_regions: HitRegions::default(),
            watches,
            watch_cursor: 0,
            env,
            watch_recent: Vec::new(),
            watch_form: None,
            typed: "".to_owned(),
            typed_at_ms: 0,
            outbox: Vec::new(),
        };
        assert(r@.queue =~= seq![]);
        assert(r@.transfers =~= seq![]);
        assert(r@.watch_recent =~= seq![]);
        assert(r@.outbox =~= seq![]);
        r
    }
}

// ---------------------------------------------------------------------------
// Rebuilding
// ---------------------------------------------------------------------------
/// The last row of that name.
pub open spec fn last_row(rows: Seq<RowView>, name: Seq<char>) -> Option<RowView>
    decreases rows.len(),
{
    if rows.len() == 0 {
        None
    } else if rows.last().name == name {
        Some(rows.last())
    } else {
        last_row(rows.drop_last(), name)
    }
}

/// The row of a target that may have had one before: it keeps its status and
/// its selection. A new one is selected where it is the default target.
pub open spec fn kept_target_row(cfg: ConfigView, prior: Seq<RowView>, t: TargetView) -> RowView {
    match last_row(prior, t.name) {
        Some(r) => target_row(t, r.selected, r.status),
        None => target_row(t, cfg.default_target == Some(t.name), TargetStatusView::Unknown),
    }
}

pub open spec fn kept_group_row(prior: Seq<RowView>, g: GroupView) -> RowView {
    match last_row(prior, g.name) {
        Some(r) => group_row(g, r.selected, r.status),
        None => group_row(g, false, TargetStatusView::Unknown),
    }
}

pub open spec fn kept_rows(cfg: ConfigView, prior: Seq<RowView>) -> Seq<RowView> {
    Seq::new(cfg.targets.len(), |i: int| kept_target_row(cfg, prior, cfg.targets[i])) + Seq::new(
        cfg.groups.len(),
        |i: int| kept_group_row(prior, cfg.groups[i]),
    )
}

pub open spec fn clamped(cursor: usize, len: nat) -> usize {
    if cursor < len {
        cursor
    } else if len == 0 {
        0
    } else {
        (len - 1) as usize
    }
}

impl AppView {
    /// The rows follow the configuration; those of targets that stay keep their
    /// status and selection, so adding or removing one target doesn't reset
    /// unrelated ones.
    pub open spec fn rebuilt(self) -> AppView {
        let rows = kept_rows(self.cfg, self.target_rows);
        AppView {
            target_rows: rows,
            target_cursor: clamped(self.target_cursor, rows.len()),
            ..self
        }
    }
}

fn find_last_row(rows: &Vec<TargetRow>, name: &str) -> (r: Option<usize>)
    ensures
        match r {
            Some(i) => i < rows@.len() && last_row(text::views(rows@), name@) == Some(rows@[i as int]@),
            None => last_row(text::views(rows@), name@) is None,
        },
{
    let ghost all = text::views(rows@);
    let mut i: usize = rows.len();
    assert(all.take(i as int) =~= all);
    while i > 0
        invariant
            i <= rows@.len(),
            all == text::views(rows@),
            last_row(all, name@) == last_row(all.take(i as int), name@),
        decreases i,
    {
        assert(all.take(i as int).drop_last() =~= all.take(i - 1));
        assert(all.take(i as int).last() == rows@[i - 1]@);
        if text::same(rows[i - 1].name.as_str(), name) {
            return Some(i - 1);
        }
        i = i - 1;
    }
    None
}

fn rebuild_rows(cfg: &Config, prior: &Vec<TargetRow>) -> (r: Vec<TargetRow>)
    ensures
        text::views(r@) == kept_rows(cfg@, text::views(prior@)),
{
    let ghost before = text::views(prior@);
    let mut rows: Vec<TargetRow> = Vec::new();
    let mut i: usize = 0;
    while i < cfg.targets.len()
        invariant
            i <= cfg.targets@.len(),
            before == text::views(prior@),
            rows@.len() == i,
            forall|k: int|
                0 <= k < i ==> (#[trigger] rows@[k])@ == kept_target_row(
                    cfg@,
                    before,
                    cfg@.targets[k],
                ),
        decreases cfg.targets@.len() - i,
    {
        let t = &cfg.targets[i];
        let row = match find_last_row(prior, t.name.as_str()) {
            Some(k) => row_for_target(t, prior[k].selected, prior[k].status.clone()),
            None => {
                let selected = match &cfg.default_target {
                    Some(d) => text::same(d.as_str(), t.name.as_str()),
                    None => false,
                };
                row_for_target(t, selected, TargetStatus::Unknown)
            },
        };
        rows.push(row);
        i = i + 1;
    }
    let ghost n = rows@.len();
    let mut k: usize = 0;
    while k < cfg.groups.len()
        invariant
            k <= cfg.groups@.len(),
            before == text::views(prior@),
            n == cfg@.targets.len(),
            rows@.len() == n + k,
            forall|x: int|
                0 <= x < n ==> (#[trigger] rows@[x])@ == kept_target_row(
                    cfg@,
                    before,
                    cfg@.targets[x],
                ),
            forall|x: int|
                n <= x < n + k ==> (#[trigger] rows@[x])@ == kept_group_row(
                    before,
                    cfg@.groups[x - n],
                ),
        decreases cfg.groups@.len() - k,
    {
        let g = &cfg.groups[k];
        let row = match find_last_row(prior, g.name.as_str()) {
            Some(x) => row_for_group(g, prior[x].selected, prior[x].status.clone()),
            None => row_for_group(g, false, TargetStatus::Unknown),
        };
        rows.push(row);
        k = k + 1;
    }
    assert(text::views(rows@) =~= kept_rows(cfg@, before));
    rows
}

impl App {
    pub fn rebuild_target_rows(&mut self)
        ensures
            final(self)@ == old(self)@.rebuilt(),
    {
        let rows = rebuild_rows(&self.cfg, &self.target_rows);
        self.target_rows = rows;
        if self.target_cursor >= self.target_rows.len() {
            self.target_cursor = self.target_rows.len().saturating_sub(1);
        }
    }
}

// ---------------------------------------------------------------------------
// Probing
// ---------------------------------------------------------------------------
pub open spec fn all_probing(rows: Seq<RowView>) -> Seq<RowView> {
    Seq::new(
        rows.len(),
        |i: int|
            if rows[i].kind == TargetKind::Group {
                rows[i]
            } else {
                RowView { status: TargetStatusView::Probing, ..rows[i] }
            },
    )
}

pub open spec fn preflights(targets: Seq<TargetView>) -> Seq<EffectView> {
    Seq::new(
        targets.len(),
        |i: int| EffectView::Preflight { target: targets[i], after_install: false },
    )
}

impl AppView {
    /// The row of that name shows a status.
    pub open spec fn with_row_status(self, name: Seq<char>, status: TargetStatusView) -> AppView {
        AppView {
            target_rows: with_status(self.target_rows, row_index(self.target_rows, name), status),
            ..self
        }
    }

    /// Every target is probed.
    pub open spec fn probing_all(self) -> AppView {
        if self.cfg.targets.len() == 0 {
            self
        } else {
            AppView {
                target_rows: all_probing(self.target_rows),
                outbox: self.outbox + preflights(self.cfg.targets),
                ..self
            }
        }
    }

    /// rsync is being installed on a target.
    pub open spec fn installing_rsync(self, name: Seq<char>, now: u64) -> AppView {
        match config::find_target(self.cfg.targets, name) {
            Some(t) => self.with_row_status(name, TargetStatusView::Probing).toasted(
                "installing rsync on "@ + name + "…"@,
                now,
            ).emit(EffectView::InstallRsync { target: t }),
            None => self,
        }
    }

    /// rsync has been installed on a target, which is then probed again, or could
    /// not be.
    pub open spec fn rsync_installed(
        self,
        name: Seq<char>,
        error: Option<Seq<char>>,
        now: u64,
    ) -> AppView {
        match error {
            None => {
                let a = self.toasted("installed rsync on "@ + name, now);
                match config::find_target(self.cfg.targets, name) {
                    Some(t) => a.with_row_status(name, TargetStatusView::Probing).emit(
                        EffectView::Preflight { target: t, after_install: true },
                    ),
                    None => a,
                }
            },
            Some(e) => self.with_row_status(name, TargetStatusView::NoRsync).toasted(
                "install failed: "@ + e,
                now,
            ),
        }
    }

    /// A local rsync that is missing or too old is complained about.
    pub open spec fn rsync_version_known(self, v: (u32, u32, u32), now: u64) -> AppView {
        if v.0 == 0 {
            self.toasted("rsync not found locally — install it: brew install rsync"@, now)
        } else if v.0 < 3 {
            self.toasted(
                "local rsync is v"@ + text::decimal(v.0 as nat) + "."@ + text::decimal(v.1 as nat)
                    + " (old); upgrade: brew install rsync"@,
                now,
            )
        } else {
            self
        }
    }
}

impl App {
    pub fn set_row_status(&mut self, name: &str, status: TargetStatus)
        ensures
            final(self)@ == old(self)@.with_row_status(name@, status@),
    {
        let i = find_row(&self.target_rows, name);
        set_status(&mut self.target_rows, i, status);
    }

    pub fn apply_preflight_result(&mut self, name: &str, status: TargetStatus)
        ensures
            final(self)@ == old(self)@.with_row_status(name@, status@),
    {
        self.set_row_status(name, status);
    }

    /// Probe the local rsync version once at startup so we can warn the user
    /// if it's ancient — macOS ships rsync 2.6.9 which lacks many useful
    /// flags and tends to bite people exactly in this workflow.
    pub fn spawn_rsync_version_check(&mut self)
        ensures
            final(self)@ == old(self)@.emit(EffectView::ProbeRsync),
    {
        self.emit(Effect::ProbeRsync);
    }

    pub fn apply_rsync_version(&mut self, v: (u32, u32, u32), now: u64)
        ensures
            final(self)@ == old(self)@.rsync_version_known(v, now),
    {
        if v.0 == 0 {
            self.show("rsync not found locally — install it: brew install rsync", now);
        } else if v.0 < 3 {
            let mut m = "local rsync is v".to_owned();
            let a = text::to_decimal(v.0 as u64);
            m.append(a.as_str());
            m.append(".");
            let b = text::to_decimal(v.1 as u64);
            m.append(b.as_str());
            m.append(" (old); upgrade: brew install rsync");
            self.show(m.as_str(), now);
        }
    }

    pub fn spawn_preflight_all(&mut self)
        ensures
            final(self)@ == old(self)@.probing_all(),
    {
        if self.cfg.targets.len() == 0 {
            return;
        }
        let ghost a0 = self@;
        let ghost rows0 = self@.target_rows;
        let mut i: usize = 0;
        while i < self.target_rows.len()
            invariant
                i <= self.target_rows@.len(),
                self.target_rows@.len() == rows0.len(),
                self@ == (AppView { target_rows: self@.target_rows, ..a0 }),
                forall|k: int|
                    0 <= k < rows0.len() ==> (#[trigger] self@.target_rows[k]) == (if k < i {
                        all_probing(rows0)[k]
                    } else {
                        rows0[k]
                    }),
            decreases self.target_rows@.len() - i,
        {
            assert(self@.target_rows[i as int] == rows0[i as int]);
            match self.target_rows[i].kind {
                TargetKind::Group => {},
                TargetKind::Single => {
                    set_status(&mut self.target_rows, i, TargetStatus::Probing);
                    assert(text::views(self.target_rows@).len() == self.target_rows@.len());
                },
            }
            i = i + 1;
        }
        assert(self@.target_rows =~= all_probing(rows0));
        let ghost a1 = self@;
        let mut k: usize = 0;
        assert(a1.outbox + preflights(a1.cfg.targets).take(0) =~= a1.outbox);
        while k < self.cfg.targets.len()
            invariant
                k <= self.cfg.targets@.len(),
                self@ == (AppView {
                    outbox: a1.outbox + preflights(a1.cfg.targets).take(k as int),
                    ..a1
                }),
            decreases self.cfg.targets@.len() - k,
        {
            let t = self.cfg.targets[k].clone();
            let ghost out = self@.outbox;
            self.emit(Effect::Preflight { target: t, after_install: false });
            k = k + 1;
            assert(out.push(preflights(a1.cfg.targets)[k - 1]) =~= a1.outbox + preflights(
                a1.cfg.targets,
            ).take(k as int));
        }
        assert(preflights(a1.cfg.targets).take(k as int) =~= preflights(a1.cfg.targets));
    }

    pub fn start_remote_rsync_install(&mut self, target_name: &str, now: u64)
        ensures
            final(self)@ == old(self)@.installing_rsync(target_name@, now),
    {
        let target = match self.cfg.target_by_name(target_name) {
            Some(t) => t.clone(),
            None => return,
        };
        self.set_row_status(target_name, TargetStatus::Probing);
        let mut m = "installing rsync on ".to_owned();
        m.append(target_name);
        m.append("…");
        self.show(m.as_str(), now);
        self.emit(Effect::InstallRsync { target });
    }

    pub fn apply_remote_install_result(
        &mut self,
        name: &str,
        result: Result<(), String>,
        now: u64,
    )
        ensures
            final(self)@ == old(self)@.rsync_installed(name@, types::error_of(result), now),
    {
        match result {
            Ok(_) => {
                let mut m = "installed rsync on ".to_owned();
                m.append(name);
                self.show(m.as_str(), now);
                let found = match self.cfg.target_by_name(name) {
                    Some(t) => Some(t.clone()),
                    None => None,
                };
                if let Some(target) = found {
                    self.set_row_status(name, TargetStatus::Probing);
                    self.emit(Effect::Preflight { target, after_install: true });
                }
            },
            Err(e) => {
                self.set_row_status(name, TargetStatus::NoRsync);
                let mut m = "install failed: ".to_owned();
                m.append(e.as_str());
                self.show(m.as_str(), now);
            },
        }
    }
}

} // verus!
