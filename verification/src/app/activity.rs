//! The Activity panel: live transfers and history, and what copying a row means.
use vstd::prelude::*;

use crate::app::edit;
use crate::app::sync;
use crate::app::types::{
    ActivityRef, App, AppView, Effect, EffectView, HistoryNote, UpdateStatus, UpdateView,
};
use crate::clipboard;
use crate::config;
use crate::history;
use crate::history::{EntryView, HistoryEntry, HistoryStatus};
use crate::outside;
use crate::paths;
use crate::target::{Target, TargetView};
use crate::text;
use crate::transfer;
use crate::transfer::{Transfer, TransferState, TransferView};
use crate::update;

verus! {

// ---------------------------------------------------------------------------
// Rows
// ---------------------------------------------------------------------------
/// What has been typed into the filter.
pub open spec fn typed_query(a: AppView) -> Seq<char> {
    match a.activity_filter {
        Some(q) => q,
        None => seq![],
    }
}

/// What the panel is filtered by: the filter, trimmed and in lower case.
pub open spec fn query_of(a: AppView) -> Seq<char> {
    outside::lowercase(text::trim(typed_query(a)))
}

/// Whether a transfer is shown as live: it has not completed, and the lower-case
/// query occurs in its file name or target.
pub open spec fn live_shown(t: TransferView, q: Seq<char>) -> bool {
    &&& t.state != TransferState::Completed
    &&& q.len() == 0 || text::contains(outside::lowercase(clipboard::basename(t.local)), q)
        || text::contains(outside::lowercase(t.target_name), q)
}

/// The live transfers, newest first.
pub open spec fn live_transfers(ts: Seq<TransferView>, q: Seq<char>) -> Seq<TransferView>
    decreases ts.len(),
{
    if ts.len() == 0 {
        seq![]
    } else {
        (if live_shown(ts.last(), q) {
            seq![ts.last()]
        } else {
            seq![]
        }) + live_transfers(ts.drop_last(), q)
    }
}

pub open spec fn has_remote(es: Seq<EntryView>, remote: Seq<char>) -> bool {
    exists|i: int| 0 <= i < es.len() && (#[trigger] es[i]).remote_path == remote
}

/// The first entry of each remote path, by its index.
pub open spec fn first_of_each(es: Seq<EntryView>) -> Seq<usize>
    decreases es.len(),
{
    if es.len() == 0 {
        seq![]
    } else {
        let before = first_of_each(es.drop_last());
        if has_remote(es.drop_last(), es.last().remote_path) {
            before
        } else {
            before.push((es.len() - 1) as usize)
        }
    }
}

/// The rows of the panel: live transfers first, then history, in which entries of
/// one remote path are merged.
pub open spec fn row_refs(a: AppView) -> Seq<ActivityRef> {
    let live = live_transfers(a.transfers, query_of(a));
    let past = first_of_each(history::filtered(a.history, query_of(a)));
    Seq::new(live.len(), |i: int| ActivityRef::Live(live[i].id)) + Seq::new(
        past.len(),
        |i: int| ActivityRef::History(past[i]),
    )
}

fn lowercase_has(s: &str, q: &str) -> (r: bool)
    ensures
        r == text::contains(outside::lowercase(s@), q@),
{
    let l = outside::to_lowercase(s);
    text::has_substring(l.as_str(), q)
}

pub fn is_live(t: &Transfer, q: &str) -> (r: bool)
    ensures
        r == live_shown(t@, q@),
{
    if t.state == TransferState::Completed {
        return false;
    }
    if q.is_empty() {
        return true;
    }
    let name = clipboard::local_basename(t.local.as_str());
    lowercase_has(name.as_str(), q) || lowercase_has(t.target_name.as_str(), q)
}

/// The live transfers, newest first.
pub fn collect_live(ts: &Vec<Transfer>, q: &str) -> (r: Vec<Transfer>)
    ensures
        text::views(r@) == live_transfers(text::views(ts@), q@),
{
    let ghost all = text::views(ts@);
    let mut r: Vec<Transfer> = Vec::new();
    let mut i: usize = ts.len();
    assert(all.take(i as int) =~= all);
    assert(text::views(r@) + live_transfers(all, q@) =~= live_transfers(all, q@));
    while i > 0
        invariant
            i <= ts@.len(),
            all == text::views(ts@),
            live_transfers(all, q@) == text::views(r@) + live_transfers(all.take(i as int), q@),
        decreases i,
    {
        let t = &ts[i - 1];
        assert(all.take(i as int).drop_last() =~= all.take(i - 1));
        assert(all.take(i as int).last() == t@);
        let ghost before = text::views(r@);
        let ghost rest = live_transfers(all.take(i - 1), q@);
        if is_live(t, q) {
            let c = t.clone();
            proof {
                text::lemma_views_push(r@, c);
            }
            r.push(c);
            assert(before + (seq![t@] + rest) =~= text::views(r@) + rest);
        } else {
            assert(before + (Seq::<TransferView>::empty() + rest) =~= before + rest);
        }
        i = i - 1;
    }
    assert(live_transfers(all.take(0), q@) =~= seq![]);
    assert(text::views(r@) + Seq::<TransferView>::empty() =~= text::views(r@));
    r
}

fn remote_seen(es: &Vec<&HistoryEntry>, n: usize, remote: &str) -> (r: bool)
    requires
        n <= es@.len(),
    ensures
        r == has_remote(text::views(es@).take(n as int), remote@),
{
    let ghost first = text::views(es@).take(n as int);
    let mut i: usize = 0;
    while i < n
        invariant
            i <= n <= es@.len(),
            first == text::views(es@).take(n as int),
            forall|k: int| 0 <= k < i ==> (#[trigger] first[k]).remote_path != remote@,
        decreases n - i,
    {
        assert(first[i as int].remote_path == es@[i as int].remote_path@);
        if text::same(es[i].remote_path.as_str(), remote) {
            return true;
        }
        i = i + 1;
    }
    false
}

/// The first entry of each remote path, by its index.
pub fn representatives(es: &Vec<&HistoryEntry>) -> (r: Vec<usize>)
    ensures
        r@ == first_of_each(text::views(es@)),
        forall|k: int| 0 <= k < r@.len() ==> (#[trigger] r@[k]) < es@.len(),
{
    let ghost all = text::views(es@);
    let mut r: Vec<usize> = Vec::new();
    let mut i: usize = 0;
    assert(r@ =~= first_of_each(all.take(0)));
    while i < es.len()
        invariant
            i <= es@.len(),
            all == text::views(es@),
            r@ == first_of_each(all.take(i as int)),
            forall|k: int| 0 <= k < r@.len() ==> (#[trigger] r@[k]) < i,
        decreases es@.len() - i,
    {
        assert(all.take(i + 1).drop_last() =~= all.take(i as int));
        assert(all.take(i + 1).last() == es@[i as int]@);
        if !remote_seen(es, i, es[i].remote_path.as_str()) {
            r.push(i);
        }
        i = i + 1;
    }
    assert(all.take(i as int) =~= all);
    r
}

impl App {
    /// Filter string used by the Activity panel (lower-cased, trimmed). Empty
    /// when the user hasn't entered filter mode.
    pub fn activity_query(&self) -> (r: String)
        ensures
            r@ == query_of(self@),
            self.activity_filter is None ==> r@.len() == 0,
    {
        let typed = match &self.activity_filter {
            Some(q) => q.clone(),
            None => String::new(),
        };
        assert(typed@ =~= typed_query(self@));
        let t = text::trimmed(typed.as_str());
        outside::to_lowercase(t.as_str())
    }

    /// Compute the row-identity list the Activity renderer uses, so that the key
    /// handler can resolve the cursor position the same way.
    pub fn activity_row_refs(&self) -> (r: Vec<ActivityRef>)
        ensures
            r@ == row_refs(self@),
    {
        let q = self.activity_query();
        let live = collect_live(&self.transfers, q.as_str());
        let matches = self.history.filter(q.as_str());
        let past = representatives(&matches);
        let ghost gl = text::views(live@);
        let mut out: Vec<ActivityRef> = Vec::new();
        let mut i: usize = 0;
        while i < live.len()
            invariant
                i <= live@.len(),
                gl == text::views(live@),
                out@.len() == i,
                forall|k: int| 0 <= k < i ==> (#[trigger] out@[k]) == ActivityRef::Live(gl[k].id),
            decreases live@.len() - i,
        {
            assert(gl[i as int].id == live@[i as int].id);
            out.push(ActivityRef::Live(live[i].id));
            i = i + 1;
        }
        let ghost n = out@.len();
        let mut k: usize = 0;
        while k < past.len()
            invariant
                k <= past@.len(),
                n == gl.len(),
                out@.len() == n + k,
                forall|x: int| 0 <= x < n ==> (#[trigger] out@[x]) == ActivityRef::Live(gl[x].id),
                forall|x: int|
                    n <= x < n + k ==> (#[trigger] out@[x]) == ActivityRef::History(past@[x - n]),
            decreases past@.len() - k,
        {
            out.push(ActivityRef::History(past[k]));
            k = k + 1;
        }
        assert(out@ =~= row_refs(self@));
        out
    }
}

// ---------------------------------------------------------------------------
// The cursor
// ---------------------------------------------------------------------------
pub open spec fn at_most(cursor: usize, len: nat) -> usize {
    if cursor < len {
        cursor
    } else {
        (len - 1) as usize
    }
}

impl AppView {
    pub open spec fn activity_moved(self, delta: i32) -> AppView {
        let n = row_refs(self).len();
        AppView {
            activity_cursor: if n == 0 {
                0
            } else {
                edit::wrapped(at_most(self.activity_cursor, n), delta, n)
            },
            ..self
        }
    }
}

impl App {
    pub fn move_activity_cursor(&mut self, delta: i32)
        ensures
            final(self)@ == old(self)@.activity_moved(delta),
    {
        let refs = self.activity_row_refs();
        let n = refs.len();
        if n == 0 {
            self.activity_cursor = 0;
            return;
        }
        let cur = if self.activity_cursor < n {
            self.activity_cursor
        } else {
            n - 1
        };
        self.activity_cursor = edit::wrap_step(cur, delta, n);
    }
}

// ---------------------------------------------------------------------------
// Copying
// ---------------------------------------------------------------------------
/// The first `max` characters, with an ellipsis where there are more.
pub open spec fn shortened(s: Seq<char>, max: nat) -> Seq<char> {
    if s.len() > max {
        s.take(max as int).push('…')
    } else {
        s
    }
}

pub fn trunc(s: &str, max: usize) -> (r: String)
    ensures
        r@ == shortened(s@, max as nat),
{
    let cs = text::chars_of(s);
    if cs.len() > max {
        let mut r = text::string_of(&cs, 0, max);
        r.push('…');
        assert(r@ =~= s@.take(max as int).push('…'));
        r
    } else {
        s.to_owned()
    }
}

/// What copying a history entry puts on the clipboard: its path in the format of
/// its target, or the bare remote path where the target is gone.
pub open spec fn entry_text(a: AppView, e: EntryView) -> Seq<char> {
    match config::find_target(a.cfg.targets, e.target_name) {
        Some(t) => sync::clipboard_text(
            a,
            t,
            e.local_path,
            match paths::parent_of(e.remote_path) {
                Some(d) => d,
                None => seq![],
            },
        ),
        None => e.remote_path,
    }
}

impl AppView {
    /// The history entry of that index, in the filtered list, is copied.
    pub open spec fn history_copied(self, idx: usize) -> AppView {
        let es = history::filtered(self.history, query_of(self));
        if idx < es.len() {
            self.emit(
                EffectView::WriteClipboard {
                    text: entry_text(self, es[idx as int]),
                    remote_path: Some(es[idx as int].remote_path),
                },
            )
        } else {
            self
        }
    }

    /// The path of a transfer is copied, if it has completed.
    pub open spec fn recopied(self, id: u64, now: u64) -> AppView {
        match sync::find_transfer(self.transfers, id) {
            Some(t) => if t.state != TransferState::Completed {
                self.toasted("transfer not completed yet"@, now)
            } else {
                self.copied_completed(t.target_name, t.local, t.remote_abs_dir)
            },
            None => self,
        }
    }

    pub open spec fn row_copied(self, r: ActivityRef, now: u64) -> AppView {
        match r {
            ActivityRef::Live(id) => self.recopied(id, now),
            ActivityRef::History(idx) => self.history_copied(idx),
        }
    }

    /// The row under the cursor is copied.
    pub open spec fn cursor_copied(self, now: u64) -> AppView {
        let refs = row_refs(self);
        if refs.len() == 0 {
            self
        } else {
            self.row_copied(refs[at_most(self.activity_cursor, refs.len()) as int], now)
        }
    }

    /// The clipboard has been written, or could not be.
    pub open spec fn clipboard_set(
        self,
        content: Seq<char>,
        remote_path: Option<Seq<char>>,
        error: Option<Seq<char>>,
        now: u64,
    ) -> AppView {
        match error {
            None => AppView {
                last_clipboard: Some(content),
                last_copied_remote: remote_path,
                ..self
            }.toasted("clipboard ← "@ + shortened(content, 60), now),
            Some(e) => self.toasted("clipboard error: "@ + e, now),
        }
    }
}

impl App {
    /// Copy the remote path for the history entry at `idx` in the currently
    /// filtered view. Called from the Activity row click handler.
    pub fn copy_history_by_index(&mut self, idx: usize)
        ensures
            final(self)@ == old(self)@.history_copied(idx),
    {
        let q = self.activity_query();
        let matches = self.history.filter(q.as_str());
        if idx >= matches.len() {
            return;
        }
        assert(text::views(matches@)[idx as int] == matches@[idx as int]@);
        let entry: HistoryEntry = matches[idx].clone();
        let copied = match self.cfg.target_by_name(entry.target_name.as_str()) {
            Some(t) => {
                let dir = match paths::parent(entry.remote_path.as_str()) {
                    Some(d) => d,
                    None => {
                        let d = String::new();
                        assert(d@ =~= seq![]);
                        d
                    },
                };
                clipboard::render(
                    t,
                    entry.local_path.as_str(),
                    dir.as_str(),
                    self.clipboard_format,
                    self.cfg.clipboard_template.as_str(),
                )
            },
            None => entry.remote_path.clone(),
        };
        self.emit(Effect::WriteClipboard { text: copied, remote_path: Some(entry.remote_path) });
    }

    pub fn recopy_completed(&mut self, id: u64, now: u64)
        ensures
            final(self)@ == old(self)@.recopied(id, now),
    {
        let pos = sync::position_of(&self.transfers, id);
        if pos >= self.transfers.len() {
            return;
        }
        assert(self@.transfers[pos as int] == self.transfers@[pos as int]@);
        let t = self.transfers[pos].clone();
        if t.state != TransferState::Completed {
            self.show("transfer not completed yet", now);
            return;
        }
        self.update_clipboard_for_completed(
            t.target_name.as_str(),
            t.local.as_str(),
            t.remote_abs_dir.as_str(),
        );
    }

    pub fn copy_row(&mut self, r: ActivityRef, now: u64)
        ensures
            final(self)@ == old(self)@.row_copied(r, now),
    {
        match r {
            ActivityRef::Live(id) => self.recopy_completed(id, now),
            ActivityRef::History(idx) => self.copy_history_by_index(idx),
        }
    }

    /// Keyboard: copy whichever Activity row the cursor is on.
    pub fn copy_activity_cursor(&mut self, now: u64)
        ensures
            final(self)@ == old(self)@.cursor_copied(now),
    {
        let refs = self.activity_row_refs();
        if refs.len() == 0 {
            return;
        }
        let cursor = if self.activity_cursor < refs.len() {
            self.activity_cursor
        } else {
            refs.len() - 1
        };
        let r = refs[cursor];
        self.copy_row(r, now);
    }

    pub fn clipboard_written(
        &mut self,
        content: String,
        remote_path: Option<String>,
        result: Result<(), String>,
        now: u64,
    )
        ensures
            final(self)@ == old(self)@.clipboard_set(
                content@,
                text::opt(remote_path),
                crate::app::types::error_of(result),
                now,
            ),
    {
        match result {
            Ok(_) => {
                let mut m = "clipboard ← ".to_owned();
                let s = trunc(content.as_str(), 60);
                m.append(s.as_str());
                self.last_clipboard = Some(content);
                self.last_copied_remote = remote_path;
                self.show(m.as_str(), now);
            },
            Err(e) => {
                let mut m = "clipboard error: ".to_owned();
                m.append(e.as_str());
                self.show(m.as_str(), now);
            },
        }
    }
}

// ---------------------------------------------------------------------------
// Recording
// ---------------------------------------------------------------------------
/// A transfer to be recorded, as plain values.
pub ghost struct NoteView {
    pub target_name: Seq<char>,
    pub local: Seq<char>,
    pub remote_abs_dir: Seq<char>,
    pub source_watch: Option<Seq<char>>,
    pub canonical: Option<Seq<char>>,
    pub size: u64,
    pub synced_at: u64,
    pub error: Option<Seq<char>>,
}

impl View for HistoryNote {
    type V = NoteView;

    open spec fn view(&self) -> NoteView {
        NoteView {
            target_name: self.target_name@,
            local: self.local@,
            remote_abs_dir: self.remote_abs_dir@,
            source_watch: text::opt(self.source_watch),
            canonical: text::opt(self.canonical),
            size: self.size,
            synced_at: self.synced_at,
            error: crate::app::types::error_of(self.written),
        }
    }
}

/// The record of a completed transfer.
pub open spec fn entry_of(n: NoteView, t: TargetView) -> EntryView {
    EntryView {
        local_path: match n.canonical {
            Some(c) => c,
            None => n.local,
        },
        local_name: clipboard::basename(n.local),
        size: n.size,
        target_name: n.target_name,
        target_host: t.address(),
        remote_path: sync::remote_path_of(n.local, n.remote_abs_dir),
        synced_at: n.synced_at,
        status: HistoryStatus::Completed,
        source_watch: n.source_watch,
    }
}

impl AppView {
    /// A record has been written to its file, or could not be.
    pub open spec fn history_noted(self, n: NoteView, now: u64) -> AppView {
        match config::find_target(self.cfg.targets, n.target_name) {
            Some(t) => match n.error {
                None => AppView {
                    history: history::appended(self.history, entry_of(n, t)),
                    ..self
                },
                Some(e) => self.toasted("history append failed: "@ + e, now),
            },
            None => self,
        }
    }
}

/// The record of a completed transfer to `target`.
pub fn history_entry(n: &HistoryNote, target: &Target) -> (r: HistoryEntry)
    ensures
        r@ == entry_of(n@, target@),
{
    let local_name = clipboard::local_basename(n.local.as_str());
    let remote_path = clipboard::remote_path(n.remote_abs_dir.as_str(), local_name.as_str());
    HistoryEntry {
        local_path: match &n.canonical {
            Some(c) => c.clone(),
            None => n.local.clone(),
        },
        local_name,
        size: n.size,
        target_name: n.target_name.clone(),
        target_host: target.address(),
        remote_path,
        synced_at: n.synced_at,
        status: HistoryStatus::Completed,
        source_watch: text::clone_opt(&n.source_watch),
    }
}

impl App {
    pub fn history_written(&mut self, n: HistoryNote, now: u64)
        ensures
            final(self)@ == old(self)@.history_noted(n@, now),
    {
        let entry = match self.cfg.target_by_name(n.target_name.as_str()) {
            Some(t) => history_entry(&n, t),
            None => return,
        };
        match self.history.append(entry, n.written) {
            Ok(_) => {},
            Err(e) => {
                let mut m = "history append failed: ".to_owned();
                m.append(e.as_str());
                self.show(m.as_str(), now);
            },
        }
    }
}

// ---------------------------------------------------------------------------
// Updates
// ---------------------------------------------------------------------------
pub open spec fn check_view(r: Result<Option<String>, String>) -> Result<
    Option<Seq<char>>,
    Seq<char>,
> {
    match r {
        Ok(v) => Ok(text::opt(v)),
        Err(e) => Err(e@),
    }
}

pub open spec fn install_view(r: Result<Vec<String>, String>) -> Result<Seq<Seq<char>>, Seq<char>> {
    match r {
        Ok(p) => Ok(text::strs(p@)),
        Err(e) => Err(e@),
    }
}

impl AppView {
    /// The latest version is asked for, unless that or an installation is under
    /// way.
    pub open spec fn checking_update(self) -> AppView {
        if self.update_status is Checking || self.update_status is Installing {
            self
        } else {
            AppView { update_status: UpdateView::Checking, ..self }.emit(EffectView::CheckUpdate)
        }
    }

    pub open spec fn update_checked(
        self,
        r: Result<Option<Seq<char>>, Seq<char>>,
        now: u64,
    ) -> AppView {
        match r {
            Ok(Some(v)) => AppView { update_status: UpdateView::Available(v), ..self },
            Ok(None) => AppView { update_status: UpdateView::Idle, ..self }.toasted(
                "up to date (v"@ + update::VERSION@ + ")"@,
                now,
            ),
            Err(e) => AppView { update_status: UpdateView::Failed(e), ..self },
        }
    }

    pub open spec fn installing_update(self, version: Seq<char>) -> AppView {
        AppView { update_status: UpdateView::Installing(version), ..self }.emit(
            EffectView::InstallUpdate { version },
        )
    }

    pub open spec fn update_installed(self, r: Result<Seq<Seq<char>>, Seq<char>>) -> AppView {
        AppView {
            update_status: match r {
                Ok(paths) => UpdateView::Installed(paths),
                Err(e) => UpdateView::Failed(e),
            },
            ..self
        }
    }
}

impl App {
    pub fn start_update_check(&mut self)
        ensures
            final(self)@ == old(self)@.checking_update(),
    {
        match &self.update_status {
            UpdateStatus::Checking | UpdateStatus::Installing(_) => return,
            _ => {},
        }
        self.update_status = UpdateStatus::Checking;
        self.emit(Effect::CheckUpdate);
    }

    pub fn handle_update_check_result(&mut self, r: Result<Option<String>, String>, now: u64)
        ensures
            final(self)@ == old(self)@.update_checked(check_view(r), now),
    {
        match r {
            Ok(Some(v)) => {
                self.update_status = UpdateStatus::Available(v);
            },
            Ok(None) => {
                self.update_status = UpdateStatus::Idle;
                let mut m = "up to date (v".to_owned();
                m.append(update::VERSION);
                m.append(")");
                self.show(m.as_str(), now);
            },
            Err(e) => {
                self.update_status = UpdateStatus::Failed(e);
            },
        }
    }

    pub fn start_update_install(&mut self, version: String)
        ensures
            final(self)@ == old(self)@.installing_update(version@),
    {
        self.update_status = UpdateStatus::Installing(version.clone());
        self.emit(Effect::InstallUpdate { version });
    }

    pub fn handle_update_install_result(&mut self, r: Result<Vec<String>, String>)
        ensures
            final(self)@ == old(self)@.update_installed(install_view(r)),
    {
        match r {
            Ok(paths) => {
                self.update_status = UpdateStatus::Installed(paths);
            },
            Err(e) => {
                self.update_status = UpdateStatus::Failed(e);
            },
        }
    }
}

} // verus!
