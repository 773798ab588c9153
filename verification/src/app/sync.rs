//! Files on their way: the queue, the transfers it becomes, and what happens when
//! they end.
use vstd::prelude::*;

use crate::app::rows;
use crate::app::types::{
    App, AppView, Effect, EffectView, RowView, TargetKind, TargetRow, TargetStatus,
};
use crate::clipboard;
use crate::config;
use crate::path_input;
use crate::target::{Group, GroupView, SyncMode, TargetView};
use crate::text;
use crate::transfer;
use crate::transfer::{Transfer, TransferEvent, TransferEventView, TransferState, TransferView};

verus! {

// ---------------------------------------------------------------------------
// Which targets
// ---------------------------------------------------------------------------
/// `out` and those of `names` that are not yet in it.
pub open spec fn with_missing(out: Seq<Seq<char>>, names: Seq<Seq<char>>) -> Seq<Seq<char>>
    decreases names.len(),
{
    if names.len() == 0 {
        out
    } else {
        let o = with_missing(out, names.drop_last());
        if o.contains(names.last()) {
            o
        } else {
            o.push(names.last())
        }
    }
}

/// The names of the targets that the selected rows stand for; groups stand for
/// their members.
pub open spec fn selected_names(rows: Seq<RowView>, groups: Seq<GroupView>) -> Seq<Seq<char>>
    decreases rows.len(),
{
    if rows.len() == 0 {
        seq![]
    } else {
        let out = selected_names(rows.drop_last(), groups);
        let r = rows.last();
        if !r.selected {
            out
        } else {
            match r.kind {
                TargetKind::Single => out.push(r.name),
                TargetKind::Group => match config::find_group(groups, r.name) {
                    Some(g) => with_missing(out, g.targets),
                    None => out,
                },
            }
        }
    }
}

/// Whether the latest probe does not speak against a target. A missing rsync does
/// not: the transfer will fail fast, and the user can react.
pub open spec fn reachable(rows: Seq<RowView>, name: Seq<char>) -> bool {
    let i = rows::row_index(rows, name);
    i < rows.len() ==> !(rows[i].status is Unreachable)
}

/// Those of the names that are (or are not) reachable, in order.
pub open spec fn parted(rows: Seq<RowView>, names: Seq<Seq<char>>, ok: bool) -> Seq<Seq<char>>
    decreases names.len(),
{
    if names.len() == 0 {
        seq![]
    } else if reachable(rows, names.last()) == ok {
        parted(rows, names.drop_last(), ok).push(names.last())
    } else {
        parted(rows, names.drop_last(), ok)
    }
}

pub fn add_missing(out: &mut Vec<String>, names: &Vec<String>)
    ensures
        text::strs(final(out)@) == with_missing(text::strs(old(out)@), text::strs(names@)),
{
    let ghost out0 = text::strs(out@);
    let ghost ns = text::strs(names@);
    let mut i: usize = 0;
    while i < names.len()
        invariant
            i <= names@.len(),
            ns == text::strs(names@),
            text::strs(out@) == with_missing(out0, ns.take(i as int)),
        decreases names@.len() - i,
    {
        assert(ns.take(i + 1).drop_last() =~= ns.take(i as int));
        assert(ns.take(i + 1).last() == names@[i as int]@);
        if !text::list_has(out, names[i].as_str()) {
            text::push_str(out, names[i].as_str());
        }
        i = i + 1;
    }
    assert(ns.take(i as int) =~= ns);
}

fn is_reachable(rows: &Vec<TargetRow>, name: &str) -> (r: bool)
    ensures
        r == reachable(text::views(rows@), name@),
{
    let i = rows::find_row(rows, name);
    if i < rows.len() {
        assert(text::views(rows@)[i as int] == rows@[i as int]@);
        match &rows[i].status {
            TargetStatus::Unreachable(_) => false,
            _ => true,
        }
    } else {
        true
    }
}

fn part_names(rows: &Vec<TargetRow>, names: &Vec<String>) -> (r: (Vec<String>, Vec<String>))
    ensures
        text::strs(r.0@) == parted(text::views(rows@), text::strs(names@), true),
        text::strs(r.1@) == parted(text::views(rows@), text::strs(names@), false),
{
    let ghost ns = text::strs(names@);
    let ghost rs = text::views(rows@);
    let mut ok = text::no_strs();
    let mut skipped = text::no_strs();
    let mut i: usize = 0;
    while i < names.len()
        invariant
            i <= names@.len(),
            ns == text::strs(names@),
            rs == text::views(rows@),
            text::strs(ok@) == parted(rs, ns.take(i as int), true),
            text::strs(skipped@) == parted(rs, ns.take(i as int), false),
        decreases names@.len() - i,
    {
        assert(ns.take(i + 1).drop_last() =~= ns.take(i as int));
        assert(ns.take(i + 1).last() == names@[i as int]@);
        if is_reachable(rows, names[i].as_str()) {
            text::push_str(&mut ok, names[i].as_str());
        } else {
            text::push_str(&mut skipped, names[i].as_str());
        }
        i = i + 1;
    }
    assert(ns.take(i as int) =~= ns);
    (ok, skipped)
}

impl App {
    pub fn selected_target_names(&self) -> (r: Vec<String>)
        ensures
            text::strs(r@) == selected_names(self@.target_rows, self@.cfg.groups),
    {
        let ghost rs = self@.target_rows;
        let mut out = text::no_strs();
        let mut i: usize = 0;
        while i < self.target_rows.len()
            invariant
                i <= self.target_rows@.len(),
                rs == text::views(self.target_rows@),
                text::strs(out@) == selected_names(rs.take(i as int), self@.cfg.groups),
            decreases self.target_rows@.len() - i,
        {
            assert(rs.take(i + 1).drop_last() =~= rs.take(i as int));
            assert(rs.take(i + 1).last() == self.target_rows@[i as int]@);
            let row = &self.target_rows[i];
            if row.selected {
                match row.kind {
                    TargetKind::Single => {
                        text::push_str(&mut out, row.name.as_str());
                    },
                    TargetKind::Group => {
                        if let Some(g) = self.cfg.group_by_name(row.name.as_str()) {
                            add_missing(&mut out, &g.targets);
                        }
                    },
                }
            }
            i = i + 1;
        }
        assert(rs.take(i as int) =~= rs);
        out
    }
}

// ---------------------------------------------------------------------------
// Sending
// ---------------------------------------------------------------------------
impl AppView {
    /// One file is sent to one target, into a subdirectory where it comes from a
    /// watch. A name that no target has is passed over.
    pub open spec fn sent(
        self,
        file: Seq<char>,
        name: Seq<char>,
        watch: Option<Seq<char>>,
    ) -> AppView {
        match config::find_target(self.cfg.targets, name) {
            Some(t) => AppView {
                next_transfer_id: self.next_transfer_id.wrapping_add(1),
                transfers: self.transfers.push(
                    transfer::fresh(self.next_transfer_id, t.name, file, watch),
                ),
                outbox: self.outbox.push(
                    EffectView::StartTransfer {
                        id: self.next_transfer_id,
                        target: t,
                        local: file,
                        subdir: watch,
                    },
                ),
                ..self
            },
            None => self,
        }
    }

    /// One file is sent to the given targets, one after the other.
    pub open spec fn sent_to(
        self,
        file: Seq<char>,
        names: Seq<Seq<char>>,
        watch: Option<Seq<char>>,
    ) -> AppView
        decreases names.len(),
    {
        if names.len() == 0 {
            self
        } else {
            self.sent_to(file, names.drop_last(), watch).sent(file, names.last(), watch)
        }
    }

    /// Files are sent to the given targets, one file after the other.
    pub open spec fn sent_all(
        self,
        files: Seq<Seq<char>>,
        names: Seq<Seq<char>>,
        watch: Option<Seq<char>>,
    ) -> AppView
        decreases files.len(),
    {
        if files.len() == 0 {
            self
        } else {
            self.sent_all(files.drop_last(), names, watch).sent_to(files.last(), names, watch)
        }
    }
}

/// What is said about a queue that has been sent.
pub open spec fn sync_text(files: nat, ok: Seq<Seq<char>>, skipped: Seq<Seq<char>>) -> Seq<char> {
    if skipped.len() == 0 {
        "sync "@ + text::decimal(files) + " file(s) → "@ + text::decimal(ok.len())
            + " target(s)"@
    } else {
        "sync "@ + text::decimal(files) + " file(s) → "@ + text::joined(ok, ", "@) + " (skipped "@
            + text::joined(skipped, ", "@) + ")"@
    }
}

impl AppView {
    /// The queue is sent to the selected targets, but for those that cannot be
    /// reached; it stays where there is none to send to.
    pub open spec fn queue_synced(self, now: u64) -> AppView {
        let names = selected_names(self.target_rows, self.cfg.groups);
        let ok = parted(self.target_rows, names, true);
        let skipped = parted(self.target_rows, names, false);
        if self.queue.len() == 0 {
            self.toasted("queue is empty"@, now)
        } else if names.len() == 0 {
            self.toasted("no target selected"@, now)
        } else if ok.len() == 0 {
            self.toasted(
                "all selected targets unreachable ("@ + text::joined(skipped, ", "@) + ")"@,
                now,
            )
        } else {
            AppView { queue: seq![], queue_cursor: 0, ..self }.sent_all(
                self.queue,
                ok,
                None,
            ).toasted(sync_text(self.queue.len(), ok, skipped), now)
        }
    }
}

fn sync_message(n: usize, ok: &Vec<String>, skipped: &Vec<String>) -> (m: String)
    ensures
        m@ == sync_text(n as nat, text::strs(ok@), text::strs(skipped@)),
{
    assert(text::strs(skipped@).len() == skipped@.len());
    let mut m = "sync ".to_owned();
    let d = text::to_decimal(n as u64);
    m.append(d.as_str());
    m.append(" file(s) → ");
    if skipped.len() == 0 {
        let k = text::to_decimal(ok.len() as u64);
        m.append(k.as_str());
        m.append(" target(s)");
    } else {
        let l = text::join(ok, ", ");
        m.append(l.as_str());
        m.append(" (skipped ");
        let s = text::join(skipped, ", ");
        m.append(s.as_str());
        m.append(")");
    }
    m
}

impl App {
    fn send(&mut self, file: &str, name: &str, watch: Option<&str>)
        ensures
            final(self)@ == old(self)@.sent(file@, name@, text::opt_str(watch)),
    {
        let target = match self.cfg.target_by_name(name) {
            Some(t) => t.clone(),
            None => return,
        };
        let id = self.next_transfer_id;
        self.next_transfer_id = id.wrapping_add(1);
        let t = match watch {
            Some(w) => Transfer::new_from_watch(id, &target, file.to_owned(), w.to_owned()),
            None => Transfer::new(id, &target, file.to_owned()),
        };
        proof {
            text::lemma_views_push(self.transfers@, t);
        }
        self.transfers.push(t);
        let subdir = match watch {
            Some(w) => Some(w.to_owned()),
            None => None,
        };
        self.emit(Effect::StartTransfer { id, target, local: file.to_owned(), subdir });
    }

    fn send_to(&mut self, file: &str, names: &Vec<String>, watch: Option<&str>)
        ensures
            final(self)@ == old(self)@.sent_to(file@, text::strs(names@), text::opt_str(watch)),
    {
        let ghost a = self@;
        let ghost ns = text::strs(names@);
        let mut i: usize = 0;
        while i < names.len()
            invariant
                i <= names@.len(),
                ns == text::strs(names@),
                self@ == a.sent_to(file@, ns.take(i as int), text::opt_str(watch)),
            decreases names@.len() - i,
        {
            assert(ns.take(i + 1).drop_last() =~= ns.take(i as int));
            assert(ns.take(i + 1).last() == names@[i as int]@);
            self.send(file, names[i].as_str(), watch);
            i = i + 1;
        }
        assert(ns.take(i as int) =~= ns);
    }

    pub fn send_all(&mut self, files: &Vec<String>, names: &Vec<String>, watch: Option<&str>)
        ensures
            final(self)@ == old(self)@.sent_all(
                text::strs(files@),
                text::strs(names@),
                text::opt_str(watch),
            ),
    {
        let ghost a = self@;
        let ghost fs = text::strs(files@);
        let mut i: usize = 0;
        while i < files.len()
            invariant
                i <= files@.len(),
                fs == text::strs(files@),
                self@ == a.sent_all(fs.take(i as int), text::strs(names@), text::opt_str(watch)),
            decreases files@.len() - i,
        {
            assert(fs.take(i + 1).drop_last() =~= fs.take(i as int));
            assert(fs.take(i + 1).last() == files@[i as int]@);
            self.send_to(files[i].as_str(), names, watch);
            i = i + 1;
        }
        assert(fs.take(i as int) =~= fs);
    }

    pub fn start_queue_sync(&mut self, now: u64)
        ensures
            final(self)@ == old(self)@.queue_synced(now),
    {
        assert(text::strs(self.queue@).len() == self.queue@.len());
        if self.queue.len() == 0 {
            self.show("queue is empty", now);
            return;
        }
        let names = self.selected_target_names();
        assert(text::strs(names@).len() == names@.len());
        if names.len() == 0 {
            self.show("no target selected", now);
            return;
        }
        let (ok, skipped) = part_names(&self.target_rows, &names);
        assert(text::strs(ok@).len() == ok@.len());
        if ok.len() == 0 {
            let mut m = "all selected targets unreachable (".to_owned();
            let l = text::join(&skipped, ", ");
            m.append(l.as_str());
            m.append(")");
            self.show(m.as_str(), now);
            return;
        }
        let files = text::clone_strs(&self.queue);
        self.queue = Vec::new();
        assert(text::strs(self.queue@) =~= seq![]);
        self.queue_cursor = 0;
        self.send_all(&files, &ok, None);
        let m = sync_message(files.len(), &ok, &skipped);
        self.show(m.as_str(), now);
    }
}

// ---------------------------------------------------------------------------
// Pasting
// ---------------------------------------------------------------------------
/// Those of the paths that exist (or do not), in order.
pub open spec fn existing(paths: Seq<Seq<char>>, exists: Seq<bool>, yes: bool) -> Seq<Seq<char>>
    decreases paths.len(),
{
    if paths.len() == 0 {
        seq![]
    } else {
        let before = existing(paths.drop_last(), exists, yes);
        let i = paths.len() - 1;
        if (i < exists.len() && exists[i]) == yes {
            before.push(paths.last())
        } else {
            before
        }
    }
}

impl AppView {
    /// Paths have been pasted: it is found out which of them exist.
    pub open spec fn offered(self, paths: Seq<Seq<char>>) -> AppView {
        if paths.len() == 0 {
            AppView { last_paste_error: Some("empty paste"@), ..self }
        } else {
            self.emit(EffectView::CheckPaths { paths })
        }
    }

    /// Text has been pasted: the paths that it spells are offered.
    pub open spec fn pasted(self, raw: Seq<char>) -> AppView {
        self.offered(path_input::paste_paths(raw, self.env))
    }

    /// The paths that exist join the queue, which is sent at once in auto mode.
    pub open spec fn paths_checked(
        self,
        paths: Seq<Seq<char>>,
        exists: Seq<bool>,
        now: u64,
    ) -> AppView {
        let good = existing(paths, exists, true);
        let missing = existing(paths, exists, false);
        if good.len() > 0 {
            let a = AppView {
                queue: self.queue + good,
                last_paste_error: if missing.len() == 0 {
                    None
                } else {
                    Some(text::decimal(missing.len()) + " path(s) not found"@)
                },
                ..self
            }.toasted("queued "@ + text::decimal(good.len()), now);
            if self.mode == SyncMode::Auto {
                a.queue_synced(now)
            } else {
                a
            }
        } else {
            AppView {
                last_paste_error: Some("no valid path: "@ + text::joined(missing, ", "@)),
                ..self
            }
        }
    }
}

fn part_existing(paths: &Vec<String>, exists: &Vec<bool>) -> (r: (Vec<String>, Vec<String>))
    ensures
        text::strs(r.0@) == existing(text::strs(paths@), exists@, true),
        text::strs(r.1@) == existing(text::strs(paths@), exists@, false),
{
    let ghost ps = text::strs(paths@);
    let mut good = text::no_strs();
    let mut missing = text::no_strs();
    let mut i: usize = 0;
    while i < paths.len()
        invariant
            i <= paths@.len(),
            ps == text::strs(paths@),
            text::strs(good@) == existing(ps.take(i as int), exists@, true),
            text::strs(missing@) == existing(ps.take(i as int), exists@, false),
        decreases paths@.len() - i,
    {
        assert(ps.take(i + 1).drop_last() =~= ps.take(i as int));
        assert(ps.take(i + 1).last() == paths@[i as int]@);
        if i < exists.len() && exists[i] {
            text::push_str(&mut good, paths[i].as_str());
        } else {
            text::push_str(&mut missing, paths[i].as_str());
        }
        i = i + 1;
    }
    assert(ps.take(i as int) =~= ps);
    (good, missing)
}

impl App {
    pub fn offer_paths(&mut self, paths: Vec<String>)
        ensures
            final(self)@ == old(self)@.offered(text::strs(paths@)),
    {
        assert(text::strs(paths@).len() == paths@.len());
        if paths.len() == 0 {
            self.last_paste_error = Some("empty paste".to_owned());
            return;
        }
        self.emit(Effect::CheckPaths { paths });
    }

    /// Reads what was pasted as paths, and offers them.
    pub fn handle_paste(&mut self, raw: &str)
        ensures
            final(self)@ == old(self)@.pasted(raw@),
    {
        let parsed = path_input::parse_paste(raw, &self.env);
        self.offer_paths(parsed);
    }

    pub fn apply_checked_paths(&mut self, paths: Vec<String>, exists: Vec<bool>, now: u64)
        ensures
            final(self)@ == old(self)@.paths_checked(text::strs(paths@), exists@, now),
    {
        let (good, missing) = part_existing(&paths, &exists);
        assert(text::strs(good@).len() == good@.len());
        assert(text::strs(missing@).len() == missing@.len());
        if good.len() > 0 {
            let mut m = "queued ".to_owned();
            let n = text::to_decimal(good.len() as u64);
            m.append(n.as_str());
            let ghost q = self.queue@;
            let ghost g = good@;
            let mut more = good;
            self.queue.append(&mut more);
            assert(text::strs(self.queue@) =~= text::strs(q) + text::strs(g));
            self.last_paste_error =
            if missing.len() == 0 {
                None
            } else {
                let mut e = text::to_decimal(missing.len() as u64);
                e.append(" path(s) not found");
                Some(e)
            };
            self.show(m.as_str(), now);
            if self.mode == SyncMode::Auto {
                self.start_queue_sync(now);
            }
        } else {
            let mut e = "no valid path: ".to_owned();
            let l = text::join(&missing, ", ");
            e.append(l.as_str());
            self.last_paste_error = Some(e);
        }
    }
}

// ---------------------------------------------------------------------------
// Transfers
// ---------------------------------------------------------------------------
/// Where the transfer of that number stands; past the end where there is none.
pub open spec fn transfer_index(ts: Seq<TransferView>, id: u64) -> int
    decreases ts.len(),
{
    if ts.len() == 0 || ts[0].id == id {
        0
    } else {
        1 + transfer_index(ts.drop_first(), id)
    }
}

pub open spec fn find_transfer(ts: Seq<TransferView>, id: u64) -> Option<TransferView> {
    let i = transfer_index(ts, id);
    if i < ts.len() {
        Some(ts[i])
    } else {
        None
    }
}

pub open spec fn with_transfer(ts: Seq<TransferView>, t: TransferView) -> Seq<TransferView> {
    let i = transfer_index(ts, t.id);
    if i < ts.len() {
        ts.update(i, t)
    } else {
        ts
    }
}

pub proof fn lemma_transfer_index(ts: Seq<TransferView>, id: u64)
    ensures
        0 <= transfer_index(ts, id) <= ts.len(),
        transfer_index(ts, id) < ts.len() ==> ts[transfer_index(ts, id)].id == id,
        forall|i: int| 0 <= i < transfer_index(ts, id) ==> (#[trigger] ts[i]).id != id,
    decreases ts.len(),
{
    if ts.len() > 0 && ts[0].id != id {
        lemma_transfer_index(ts.drop_first(), id);
        assert forall|i: int| 0 <= i < transfer_index(ts, id) implies (#[trigger] ts[i]).id
            != id by {
            if i > 0 {
                assert(ts.drop_first()[i - 1] == ts[i]);
            }
        }
    }
}

pub fn position_of(ts: &Vec<Transfer>, id: u64) -> (r: usize)
    ensures
        r == transfer_index(text::views(ts@), id),
        r <= ts@.len(),
        r < ts@.len() ==> ts@[r as int].id == id,
{
    let ghost all = text::views(ts@);
    proof {
        lemma_transfer_index(all, id);
    }
    let mut i: usize = 0;
    while i < ts.len()
        invariant
            all == text::views(ts@),
            i <= transfer_index(all, id) <= all.len(),
            transfer_index(all, id) < all.len() ==> all[transfer_index(all, id)].id == id,
            forall|k: int| 0 <= k < transfer_index(all, id) ==> (#[trigger] all[k]).id != id,
        decreases ts@.len() - i,
    {
        assert(all[i as int].id == ts@[i as int].id);
        if ts[i].id == id {
            return i;
        }
        i = i + 1;
    }
    i
}

/// The clipboard text for a file that a target has received.
pub open spec fn clipboard_text(
    a: AppView,
    t: TargetView,
    local: Seq<char>,
    dir: Seq<char>,
) -> Seq<char> {
    clipboard::rendered(t, local, dir, a.clipboard_format, a.cfg.clipboard_template)
}

pub open spec fn remote_path_of(local: Seq<char>, dir: Seq<char>) -> Seq<char> {
    clipboard::remote_file(dir, clipboard::basename(local))
}

impl AppView {
    /// The path of a file that a target has received goes to the clipboard.
    pub open spec fn copied_completed(
        self,
        target_name: Seq<char>,
        local: Seq<char>,
        dir: Seq<char>,
    ) -> AppView {
        match config::find_target(self.cfg.targets, target_name) {
            Some(t) => self.emit(
                EffectView::WriteClipboard {
                    text: clipboard_text(self, t, local, dir),
                    remote_path: Some(remote_path_of(local, dir)),
                },
            ),
            None => self,
        }
    }

    /// A transfer has moved on. One that has completed is recorded, and its path
    /// goes to the clipboard.
    pub open spec fn transfer_updated(self, ev: TransferEventView, now: u64) -> AppView {
        match ev {
            TransferEventView::Started { id, .. } => match find_transfer(self.transfers, id) {
                Some(t) => AppView {
                    transfers: with_transfer(
                        self.transfers,
                        TransferView { state: TransferState::Running, ..t },
                    ),
                    ..self
                },
                None => self,
            },
            TransferEventView::Progress { id, percent, rate, .. } => match find_transfer(
                self.transfers,
                id,
            ) {
                Some(t) => AppView {
                    transfers: with_transfer(self.transfers, TransferView { percent, rate, ..t }),
                    ..self
                },
                None => self,
            },
            TransferEventView::Line { .. } => self,
            TransferEventView::Completed { id, remote_abs_dir } => match find_transfer(
                self.transfers,
                id,
            ) {
                Some(t) => AppView {
                    transfers: with_transfer(
                        self.transfers,
                        TransferView {
                            state: TransferState::Completed,
                            percent: 100,
                            remote_abs_dir,
                            ..t
                        },
                    ),
                    ..self
                }.recording(t, remote_abs_dir).copied_completed(
                    t.target_name,
                    t.local,
                    remote_abs_dir,
                ),
                None => self,
            },
            TransferEventView::Failed { id, error } => {
                let a = match find_transfer(self.transfers, id) {
                    Some(t) => AppView {
                        transfers: with_transfer(
                            self.transfers,
                            TransferView {
                                state: TransferState::Failed,
                                last_error: Some(error),
                                ..t
                            },
                        ),
                        ..self
                    },
                    None => self,
                };
                a.toasted("transfer failed: "@ + error, now)
            },
        }
    }

    /// A completed transfer is to be recorded, where its target is still there.
    pub open spec fn recording(self, t: TransferView, dir: Seq<char>) -> AppView {
        if config::find_target(self.cfg.targets, t.target_name) is Some {
            self.emit(
                EffectView::RecordHistory {
                    target_name: t.target_name,
                    local: t.local,
                    remote_abs_dir: dir,
                    source_watch: t.source_watch,
                },
            )
        } else {
            self
        }
    }
}

fn put_transfer(ts: &mut Vec<Transfer>, pos: usize, t: Transfer)
    requires
        pos < old(ts)@.len(),
        pos == transfer_index(text::views(old(ts)@), t.id),
    ensures
        text::views(final(ts)@) == with_transfer(text::views(old(ts)@), t@),
{
    let ghost before = text::views(ts@);
    ts.set(pos, t);
    assert(text::views(ts@) =~= with_transfer(before, t@));
}

impl App {
    pub fn update_clipboard_for_completed(&mut self, target_name: &str, local: &str, dir: &str)
        ensures
            final(self)@ == old(self)@.copied_completed(target_name@, local@, dir@),
    {
        let rendered = match self.cfg.target_by_name(target_name) {
            Some(t) => clipboard::render(
                t,
                local,
                dir,
                self.clipboard_format,
                self.cfg.clipboard_template.as_str(),
            ),
            None => return,
        };
        let name = clipboard::local_basename(local);
        let remote_path = clipboard::remote_path(dir, name.as_str());
        self.emit(Effect::WriteClipboard { text: rendered, remote_path: Some(remote_path) });
    }

    fn record_history(&mut self, t: &Transfer, dir: &str)
        ensures
            final(self)@ == old(self)@.recording(t@, dir@),
    {
        if self.cfg.target_by_name(t.target_name.as_str()).is_some() {
            self.emit(
                Effect::RecordHistory {
                    target_name: t.target_name.clone(),
                    local: t.local.clone(),
                    remote_abs_dir: dir.to_owned(),
                    source_watch: text::clone_opt(&t.source_watch),
                },
            );
        }
    }

    pub fn handle_transfer_event(&mut self, ev: TransferEvent, now: u64)
        ensures
            final(self)@ == old(self)@.transfer_updated(ev@, now),
    {
        match ev {
            TransferEvent::Started { id, .. } => {
                let pos = position_of(&self.transfers, id);
                if pos < self.transfers.len() {
                    assert(self@.transfers[pos as int] == self.transfers@[pos as int]@);
                    let mut t = self.transfers[pos].clone();
                    t.state = TransferState::Running;
                    put_transfer(&mut self.transfers, pos, t);
                }
            },
            TransferEvent::Progress { id, percent, rate, bytes: _ } => {
                let pos = position_of(&self.transfers, id);
                if pos < self.transfers.len() {
                    assert(self@.transfers[pos as int] == self.transfers@[pos as int]@);
                    let mut t = self.transfers[pos].clone();
                    t.percent = percent;
                    t.rate = rate;
                    put_transfer(&mut self.transfers, pos, t);
                }
            },
            TransferEvent::Line { .. } => {},
            TransferEvent::Completed { id, remote_abs_dir } => {
                let pos = position_of(&self.transfers, id);
                if pos < self.transfers.len() {
                    assert(self@.transfers[pos as int] == self.transfers@[pos as int]@);
                    let before = self.transfers[pos].clone();
                    let mut t = self.transfers[pos].clone();
                    t.state = TransferState::Completed;
                    t.percent = 100;
                    t.remote_abs_dir = remote_abs_dir.clone();
                    put_transfer(&mut self.transfers, pos, t);
                    self.record_history(&before, remote_abs_dir.as_str());
                    self.update_clipboard_for_completed(
                        before.target_name.as_str(),
                        before.local.as_str(),
                        remote_abs_dir.as_str(),
                    );
                }
            },
            TransferEvent::Failed { id, error } => {
                let pos = position_of(&self.transfers, id);
                if pos < self.transfers.len() {
                    assert(self@.transfers[pos as int] == self.transfers@[pos as int]@);
                    let mut t = self.transfers[pos].clone();
                    t.state = TransferState::Failed;
                    t.last_error = Some(error.clone());
                    put_transfer(&mut self.transfers, pos, t);
                }
                let mut m = "transfer failed: ".to_owned();
                m.append(error.as_str());
                self.show(m.as_str(), now);
            },
        }
    }
}

} // verus!
