//! Folder watching: per-folder lock, polling engine, catchup on startup.
//!
//! A watch is scoped to a directory path. At most one process may hold the
//! lock for a given path at any time; this prevents two lzsync instances
//! watching the same folder from both uploading the same screenshot twice.
//!
//! The lock file is a small JSON blob under
//! `~/.config/lzsync/watch-locks/<fnv1a(abs_path)>.lock` containing the pid
//! and started_at of the owning process. On acquisition the file is created
//! atomically — if it already exists, its pid is looked at and, if that process
//! is dead, the lock is taken over.
use vstd::prelude::*;

use crate::config;
use crate::environment;
use crate::environment::Environment;
use crate::glob;
pub use crate::lock::is_pid_alive;
pub use crate::lock::LockError;
use crate::lock;
use crate::lock::{LockSeen, LockSeenView, Step};
use crate::outside;
use crate::paths;
use crate::target::{CatchupMode, WatchConfig, WatchView};
use crate::text;

verus! {

// ---------------------------------------------------------------------------
// Patterns
// ---------------------------------------------------------------------------
/// Whether a file name fits one of the patterns, whatever the case; no patterns
/// fit every name.
pub open spec fn fits(patterns: Seq<Seq<char>>, name: Seq<char>) -> bool {
    patterns.len() == 0 || exists|i: int|
        0 <= i < patterns.len() && glob::matches(
            outside::caseless(#[trigger] patterns[i]),
            outside::caseless(name),
            '*',
            '?',
        )
}

/// Glob match of a whole string: `*` stands for any sequence, `?` for a single
/// char.
pub fn glob_match(pattern: &str, s: &str) -> (r: bool)
    ensures
        r == glob::matches(pattern@, s@, '*', '?'),
{
    let p = text::chars_of(pattern);
    let t = text::chars_of(s);
    glob::match_chars(&p, &t)
}

/// ASCII characters only.
pub open spec fn plain_text(s: Seq<char>) -> bool {
    forall|i: int| 0 <= i < s.len() ==> (#[trigger] s[i] as u32) < 0x80
}

/// Case-insensitive glob match against a file's basename. Supports `*` (any
/// sequence) and `?` (single char). An empty patterns list matches everything.
pub fn matches_any(patterns: &[String], filename: &str) -> (r: bool)
    ensures
        r == fits(text::strs(patterns@), filename@),
        plain_text(filename@) && (forall|i: int|
            0 <= i < patterns@.len() ==> plain_text(#[trigger] text::strs(patterns@)[i])) ==> r == (
        patterns@.len() == 0 || exists|i: int|
            0 <= i < patterns@.len() && glob::matches(
                text::ascii_lowercase(#[trigger] text::strs(patterns@)[i]),
                text::ascii_lowercase(filename@),
                '*',
                '?',
            )),
{
    if patterns.len() == 0 {
        return true;
    }
    let name = outside::to_lowercase(filename);
    let ghost ps = text::strs(patterns@);
    let mut i: usize = 0;
    while i < patterns.len()
        invariant
            i <= patterns@.len(),
            ps == text::strs(patterns@),
            name@ == outside::caseless(filename@),
            plain_text(filename@) ==> name@ == text::ascii_lowercase(filename@),
            forall|k: int|
                0 <= k < i && plain_text(#[trigger] ps[k]) ==> outside::caseless(ps[k])
                    == text::ascii_lowercase(ps[k]),
            forall|k: int|
                0 <= k < i ==> !glob::matches(
                    outside::caseless(#[trigger] ps[k]),
                    name@,
                    '*',
                    '?',
                ),
        decreases patterns@.len() - i,
    {
        let p = outside::to_lowercase(patterns[i].as_str());
        assert(ps[i as int] == patterns@[i as int]@);
        if glob_match(p.as_str(), name.as_str()) {
            return true;
        }
        i = i + 1;
    }
    false
}

/// What an entry of a folder is.
#[derive(Debug, Clone, Copy, PartialEq, Eq, Structural)]
pub enum EntryKind {
    Directory,
    File,
    Other,
}

/// What to do with an entry of a watched folder.
#[derive(Debug, Clone, Copy, PartialEq, Eq, Structural)]
pub enum EntryAction {
    Descend,
    Take,
    Skip,
}

pub open spec fn entry_action(
    kind: EntryKind,
    path: Seq<char>,
    patterns: Seq<Seq<char>>,
    recursive: bool,
) -> EntryAction {
    match kind {
        EntryKind::Directory => if recursive {
            EntryAction::Descend
        } else {
            EntryAction::Skip
        },
        EntryKind::File => match paths::base_name(path) {
            Some(n) => if fits(patterns, n) {
                EntryAction::Take
            } else {
                EntryAction::Skip
            },
            None => EntryAction::Skip,
        },
        EntryKind::Other => EntryAction::Skip,
    }
}

/// Directories are entered where the watch is recursive, files are taken where
/// their name fits, anything else is passed over.
pub fn classify_entry(kind: EntryKind, path: &str, patterns: &[String], recursive: bool) -> (r:
    EntryAction)
    ensures
        r == entry_action(kind, path@, text::strs(patterns@), recursive),
{
    match kind {
        EntryKind::Directory => if recursive {
            EntryAction::Descend
        } else {
            EntryAction::Skip
        },
        EntryKind::File => match paths::file_name(path) {
            Some(n) => if matches_any(patterns, n.as_str()) {
                EntryAction::Take
            } else {
                EntryAction::Skip
            },
            None => EntryAction::Skip,
        },
        EntryKind::Other => EntryAction::Skip,
    }
}

// ---------------------------------------------------------------------------
// Events
// ---------------------------------------------------------------------------
/// Event emitted by a running watch.
#[derive(Debug, Clone)]
pub enum WatchEvent {
    /// A file matched `patterns`, has been on disk at least `debounce_ms`,
    /// and its size hasn't changed since we last sampled it. Safe to sync.
    NewFile { watch_name: String, path: String, size: u64 },
    /// On startup N files were observed whose mtime is newer than the last
    /// recorded `last_seen_mtime`. Only emitted for watches with
    /// `catchup = "prompt"` — in Auto mode individual NewFile events come
    /// instead; in Ignore nothing does.
    CatchupDetected { watch_name: String, paths: Vec<String> },
    /// The watch's own lock file has disappeared or been rewritten by another
    /// process, or its folder cannot be told. The watch has stopped; the UI
    /// should show it as unlocked.
    LockLost { watch_name: String, reason: String },
    /// The watch ended cleanly (user toggled it off, or app is shutting down).
    Stopped { watch_name: String },
}

pub ghost enum WatchEventView {
    NewFile { watch_name: Seq<char>, path: Seq<char>, size: u64 },
    CatchupDetected { watch_name: Seq<char>, paths: Seq<Seq<char>> },
    LockLost { watch_name: Seq<char>, reason: Seq<char> },
    Stopped { watch_name: Seq<char> },
}

impl View for WatchEvent {
    type V = WatchEventView;

    open spec fn view(&self) -> WatchEventView {
        match self {
            WatchEvent::NewFile { watch_name, path, size } => WatchEventView::NewFile {
                watch_name: watch_name@,
                path: path@,
                size: *size,
            },
            WatchEvent::CatchupDetected { watch_name, paths } => WatchEventView::CatchupDetected {
                watch_name: watch_name@,
                paths: text::strs(paths@),
            },
            WatchEvent::LockLost { watch_name, reason } => WatchEventView::LockLost {
                watch_name: watch_name@,
                reason: reason@,
            },
            WatchEvent::Stopped { watch_name } => WatchEventView::Stopped {
                watch_name: watch_name@,
            },
        }
    }
}

/// A handle on a running watch, through which it is told to end.
#[derive(Debug)]
pub struct WatchHandle {
    pub watch_name: String,
    pub stopping: bool,
}

impl WatchHandle {
    pub fn new(watch_name: String) -> (r: Self)
        ensures
            r.watch_name == watch_name,
            !r.stopping,
    {
        WatchHandle { watch_name, stopping: false }
    }

    /// The watch ends on its next tick.
    pub fn stop(&mut self)
        ensures
            final(self).stopping,
            final(self).watch_name == old(self).watch_name,
    {
        self.stopping = true;
    }
}

// ---------------------------------------------------------------------------
// Catchup
// ---------------------------------------------------------------------------
/// A file found in a watched folder, with its size and its modification time
/// (zero where that cannot be read).
#[derive(Debug, Clone)]
pub struct FoundFile {
    pub path: String,
    pub size: u64,
    pub mtime: u64,
}

pub ghost struct FoundView {
    pub path: Seq<char>,
    pub size: u64,
    pub mtime: u64,
}

impl View for FoundFile {
    type V = FoundView;

    open spec fn view(&self) -> FoundView {
        FoundView { path: self.path@, size: self.size, mtime: self.mtime }
    }
}

/// An entry of a folder as it is read. A directory that is entered holds its own
/// entries.
#[derive(Debug)]
pub struct FolderEntry {
    pub kind: EntryKind,
    pub file: FoundFile,
    pub within: Vec<FolderEntry>,
}

/// The files that a watch takes from an entry: the entry itself, or what it takes
/// from the directory.
pub open spec fn taken(e: FolderEntry, patterns: Seq<Seq<char>>, recursive: bool) -> Seq<FoundView>
    decreases e,
{
    match entry_action(e.kind, e.file.path@, patterns, recursive) {
        EntryAction::Descend => all_taken(e.within@, patterns, recursive),
        EntryAction::Take => seq![e.file@],
        EntryAction::Skip => seq![],
    }
}

/// The files that a watch takes from a folder, in the order in which they are read.
pub open spec fn all_taken(
    entries: Seq<FolderEntry>,
    patterns: Seq<Seq<char>>,
    recursive: bool,
) -> Seq<FoundView>
    decreases entries,
{
    if entries.len() == 0 {
        seq![]
    } else {
        all_taken(entries.drop_last(), patterns, recursive) + taken(
            entries[entries.len() - 1],
            patterns,
            recursive,
        )
    }
}

fn walk_dir(
    entries: &Vec<FolderEntry>,
    patterns: &Vec<String>,
    recursive: bool,
    out: &mut Vec<FoundFile>,
)
    ensures
        text::views(final(out)@) == text::views(old(out)@) + all_taken(
            entries@,
            text::strs(patterns@),
            recursive,
        ),
    decreases entries,
{
    let ghost ps = text::strs(patterns@);
    let ghost before = text::views(out@);
    let mut i: usize = 0;
    assert(before + all_taken(entries@.take(0), ps, recursive) =~= before);
    while i < entries.len()
        invariant
            i <= entries@.len(),
            ps == text::strs(patterns@),
            text::views(out@) == before + all_taken(entries@.take(i as int), ps, recursive),
        decreases entries@.len() - i,
    {
        let e = &entries[i];
        let ghost so_far = all_taken(entries@.take(i as int), ps, recursive);
        let ghost had = out@;
        assert(entries@.take(i + 1).drop_last() =~= entries@.take(i as int));
        assert(entries@.take(i + 1)[i as int] == *e);
        match classify_entry(e.kind, e.file.path.as_str(), patterns.as_slice(), recursive) {
            EntryAction::Descend => {
                walk_dir(&e.within, patterns, recursive, out);
            },
            EntryAction::Take => {
                let f = FoundFile {
                    path: e.file.path.clone(),
                    size: e.file.size,
                    mtime: e.file.mtime,
                };
                proof {
                    text::lemma_views_push(had, f);
                }
                out.push(f);
                assert(text::views(had).push(f@) =~= text::views(had) + seq![e.file@]);
            },
            EntryAction::Skip => {
                assert(text::views(had) + seq![] =~= text::views(had));
            },
        }
        assert(before + so_far + taken(*e, ps, recursive) =~= before + (so_far + taken(
            *e,
            ps,
            recursive,
        )));
        i = i + 1;
    }
    assert(entries@.take(i as int) =~= entries@);
}

/// The files of a folder that a watch takes.
pub fn list_files(entries: &Vec<FolderEntry>, patterns: &Vec<String>, recursive: bool) -> (r: Vec<
    FoundFile,
>)
    ensures
        text::views(r@) == all_taken(entries@, text::strs(patterns@), recursive),
{
    let mut out: Vec<FoundFile> = Vec::new();
    walk_dir(entries, patterns, recursive, &mut out);
    assert(text::views(out@) =~= all_taken(entries@, text::strs(patterns@), recursive));
    out
}

/// Those files that were modified after (or, where not `newer`, up to) the
/// threshold, in order.
pub open spec fn split_by_mtime(files: Seq<FoundView>, threshold: u64, newer: bool) -> Seq<FoundView>
    decreases files.len(),
{
    if files.len() == 0 {
        seq![]
    } else if (files.last().mtime > threshold) == newer {
        split_by_mtime(files.drop_last(), threshold, newer).push(files.last())
    } else {
        split_by_mtime(files.drop_last(), threshold, newer)
    }
}

pub open spec fn paths_of(files: Seq<FoundView>) -> Seq<Seq<char>> {
    Seq::new(files.len(), |i: int| files[i].path)
}

/// Splits files into those newer than the threshold and the rest. Files whose
/// mtime can't be read are treated as old (safe — baseline them).
pub fn partition_catchup(files: &Vec<FoundFile>, threshold_epoch: u64) -> (r: (
    Vec<String>,
    Vec<String>,
))
    ensures
        text::strs(r.0@) == paths_of(split_by_mtime(text::views(files@), threshold_epoch, true)),
        text::strs(r.1@) == paths_of(split_by_mtime(text::views(files@), threshold_epoch, false)),
{
    let ghost all = text::views(files@);
    let mut newer: Vec<String> = Vec::new();
    let mut older: Vec<String> = Vec::new();
    let mut i: usize = 0;
    assert(text::strs(newer@) =~= seq![]);
    assert(text::strs(older@) =~= seq![]);
    assert(paths_of(split_by_mtime(all.take(0), threshold_epoch, true)) =~= seq![]);
    assert(paths_of(split_by_mtime(all.take(0), threshold_epoch, false)) =~= seq![]);
    while i < files.len()
        invariant
            i <= files@.len(),
            all == text::views(files@),
            text::strs(newer@) == paths_of(
                split_by_mtime(all.take(i as int), threshold_epoch, true),
            ),
            text::strs(older@) == paths_of(
                split_by_mtime(all.take(i as int), threshold_epoch, false),
            ),
        decreases files@.len() - i,
    {
        let f = &files[i];
        assert(all.take(i + 1).drop_last() =~= all.take(i as int));
        assert(all.take(i + 1).last() == f@);
        let p = f.path.clone();
        let ghost a = split_by_mtime(all.take(i as int), threshold_epoch, true);
        let ghost b = split_by_mtime(all.take(i as int), threshold_epoch, false);
        if f.mtime > threshold_epoch {
            proof {
                text::lemma_strs_push(newer@, p);
                assert(paths_of(a.push(f@)) =~= paths_of(a).push(p@));
            }
            newer.push(p);
        } else {
            proof {
                text::lemma_strs_push(older@, p);
                assert(paths_of(b.push(f@)) =~= paths_of(b).push(p@));
            }
            older.push(p);
        }
        i = i + 1;
    }
    assert(all.take(i as int) =~= all);
    (newer, older)
}

// ---------------------------------------------------------------------------
// Polling
// ---------------------------------------------------------------------------
/// A file that has been seen but may still be growing.
#[derive(Debug, Clone)]
pub struct PendingFile {
    pub path: String,
    /// When its size was last seen to change, in milliseconds.
    pub since_ms: u64,
    pub size: u64,
}

/// One polled folder: the files that are done with, and those that are waited
/// for.
#[derive(Debug)]
pub struct Poller {
    pub watch_name: String,
    pub debounce_ms: u64,
    pub known: Vec<String>,
    pub pending: Vec<PendingFile>,
}

/// What a poller knows: the files done with, and for each file that is waited for
/// when its size last changed and what it was.
pub ghost struct Polled {
    pub known: Set<Seq<char>>,
    pub pending: Map<Seq<char>, (u64, u64)>,
}

pub open spec fn pending_map(v: Seq<PendingFile>) -> Map<Seq<char>, (u64, u64)>
    decreases v.len(),
{
    if v.len() == 0 {
        Map::empty()
    } else {
        pending_map(v.drop_last()).insert(v.last().path@, (v.last().since_ms, v.last().size))
    }
}

impl Poller {
    pub open spec fn view(&self) -> Polled {
        Polled { known: text::strs(self.known@).to_set(), pending: pending_map(self.pending@) }
    }
}

/// A file of a listing: its path and size.
pub type Listed = (Seq<char>, u64);

pub open spec fn listing(files: Seq<(String, u64)>) -> Seq<Listed> {
    Seq::new(files.len(), |i: int| (files[i].0@, files[i].1))
}

/// Whether a file that is waited for has not changed for long enough.
pub open spec fn settled(st: Polled, f: Listed, now: u64, debounce: u64) -> bool {
    &&& !st.known.contains(f.0)
    &&& st.pending.dom().contains(f.0)
    &&& st.pending[f.0].1 == f.1
    &&& now - st.pending[f.0].0 >= debounce || debounce == 0
}

/// What is known after looking at one file. A new file, and one whose size has
/// changed, is waited for from now on; one that has settled is done with.
pub open spec fn seen(st: Polled, f: Listed, now: u64, debounce: u64) -> Polled {
    if st.known.contains(f.0) {
        st
    } else if settled(st, f, now, debounce) {
        Polled { known: st.known.insert(f.0), pending: st.pending.remove(f.0) }
    } else if st.pending.dom().contains(f.0) && st.pending[f.0].1 == f.1 {
        st
    } else {
        Polled { pending: st.pending.insert(f.0, (now, f.1)), ..st }
    }
}

/// What is known, and what has been announced, after looking at the given files.
pub open spec fn looked(st: Polled, files: Seq<Listed>, now: u64, debounce: u64) -> (
    Polled,
    Seq<Listed>,
)
    decreases files.len(),
{
    if files.len() == 0 {
        (st, seq![])
    } else {
        let (s, out) = looked(st, files.drop_last(), now, debounce);
        let f = files.last();
        (
            seen(s, f, now, debounce),
            if settled(s, f, now, debounce) {
                out.push(f)
            } else {
                out
            },
        )
    }
}

pub open spec fn listed_paths(files: Seq<Listed>) -> Set<Seq<char>> {
    Set::new(|p: Seq<char>| exists|i: int| 0 <= i < files.len() && (#[trigger] files[i]).0 == p)
}

/// Files that have vanished are no longer waited for.
pub open spec fn without_vanished(st: Polled, files: Seq<Listed>) -> Polled {
    Polled { pending: st.pending.restrict(listed_paths(files)), ..st }
}

/// One poll of the folder.
pub open spec fn polled(st: Polled, files: Seq<Listed>, now: u64, debounce: u64) -> (
    Polled,
    Seq<Listed>,
) {
    looked(without_vanished(st, files), files, now, debounce)
}

pub open spec fn announcements(name: Seq<char>, files: Seq<Listed>) -> Seq<WatchEventView> {
    Seq::new(
        files.len(),
        |i: int|
            WatchEventView::NewFile { watch_name: name, path: files[i].0, size: files[i].1 },
    )
}

fn has_path(files: &Vec<(String, u64)>, path: &str) -> (r: bool)
    ensures
        r == listed_paths(listing(files@)).contains(path@),
{
    let ghost l = listing(files@);
    let mut i: usize = 0;
    while i < files.len()
        invariant
            i <= files@.len(),
            l == listing(files@),
            forall|k: int| 0 <= k < i ==> (#[trigger] l[k]).0 != path@,
        decreases files@.len() - i,
    {
        assert(l[i as int].0 == files@[i as int].0@);
        if text::same(files[i].0.as_str(), path) {
            return true;
        }
        i = i + 1;
    }
    false
}

/// The pending files whose path is listed.
fn keep_listed(pending: &Vec<PendingFile>, files: &Vec<(String, u64)>) -> (r: Vec<PendingFile>)
    ensures
        pending_map(r@) == pending_map(pending@).restrict(listed_paths(listing(files@))),
{
    let ghost set = listed_paths(listing(files@));
    let mut r: Vec<PendingFile> = Vec::new();
    let mut i: usize = 0;
    assert(pending_map(r@) =~= pending_map(pending@.take(0)).restrict(set));
    while i < pending.len()
        invariant
            i <= pending@.len(),
            set == listed_paths(listing(files@)),
            pending_map(r@) == pending_map(pending@.take(i as int)).restrict(set),
        decreases pending@.len() - i,
    {
        let p = &pending[i];
        assert(pending@.take(i + 1).drop_last() =~= pending@.take(i as int));
        let ghost m = pending_map(pending@.take(i as int));
        let ghost before = r@;
        if has_path(files, p.path.as_str()) {
            r.push(PendingFile { path: p.path.clone(), since_ms: p.since_ms, size: p.size });
            assert(r@.drop_last() =~= before);
            assert(pending_map(r@) =~= m.insert(p.path@, (p.since_ms, p.size)).restrict(set));
        } else {
            assert(pending_map(r@) =~= m.insert(p.path@, (p.since_ms, p.size)).restrict(set));
        }
        i = i + 1;
    }
    assert(pending@.take(i as int) =~= pending@);
    r
}

/// The pending files but those of the given path.
fn without_path(pending: &Vec<PendingFile>, path: &str) -> (r: Vec<PendingFile>)
    ensures
        pending_map(r@) == pending_map(pending@).remove(path@),
{
    let mut r: Vec<PendingFile> = Vec::new();
    let mut i: usize = 0;
    assert(pending_map(r@) =~= pending_map(pending@.take(0)).remove(path@));
    while i < pending.len()
        invariant
            i <= pending@.len(),
            pending_map(r@) == pending_map(pending@.take(i as int)).remove(path@),
        decreases pending@.len() - i,
    {
        let p = &pending[i];
        assert(pending@.take(i + 1).drop_last() =~= pending@.take(i as int));
        let ghost m = pending_map(pending@.take(i as int));
        let ghost before = r@;
        if !text::same(p.path.as_str(), path) {
            r.push(PendingFile { path: p.path.clone(), since_ms: p.since_ms, size: p.size });
            assert(r@.drop_last() =~= before);
        }
        assert(pending_map(r@) =~= m.insert(p.path@, (p.since_ms, p.size)).remove(path@));
        i = i + 1;
    }
    assert(pending@.take(i as int) =~= pending@);
    r
}

fn find_pending(pending: &Vec<PendingFile>, path: &str) -> (r: Option<(u64, u64)>)
    ensures
        match r {
            Some(v) => pending_map(pending@).dom().contains(path@) && pending_map(pending@)[path@]
                == v,
            None => !pending_map(pending@).dom().contains(path@),
        },
{
    let mut i: usize = pending.len();
    assert(pending@.take(i as int) =~= pending@);
    while i > 0
        invariant
            i <= pending@.len(),
            pending_map(pending@).dom().contains(path@) == pending_map(
                pending@.take(i as int),
            ).dom().contains(path@),
            pending_map(pending@)[path@] == pending_map(pending@.take(i as int))[path@]
                || !pending_map(pending@).dom().contains(path@),
        decreases i,
    {
        let p = &pending[i - 1];
        assert(pending@.take(i as int).drop_last() =~= pending@.take(i - 1));
        if text::same(p.path.as_str(), path) {
            return Some((p.since_ms, p.size));
        }
        i = i - 1;
    }
    None
}

impl Poller {
    /// Looks at one file of a listing; says whether it is to be announced.
    fn look(&mut self, path: &String, size: u64, now_ms: u64) -> (r: bool)
        ensures
            final(self).watch_name == old(self).watch_name,
            final(self).debounce_ms == old(self).debounce_ms,
            r == settled(old(self)@, (path@, size), now_ms, old(self).debounce_ms),
            final(self)@ == seen(old(self)@, (path@, size), now_ms, old(self).debounce_ms),
    {
        let ghost st = self@;
        if text::list_has(&self.known, path.as_str()) {
            return false;
        }
        assert(!st.known.contains(path@));
        match find_pending(&self.pending, path.as_str()) {
            Some((since, last)) => {
                if size == last {
                    if now_ms.saturating_sub(since) >= self.debounce_ms {
                        self.pending = without_path(&self.pending, path.as_str());
                        let ghost before = self.known@;
                        self.known.push(path.clone());
                        proof {
                            text::lemma_strs_push(before, *path);
                            assert(text::strs(self.known@).to_set() =~= text::strs(
                                before,
                            ).to_set().insert(path@)) by {
                                assert(text::strs(self.known@) =~= text::strs(before).push(path@));
                                assert forall|x: Seq<char>| #[trigger]
                                    text::strs(before).push(path@).to_set().contains(x) == (
                                    text::strs(before).to_set().contains(x) || x == path@) by {
                                    if x == path@ {
                                        assert(text::strs(before).push(path@)[before.len() as int]
                                            == x);
                                    }
                                    if text::strs(before).contains(x) {
                                        let k = choose|k: int|
                                            0 <= k < before.len() && text::strs(before)[k] == x;
                                        assert(text::strs(before).push(path@)[k] == x);
                                    }
                                }
                            }
                        }
                        return true;
                    }
                    return false;
                }
            },
            None => {},
        }
        let ghost before = self.pending@;
        self.pending.push(PendingFile { path: path.clone(), since_ms: now_ms, size });
        assert(self.pending@.drop_last() =~= before);
        false
    }

    /// One poll: looks at every listed file, and announces those that have
    /// settled.
    pub fn tick(&mut self, files: &Vec<(String, u64)>, now_ms: u64) -> (r: Vec<WatchEvent>)
        ensures
            final(self).watch_name == old(self).watch_name,
            final(self).debounce_ms == old(self).debounce_ms,
            ({
                let (st, out) = polled(
                    old(self)@,
                    listing(files@),
                    now_ms,
                    old(self).debounce_ms,
                );
                &&& final(self)@ == st
                &&& text::views(r@) == announcements(old(self).watch_name@, out)
            }),
    {
        let ghost name = self.watch_name@;
        let ghost debounce = self.debounce_ms;
        let ghost l = listing(files@);
        let ghost st0 = without_vanished(self@, l);
        let ghost kept = self.known;
        self.pending = keep_listed(&self.pending, files);
        assert(self@ == st0);
        let mut r: Vec<WatchEvent> = Vec::new();
        let mut i: usize = 0;
        assert(text::views(r@) =~= announcements(name, seq![]));
        while i < files.len()
            invariant
                i <= files@.len(),
                l == listing(files@),
                self.watch_name@ == name,
                self.watch_name == old(self).watch_name,
                self.debounce_ms == debounce,
                self@ == looked(st0, l.take(i as int), now_ms, debounce).0,
                text::views(r@) == announcements(
                    name,
                    looked(st0, l.take(i as int), now_ms, debounce).1,
                ),
            decreases files@.len() - i,
        {
            assert(l.take(i + 1).drop_last() =~= l.take(i as int));
            assert(l.take(i + 1).last() == (files@[i as int].0@, files@[i as int].1));
            let ghost out = looked(st0, l.take(i as int), now_ms, debounce).1;
            if self.look(&files[i].0, files[i].1, now_ms) {
                let e = WatchEvent::NewFile {
                    watch_name: self.watch_name.clone(),
                    path: files[i].0.clone(),
                    size: files[i].1,
                };
                proof {
                    text::lemma_views_push(r@, e);
                    assert(announcements(name, out.push(l[i as int])) =~= announcements(
                        name,
                        out,
                    ).push(e@));
                }
                r.push(e);
            }
            i = i + 1;
        }
        assert(l.take(i as int) =~= l);
        r
    }
}

/// What is found when a watch looks again: whether it is told to end, its lock
/// file, and the files of its folder.
pub ghost struct Look {
    pub stop: bool,
    pub lock: LockSeenView,
    pub files: Seq<Listed>,
    pub now: u64,
}

/// The watch ends here: it was told to, or its lock is lost.
pub open spec fn ends(l: Look, owner: u32) -> bool {
    l.stop || lock::loss(l.lock, owner) is Some
}

pub open spec fn after_look(st: Polled, l: Look, owner: u32, debounce: u64) -> Polled {
    if ends(l, owner) {
        st
    } else {
        polled(st, l.files, l.now, debounce).0
    }
}

/// What a watch announces when it looks again. At its end it announces nothing
/// but that end.
pub open spec fn look_events(
    name: Seq<char>,
    st: Polled,
    l: Look,
    owner: u32,
    debounce: u64,
) -> Seq<WatchEventView> {
    if l.stop {
        seq![WatchEventView::Stopped { watch_name: name }]
    } else {
        match lock::loss(l.lock, owner) {
            Some(reason) => seq![WatchEventView::LockLost { watch_name: name, reason }],
            None => announcements(name, polled(st, l.files, l.now, debounce).1),
        }
    }
}

impl Poller {
    /// One round of a watch whose lock the process `owner` holds: what to
    /// announce, and whether the watch ends. It ends cleanly where it is told to
    /// stop; where its lock is lost it says so and ends. Else the folder is
    /// polled.
    pub fn poll(
        &mut self,
        stop: bool,
        seen: &LockSeen,
        owner: u32,
        files: &Vec<(String, u64)>,
        now_ms: u64,
    ) -> (r: (Vec<WatchEvent>, bool))
        ensures
            final(self).watch_name == old(self).watch_name,
            final(self).debounce_ms == old(self).debounce_ms,
            ({
                let l = Look { stop, lock: seen@, files: listing(files@), now: now_ms };
                let d = old(self).debounce_ms;
                &&& final(self)@ == after_look(old(self)@, l, owner, d)
                &&& text::views(r.0@) == look_events(
                    old(self).watch_name@,
                    old(self)@,
                    l,
                    owner,
                    d,
                )
                &&& r.1 == ends(l, owner)
            }),
    {
        let mut events: Vec<WatchEvent> = Vec::new();
        if stop {
            let e = WatchEvent::Stopped { watch_name: self.watch_name.clone() };
            events.push(e);
            assert(text::views(events@) =~= seq![e@]);
            return (events, true);
        }
        match lock::lost(seen, owner) {
            Some(reason) => {
                let e = WatchEvent::LockLost { watch_name: self.watch_name.clone(), reason };
                events.push(e);
                assert(text::views(events@) =~= seq![e@]);
                (events, true)
            },
            None => (self.tick(files, now_ms), false),
        }
    }
}

/// What a watch announces of the files that were there before it started.
pub open spec fn catchup_events(w: WatchView, files: Seq<FoundView>, threshold: u64) -> Seq<
    WatchEventView,
> {
    let newer = split_by_mtime(files, threshold, true);
    match w.catchup {
        CatchupMode::Ignore => seq![],
        CatchupMode::Auto => Seq::new(
            newer.len(),
            |i: int|
                WatchEventView::NewFile {
                    watch_name: w.name,
                    path: newer[i].path,
                    size: newer[i].size,
                },
        ),
        CatchupMode::Prompt => if newer.len() == 0 {
            seq![]
        } else {
            seq![
                WatchEventView::CatchupDetected { watch_name: w.name, paths: paths_of(newer) },
            ]
        },
    }
}

fn auto_events(name: &String, files: &Vec<FoundFile>, threshold: u64) -> (r: Vec<WatchEvent>)
    ensures
        ({
            let newer = split_by_mtime(text::views(files@), threshold, true);
            text::views(r@) == Seq::new(
                newer.len(),
                |i: int|
                    WatchEventView::NewFile {
                        watch_name: name@,
                        path: newer[i].path,
                        size: newer[i].size,
                    },
            )
        }),
{
    let ghost all = text::views(files@);
    let mut r: Vec<WatchEvent> = Vec::new();
    let mut i: usize = 0;
    while i < files.len()
        invariant
            i <= files@.len(),
            all == text::views(files@),
            r@.len() == split_by_mtime(all.take(i as int), threshold, true).len(),
            forall|k: int|
                0 <= k < r@.len() ==> (#[trigger] r@[k])@ == (WatchEventView::NewFile {
                    watch_name: name@,
                    path: split_by_mtime(all.take(i as int), threshold, true)[k].path,
                    size: split_by_mtime(all.take(i as int), threshold, true)[k].size,
                }),
        decreases files@.len() - i,
    {
        let f = &files[i];
        assert(all.take(i + 1).drop_last() =~= all.take(i as int));
        assert(all.take(i + 1).last() == f@);
        if f.mtime > threshold {
            r.push(
                WatchEvent::NewFile {
                    watch_name: name.clone(),
                    path: f.path.clone(),
                    size: f.size,
                },
            );
        }
        i = i + 1;
    }
    assert(all.take(i as int) =~= all);
    r
}

fn all_paths(files: &Vec<FoundFile>) -> (r: Vec<String>)
    ensures
        text::strs(r@) == paths_of(text::views(files@)),
{
    let mut r: Vec<String> = Vec::new();
    let mut i: usize = 0;
    while i < files.len()
        invariant
            i <= files@.len(),
            r@.len() == i,
            forall|k: int| 0 <= k < i ==> (#[trigger] r@[k])@ == files@[k].path@,
        decreases files@.len() - i,
    {
        r.push(files[i].path.clone());
        i = i + 1;
    }
    assert(text::strs(r@) =~= paths_of(text::views(files@)));
    r
}

/// Starts a watch on a folder that holds the given files. All of them are done
/// with from the start; what is announced of those modified after
/// `last_seen_mtime` depends on the catchup mode:
/// - `CatchupMode::Ignore`: everything is baseline (nothing re-sent)
/// - `CatchupMode::Auto`: files with mtime > last_seen_mtime are re-sent
/// - `CatchupMode::Prompt`: files with mtime > last_seen_mtime are reported
///   via `WatchEvent::CatchupDetected`; the app decides when to emit.
pub fn start_poller(config: &WatchConfig, files: &Vec<FoundFile>, last_seen_mtime: u64) -> (r: (
    Poller,
    Vec<WatchEvent>,
))
    ensures
        r.0.watch_name@ == config@.name,
        r.0.debounce_ms == config.debounce_ms,
        r.0@.known == paths_of(text::views(files@)).to_set(),
        r.0@.pending == Map::<Seq<char>, (u64, u64)>::empty(),
        text::views(r.1@) == catchup_events(config@, text::views(files@), last_seen_mtime),
{
    let poller = Poller {
        watch_name: config.name.clone(),
        debounce_ms: config.debounce_ms,
        known: all_paths(files),
        pending: Vec::new(),
    };
    let mut events: Vec<WatchEvent> = Vec::new();
    match config.catchup {
        CatchupMode::Ignore => {
            assert(text::views(events@) =~= seq![]);
        },
        CatchupMode::Auto => {
            events = auto_events(&config.name, files, last_seen_mtime);
            assert(text::views(events@) =~= catchup_events(
                config@,
                text::views(files@),
                last_seen_mtime,
            ));
        },
        CatchupMode::Prompt => {
            let (newer, _) = partition_catchup(files, last_seen_mtime);
            let ghost found = split_by_mtime(text::views(files@), last_seen_mtime, true);
            assert(paths_of(found).len() == found.len());
            assert(text::strs(newer@).len() == newer@.len());
            if newer.len() > 0 {
                let e = WatchEvent::CatchupDetected {
                    watch_name: config.name.clone(),
                    paths: newer,
                };
                events.push(e);
                assert(text::views(events@) =~= seq![e@]);
            } else {
                assert(text::views(events@) =~= seq![]);
            }
        },
    }
    (poller, events)
}

// ---------------------------------------------------------------------------
// Paths
// ---------------------------------------------------------------------------
/// Expand `~` / env vars of a watch's path. Without a dollar sign this never fails.
pub fn resolve_path(raw: &str, env: &Environment) -> (r: Result<String, String>)
    ensures
        environment::outcome(r) == outside::shell_expanded(raw@, env@),
{
    outside::expand_shell(raw, env)
}

/// The canonical form of a path where it has one, so that a folder that does not
/// exist still yields a usable error trail.
pub fn canonical_or(expanded: String, canonical: Option<String>) -> (r: String)
    ensures
        r == (match canonical {
            Some(c) => c,
            None => expanded,
        }),
{
    match canonical {
        Some(c) => c,
        None => expanded,
    }
}

/// Announced where a watch's path cannot be expanded.
pub fn unresolved(watch_name: &str, error: &str) -> (r: WatchEvent)
    ensures
        r@ == (WatchEventView::LockLost {
            watch_name: watch_name@,
            reason: "resolve path: "@ + error@,
        }),
{
    let mut reason = "resolve path: ".to_owned();
    reason.append(error);
    WatchEvent::LockLost { watch_name: watch_name.to_owned(), reason }
}

// ---------------------------------------------------------------------------
// Locks
// ---------------------------------------------------------------------------
/// FNV-1a over the given bytes, in 64 bits.
pub open spec fn fnv1a(bytes: Seq<u8>) -> u64
    decreases bytes.len(),
{
    if bytes.len() == 0 {
        0xcbf2_9ce4_8422_2325
    } else {
        (fnv1a(bytes.drop_last()) ^ (bytes.last() as u64)).wrapping_mul(0x100_0000_01b3)
    }
}

/// Stable, filesystem-safe hash of an absolute path. Used purely to derive a
/// lock filename — no cryptographic guarantees needed.
pub fn fnv1a_hex(s: &str) -> (r: String)
    ensures
        r@ == text::hex(fnv1a(vstd::utf8::encode_utf8(s@)) as nat, 16),
        r@.len() == 16,
{
    let bytes = s.as_bytes();
    let mut h: u64 = 0xcbf2_9ce4_8422_2325;
    let mut i: usize = 0;
    while i < bytes.len()
        invariant
            i <= bytes@.len(),
            h == fnv1a(bytes@.take(i as int)),
        decreases bytes@.len() - i,
    {
        assert(bytes@.take(i + 1).drop_last() =~= bytes@.take(i as int));
        h = (h ^ (bytes[i] as u64)).wrapping_mul(0x100_0000_01b3);
        i = i + 1;
    }
    assert(bytes@.take(i as int) =~= bytes@);
    text::to_hex(h, 16)
}

/// What a lock file says.
#[derive(Debug, Clone)]
pub struct LockRecord {
    pub pid: u32,
    pub started_at: u64,
    /// Absolute path being watched — recorded for human diagnosis when a lock
    /// file is inspected directly. Not used for logic.
    pub path: String,
}

/// Owned lock on a folder. Its file goes with it, unless it has been
/// overwritten by another process since acquisition.
#[derive(Debug)]
pub struct LockHandle {
    pub watch_name: String,
    pub lock_path: String,
    pub owner_pid: u32,
}

/// Where the lock file of a folder lies.
pub open spec fn lock_file(lock_dir: Seq<char>, abs_path: Seq<char>) -> Seq<char> {
    paths::joined(
        lock_dir,
        text::hex(fnv1a(vstd::utf8::encode_utf8(abs_path)) as nat, 16) + ".lock"@,
    )
}

/// Begins to take the lock on a folder: the record to write, the handle that
/// the process will own, and the first step. `crate::lock::next_step` says how
/// to go on.
pub fn try_acquire_lock(
    watch_name: &str,
    abs_path: &str,
    lock_dir: &str,
    pid: u32,
    now: u64,
) -> (r: (LockRecord, LockHandle, Step))
    ensures
        r.0.pid == pid,
        r.0.started_at == now,
        r.0.path@ == abs_path@,
        r.1.watch_name@ == watch_name@,
        r.1.lock_path@ == lock_file(lock_dir@, abs_path@),
        r.1.owner_pid == pid,
        r.2 == Step::MakeDir,
{
    let mut name = fnv1a_hex(abs_path);
    name.append(".lock");
    let lock_path = paths::join(lock_dir, name.as_str());
    (
        LockRecord { pid, started_at: now, path: abs_path.to_owned() },
        LockHandle { watch_name: watch_name.to_owned(), lock_path, owner_pid: pid },
        Step::MakeDir,
    )
}

impl LockHandle {
    /// Whether the lock file, as it was found, is still ours: only then is it
    /// removed when the lock is given back.
    pub fn owns(&self, seen: &LockSeen) -> (r: bool)
        ensures
            r == lock::ours(seen@, self.owner_pid),
    {
        lock::is_ours(seen, self.owner_pid)
    }

    /// Release the lock explicitly, which surfaces I/O errors: what comes of it,
    /// given how the lock file was found and, where it was ours, what came of its
    /// removal.
    pub fn release(&self, seen: LockSeen, removed: Result<(), String>) -> (r: Result<(), String>)
        ensures
            lock::failure_of(r) == lock::release_failure(
                seen@,
                self.owner_pid,
                lock::failure_of(removed),
            ),
    {
        lock::released(seen, self.owner_pid, removed)
    }
}

pub open spec fn place_or(dir: Option<&str>, tail: Seq<char>, fallback: Seq<char>) -> Seq<char> {
    match config::below(dir, tail) {
        Some(p) => p,
        None => fallback,
    }
}

/// Where folder locks lie.
pub fn default_lock_dir(config_dir: Option<&str>) -> (r: String)
    ensures
        r@ == place_or(config_dir, "lzsync/watch-locks"@, ".lzsync/watch-locks"@),
{
    match config::place(config_dir, "lzsync/watch-locks") {
        Some(p) => p,
        None => ".lzsync/watch-locks".to_owned(),
    }
}

// ---------------------------------------------------------------------------
// Persistent state
// ---------------------------------------------------------------------------
/// Persists, per watch name, the last time the user's lzsync exited cleanly
/// (or last catchup ran). Used at startup to decide which files to treat as
/// "catchup candidates". Format: `~/.config/lzsync/watch-state.json`.
#[derive(Debug, Clone)]
pub struct PersistedState {
    pub watches: Vec<(String, PersistedWatchState)>,
}

#[derive(Debug, Clone, Copy, PartialEq, Eq, Structural)]
pub struct PersistedWatchState {
    pub last_seen_mtime: u64,
    pub last_exit_at: u64,
}

impl Default for PersistedWatchState {
    fn default() -> (r: Self)
        ensures
            r == (PersistedWatchState { last_seen_mtime: 0, last_exit_at: 0 }),
    {
        PersistedWatchState { last_seen_mtime: 0, last_exit_at: 0 }
    }
}

impl Default for PersistedState {
    fn default() -> (r: Self)
        ensures
            r.watches@.len() == 0,
    {
        PersistedState { watches: Vec::new() }
    }
}

pub open spec fn entries_of(v: Seq<(String, PersistedWatchState)>) -> Seq<
    (Seq<char>, PersistedWatchState),
> {
    Seq::new(v.len(), |i: int| (v[i].0@, v[i].1))
}

/// The modification time up to which the files of a watch were seen, zero for a
/// watch that has not run yet.
pub open spec fn seen_up_to(s: Seq<(Seq<char>, PersistedWatchState)>, name: Seq<char>) -> u64
    decreases s.len(),
{
    if s.len() == 0 {
        0
    } else if s.last().0 == name {
        s.last().1.last_seen_mtime
    } else {
        seen_up_to(s.drop_last(), name)
    }
}

pub open spec fn without_entry(
    s: Seq<(Seq<char>, PersistedWatchState)>,
    name: Seq<char>,
) -> Seq<(Seq<char>, PersistedWatchState)>
    decreases s.len(),
{
    if s.len() == 0 {
        seq![]
    } else if s.last().0 == name {
        without_entry(s.drop_last(), name)
    } else {
        without_entry(s.drop_last(), name).push(s.last())
    }
}

/// A watch has ended at `now`: it has one entry, which says so.
pub open spec fn exit_noted(
    s: Seq<(Seq<char>, PersistedWatchState)>,
    name: Seq<char>,
    now: u64,
) -> Seq<(Seq<char>, PersistedWatchState)> {
    without_entry(s, name).push(
        (name, PersistedWatchState { last_seen_mtime: now, last_exit_at: now }),
    )
}

impl PersistedState {
    pub open spec fn view(&self) -> Seq<(Seq<char>, PersistedWatchState)> {
        entries_of(self.watches@)
    }

    /// Up to which modification time the files of a watch were seen.
    pub fn last_seen(&self, name: &str) -> (r: u64)
        ensures
            r == seen_up_to(self@, name@),
    {
        let ghost all = self@;
        let mut i: usize = self.watches.len();
        assert(all.take(i as int) =~= all);
        while i > 0
            invariant
                i <= self.watches@.len(),
                all == entries_of(self.watches@),
                seen_up_to(all, name@) == seen_up_to(all.take(i as int), name@),
            decreases i,
        {
            assert(all.take(i as int).drop_last() =~= all.take(i - 1));
            assert(all.take(i as int).last() == all[i - 1]);
            if text::same(self.watches[i - 1].0.as_str(), name) {
                return self.watches[i - 1].1.last_seen_mtime;
            }
            i = i - 1;
        }
        0
    }

    /// Notes that a watch has ended.
    pub fn note_exit(&mut self, name: &str, now: u64)
        ensures
            final(self)@ == exit_noted(old(self)@, name@, now),
    {
        let ghost all = self@;
        let mut kept: Vec<(String, PersistedWatchState)> = Vec::new();
        let mut i: usize = 0;
        assert(entries_of(kept@) =~= without_entry(all.take(0), name@));
        while i < self.watches.len()
            invariant
                i <= self.watches@.len(),
                all == entries_of(self.watches@),
                entries_of(kept@) == without_entry(all.take(i as int), name@),
            decreases self.watches@.len() - i,
        {
            assert(all.take(i + 1).drop_last() =~= all.take(i as int));
            assert(all.take(i + 1).last() == all[i as int]);
            let ghost before = kept@;
            if !text::same(self.watches[i].0.as_str(), name) {
                let e = (self.watches[i].0.clone(), self.watches[i].1);
                kept.push(e);
                assert(entries_of(kept@) =~= entries_of(before).push(all[i as int]));
            }
            i = i + 1;
        }
        assert(all.take(i as int) =~= all);
        let ghost before = kept@;
        let e = (
            name.to_owned(),
            PersistedWatchState { last_seen_mtime: now, last_exit_at: now },
        );
        kept.push(e);
        assert(entries_of(kept@) =~= entries_of(before).push((e.0@, e.1)));
        self.watches = kept;
    }
}

/// The state where it could be read, else an empty one.
pub fn load_state(read: Option<PersistedState>) -> (r: PersistedState)
    ensures
        match read {
            Some(s) => r == s,
            None => r.watches@.len() == 0,
        },
{
    match read {
        Some(s) => s,
        None => PersistedState::default(),
    }
}

/// Where the state lies.
pub fn state_path(config_dir: Option<&str>) -> (r: Option<String>)
    ensures
        text::opt(r) == config::below(config_dir, "lzsync/watch-state.json"@),
{
    config::place(config_dir, "lzsync/watch-state.json")
}

// ---------------------------------------------------------------------------
// Laws
// ---------------------------------------------------------------------------
pub open spec fn distinct_paths(files: Seq<Listed>) -> bool {
    forall|i: int, j: int|
        0 <= i < j < files.len() ==> (#[trigger] files[i]).0 != (#[trigger] files[j]).0
}

proof fn lemma_known_grows(st: Polled, files: Seq<Listed>, now: u64, debounce: u64)
    ensures
        ({
            let (s, out) = looked(st, files, now, debounce);
            &&& st.known.subset_of(s.known)
            &&& forall|k: int|
                0 <= k < out.len() ==> s.known.contains((#[trigger] out[k]).0)
                    && !st.known.contains(out[k].0)
            &&& distinct_paths(out)
        }),
    decreases files.len(),
{
    if files.len() > 0 {
        lemma_known_grows(st, files.drop_last(), now, debounce);
    }
}

/// A poll announces no file that is done with, none twice, and every file that
/// it announces is done with afterwards; nothing that was done with is forgotten.
/// So no file is ever announced again.
pub proof fn law_announced_at_most_once(
    st: Polled,
    files: Seq<Listed>,
    now: u64,
    debounce: u64,
    k: int,
)
    requires
        0 <= k < polled(st, files, now, debounce).1.len(),
    ensures
        ({
            let (s, out) = polled(st, files, now, debounce);
            &&& !st.known.contains(out[k].0)
            &&& s.known.contains(out[k].0)
            &&& distinct_paths(out)
            &&& st.known.subset_of(s.known)
        }),
{
    lemma_known_grows(without_vanished(st, files), files, now, debounce);
}

proof fn lemma_untouched(st: Polled, files: Seq<Listed>, now: u64, debounce: u64, p: Seq<char>)
    requires
        forall|i: int| 0 <= i < files.len() ==> (#[trigger] files[i]).0 != p,
    ensures
        ({
            let s = looked(st, files, now, debounce).0;
            &&& s.known.contains(p) == st.known.contains(p)
            &&& s.pending.dom().contains(p) == st.pending.dom().contains(p)
            &&& st.pending.dom().contains(p) ==> s.pending[p] == st.pending[p]
        }),
    decreases files.len(),
{
    if files.len() > 0 {
        lemma_untouched(st, files.drop_last(), now, debounce, p);
        assert(files.last().0 != p);
    }
}

/// A poll announces exactly those listed files that were waited for, have kept
/// their size, and have not changed for at least the debounce time.
pub proof fn law_announced_files_have_settled(
    st: Polled,
    files: Seq<Listed>,
    now: u64,
    debounce: u64,
    f: Listed,
)
    requires
        distinct_paths(files),
    ensures
        polled(st, files, now, debounce).1.contains(f) == (files.contains(f) && settled(
            st,
            f,
            now,
            debounce,
        )),
{
    let st0 = without_vanished(st, files);
    lemma_announced(st0, files, now, debounce, f);
    if files.contains(f) {
        let i = choose|i: int| 0 <= i < files.len() && files[i] == f;
        assert(files[i].0 == f.0);
        assert(listed_paths(files).contains(f.0));
    }
}

proof fn lemma_announced(st: Polled, files: Seq<Listed>, now: u64, debounce: u64, f: Listed)
    requires
        distinct_paths(files),
    ensures
        looked(st, files, now, debounce).1.contains(f) == (files.contains(f) && settled(
            st,
            f,
            now,
            debounce,
        )),
    decreases files.len(),
{
    if files.len() > 0 {
        let init = files.drop_last();
        let last = files.last();
        assert forall|i: int, j: int| 0 <= i < j < init.len() implies (#[trigger] init[i]).0 != (
        #[trigger] init[j]).0 by {
            assert(files[i].0 != files[j].0);
        }
        lemma_announced(st, init, now, debounce, f);
        assert forall|i: int| 0 <= i < init.len() implies (#[trigger] init[i]).0 != last.0 by {
            assert(files[i].0 != files[files.len() - 1].0);
        }
        lemma_untouched(st, init, now, debounce, last.0);
        let (s, out) = looked(st, init, now, debounce);
        assert(settled(s, last, now, debounce) == settled(st, last, now, debounce));
        if files.contains(f) {
            let i = choose|i: int| 0 <= i < files.len() && files[i] == f;
            if i < init.len() {
                assert(init[i] == f);
            }
        }
        if init.contains(f) {
            let i = choose|i: int| 0 <= i < init.len() && init[i] == f;
            assert(files[i] == f);
        }
        assert(files[files.len() - 1] == last);
        let all = looked(st, files, now, debounce).1;
        if settled(s, last, now, debounce) {
            assert(all == out.push(last));
            if out.contains(f) {
                let i = choose|i: int| 0 <= i < out.len() && out[i] == f;
                assert(all[i] == f);
            }
            assert(all[out.len() as int] == last);
            if all.contains(f) {
                let i = choose|i: int| 0 <= i < all.len() && all[i] == f;
                if i < out.len() {
                    assert(out[i] == f);
                }
            }
        }
    }
}

/// Files that were there when the watch started are never announced by a poll.
pub proof fn law_baseline_is_never_announced(
    st: Polled,
    files: Seq<Listed>,
    now: u64,
    debounce: u64,
    p: Seq<char>,
    size: u64,
)
    requires
        st.known.contains(p),
    ensures
        !polled(st, files, now, debounce).1.contains((p, size)),
{
    lemma_known_grows(without_vanished(st, files), files, now, debounce);
    let out = polled(st, files, now, debounce).1;
    if out.contains((p, size)) {
        let k = choose|k: int| 0 <= k < out.len() && out[k] == (p, size);
        assert(out[k].0 == p);
    }
}

// ---------------------------------------------------------------------------
// A whole run
// ---------------------------------------------------------------------------
/// What a watch announces over several rounds, up to the one that ends it.
pub open spec fn rounds(
    name: Seq<char>,
    st: Polled,
    ls: Seq<Look>,
    owner: u32,
    debounce: u64,
) -> Seq<WatchEventView>
    decreases ls.len(),
{
    if ls.len() == 0 {
        seq![]
    } else {
        look_events(name, st, ls[0], owner, debounce) + if ends(ls[0], owner) {
            seq![]
        } else {
            rounds(name, after_look(st, ls[0], owner, debounce), ls.drop_first(), owner, debounce)
        }
    }
}

/// What a watch announces from its start on a folder that holds the files `found`.
pub open spec fn whole_run(
    w: WatchView,
    found: Seq<FoundView>,
    last_seen_mtime: u64,
    ls: Seq<Look>,
    owner: u32,
) -> Seq<WatchEventView> {
    catchup_events(w, found, last_seen_mtime) + rounds(
        w.name,
        Polled { known: paths_of(found).to_set(), pending: Map::empty() },
        ls,
        owner,
        w.debounce_ms,
    )
}

/// The watch that an event comes from.
pub open spec fn name_in(e: WatchEventView) -> Seq<char> {
    match e {
        WatchEventView::NewFile { watch_name, .. } => watch_name,
        WatchEventView::CatchupDetected { watch_name, .. } => watch_name,
        WatchEventView::LockLost { watch_name, .. } => watch_name,
        WatchEventView::Stopped { watch_name } => watch_name,
    }
}

/// The file has a name that the watch takes.
pub open spec fn wanted(patterns: Seq<Seq<char>>, path: Seq<char>) -> bool {
    entry_action(EntryKind::File, path, patterns, true) == EntryAction::Take
}

/// The first round that ends the watch.
pub open spec fn first_end(ls: Seq<Look>, owner: u32, k: int) -> bool {
    &&& 0 <= k < ls.len()
    &&& ends(ls[k], owner)
    &&& forall|i: int| 0 <= i < k ==> !ends(#[trigger] ls[i], owner)
}

/// No two events announce the same file.
pub open spec fn each_file_once(es: Seq<WatchEventView>) -> bool {
    forall|i: int, j: int|
        0 <= i < j < es.len() && (#[trigger] es[i]) is NewFile && (#[trigger] es[j]) is NewFile
            ==> es[i]->NewFile_path != es[j]->NewFile_path
}

proof fn lemma_looked_listed(st: Polled, files: Seq<Listed>, now: u64, debounce: u64, k: int)
    requires
        0 <= k < looked(st, files, now, debounce).1.len(),
    ensures
        files.contains(looked(st, files, now, debounce).1[k]),
    decreases files.len(),
{
    if files.len() > 0 {
        let init = files.drop_last();
        let out = looked(st, init, now, debounce).1;
        let f = looked(st, files, now, debounce).1[k];
        if k < out.len() {
            lemma_looked_listed(st, init, now, debounce, k);
            let i = choose|i: int| 0 <= i < init.len() && init[i] == f;
            assert(files[i] == f);
        } else {
            assert(files[files.len() - 1] == f);
        }
    }
}

proof fn lemma_rounds(
    name: Seq<char>,
    st: Polled,
    ls: Seq<Look>,
    owner: u32,
    debounce: u64,
    patterns: Seq<Seq<char>>,
)
    requires
        forall|r: int, i: int|
            0 <= r < ls.len() && !ls[r].stop && 0 <= i < ls[r].files.len() ==> wanted(
                patterns,
                (#[trigger] ls[r].files[i]).0,
            ),
    ensures
        ({
            let es = rounds(name, st, ls, owner, debounce);
            &&& each_file_once(es)
            &&& forall|i: int|
                0 <= i < es.len() ==> name_in(#[trigger] es[i]) == name && (es[i] is NewFile
                    ==> !st.known.contains(es[i]->NewFile_path) && wanted(
                    patterns,
                    es[i]->NewFile_path,
                ))
        }),
    decreases ls.len(),
{
    if ls.len() > 0 {
        let l = ls[0];
        let es = rounds(name, st, ls, owner, debounce);
        let now = look_events(name, st, l, owner, debounce);
        if !ends(l, owner) {
            let next = after_look(st, l, owner, debounce);
            let later = rounds(name, next, ls.drop_first(), owner, debounce);
            assert forall|r: int, i: int|
                0 <= r < ls.drop_first().len() && !ls.drop_first()[r].stop && 0 <= i
                    < ls.drop_first()[r].files.len() implies wanted(
                patterns,
                (#[trigger] ls.drop_first()[r].files[i]).0,
            ) by {
                assert(wanted(patterns, ls[r + 1].files[i].0));
            }
            lemma_rounds(name, next, ls.drop_first(), owner, debounce, patterns);
            let st0 = without_vanished(st, l.files);
            lemma_known_grows(st0, l.files, l.now, debounce);
            let out = polled(st, l.files, l.now, debounce).1;
            assert forall|i: int| 0 <= i < out.len() implies wanted(patterns, (#[trigger] out[i]).0) by {
                lemma_looked_listed(st0, l.files, l.now, debounce, i);
                let k = choose|k: int| 0 <= k < l.files.len() && l.files[k] == out[i];
                assert(wanted(patterns, ls[0].files[k].0));
            }
            assert(es == now + later);
            assert forall|i: int| 0 <= i < es.len() implies name_in(#[trigger] es[i]) == name && (
            es[i] is NewFile ==> !st.known.contains(es[i]->NewFile_path) && wanted(
                patterns,
                es[i]->NewFile_path,
            )) by {
                if i < now.len() {
                    assert(es[i] == now[i]);
                    assert(!st.known.contains(out[i].0));
                    assert(wanted(patterns, out[i].0));
                } else {
                    assert(es[i] == later[i - now.len()]);
                }
            }
            assert forall|i: int, j: int|
                0 <= i < j < es.len() && (#[trigger] es[i]) is NewFile && (
                #[trigger] es[j]) is NewFile implies es[i]->NewFile_path != es[j]->NewFile_path by {
                if j < now.len() {
                    assert(es[i] == now[i] && es[j] == now[j]);
                    assert(out[i].0 != out[j].0);
                } else if i < now.len() {
                    assert(es[i] == now[i] && es[j] == later[j - now.len()]);
                    assert(next.known.contains(out[i].0));
                } else {
                    assert(es[i] == later[i - now.len()] && es[j] == later[j - now.len()]);
                }
            }
        } else {
            assert(es =~= now);
        }
    }
}

proof fn lemma_rounds_end(
    name: Seq<char>,
    st: Polled,
    ls: Seq<Look>,
    owner: u32,
    debounce: u64,
    k: int,
)
    requires
        first_end(ls, owner, k),
    ensures
        ({
            let es = rounds(name, st, ls, owner, debounce);
            &&& es.len() > 0
            &&& es.last() == look_events(name, st, ls[k], owner, debounce)[0]
            &&& forall|i: int| 0 <= i < es.len() - 1 ==> (#[trigger] es[i]) is NewFile
        }),
    decreases ls.len(),
{
    let l = ls[0];
    let es = rounds(name, st, ls, owner, debounce);
    let now = look_events(name, st, l, owner, debounce);
    if k == 0 {
        assert(es =~= now);
    } else {
        assert(!ends(ls[0], owner));
        let next = after_look(st, l, owner, debounce);
        let rest = ls.drop_first();
        let later = rounds(name, next, rest, owner, debounce);
        assert forall|i: int| 0 <= i < k - 1 implies !ends(#[trigger] rest[i], owner) by {
            assert(!ends(ls[i + 1], owner));
        }
        lemma_rounds_end(name, next, rest, owner, debounce, k - 1);
        assert(es == now + later);
        assert(es.last() == later.last());
        assert forall|i: int| 0 <= i < es.len() - 1 implies (#[trigger] es[i]) is NewFile by {
            if i < now.len() {
                assert(es[i] == now[i]);
            } else {
                assert(es[i] == later[i - now.len()]);
            }
        }
    }
}

proof fn lemma_newer_found(files: Seq<FoundView>, threshold: u64, k: int)
    requires
        0 <= k < split_by_mtime(files, threshold, true).len(),
    ensures
        exists|i: int|
            0 <= i < files.len() && #[trigger] files[i] == split_by_mtime(files, threshold, true)[k],
    decreases files.len(),
{
    if files.len() > 0 {
        let init = files.drop_last();
        let before = split_by_mtime(init, threshold, true);
        let f = split_by_mtime(files, threshold, true)[k];
        if k < before.len() {
            lemma_newer_found(init, threshold, k);
            let i = choose|i: int| 0 <= i < init.len() && #[trigger] init[i] == before[k];
            assert(files[i] == f);
        } else {
            assert(files[files.len() - 1] == f);
        }
    }
}

/// The files that are found have different paths.
pub open spec fn distinct_found(files: Seq<FoundView>) -> bool {
    forall|i: int, j: int|
        0 <= i < j < files.len() ==> (#[trigger] files[i]).path != (#[trigger] files[j]).path
}

proof fn lemma_newer_distinct(files: Seq<FoundView>, threshold: u64)
    requires
        distinct_found(files),
    ensures
        distinct_found(split_by_mtime(files, threshold, true)),
    decreases files.len(),
{
    if files.len() > 0 {
        let init = files.drop_last();
        assert forall|i: int, j: int| 0 <= i < j < init.len() implies (#[trigger] init[i]).path != (
        #[trigger] init[j]).path by {
            assert(files[i].path != files[j].path);
        }
        lemma_newer_distinct(init, threshold);
        let before = split_by_mtime(init, threshold, true);
        let all = split_by_mtime(files, threshold, true);
        assert forall|i: int, j: int| 0 <= i < j < all.len() implies (#[trigger] all[i]).path != (
        #[trigger] all[j]).path by {
            if j < before.len() {
                assert(before[i].path != before[j].path);
            } else {
                lemma_newer_found(init, threshold, i);
                let k = choose|k: int| 0 <= k < init.len() && #[trigger] init[k] == before[i];
                assert(files[k].path != files[files.len() - 1].path);
            }
        }
    }
}

proof fn lemma_taken_fits(e: FolderEntry, patterns: Seq<Seq<char>>, recursive: bool, i: int)
    requires
        0 <= i < taken(e, patterns, recursive).len(),
    ensures
        wanted(patterns, taken(e, patterns, recursive)[i].path),
    decreases e,
{
    if entry_action(e.kind, e.file.path@, patterns, recursive) == EntryAction::Descend {
        lemma_all_taken_fit(e.within@, patterns, recursive, i);
    }
}

proof fn lemma_all_taken_fit(
    entries: Seq<FolderEntry>,
    patterns: Seq<Seq<char>>,
    recursive: bool,
    i: int,
)
    requires
        0 <= i < all_taken(entries, patterns, recursive).len(),
    ensures
        wanted(patterns, all_taken(entries, patterns, recursive)[i].path),
    decreases entries,
{
    if entries.len() > 0 {
        let before = all_taken(entries.drop_last(), patterns, recursive);
        if i < before.len() {
            lemma_all_taken_fit(entries.drop_last(), patterns, recursive, i);
        } else {
            lemma_taken_fits(entries[entries.len() - 1], patterns, recursive, i - before.len());
        }
    }
}

/// The paths and sizes of files.
pub open spec fn sizes_of(files: Seq<FoundView>) -> Seq<Listed> {
    Seq::new(files.len(), |i: int| (files[i].path, files[i].size))
}

/// Whether the watch finds, each time it looks, what it takes from its folder as it
/// is then.
pub open spec fn looks_at(w: WatchView, folders: Seq<Seq<FolderEntry>>, ls: Seq<Look>) -> bool {
    &&& folders.len() == ls.len()
    &&& forall|r: int|
        0 <= r < ls.len() && !(#[trigger] ls[r]).stop ==> ls[r].files == sizes_of(
            all_taken(folders[r], w.patterns, w.recursive),
        )
}

/// Over a whole run that ends because it is told to stop, whatever the folder holds
/// meanwhile, no file is announced twice, whether it was there at the start or came
/// later; every file that is announced has a name that the watch takes; every event
/// carries the watch's name; and the last event is `Stopped`, which comes only
/// there. A folder holds each path once.
pub proof fn law_a_whole_run(
    w: WatchView,
    start: Seq<FolderEntry>,
    last_seen_mtime: u64,
    folders: Seq<Seq<FolderEntry>>,
    ls: Seq<Look>,
    owner: u32,
    k: int,
)
    requires
        distinct_found(all_taken(start, w.patterns, w.recursive)),
        looks_at(w, folders, ls),
        first_end(ls, owner, k),
        ls[k].stop,
    ensures
        ({
            let found = all_taken(start, w.patterns, w.recursive);
            let es = whole_run(w, found, last_seen_mtime, ls, owner);
            &&& each_file_once(es)
            &&& forall|i: int|
                0 <= i < es.len() ==> name_in(#[trigger] es[i]) == w.name && (es[i] is NewFile
                    ==> wanted(w.patterns, es[i]->NewFile_path))
            &&& es.len() > 0
            &&& es.last() == (WatchEventView::Stopped { watch_name: w.name })
            &&& forall|i: int|
                0 <= i < es.len() - 1 ==> !((#[trigger] es[i]) is Stopped) && !(es[i] is LockLost)
        }),
{
    let found = all_taken(start, w.patterns, w.recursive);
    law_a_run_announces_each_file_once(w, start, last_seen_mtime, folders, ls, owner);
    law_a_stopped_run_says_so_last(w, found, last_seen_mtime, ls, owner, k);
}

/// Over a run, however it ends or whether it goes on, no file is announced twice,
/// every file that is announced has a name that the watch takes, and every event
/// carries the watch's name. A folder holds each path once.
pub proof fn law_a_run_announces_each_file_once(
    w: WatchView,
    start: Seq<FolderEntry>,
    last_seen_mtime: u64,
    folders: Seq<Seq<FolderEntry>>,
    ls: Seq<Look>,
    owner: u32,
)
    requires
        distinct_found(all_taken(start, w.patterns, w.recursive)),
        looks_at(w, folders, ls),
    ensures
        ({
            let found = all_taken(start, w.patterns, w.recursive);
            let es = whole_run(w, found, last_seen_mtime, ls, owner);
            &&& each_file_once(es)
            &&& forall|i: int|
                0 <= i < es.len() ==> name_in(#[trigger] es[i]) == w.name && (es[i] is NewFile
                    ==> wanted(w.patterns, es[i]->NewFile_path))
        }),
{
    let found = all_taken(start, w.patterns, w.recursive);
    assert forall|i: int| 0 <= i < found.len() implies wanted(
        w.patterns,
        (#[trigger] found[i]).path,
    ) by {
        lemma_all_taken_fit(start, w.patterns, w.recursive, i);
    }
    assert forall|r: int, i: int|
        0 <= r < ls.len() && !ls[r].stop && 0 <= i < ls[r].files.len() implies wanted(
        w.patterns,
        (#[trigger] ls[r].files[i]).0,
    ) by {
        assert(!ls[r].stop);
        lemma_all_taken_fit(folders[r], w.patterns, w.recursive, i);
    }
    let es = whole_run(w, found, last_seen_mtime, ls, owner);
    let first = catchup_events(w, found, last_seen_mtime);
    let st = Polled { known: paths_of(found).to_set(), pending: Map::empty() };
    let later = rounds(w.name, st, ls, owner, w.debounce_ms);
    let newer = split_by_mtime(found, last_seen_mtime, true);
    lemma_rounds(w.name, st, ls, owner, w.debounce_ms, w.patterns);
    lemma_newer_distinct(found, last_seen_mtime);
    assert(es == first + later);
    assert forall|k: int| 0 <= k < newer.len() implies st.known.contains(
        (#[trigger] newer[k]).path,
    ) && wanted(w.patterns, newer[k].path) by {
        lemma_newer_found(found, last_seen_mtime, k);
        let i = choose|i: int| 0 <= i < found.len() && #[trigger] found[i] == newer[k];
        assert(paths_of(found)[i] == newer[k].path);
    }
    assert forall|i: int| 0 <= i < es.len() implies name_in(#[trigger] es[i]) == w.name && (
    es[i] is NewFile ==> wanted(w.patterns, es[i]->NewFile_path)) by {
        if i < first.len() {
            assert(es[i] == first[i]);
            if w.catchup == CatchupMode::Auto {
                assert(wanted(w.patterns, newer[i].path));
            }
        } else {
            assert(es[i] == later[i - first.len()]);
        }
    }
    assert forall|i: int, j: int|
        0 <= i < j < es.len() && (#[trigger] es[i]) is NewFile && (
        #[trigger] es[j]) is NewFile implies es[i]->NewFile_path != es[j]->NewFile_path by {
        if j < first.len() {
            assert(es[i] == first[i] && es[j] == first[j]);
            assert(newer[i].path != newer[j].path);
        } else if i < first.len() {
            assert(es[i] == first[i] && es[j] == later[j - first.len()]);
            assert(st.known.contains(newer[i].path));
        } else {
            assert(es[i] == later[i - first.len()] && es[j] == later[j - first.len()]);
        }
    }
}

/// A run that is ended by telling it to stop ends with `Stopped`, which comes only
/// there.
pub proof fn law_a_stopped_run_says_so_last(
    w: WatchView,
    found: Seq<FoundView>,
    last_seen_mtime: u64,
    ls: Seq<Look>,
    owner: u32,
    k: int,
)
    requires
        first_end(ls, owner, k),
        ls[k].stop,
    ensures
        ({
            let es = whole_run(w, found, last_seen_mtime, ls, owner);
            &&& es.len() > 0
            &&& es.last() == (WatchEventView::Stopped { watch_name: w.name })
            &&& forall|i: int|
                0 <= i < es.len() - 1 ==> !((#[trigger] es[i]) is Stopped) && !(es[i] is LockLost)
        }),
{
    let es = whole_run(w, found, last_seen_mtime, ls, owner);
    let first = catchup_events(w, found, last_seen_mtime);
    let st = Polled { known: paths_of(found).to_set(), pending: Map::empty() };
    let later = rounds(w.name, st, ls, owner, w.debounce_ms);
    lemma_rounds_end(w.name, st, ls, owner, w.debounce_ms, k);
    assert(es.last() == later.last());
    assert forall|i: int| 0 <= i < es.len() - 1 implies !((#[trigger] es[i]) is Stopped) && !(
    es[i] is LockLost) by {
        if i < first.len() {
            assert(es[i] == first[i]);
        } else {
            assert(es[i] == later[i - first.len()]);
        }
    }
}

/// A watch whose lock file is found gone or rewritten by another process says so
/// and has ended: it announces nothing after it.
pub proof fn law_a_lost_lock_ends_the_run(
    w: WatchView,
    found: Seq<FoundView>,
    last_seen_mtime: u64,
    ls: Seq<Look>,
    owner: u32,
    k: int,
)
    requires
        first_end(ls, owner, k),
        !ls[k].stop,
    ensures
        ({
            let es = whole_run(w, found, last_seen_mtime, ls, owner);
            &&& es.len() > 0
            &&& es.last() == (WatchEventView::LockLost {
                watch_name: w.name,
                reason: lock::loss(ls[k].lock, owner)->Some_0,
            })
            &&& forall|i: int|
                0 <= i < es.len() - 1 ==> !((#[trigger] es[i]) is Stopped) && !(es[i] is LockLost)
        }),
{
    let es = whole_run(w, found, last_seen_mtime, ls, owner);
    let first = catchup_events(w, found, last_seen_mtime);
    let st = Polled { known: paths_of(found).to_set(), pending: Map::empty() };
    let later = rounds(w.name, st, ls, owner, w.debounce_ms);
    lemma_rounds_end(w.name, st, ls, owner, w.debounce_ms, k);
    assert(es.last() == later.last());
    assert forall|i: int| 0 <= i < es.len() - 1 implies !((#[trigger] es[i]) is Stopped) && !(
    es[i] is LockLost) by {
        if i < first.len() {
            assert(es[i] == first[i]);
        } else {
            assert(es[i] == later[i - first.len()]);
        }
    }
}

// ---------------------------------------------------------------------------
// Catching up
// ---------------------------------------------------------------------------
proof fn lemma_newer_kept(files: Seq<FoundView>, threshold: u64, i: int)
    requires
        0 <= i < files.len(),
        files[i].mtime > threshold,
    ensures
        split_by_mtime(files, threshold, true).contains(files[i]),
    decreases files.len(),
{
    let init = files.drop_last();
    let before = split_by_mtime(init, threshold, true);
    let all = split_by_mtime(files, threshold, true);
    if i < init.len() {
        lemma_newer_kept(init, threshold, i);
        assert(init[i] == files[i]);
        let k = choose|k: int| 0 <= k < before.len() && before[k] == files[i];
        assert(all[k] == files[i]);
    } else {
        assert(all[all.len() - 1] == files[i]);
    }
}

proof fn lemma_newer_is_newer(files: Seq<FoundView>, threshold: u64, k: int)
    requires
        0 <= k < split_by_mtime(files, threshold, true).len(),
    ensures
        split_by_mtime(files, threshold, true)[k].mtime > threshold,
    decreases files.len(),
{
    if files.len() > 0 {
        let before = split_by_mtime(files.drop_last(), threshold, true);
        if k < before.len() {
            lemma_newer_is_newer(files.drop_last(), threshold, k);
        }
    }
}

/// Some found file has the path and was modified after the watch was last seen.
pub open spec fn added_meanwhile(
    files: Seq<FoundView>,
    last_seen_mtime: u64,
    path: Seq<char>,
) -> bool {
    exists|i: int|
        0 <= i < files.len() && (#[trigger] files[i]).path == path && files[i].mtime
            > last_seen_mtime
}

/// A watch that asks first reports, when it starts, exactly the files that were
/// modified after it was last seen: all in one event, and none where there is no such
/// file.
pub proof fn law_prompting_lists_what_was_added(
    w: WatchView,
    files: Seq<FoundView>,
    last_seen_mtime: u64,
    path: Seq<char>,
)
    requires
        w.catchup == CatchupMode::Prompt,
    ensures
        ({
            let es = catchup_events(w, files, last_seen_mtime);
            &&& es.len() <= 1
            &&& es.len() == 1 ==> es[0] is CatchupDetected && es[0]->CatchupDetected_watch_name
                == w.name && es[0]->CatchupDetected_paths.len() > 0
            &&& (es.len() == 1 && es[0]->CatchupDetected_paths.contains(path)) <==> added_meanwhile(
                files,
                last_seen_mtime,
                path,
            )
        }),
{
    let es = catchup_events(w, files, last_seen_mtime);
    let newer = split_by_mtime(files, last_seen_mtime, true);
    if added_meanwhile(files, last_seen_mtime, path) {
        let i = choose|i: int|
            0 <= i < files.len() && (#[trigger] files[i]).path == path && files[i].mtime
                > last_seen_mtime;
        lemma_newer_kept(files, last_seen_mtime, i);
        let k = choose|k: int| 0 <= k < newer.len() && newer[k] == files[i];
        assert(paths_of(newer)[k] == path);
    }
    if es.len() == 1 && es[0]->CatchupDetected_paths.contains(path) {
        let k = choose|k: int| 0 <= k < paths_of(newer).len() && paths_of(newer)[k] == path;
        lemma_newer_found(files, last_seen_mtime, k);
        lemma_newer_is_newer(files, last_seen_mtime, k);
        let i = choose|i: int| 0 <= i < files.len() && #[trigger] files[i] == newer[k];
        assert(files[i].path == path);
    }
}

/// A watch that catches up by itself announces, when it starts, exactly the files that
/// were modified after it was last seen, with their sizes and under its name.
pub proof fn law_catching_up_announces_what_was_added(
    w: WatchView,
    files: Seq<FoundView>,
    last_seen_mtime: u64,
    f: FoundView,
)
    requires
        w.catchup == CatchupMode::Auto,
    ensures
        files.contains(f) && f.mtime > last_seen_mtime ==> catchup_events(
            w,
            files,
            last_seen_mtime,
        ).contains(
            WatchEventView::NewFile { watch_name: w.name, path: f.path, size: f.size },
        ),
        forall|k: int|
            0 <= k < catchup_events(w, files, last_seen_mtime).len() ==> exists|i: int|
                0 <= i < files.len() && (#[trigger] files[i]).mtime > last_seen_mtime && (
                #[trigger] catchup_events(w, files, last_seen_mtime)[k])
                    == (WatchEventView::NewFile {
                    watch_name: w.name,
                    path: files[i].path,
                    size: files[i].size,
                }),
{
    let es = catchup_events(w, files, last_seen_mtime);
    let newer = split_by_mtime(files, last_seen_mtime, true);
    if files.contains(f) && f.mtime > last_seen_mtime {
        let i = choose|i: int| 0 <= i < files.len() && files[i] == f;
        lemma_newer_kept(files, last_seen_mtime, i);
        let k = choose|k: int| 0 <= k < newer.len() && newer[k] == f;
        assert(es[k] == (WatchEventView::NewFile {
            watch_name: w.name,
            path: f.path,
            size: f.size,
        }));
    }
    assert forall|k: int| 0 <= k < es.len() implies exists|i: int|
        0 <= i < files.len() && (#[trigger] files[i]).mtime > last_seen_mtime && (#[trigger] es[k])
            == (WatchEventView::NewFile {
            watch_name: w.name,
            path: files[i].path,
            size: files[i].size,
        }) by {
        lemma_newer_found(files, last_seen_mtime, k);
        lemma_newer_is_newer(files, last_seen_mtime, k);
        let i = choose|i: int| 0 <= i < files.len() && #[trigger] files[i] == newer[k];
        assert(files[i].mtime > last_seen_mtime);
    }
}

/// A watch that ignores what is there announces nothing of it; and in no mode is a
/// file that was not modified after the watch was last seen announced at the start.
pub proof fn law_old_files_are_left_alone(
    w: WatchView,
    files: Seq<FoundView>,
    last_seen_mtime: u64,
)
    requires
        w.catchup == CatchupMode::Ignore || (forall|i: int|
            0 <= i < files.len() ==> (#[trigger] files[i]).mtime <= last_seen_mtime),
    ensures
        catchup_events(w, files, last_seen_mtime).len() == 0,
{
    let newer = split_by_mtime(files, last_seen_mtime, true);
    if w.catchup != CatchupMode::Ignore && newer.len() > 0 {
        lemma_newer_found(files, last_seen_mtime, 0);
        lemma_newer_is_newer(files, last_seen_mtime, 0);
        let i = choose|i: int| 0 <= i < files.len() && #[trigger] files[i] == newer[0];
        assert(files[i].mtime <= last_seen_mtime);
    }
}

/// A file that is there with the same size each time the watch looks is announced
/// once the debounce time has passed since it was first seen, unless it was there at
/// the start; a file whose size changes is not announced before it has kept its size
/// for that long.
pub proof fn law_a_settled_file_is_announced(
    st: Polled,
    f: Listed,
    first: u64,
    again: u64,
    debounce: u64,
)
    requires
        !st.known.contains(f.0),
        !st.pending.dom().contains(f.0),
        first <= again,
    ensures
        ({
            let (one, early) = polled(st, seq![f], first, debounce);
            let (two, late) = polled(one, seq![f], again, debounce);
            &&& early.len() == 0
            &&& again - first >= debounce ==> late == seq![f]
            &&& again - first < debounce ==> late.len() == 0
            &&& forall|other: u64|
                other != f.1 ==> (#[trigger] polled(one, seq![(f.0, other)], again, debounce)).1.len()
                    == 0
        }),
{
    let l = seq![f];
    assert(l[0].0 == f.0);
    assert(listed_paths(l).contains(f.0));
    assert(l.drop_last() =~= seq![]);
    let st0 = without_vanished(st, l);
    assert(looked(st0, l.drop_last(), first, debounce) == (st0, Seq::<Listed>::empty()));
    assert(l.last() == f);
    let one = polled(st, l, first, debounce).0;
    assert(one.pending[f.0] == (first, f.1));
    let one0 = without_vanished(one, l);
    assert(looked(one0, l.drop_last(), again, debounce) == (one0, Seq::<Listed>::empty()));
    assert(Seq::<Listed>::empty().push(f) =~= seq![f]);
    assert forall|other: u64| other != f.1 implies (#[trigger] polled(
        one,
        seq![(f.0, other)],
        again,
        debounce,
    )).1.len() == 0 by {
        let m = seq![(f.0, other)];
        assert(m[0].0 == f.0);
        assert(listed_paths(m).contains(f.0));
        assert(m.drop_last() =~= seq![]);
        let s0 = without_vanished(one, m);
        assert(looked(s0, m.drop_last(), again, debounce) == (s0, Seq::<Listed>::empty()));
        assert(m.last() == (f.0, other));
    }
}

/// A folder's own files are taken where a pattern fits their name; those of folders
/// below it only by a recursive watch, which takes them all the same.
pub proof fn law_what_a_watch_takes(
    path: Seq<char>,
    name: Seq<char>,
    dir: Seq<char>,
    patterns: Seq<Seq<char>>,
)
    requires
        paths::base_name(path) == Some(name),
    ensures
        forall|recursive: bool| #[trigger]
            entry_action(EntryKind::File, path, patterns, recursive) == (if fits(patterns, name) {
                EntryAction::Take
            } else {
                EntryAction::Skip
            }),
        entry_action(EntryKind::Directory, dir, patterns, true) == EntryAction::Descend,
        entry_action(EntryKind::Directory, dir, patterns, false) == EntryAction::Skip,
        forall|recursive: bool| #[trigger]
            entry_action(EntryKind::Other, path, patterns, recursive) == EntryAction::Skip,
{
}

/// The path is that of a regular file which lies in the tree, below directories only.
pub open spec fn lies_in(entries: Seq<FolderEntry>, f: FoundView) -> bool
    decreases entries,
{
    entries.len() > 0 && (lies_in(entries.drop_last(), f) || lies_at(
        entries[entries.len() - 1],
        f,
    ))
}

pub open spec fn lies_at(e: FolderEntry, f: FoundView) -> bool
    decreases e,
{
    match e.kind {
        EntryKind::File => e.file@ == f,
        EntryKind::Directory => lies_in(e.within@, f),
        EntryKind::Other => false,
    }
}

proof fn lemma_taken_lies(e: FolderEntry, patterns: Seq<Seq<char>>, f: FoundView)
    ensures
        taken(e, patterns, true).contains(f) == (lies_at(e, f) && wanted(patterns, f.path)),
    decreases e,
{
    match e.kind {
        EntryKind::File => {
            let t = taken(e, patterns, true);
            if wanted(patterns, e.file.path@) {
                assert(t[0] == e.file@);
            }
        },
        EntryKind::Directory => lemma_all_taken_lie(e.within@, patterns, f),
        EntryKind::Other => {},
    }
}

proof fn lemma_all_taken_lie(entries: Seq<FolderEntry>, patterns: Seq<Seq<char>>, f: FoundView)
    ensures
        all_taken(entries, patterns, true).contains(f) == (lies_in(entries, f) && wanted(
            patterns,
            f.path,
        )),
    decreases entries,
{
    let all = all_taken(entries, patterns, true);
    if entries.len() > 0 {
        let init = entries.drop_last();
        let last = entries[entries.len() - 1];
        let before = all_taken(init, patterns, true);
        let more = taken(last, patterns, true);
        lemma_all_taken_lie(init, patterns, f);
        lemma_taken_lies(last, patterns, f);
        assert(all == before + more);
        if all.contains(f) {
            let k = choose|k: int| 0 <= k < all.len() && all[k] == f;
            if k < before.len() {
                assert(before[k] == f);
            } else {
                assert(more[k - before.len()] == f);
            }
        }
        if before.contains(f) {
            let k = choose|k: int| 0 <= k < before.len() && before[k] == f;
            assert(all[k] == f);
        }
        if more.contains(f) {
            let k = choose|k: int| 0 <= k < more.len() && more[k] == f;
            assert(all[before.len() + k] == f);
        }
    }
}

/// A recursive watch takes exactly the regular files that lie anywhere below its
/// folder and whose name fits a pattern.
pub proof fn law_a_recursive_watch_takes_all_below(
    entries: Seq<FolderEntry>,
    patterns: Seq<Seq<char>>,
    f: FoundView,
)
    ensures
        all_taken(entries, patterns, true).contains(f) <==> lies_in(entries, f) && (
        paths::base_name(f.path) is Some && fits(patterns, paths::base_name(f.path)->Some_0)),
{
    lemma_all_taken_lie(entries, patterns, f);
}

// ---------------------------------------------------------------------------
// Patterns and remembered exits
// ---------------------------------------------------------------------------
/// The case of ASCII letters matters neither in the patterns nor in the name,
/// whatever other letters there are.
pub proof fn law_ascii_case_does_not_matter(
    ps: Seq<Seq<char>>,
    qs: Seq<Seq<char>>,
    f: Seq<char>,
    g: Seq<char>,
)
    requires
        ps.len() == qs.len(),
        forall|i: int| 0 <= i < ps.len() ==> text::same_but_case(#[trigger] ps[i], qs[i]),
        text::same_but_case(f, g),
    ensures
        fits(ps, f) == fits(qs, g),
        fits(ps, text::ascii_uppercase(f)) == fits(ps, text::ascii_lowercase(f)),
{
    text::lemma_case_changes(f);
    let m = |p: Seq<char>| glob::matches(outside::caseless(p), outside::caseless(f), '*', '?');
    assert forall|i: int| 0 <= i < ps.len() implies m(#[trigger] ps[i]) == m(qs[i]) by {
        assert(text::same_but_case(ps[i], qs[i]));
    }
    if ps.len() > 0 && fits(ps, f) {
        let i = choose|i: int| 0 <= i < ps.len() && m(#[trigger] ps[i]);
        assert(m(ps[i]));
        assert(m(qs[i]));
    }
    if ps.len() > 0 && fits(qs, g) {
        let i = choose|i: int| 0 <= i < qs.len() && m(#[trigger] qs[i]);
        assert(m(ps[i]));
    }
}

/// Another pattern beside others never makes a name unfit, and neither the order
/// of the patterns nor their repetition matters. No patterns fit every name.
pub proof fn law_patterns_are_alternatives(
    ps: Seq<Seq<char>>,
    qs: Seq<Seq<char>>,
    p: Seq<char>,
    f: Seq<char>,
)
    ensures
        ps.len() == 0 ==> fits(ps, f),
        ps.len() > 0 && fits(ps, f) ==> fits(ps.push(p), f),
        ps.to_set() == qs.to_set() ==> fits(ps, f) == fits(qs, f),
{
    let m = |p: Seq<char>| glob::matches(outside::caseless(p), outside::caseless(f), '*', '?');
    if ps.len() > 0 && fits(ps, f) {
        let i = choose|i: int| 0 <= i < ps.len() && m(#[trigger] ps[i]);
        assert(m(ps[i]));
        assert(ps.push(p)[i] == ps[i]);
    }
    if ps.to_set() == qs.to_set() {
        if fits(ps, f) {
            lemma_fits_subset(ps, qs, f);
        }
        if fits(qs, f) {
            lemma_fits_subset(qs, ps, f);
        }
    }
}

proof fn lemma_fits_subset(ps: Seq<Seq<char>>, qs: Seq<Seq<char>>, f: Seq<char>)
    requires
        ps.to_set() == qs.to_set(),
        fits(ps, f),
    ensures
        fits(qs, f),
{
    let m = |p: Seq<char>| glob::matches(outside::caseless(p), outside::caseless(f), '*', '?');
    if ps.len() == 0 {
        if qs.len() > 0 {
            assert(qs.to_set().contains(qs[0]));
            assert(ps.contains(qs[0]));
        }
    } else {
        let i = choose|i: int| 0 <= i < ps.len() && m(#[trigger] ps[i]);
        assert(m(ps[i]));
        assert(ps.to_set().contains(ps[i]));
        let j = choose|j: int| 0 <= j < qs.len() && qs[j] == ps[i];
        assert(m(qs[j]));
    }
}

proof fn lemma_seen_without(
    s: Seq<(Seq<char>, PersistedWatchState)>,
    name: Seq<char>,
    other: Seq<char>,
)
    requires
        other != name,
    ensures
        seen_up_to(without_entry(s, name), other) == seen_up_to(s, other),
    decreases s.len(),
{
    if s.len() > 0 {
        lemma_seen_without(s.drop_last(), name, other);
        let w = without_entry(s.drop_last(), name);
        assert(w.push(s.last()).drop_last() =~= w);
    }
}

/// A noted exit is what the next start goes by, and says nothing of other watches.
pub proof fn law_noted_exits_are_remembered(
    s: Seq<(Seq<char>, PersistedWatchState)>,
    name: Seq<char>,
    now: u64,
    other: Seq<char>,
)
    ensures
        seen_up_to(exit_noted(s, name, now), name) == now,
        other != name ==> seen_up_to(exit_noted(s, name, now), other) == seen_up_to(s, other),
{
    let w = without_entry(s, name);
    assert(exit_noted(s, name, now).drop_last() =~= w);
    if other != name {
        lemma_seen_without(s, name, other);
    }
}

} // verus!
