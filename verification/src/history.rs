//! The record of what was sent where.
use vstd::prelude::*;

use crate::config;
use crate::outside;
use crate::paths;
use crate::text;
use crate::watch;

verus! {

/// One transfer of one local file to one remote host. Records are keyed by
/// (local_path, target_name) — re-syncing the same file to the same host
/// updates the in-memory entry and appends a fresh line to the per-host
/// JSONL so readers of the file see the latest state on load.
#[derive(Debug)]
pub struct HistoryEntry {
    pub local_path: String,
    pub local_name: String,
    pub size: u64,
    pub target_name: String,
    pub target_host: String,
    pub remote_path: String,
    /// Unix epoch seconds.
    pub synced_at: u64,
    pub status: HistoryStatus,
    /// The watch that sent the file, where one did.
    pub source_watch: Option<String>,
}

#[derive(Debug, Clone, Copy, PartialEq, Eq, Structural)]
pub enum HistoryStatus {
    Completed,
    Failed,
}

pub ghost struct EntryView {
    pub local_path: Seq<char>,
    pub local_name: Seq<char>,
    pub size: u64,
    pub target_name: Seq<char>,
    pub target_host: Seq<char>,
    pub remote_path: Seq<char>,
    pub synced_at: u64,
    pub status: HistoryStatus,
    pub source_watch: Option<Seq<char>>,
}

impl View for HistoryEntry {
    type V = EntryView;

    open spec fn view(&self) -> EntryView {
        EntryView {
            local_path: self.local_path@,
            local_name: self.local_name@,
            size: self.size,
            target_name: self.target_name@,
            target_host: self.target_host@,
            remote_path: self.remote_path@,
            synced_at: self.synced_at,
            status: self.status,
            source_watch: text::opt(self.source_watch),
        }
    }
}

impl Clone for HistoryEntry {
    fn clone(&self) -> (r: Self)
        ensures
            r == *self,
    {
        HistoryEntry {
            local_path: self.local_path.clone(),
            local_name: self.local_name.clone(),
            size: self.size,
            target_name: self.target_name.clone(),
            target_host: self.target_host.clone(),
            remote_path: self.remote_path.clone(),
            synced_at: self.synced_at,
            status: self.status,
            source_watch: text::clone_opt(&self.source_watch),
        }
    }
}

/// The entries in memory, newest first, and the directory of their files.
#[derive(Debug)]
pub struct HistoryStore {
    pub entries: Vec<HistoryEntry>,
    pub base: String,
}

// ---------------------------------------------------------------------------
// Keys
// ---------------------------------------------------------------------------
/// Whether two records are about the same file on the same target.
pub open spec fn same_key(a: EntryView, b: EntryView) -> bool {
    a.local_path == b.local_path && a.target_name == b.target_name
}

/// Where the first record with the key of `e` stands; past the end where there
/// is none.
pub open spec fn key_index(es: Seq<EntryView>, e: EntryView) -> int
    decreases es.len(),
{
    if es.len() == 0 || same_key(es[0], e) {
        0
    } else {
        1 + key_index(es.drop_first(), e)
    }
}

pub open spec fn distinct_keys(es: Seq<EntryView>) -> bool {
    forall|i: int, j: int|
        0 <= i < j < es.len() ==> !same_key(#[trigger] es[i], #[trigger] es[j])
}

pub proof fn lemma_key_index(es: Seq<EntryView>, e: EntryView)
    ensures
        0 <= key_index(es, e) <= es.len(),
        key_index(es, e) < es.len() ==> same_key(es[key_index(es, e)], e),
        forall|i: int| 0 <= i < key_index(es, e) ==> !same_key(#[trigger] es[i], e),
    decreases es.len(),
{
    if es.len() > 0 && !same_key(es[0], e) {
        lemma_key_index(es.drop_first(), e);
        assert forall|i: int| 0 <= i < key_index(es, e) implies !same_key(#[trigger] es[i], e) by {
            if i > 0 {
                assert(es.drop_first()[i - 1] == es[i]);
            }
        }
    }
}

fn find_key(es: &Vec<HistoryEntry>, e: &HistoryEntry) -> (r: usize)
    ensures
        r == key_index(text::views(es@), e@),
        r <= es@.len(),
{
    let ghost all = text::views(es@);
    proof {
        lemma_key_index(all, e@);
    }
    let mut i: usize = 0;
    while i < es.len()
        invariant
            all == text::views(es@),
            i <= key_index(all, e@) <= all.len(),
            key_index(all, e@) < all.len() ==> same_key(all[key_index(all, e@)], e@),
            forall|k: int| 0 <= k < key_index(all, e@) ==> !same_key(#[trigger] all[k], e@),
        decreases es@.len() - i,
    {
        assert(all[i as int] == es@[i as int]@);
        if text::same(es[i].local_path.as_str(), e.local_path.as_str()) && text::same(
            es[i].target_name.as_str(),
            e.target_name.as_str(),
        ) {
            return i;
        }
        i = i + 1;
    }
    i
}

// ---------------------------------------------------------------------------
// Loading
// ---------------------------------------------------------------------------
/// `es` with one more record read: it takes the place of an older one with its
/// key, and of an equally old one read before.
pub open spec fn with_latest(es: Seq<EntryView>, e: EntryView) -> Seq<EntryView> {
    let i = key_index(es, e);
    if i < es.len() {
        if e.synced_at >= es[i].synced_at {
            es.update(i, e)
        } else {
            es
        }
    } else {
        es.push(e)
    }
}

/// The latest record of each key.
pub open spec fn latest(read: Seq<EntryView>) -> Seq<EntryView>
    decreases read.len(),
{
    if read.len() == 0 {
        seq![]
    } else {
        with_latest(latest(read.drop_last()), read.last())
    }
}

pub open spec fn newest_first(es: Seq<EntryView>) -> bool {
    forall|i: int, j: int|
        0 <= i < j < es.len() ==> (#[trigger] es[i]).synced_at >= (#[trigger] es[j]).synced_at
}

fn merge_latest(read: Vec<HistoryEntry>) -> (r: Vec<HistoryEntry>)
    ensures
        text::views(r@) == latest(text::views(read@)),
{
    let ghost all = text::views(read@);
    let mut r: Vec<HistoryEntry> = Vec::new();
    let mut i: usize = 0;
    assert(text::views(r@) =~= seq![]);
    while i < read.len()
        invariant
            i <= read@.len(),
            all == text::views(read@),
            text::views(r@) == latest(all.take(i as int)),
        decreases read@.len() - i,
    {
        assert(all.take(i + 1).drop_last() =~= all.take(i as int));
        assert(all.take(i + 1).last() == read@[i as int]@);
        let e = read[i].clone();
        let pos = find_key(&r, &e);
        let ghost before = text::views(r@);
        if pos < r.len() {
            if e.synced_at >= r[pos].synced_at {
                r.set(pos, e);
                assert(text::views(r@) =~= before.update(pos as int, e@));
            }
        } else {
            r.push(e);
            assert(text::views(r@) =~= before.push(e@));
        }
        i = i + 1;
    }
    assert(all.take(i as int) =~= all);
    r
}

fn sort_newest_first(list: Vec<HistoryEntry>) -> (r: Vec<HistoryEntry>)
    ensures
        newest_first(text::views(r@)),
        text::views(r@).to_multiset() == text::views(list@).to_multiset(),
{
    let ghost all = text::views(list@);
    let mut r: Vec<HistoryEntry> = Vec::new();
    let mut i: usize = 0;
    assert(text::views(r@) =~= all.take(0));
    while i < list.len()
        invariant
            i <= list@.len(),
            all == text::views(list@),
            newest_first(text::views(r@)),
            text::views(r@).to_multiset() == all.take(i as int).to_multiset(),
        decreases list@.len() - i,
    {
        let e = list[i].clone();
        let ghost before = text::views(r@);
        let mut pos: usize = r.len();
        while pos > 0 && r[pos - 1].synced_at < e.synced_at
            invariant
                pos <= r@.len(),
                before == text::views(r@),
                forall|k: int| pos <= k < r@.len() ==> (#[trigger] before[k]).synced_at < e.synced_at,
            decreases pos,
        {
            assert(before[pos - 1] == r@[pos - 1]@);
            pos = pos - 1;
        }
        if pos > 0 {
            assert(before[pos - 1] == r@[pos - 1]@);
        }
        r.insert(pos, e);
        assert(text::views(r@) =~= before.insert(pos as int, e@));
        proof {
            vstd::seq_lib::to_multiset_insert(before, pos as int, e@);
            vstd::seq_lib::to_multiset_build(all.take(i as int), e@);
            assert(all.take(i + 1) =~= all.take(i as int).push(e@));
        }
        i = i + 1;
    }
    assert(all.take(i as int) =~= all);
    r
}

impl HistoryStore {
    pub open spec fn view(&self) -> Seq<EntryView> {
        text::views(self.entries@)
    }

    /// A store without records, for when they cannot be read.
    pub fn empty(config_dir: Option<&str>) -> (r: Self)
        ensures
            r@.len() == 0,
            r.base@ == watch::place_or(config_dir, "lzsync/history"@, ".lzscp/history"@),
    {
        let base = match history_dir(config_dir) {
            Some(d) => d,
            None => ".lzscp/history".to_owned(),
        };
        HistoryStore { entries: Vec::new(), base }
    }

    /// The records of the directory `base`, which exists only where the user's
    /// configuration directory is known.
    pub fn load(base: Option<String>, read: Vec<HistoryEntry>) -> (r: Result<Self, String>)
        ensures
            match r {
                Ok(s) => base == Some(s.base) && newest_first(s@) && s@.to_multiset() == latest(
                    text::views(read@),
                ).to_multiset(),
                Err(e) => base is None && e@ == "no config dir"@,
            },
    {
        match base {
            Some(b) => Ok(HistoryStore::load_from(b, read)),
            None => Err("no config dir".to_owned()),
        }
    }

    /// The records read from the files below `base`, in the order of reading.
    /// Newer records for the same (local_path, target_name) supersede older
    /// ones; the newest come first.
    pub fn load_from(base: String, read: Vec<HistoryEntry>) -> (r: Self)
        ensures
            r.base == base,
            newest_first(r@),
            r@.to_multiset() == latest(text::views(read@)).to_multiset(),
    {
        HistoryStore { entries: sort_newest_first(merge_latest(read)), base }
    }

    /// The file that records of a target go to.
    pub fn file_for(&self, target_name: &str) -> (r: String)
        ensures
            r@ == paths::joined(self.base@, sanitized(target_name@) + ".jsonl"@),
    {
        let mut f = sanitize_filename(target_name);
        f.append(".jsonl");
        paths::join(self.base.as_str(), f.as_str())
    }

    /// Takes note of a record once its line has been written: an older one with
    /// its key goes, and it comes first. Where writing failed nothing changes.
    pub fn append(&mut self, entry: HistoryEntry, written: Result<(), String>) -> (r: Result<
        (),
        String,
    >)
        ensures
            final(self).base == old(self).base,
            r == written,
            written is Ok ==> final(self)@ == appended(old(self)@, entry@),
            written is Err ==> final(self)@ == old(self)@,
    {
        if written.is_err() {
            return written;
        }
        let ghost before = self@;
        let pos = find_key(&self.entries, &entry);
        if pos < self.entries.len() {
            let _ = self.entries.remove(pos);
            assert(self@ =~= before.remove(pos as int));
        }
        let ghost mid = self@;
        self.entries.insert(0, entry);
        assert(self@ =~= seq![entry@] + mid);
        written
    }
}

/// `es` with the record `e` in front, and no other one with its key.
pub open spec fn appended(es: Seq<EntryView>, e: EntryView) -> Seq<EntryView> {
    let i = key_index(es, e);
    seq![e] + if i < es.len() {
        es.remove(i)
    } else {
        es
    }
}

// ---------------------------------------------------------------------------
// Filtering
// ---------------------------------------------------------------------------
/// Whether the lower-case query occurs in the name, the path or the target,
/// whatever their case.
pub open spec fn hits(e: EntryView, q: Seq<char>) -> bool {
    ||| text::contains(outside::lowercase(e.local_name), q)
    ||| text::contains(outside::lowercase(e.local_path), q)
    ||| text::contains(outside::lowercase(e.target_name), q)
}

/// The query as it is searched for.
pub open spec fn needle(query: Seq<char>) -> Seq<char> {
    outside::lowercase(text::trim(query))
}

pub open spec fn shown(e: EntryView, query: Seq<char>) -> bool {
    needle(query).len() == 0 || hits(e, needle(query))
}

/// The records that a query shows, in order.
pub open spec fn filtered(es: Seq<EntryView>, query: Seq<char>) -> Seq<EntryView>
    decreases es.len(),
{
    if es.len() == 0 {
        seq![]
    } else if shown(es.last(), query) {
        filtered(es.drop_last(), query).push(es.last())
    } else {
        filtered(es.drop_last(), query)
    }
}

fn lowercase_has(s: &str, q: &str) -> (r: bool)
    ensures
        r == text::contains(outside::lowercase(s@), q@),
{
    let l = outside::to_lowercase(s);
    text::has_substring(l.as_str(), q)
}

impl HistoryStore {
    /// Case-insensitive substring filter over local_name, local_path, and
    /// target_name. Empty query returns everything.
    pub fn filter(&self, query: &str) -> (r: Vec<&HistoryEntry>)
        ensures
            text::views(r@) == filtered(self@, query@),
    {
        let t = text::trimmed(query);
        let q = outside::to_lowercase(t.as_str());
        let ghost all = self@;
        let mut r: Vec<&HistoryEntry> = Vec::new();
        let mut i: usize = 0;
        assert(text::views(r@) =~= seq![]);
        while i < self.entries.len()
            invariant
                i <= self.entries@.len(),
                all == text::views(self.entries@),
                q@ == needle(query@),
                text::views(r@) == filtered(all.take(i as int), query@),
            decreases self.entries@.len() - i,
        {
            let e = &self.entries[i];
            assert(all.take(i + 1).drop_last() =~= all.take(i as int));
            assert(all.take(i + 1).last() == e@);
            if q.as_str().is_empty() || lowercase_has(e.local_name.as_str(), q.as_str())
                || lowercase_has(e.local_path.as_str(), q.as_str()) || lowercase_has(
                e.target_name.as_str(),
                q.as_str(),
            ) {
                let ghost before = r@;
                r.push(e);
                assert(text::views(r@) =~= text::views(before).push(e@));
            }
            i = i + 1;
        }
        assert(all.take(i as int) =~= all);
        r
    }
}

// ---------------------------------------------------------------------------
// Names and times
// ---------------------------------------------------------------------------
/// The seconds since the Unix epoch, zero for a clock that stands before it. What
/// the clock shows is not stated.
pub fn now_epoch() -> (r: u64) {
    match outside::read_clock() {
        Some(s) => s,
        None => 0,
    }
}

/// How long ago `epoch` was at `now`, in the largest unit that fits.
pub open spec fn time_ago(now: nat, epoch: nat) -> Seq<char> {
    if now < epoch + 60 {
        "just now"@
    } else {
        let d = (now - epoch) as nat;
        if d < 3600 {
            text::decimal(d / 60) + "m ago"@
        } else if d < 86_400 {
            text::decimal(d / 3600) + "h ago"@
        } else if d < 604_800 {
            text::decimal(d / 86_400) + "d ago"@
        } else {
            text::decimal(d / 604_800) + "w ago"@
        }
    }
}

fn count_of(n: u64, unit: &str) -> (r: String)
    ensures
        r@ == text::decimal(n as nat) + unit@,
{
    let mut r = text::to_decimal(n);
    r.append(unit);
    r
}

pub fn format_time_between(now: u64, epoch: u64) -> (r: String)
    ensures
        r@ == time_ago(now as nat, epoch as nat),
{
    if now < epoch {
        return "just now".to_owned();
    }
    let d = now - epoch;
    if d < 60 {
        "just now".to_owned()
    } else if d < 3600 {
        count_of(d / 60, "m ago")
    } else if d < 86_400 {
        count_of(d / 3600, "h ago")
    } else if d < 604_800 {
        count_of(d / 86_400, "d ago")
    } else {
        count_of(d / 604_800, "w ago")
    }
}

/// How long ago `epoch` was, by the clock.
pub fn format_time_ago(epoch: u64) -> (r: String)
    ensures
        exists|now: u64| r@ == #[trigger] time_ago(now as nat, epoch as nat),
{
    format_time_between(now_epoch(), epoch)
}

/// Where the records lie below the user's configuration directory.
pub fn history_dir(config_dir: Option<&str>) -> (r: Option<String>)
    ensures
        text::opt(r) == config::below(config_dir, "lzsync/history"@),
{
    config::place(config_dir, "lzsync/history")
}

pub open spec fn safe_in_name(c: char) -> bool {
    text::is_ascii_alphanumeric(c) || c == '-' || c == '_' || c == '.'
}

/// A file of records: one whose name ends in `.jsonl` and has more than that.
pub open spec fn holds_records(path: Seq<char>) -> bool {
    match paths::base_name(path) {
        Some(n) => n.len() > 6 && n.skip(n.len() - 6) == ".jsonl"@,
        None => false,
    }
}

/// Whether a file in the history directory holds records.
pub fn is_history_file(path: &str) -> (r: bool)
    ensures
        r == holds_records(path@),
{
    match paths::file_name(path) {
        Some(n) => {
            let cs = text::chars_of(n.as_str());
            if cs.len() <= 6 {
                return false;
            }
            let end = text::string_of(&cs, cs.len() - 6, cs.len());
            assert(end@ =~= n@.skip(n@.len() - 6));
            text::same(end.as_str(), ".jsonl")
        },
        None => false,
    }
}

/// Whatever the target is called, the file that its records go to is one that
/// records are read from.
pub proof fn law_records_are_read_back(base: Seq<char>, target_name: Seq<char>)
    ensures
        holds_records(paths::joined(base, sanitized(target_name) + ".jsonl"@)),
{
    let s = sanitized(target_name);
    let n = s + ".jsonl"@;
    reveal_strlit(".jsonl");
    reveal_strlit("unknown");
    assert(n.skip(n.len() - 6) =~= ".jsonl"@);
    assert(!n.contains('/')) by {
        if n.contains('/') {
            let i = choose|i: int| 0 <= i < n.len() && n[i] == '/';
            if i < s.len() {
                assert(s[i] == '/');
            } else {
                assert(".jsonl"@[i - s.len()] == '/');
            }
        }
    }
    paths::lemma_joined_name(base, n);
}

/// `name` with an underscore for every character that a file name should not
/// have; `unknown` for an empty one.
pub open spec fn sanitized(name: Seq<char>) -> Seq<char> {
    if name.len() == 0 {
        "unknown"@
    } else {
        name.map_values(
            |c: char|
                if safe_in_name(c) {
                    c
                } else {
                    '_'
                },
        )
    }
}

pub fn sanitize_filename(name: &str) -> (r: String)
    ensures
        r@ == sanitized(name@),
{
    let cs = text::chars_of(name);
    if cs.len() == 0 {
        return "unknown".to_owned();
    }
    let mut out = String::new();
    let mut i: usize = 0;
    while i < cs.len()
        invariant
            cs@ == name@,
            i <= cs@.len(),
            out@.len() == i,
            forall|k: int|
                0 <= k < i ==> out@[k] == (if safe_in_name(cs@[k]) {
                    cs@[k]
                } else {
                    '_'
                }),
        decreases cs@.len() - i,
    {
        let c = cs[i];
        if text::ascii_alphanumeric(c) || c == '-' || c == '_' || c == '.' {
            out.push(c);
        } else {
            out.push('_');
        }
        i = i + 1;
    }
    assert(out@ =~= sanitized(name@));
    out
}

// ---------------------------------------------------------------------------
// Laws
// ---------------------------------------------------------------------------
proof fn lemma_with_latest_distinct(es: Seq<EntryView>, e: EntryView)
    requires
        distinct_keys(es),
    ensures
        distinct_keys(with_latest(es, e)),
{
    lemma_key_index(es, e);
}

/// Loading leaves one record for each file and target.
pub proof fn law_load_leaves_distinct_keys(read: Seq<EntryView>)
    ensures
        distinct_keys(latest(read)),
    decreases read.len(),
{
    if read.len() > 0 {
        law_load_leaves_distinct_keys(read.drop_last());
        lemma_with_latest_distinct(latest(read.drop_last()), read.last());
    }
}

/// Loading keeps, for each record read, one with its key that is as new.
pub proof fn law_load_keeps_the_latest(read: Seq<EntryView>, k: int)
    requires
        0 <= k < read.len(),
    ensures
        exists|i: int|
            0 <= i < latest(read).len() && same_key(#[trigger] latest(read)[i], read[k])
                && latest(read)[i].synced_at >= read[k].synced_at,
    decreases read.len(),
{
    let es = latest(read.drop_last());
    let e = read.last();
    lemma_key_index(es, e);
    let j = key_index(es, e);
    if k == read.len() - 1 {
        if j < es.len() {
            assert(same_key(latest(read)[j], e));
        } else {
            assert(latest(read)[es.len() as int] == e);
        }
    } else {
        law_load_keeps_the_latest(read.drop_last(), k);
        let i = choose|i: int|
            0 <= i < es.len() && same_key(#[trigger] es[i], read.drop_last()[k])
                && es[i].synced_at >= read.drop_last()[k].synced_at;
        assert(read.drop_last()[k] == read[k]);
        law_load_leaves_distinct_keys(read.drop_last());
        assert(same_key(latest(read)[i], read[k]));
    }
}

/// Taking note of a record keeps the keys distinct, puts it first, and drops or
/// adds nothing else.
pub proof fn law_append_replaces_its_key(es: Seq<EntryView>, e: EntryView, o: EntryView)
    requires
        distinct_keys(es),
    ensures
        distinct_keys(appended(es, e)),
        appended(es, e)[0] == e,
        !same_key(o, e) ==> appended(es, e).contains(o) == es.contains(o),
{
    lemma_key_index(es, e);
    let i = key_index(es, e);
    let r = appended(es, e);
    assert forall|a: int, b: int| 0 <= a < b < r.len() implies !same_key(
        #[trigger] r[a],
        #[trigger] r[b],
    ) by {
        let ib = if i < es.len() && b - 1 >= i {
            b
        } else {
            b - 1
        };
        assert(r[b] == es[ib]);
        if a == 0 {
            if ib > i && i < es.len() {
                assert(!same_key(es[i], es[ib]));
            }
        } else {
            let ia = if i < es.len() && a - 1 >= i {
                a
            } else {
                a - 1
            };
            assert(r[a] == es[ia]);
        }
    }
    if !same_key(o, e) {
        if es.contains(o) {
            let k = choose|k: int| 0 <= k < es.len() && es[k] == o;
            let rk = if i < es.len() && k > i {
                k
            } else {
                k + 1
            };
            assert(r[rk] == o);
        }
        if r.contains(o) {
            let k = choose|k: int| 0 <= k < r.len() && r[k] == o;
            let ek = if i < es.len() && k - 1 >= i {
                k
            } else {
                k - 1
            };
            assert(es[ek] == o);
        }
    }
}

/// A file name made from a target's name never leads to another directory.
pub proof fn law_sanitized_names_have_no_slash(name: Seq<char>)
    ensures
        !sanitized(name).contains('/'),
        sanitized(name).len() > 0,
{
    reveal_strlit("unknown");
}

/// A record is shown just where the query, whatever its case and without blanks around
/// it, occurs in the name or the path of the file or in the name of the target; an empty
/// query shows all of them.
pub proof fn law_queries_show_what_they_occur_in(
    es: Seq<EntryView>,
    query: Seq<char>,
    e: EntryView,
)
    ensures
        filtered(es, query).contains(e) <==> es.contains(e) && (outside::lowercase(
            text::trim(query),
        ).len() == 0 || text::contains(
            outside::lowercase(e.local_name),
            outside::lowercase(text::trim(query)),
        ) || text::contains(
            outside::lowercase(e.local_path),
            outside::lowercase(text::trim(query)),
        ) || text::contains(
            outside::lowercase(e.target_name),
            outside::lowercase(text::trim(query)),
        )),
    decreases es.len(),
{
    if es.len() > 0 {
        let init = es.drop_last();
        let last = es.last();
        let out = filtered(init, query);
        law_queries_show_what_they_occur_in(init, query, e);
        assert(es[es.len() - 1] == last);
        if init.contains(e) {
            let i = choose|i: int| 0 <= i < init.len() && init[i] == e;
            assert(es[i] == e);
        }
        if es.contains(e) && e != last {
            let i = choose|i: int| 0 <= i < es.len() && es[i] == e;
            assert(init[i] == e);
        }
        if shown(last, query) {
            let p = out.push(last);
            assert(p[out.len() as int] == last);
            if out.contains(e) {
                let i = choose|i: int| 0 <= i < out.len() && out[i] == e;
                assert(p[i] == e);
            }
            if p.contains(e) && e != last {
                let i = choose|i: int| 0 <= i < p.len() && p[i] == e;
                assert(out[i] == e);
            }
        }
    }
}

/// An empty query changes nothing.
pub proof fn law_empty_queries_show_all(es: Seq<EntryView>, query: Seq<char>)
    requires
        outside::lowercase(text::trim(query)).len() == 0,
    ensures
        filtered(es, query) == es,
    decreases es.len(),
{
    if es.len() > 0 {
        law_empty_queries_show_all(es.drop_last(), query);
        assert(es.drop_last().push(es.last()) =~= es);
    } else {
        assert(es =~= seq![]);
    }
}

/// How long ago something was is told in the largest unit of which it was at least one:
/// minutes, hours, days or weeks.
pub proof fn law_ages_are_told_in_their_unit(epoch: nat, n: nat, rest: nat)
    requires
        n > 0,
    ensures
        n == 1 && rest < 60 ==> time_ago(epoch + rest, epoch) == "just now"@,
        n < 60 && rest < 60 ==> time_ago(epoch + n * 60 + rest, epoch) == text::decimal(n)
            + "m ago"@,
        n < 24 && rest < 3600 ==> time_ago(epoch + n * 3600 + rest, epoch) == text::decimal(n)
            + "h ago"@,
        n < 7 && rest < 86_400 ==> time_ago(epoch + n * 86_400 + rest, epoch) == text::decimal(n)
            + "d ago"@,
        rest < 604_800 ==> time_ago(epoch + n * 604_800 + rest, epoch) == text::decimal(n)
            + "w ago"@,
{
    if rest < 60 {
        assert((n * 60 + rest) / 60 == n) by (nonlinear_arith)
            requires
                rest < 60,
        ;
    }
    if rest < 3600 {
        assert((n * 3600 + rest) / 3600 == n) by (nonlinear_arith)
            requires
                rest < 3600,
        ;
    }
    if rest < 86_400 {
        assert((n * 86_400 + rest) / 86_400 == n) by (nonlinear_arith)
            requires
                rest < 86_400,
        ;
    }
    if rest < 604_800 {
        assert((n * 604_800 + rest) / 604_800 == n) by (nonlinear_arith)
            requires
                rest < 604_800,
        ;
    }
}

/// A name keeps its length, and every character that may stand in a file's name; an
/// underscore takes the place of any other.
pub proof fn law_names_are_kept_where_they_can_be(name: Seq<char>, i: int)
    requires
        0 <= i < name.len(),
    ensures
        sanitized(name).len() == name.len(),
        text::is_ascii_alphanumeric(name[i]) || name[i] == '-' || name[i] == '_' || name[i] == '.'
            ==> sanitized(name)[i] == name[i],
        !text::is_ascii_alphanumeric(name[i]) && name[i] != '-' && name[i] != '.' ==> sanitized(
            name,
        )[i] == '_',
{
}

/// Of records with the same key, the newest stays; of equally new ones, the one that was
/// written last.
pub proof fn law_later_records_win(read: Seq<EntryView>, e: EntryView)
    requires
        forall|i: int|
            0 <= i < read.len() && same_key(#[trigger] read[i], e) ==> read[i].synced_at
                <= e.synced_at,
    ensures
        latest(read.push(e)).contains(e),
{
    let es = latest(read);
    assert(read.push(e).drop_last() =~= read);
    let j = key_index(es, e);
    lemma_key_index(es, e);
    if j < es.len() {
        law_load_invents_nothing(read, j);
        let i = choose|i: int| 0 <= i < read.len() && read[i] == es[j];
        assert(same_key(read[i], e));
        assert(es.update(j, e)[j] == e);
    } else {
        assert(es.push(e)[es.len() as int] == e);
    }
}

/// Loading keeps only records that were read.
pub proof fn law_load_invents_nothing(read: Seq<EntryView>, i: int)
    requires
        0 <= i < latest(read).len(),
    ensures
        read.contains(latest(read)[i]),
    decreases read.len(),
{
    let init = read.drop_last();
    let es = latest(init);
    let e = read.last();
    lemma_key_index(es, e);
    assert(read[read.len() - 1] == e);
    if latest(read)[i] != e {
        assert(latest(read)[i] == es[i]);
        law_load_invents_nothing(init, i);
        let k = choose|k: int| 0 <= k < init.len() && init[k] == es[i];
        assert(read[k] == es[i]);
    }
}

} // verus!
