//! Sending one file to one host with rsync over ssh: the commands to run, what
//! their output means, and how the pieces follow each other.
use vstd::prelude::*;

use crate::config;
use crate::outside;
use crate::paths;
use crate::remote;
use crate::target::{Target, TargetView};
use crate::text;
use crate::tunnel;
use crate::watch;

verus! {

// ---------------------------------------------------------------------------
// Session
// ---------------------------------------------------------------------------
/// What a running program knows about its log and about the local rsync.
#[derive(Debug, Clone, Copy, PartialEq, Eq)]
pub struct Session {
    pub logging: bool,
    pub verbose: bool,
    /// Version of the local rsync: none until it has been asked for, all zeros
    /// where there is none.
    pub rsync_version: Option<(u32, u32, u32)>,
}

#[derive(Debug, Clone, Copy, PartialEq, Eq, Structural)]
pub enum RsyncStatus {
    /// Probe not finished yet — allow transfers; rsync itself will report
    /// any real problem if the binary truly is broken.
    Pending,
    /// rsync binary not found.
    Missing,
    /// Installed but version is below the 3.0 minimum we target.
    TooOld(u32, u32),
    /// Good to go.
    Good,
}

/// What rsync is asked for, as far as it depends on its version and the system.
#[derive(Debug, Clone, Copy, PartialEq, Eq, Structural)]
pub struct RsyncFlags {
    /// Progress of the transfer as a whole (`--info=progress2`), not of each file.
    pub info: bool,
    /// Conversion of the file names of macOS.
    pub iconv: bool,
}

impl Default for Session {
    fn default() -> (r: Self)
        ensures
            r == (Session { logging: true, verbose: false, rsync_version: None }),
    {
        Session { logging: true, verbose: false, rsync_version: None }
    }
}

impl Session {
    pub fn set_log_enabled(&mut self, on: bool)
        ensures
            *final(self) == (Session { logging: on, ..*old(self) }),
    {
        self.logging = on;
    }

    pub fn log_enabled(&self) -> (r: bool)
        ensures
            r == self.logging,
    {
        self.logging
    }

    pub fn set_verbose_log(&mut self, on: bool)
        ensures
            *final(self) == (Session { verbose: on, ..*old(self) }),
    {
        self.verbose = on;
    }

    pub fn verbose_log(&self) -> (r: bool)
        ensures
            r == self.verbose,
    {
        self.verbose
    }

    /// Remembers the version of the local rsync; the first one stays.
    pub fn cache_rsync_version(&mut self, v: (u32, u32, u32))
        ensures
            *final(self) == (Session {
                rsync_version: match old(self).rsync_version {
                    Some(w) => Some(w),
                    None => Some(v),
                },
                ..*old(self)
            }),
    {
        if self.rsync_version.is_none() {
            self.rsync_version = Some(v);
        }
    }

    /// Whether the local rsync is known to be 3.0 or newer.
    pub fn rsync_supports_iconv(&self) -> (r: bool)
        ensures
            r == (self.rsync_version is Some && (self.rsync_version->0).0 >= 3),
    {
        match self.rsync_version {
            Some(v) => v.0 >= 3,
            None => false,
        }
    }

    /// Whether file names are to be converted on the way: macOS stores them
    /// decomposed, which a Linux host does not expect.
    pub fn converts_names(&self, os: &str) -> (r: bool)
        ensures
            r == (os@ == "macos"@ && self.rsync_version is Some && (self.rsync_version->0).0 >= 3),
    {
        text::same(os, "macos") && self.rsync_supports_iconv()
    }

    /// What the local rsync is to be asked for on the given system. Only a
    /// version that is known to be older than 3.1 has no `--info`.
    pub fn rsync_flags(&self, os: &str) -> (r: RsyncFlags)
        ensures
            r == (RsyncFlags {
                info: match self.rsync_version {
                    Some(v) => v == (0u32, 0u32, 0u32) || v.0 > 3 || v.0 == 3 && v.1 >= 1,
                    None => true,
                },
                iconv: os@ == "macos"@ && self.rsync_version is Some && (self.rsync_version->0).0
                    >= 3,
            }),
    {
        let info = match self.rsync_version {
            Some(v) => (v.0 == 0 && v.1 == 0 && v.2 == 0) || v.0 > 3 || (v.0 == 3 && v.1 >= 1),
            None => true,
        };
        RsyncFlags { info, iconv: self.converts_names(os) }
    }

    pub fn rsync_status(&self) -> (r: RsyncStatus)
        ensures
            r == (match self.rsync_version {
                None => RsyncStatus::Pending,
                Some(v) => if v == (0u32, 0u32, 0u32) {
                    RsyncStatus::Missing
                } else if v.0 < 3 {
                    RsyncStatus::TooOld(v.0, v.1)
                } else {
                    RsyncStatus::Good
                },
            }),
    {
        match self.rsync_version {
            None => RsyncStatus::Pending,
            Some(v) => if v.0 == 0 && v.1 == 0 && v.2 == 0 {
                RsyncStatus::Missing
            } else if v.0 < 3 {
                RsyncStatus::TooOld(v.0, v.1)
            } else {
                RsyncStatus::Good
            },
        }
    }

    /// What is written to the log for one line, stamped with the time; nothing
    /// while the log is off.
    pub fn log_line(&self, now: u64, line: &str) -> (r: Option<String>)
        ensures
            text::opt(r) == (if self.logging {
                Some(text::decimal(now as nat) + " "@ + line@ + "\n"@)
            } else {
                None
            }),
    {
        if !self.logging {
            return None;
        }
        let mut r = text::to_decimal(now);
        r.append(" ");
        r.append(line);
        r.append("\n");
        Some(r)
    }
}

/// Path to the transfer log.
pub fn log_path(config_dir: Option<&str>) -> (r: String)
    ensures
        r@ == watch::place_or(config_dir, "lzsync/transfer.log"@, "lzsync-transfer.log"@),
{
    match config::place(config_dir, "lzsync/transfer.log") {
        Some(p) => p,
        None => "lzsync-transfer.log".to_owned(),
    }
}

// ---------------------------------------------------------------------------
// The rsync binary
// ---------------------------------------------------------------------------
/// Where a bundled rsync may lie: next to the running program, then in the
/// user's share directory.
pub open spec fn bundled_places(exe: Option<Seq<char>>, home: Option<Seq<char>>) -> Seq<Seq<char>> {
    let beside = match exe {
        Some(e) => match paths::parent_of(e) {
            Some(d) => seq![paths::joined(d, "lzsync-rsync"@)],
            None => seq![],
        },
        None => seq![],
    };
    match home {
        Some(h) => beside.push(paths::joined(h, ".local/share/lzsync/lzsync-rsync"@)),
        None => beside,
    }
}

pub fn rsync_candidates(exe: Option<&str>, home: Option<&str>) -> (r: Vec<String>)
    ensures
        text::strs(r@) == bundled_places(text::opt_str(exe), text::opt_str(home)),
{
    let mut r = text::no_strs();
    if let Some(e) = exe {
        if let Some(d) = paths::parent(e) {
            let c = paths::join(d.as_str(), "lzsync-rsync");
            text::push_str(&mut r, c.as_str());
        }
    }
    if let Some(h) = home {
        let c = paths::join(h, ".local/share/lzsync/lzsync-rsync");
        text::push_str(&mut r, c.as_str());
    }
    r
}

/// The first candidate that exists, else the system's rsync.
pub open spec fn chosen_rsync(candidates: Seq<Seq<char>>, exists: Seq<bool>) -> Seq<char>
    decreases candidates.len(),
{
    if candidates.len() == 0 {
        "rsync"@
    } else if exists.len() > 0 && exists[0] {
        candidates[0]
    } else {
        chosen_rsync(candidates.drop_first(), exists.drop_first())
    }
}

/// Pick the rsync binary to invoke. Release tarballs ship a prebuilt rsync as
/// `lzsync-rsync`; where one of the candidates exists it is preferred over
/// whatever the user has on `$PATH`. If no bundled copy is present, fall back to
/// the system `rsync` by name.
pub fn rsync_command(candidates: &Vec<String>, exists: &Vec<bool>) -> (r: String)
    requires
        candidates@.len() == exists@.len(),
    ensures
        r@ == chosen_rsync(text::strs(candidates@), exists@),
{
    let ghost cs = text::strs(candidates@);
    let mut i: usize = 0;
    assert(cs.skip(0) =~= cs);
    assert(exists@.skip(0) =~= exists@);
    while i < candidates.len()
        invariant
            i <= candidates@.len(),
            candidates@.len() == exists@.len(),
            cs == text::strs(candidates@),
            chosen_rsync(cs, exists@) == chosen_rsync(cs.skip(i as int), exists@.skip(i as int)),
        decreases candidates@.len() - i,
    {
        assert(cs.skip(i as int)[0] == candidates@[i as int]@);
        if exists[i] {
            return candidates[i].clone();
        }
        assert(cs.skip(i as int).drop_first() =~= cs.skip(i + 1));
        assert(exists@.skip(i as int).drop_first() =~= exists@.skip(i + 1));
        i = i + 1;
    }
    "rsync".to_owned()
}

/// How `rsync --version` states its version.
pub const VERSION_PATTERN: &'static str = r"version\s+(\d+)\.(\d+)(?:\.(\d+))?";

pub open spec fn group_number(groups: Seq<Option<Seq<char>>>, i: int) -> u32 {
    if i < groups.len() {
        match groups[i] {
            Some(g) => match text::unsigned(g, u32::MAX as nat) {
                Some(n) => n as u32,
                None => 0,
            },
            None => 0,
        }
    } else {
        0
    }
}

/// The version that the groups of a match spell; all zeros where nothing matched.
pub open spec fn version_of(groups: Option<Seq<Option<Seq<char>>>>) -> (u32, u32, u32) {
    match groups {
        Some(g) => (group_number(g, 1), group_number(g, 2), group_number(g, 3)),
        None => (0, 0, 0),
    }
}

fn number_in(groups: &Vec<Option<String>>, i: usize) -> (r: u32)
    ensures
        r == group_number(text::opts(groups@), i as int),
{
    if i < groups.len() {
        match &groups[i] {
            Some(g) => match text::parse_unsigned(g.as_str(), 0xffff_ffff) {
                Some(n) => n as u32,
                None => 0,
            },
            None => 0,
        }
    } else {
        0
    }
}

/// The version that the groups of a match spell.
pub fn version_from_groups(groups: &Option<Vec<Option<String>>>) -> (r: (u32, u32, u32))
    ensures
        r == version_of(
            match groups {
                Some(g) => Some(text::opts(g@)),
                None => None,
            },
        ),
{
    match groups {
        Some(g) => (number_in(g, 1), number_in(g, 2), number_in(g, 3)),
        None => (0, 0, 0),
    }
}

pub open spec fn first_line(s: Seq<char>) -> Seq<char> {
    let ls = text::lines(s);
    if ls.len() > 0 {
        ls[0]
    } else {
        seq![]
    }
}

pub fn first_line_of(s: &str) -> (r: String)
    ensures
        r@ == first_line(s@),
{
    let ls = text::split_lines(s);
    if ls.len() > 0 {
        assert(text::strs(ls@)[0] == ls@[0]@);
        ls[0].clone()
    } else {
        let r = String::new();
        assert(r@ =~= seq![]);
        r
    }
}

/// The local rsync version (X, Y, Z), given what `rsync --version` printed; none
/// stands for a run that failed. (0, 0, 0) if detection fails. Used at startup to
/// warn about macOS's ancient 2.6.9.
pub fn local_rsync_version(output: Option<&str>) -> (r: (u32, u32, u32))
    ensures
        r == (match output {
            Some(o) => version_of(outside::captures(VERSION_PATTERN@, first_line(o@))),
            None => (0u32, 0u32, 0u32),
        }),
{
    match output {
        Some(o) => {
            let first = first_line_of(o);
            let groups = outside::capture_groups(VERSION_PATTERN, first.as_str());
            version_from_groups(&groups)
        },
        None => (0, 0, 0),
    }
}

// ---------------------------------------------------------------------------
// Transfers
// ---------------------------------------------------------------------------
#[derive(Debug, Clone)]
pub enum TransferEvent {
    Started { id: u64, target_name: String, local: String },
    Progress { id: u64, bytes: u64, percent: u8, rate: String },
    Line { id: u64, line: String },
    Completed { id: u64, remote_abs_dir: String },
    Failed { id: u64, error: String },
}

pub ghost enum TransferEventView {
    Started { id: u64, target_name: Seq<char>, local: Seq<char> },
    Progress { id: u64, bytes: u64, percent: u8, rate: Seq<char> },
    Line { id: u64, line: Seq<char> },
    Completed { id: u64, remote_abs_dir: Seq<char> },
    Failed { id: u64, error: Seq<char> },
}

impl View for TransferEvent {
    type V = TransferEventView;

    open spec fn view(&self) -> TransferEventView {
        match self {
            TransferEvent::Started { id, target_name, local } => TransferEventView::Started {
                id: *id,
                target_name: target_name@,
                local: local@,
            },
            TransferEvent::Progress { id, bytes, percent, rate } => TransferEventView::Progress {
                id: *id,
                bytes: *bytes,
                percent: *percent,
                rate: rate@,
            },
            TransferEvent::Line { id, line } => TransferEventView::Line { id: *id, line: line@ },
            TransferEvent::Completed { id, remote_abs_dir } => TransferEventView::Completed {
                id: *id,
                remote_abs_dir: remote_abs_dir@,
            },
            TransferEvent::Failed { id, error } => TransferEventView::Failed {
                id: *id,
                error: error@,
            },
        }
    }
}

#[derive(Debug)]
pub struct Transfer {
    pub id: u64,
    pub target_name: String,
    pub local: String,
    pub remote_abs_dir: String,
    pub percent: u8,
    pub rate: String,
    pub state: TransferState,
    pub last_error: Option<String>,
    /// Set to `Some(watch_name)` for transfers that originated from a folder
    /// watch (rendered with a 📸 prefix). `None` for manual drop/paste.
    pub source_watch: Option<String>,
}

#[derive(Debug, Clone, Copy, PartialEq, Eq, Structural)]
pub enum TransferState {
    Pending,
    Running,
    Completed,
    Failed,
}

pub ghost struct TransferView {
    pub id: u64,
    pub target_name: Seq<char>,
    pub local: Seq<char>,
    pub remote_abs_dir: Seq<char>,
    pub percent: u8,
    pub rate: Seq<char>,
    pub state: TransferState,
    pub last_error: Option<Seq<char>>,
    pub source_watch: Option<Seq<char>>,
}

impl View for Transfer {
    type V = TransferView;

    open spec fn view(&self) -> TransferView {
        TransferView {
            id: self.id,
            target_name: self.target_name@,
            local: self.local@,
            remote_abs_dir: self.remote_abs_dir@,
            percent: self.percent,
            rate: self.rate@,
            state: self.state,
            last_error: text::opt(self.last_error),
            source_watch: text::opt(self.source_watch),
        }
    }
}

impl Clone for Transfer {
    fn clone(&self) -> (r: Self)
        ensures
            r == *self,
    {
        Transfer {
            id: self.id,
            target_name: self.target_name.clone(),
            local: self.local.clone(),
            remote_abs_dir: self.remote_abs_dir.clone(),
            percent: self.percent,
            rate: self.rate.clone(),
            state: self.state,
            last_error: text::clone_opt(&self.last_error),
            source_watch: text::clone_opt(&self.source_watch),
        }
    }
}

/// A transfer that has not started yet.
pub open spec fn fresh(
    id: u64,
    target_name: Seq<char>,
    local: Seq<char>,
    source_watch: Option<Seq<char>>,
) -> TransferView {
    TransferView {
        id,
        target_name,
        local,
        remote_abs_dir: seq![],
        percent: 0,
        rate: seq![],
        state: TransferState::Pending,
        last_error: None,
        source_watch,
    }
}

impl Transfer {
    pub fn new(id: u64, target: &Target, local: String) -> (r: Self)
        ensures
            r@ == fresh(id, target@.name, local@, None),
    {
        let r = Transfer {
            id,
            target_name: target.name.clone(),
            local,
            remote_abs_dir: String::new(),
            percent: 0,
            rate: String::new(),
            state: TransferState::Pending,
            last_error: None,
            source_watch: None,
        };
        assert(r.remote_abs_dir@ =~= seq![]);
        assert(r.rate@ =~= seq![]);
        r
    }

    pub fn new_from_watch(id: u64, target: &Target, local: String, watch_name: String) -> (r: Self)
        ensures
            r@ == fresh(id, target@.name, local@, Some(watch_name@)),
    {
        let mut t = Transfer::new(id, target, local);
        t.source_watch = Some(watch_name);
        t
    }
}

// ---------------------------------------------------------------------------
// Shell quoting
// ---------------------------------------------------------------------------
/// The inside of a single-quoted word: each single quote leaves the quotes, is
/// written with a backslash, and enters them again.
pub open spec fn quoted_body(s: Seq<char>) -> Seq<char>
    decreases s.len(),
{
    if s.len() == 0 {
        seq![]
    } else if s[0] == '\'' {
        seq!['\'', '\\', '\'', '\''] + quoted_body(s.drop_first())
    } else {
        seq![s[0]] + quoted_body(s.drop_first())
    }
}

pub open spec fn single_quoted(s: Seq<char>) -> Seq<char> {
    seq!['\''] + quoted_body(s) + seq!['\'']
}

/// Wrap s in single quotes, escaping any embedded single quotes.
pub fn shell_single_quote(s: &str) -> (r: String)
    ensures
        r@ == single_quoted(s@),
{
    let cs = text::chars_of(s);
    let mut out = String::new();
    out.push('\'');
    let mut i: usize = 0;
    assert(cs@.skip(0) =~= cs@);
    assert(out@ + quoted_body(cs@) =~= seq!['\''] + quoted_body(s@));
    while i < cs.len()
        invariant
            cs@ == s@,
            i <= cs@.len(),
            seq!['\''] + quoted_body(s@) == out@ + quoted_body(cs@.skip(i as int)),
        decreases cs@.len() - i,
    {
        let ghost before = out@;
        let ghost rest = cs@.skip(i as int);
        assert(rest.drop_first() =~= cs@.skip(i + 1));
        let c = cs[i];
        if c == '\'' {
            out.push('\'');
            out.push('\\');
            out.push('\'');
            out.push('\'');
            assert(before + (seq!['\'', '\\', '\'', '\''] + quoted_body(rest.drop_first())) =~= out@
                + quoted_body(cs@.skip(i + 1)));
        } else {
            out.push(c);
            assert(before + (seq![c] + quoted_body(rest.drop_first())) =~= out@ + quoted_body(
                cs@.skip(i + 1),
            ));
        }
        i = i + 1;
    }
    assert(cs@.skip(i as int) =~= seq![]);
    out.push('\'');
    assert(out@ =~= single_quoted(s@));
    out
}

/// Characters that end a word outside of quotes.
pub open spec fn ends_word(c: char) -> bool {
    c == ' ' || c == '\t' || c == '\n' || c == ';' || c == '&' || c == '|' || c == '<' || c == '>'
        || c == '(' || c == ')'
}

/// What a POSIX shell reads the first word of a line as, and what is left of the
/// line, where the word is made of single-quoted stretches and backslash escapes;
/// none where the word is not complete.
pub open spec fn shell_reads(line: Seq<char>, in_quotes: bool) -> Option<(Seq<char>, Seq<char>)>
    decreases line.len(),
{
    if line.len() == 0 {
        if in_quotes {
            None
        } else {
            Some((seq![], seq![]))
        }
    } else if !in_quotes && ends_word(line[0]) {
        Some((seq![], line))
    } else if line[0] == '\'' {
        shell_reads(line.drop_first(), !in_quotes)
    } else if line[0] == '\\' && !in_quotes {
        if line.len() < 2 {
            None
        } else {
            match shell_reads(line.skip(2), false) {
                Some((t, rest)) => Some((seq![line[1]] + t, rest)),
                None => None,
            }
        }
    } else {
        match shell_reads(line.drop_first(), in_quotes) {
            Some((t, rest)) => Some((seq![line[0]] + t, rest)),
            None => None,
        }
    }
}

/// Whatever is quoted, blanks and all, the shell reads back as one word, wherever
/// it stands in a line.
pub proof fn law_shell_reads_what_was_quoted(s: Seq<char>, rest: Seq<char>)
    requires
        rest.len() == 0 || ends_word(rest[0]),
    ensures
        shell_reads(single_quoted(s) + rest, false) == Some((s, rest)),
{
    let w = single_quoted(s) + rest;
    assert(w[0] == '\'');
    assert(w.drop_first() =~= quoted_body(s) + seq!['\''] + rest);
    lemma_body_read(s, rest);
}

proof fn lemma_body_read(s: Seq<char>, after: Seq<char>)
    requires
        after.len() == 0 || ends_word(after[0]),
    ensures
        shell_reads(quoted_body(s) + seq!['\''] + after, true) == Some((s, after)),
    decreases s.len(),
{
    let w = quoted_body(s) + seq!['\''] + after;
    if s.len() == 0 {
        assert(w =~= seq!['\''] + after);
        assert(w.drop_first() =~= after);
        assert(shell_reads(after, false)->Some_0.0 =~= seq![]);
        assert(shell_reads(after, false)->Some_0.1 =~= after);
        assert(s =~= seq![]);
    } else {
        let rest = quoted_body(s.drop_first()) + seq!['\''] + after;
        lemma_body_read(s.drop_first(), after);
        if s[0] == '\'' {
            assert(w =~= seq!['\'', '\\', '\'', '\''] + rest);
            let w1 = w.drop_first();
            assert(w1 =~= seq!['\\', '\'', '\''] + rest);
            let w2 = w1.skip(2);
            assert(w2 =~= seq!['\''] + rest);
            assert(w2.drop_first() =~= rest);
            assert(shell_reads(w2, false) == shell_reads(rest, true));
            assert(w1[1] == '\'');
            assert(shell_reads(w1, false) == Some((seq!['\''] + s.drop_first(), after)));
        } else {
            assert(w =~= seq![s[0]] + rest);
            assert(w.drop_first() =~= rest);
        }
        assert(seq![s[0]] + s.drop_first() =~= s);
    }
}

// ---------------------------------------------------------------------------
// Commands
// ---------------------------------------------------------------------------
/// The arguments of an `ssh` that runs one command without asking for anything.
pub open spec fn ssh_command(
    timeout: Seq<char>,
    accept_new: bool,
    t: TargetView,
    key: Option<Seq<char>>,
    command: Seq<char>,
) -> Seq<Seq<char>> {
    let head = seq!["-o"@, "BatchMode=yes"@, "-o"@, timeout];
    let hosts = if accept_new {
        head.push("-o"@).push("StrictHostKeyChecking=accept-new"@)
    } else {
        head
    };
    let port = hosts.push("-p"@).push(text::decimal(t.port() as nat));
    let keyed = match key {
        Some(k) => port.push("-i"@).push(k),
        None => port,
    };
    keyed.push(t.address()).push(command)
}

fn ssh_command_args(
    timeout: &str,
    accept_new: bool,
    target: &Target,
    key: Option<&str>,
    command: &str,
) -> (r: Vec<String>)
    ensures
        text::strs(r@) == ssh_command(
            timeout@,
            accept_new,
            target@,
            text::opt_str(key),
            command@,
        ),
{
    let mut args = text::no_strs();
    text::push_str(&mut args, "-o");
    text::push_str(&mut args, "BatchMode=yes");
    text::push_str(&mut args, "-o");
    text::push_str(&mut args, timeout);
    if accept_new {
        text::push_str(&mut args, "-o");
        text::push_str(&mut args, "StrictHostKeyChecking=accept-new");
    }
    text::push_str(&mut args, "-p");
    let port = text::to_decimal(target.ssh_port() as u64);
    text::push_str(&mut args, port.as_str());
    if let Some(k) = key {
        text::push_str(&mut args, "-i");
        text::push_str(&mut args, k);
    }
    let addr = target.address();
    text::push_str(&mut args, addr.as_str());
    text::push_str(&mut args, command);
    args
}

/// Run on the remote: expands `~`, makes the directory, and prints its absolute
/// path. All in one round-trip.
pub open spec fn prep_script(remote_dir: Seq<char>, subdir: Option<Seq<char>>) -> Seq<char> {
    match subdir {
        Some(sub) => "d="@ + single_quoted(remote_dir) + "; d=\"${d/#~/$HOME}\"; t=\"$d\"/"@
            + single_quoted(sub) + "; mkdir -p \"$t\" && cd \"$t\" && pwd"@,
        None => "d="@ + single_quoted(remote_dir)
            + "; d=\"${d/#~/$HOME}\"; mkdir -p \"$d\" && cd \"$d\" && pwd"@,
    }
}

fn build_prep_script(remote_dir: &str, subdir: Option<&str>) -> (r: String)
    ensures
        r@ == prep_script(remote_dir@, text::opt_str(subdir)),
{
    let mut s = "d=".to_owned();
    let q = shell_single_quote(remote_dir);
    s.append(q.as_str());
    match subdir {
        Some(sub) => {
            s.append("; d=\"${d/#~/$HOME}\"; t=\"$d\"/");
            let qs = shell_single_quote(sub);
            s.append(qs.as_str());
            s.append("; mkdir -p \"$t\" && cd \"$t\" && pwd");
        },
        None => {
            s.append("; d=\"${d/#~/$HOME}\"; mkdir -p \"$d\" && cd \"$d\" && pwd");
        },
    }
    s
}

/// What the preparation of the remote directory came to: its absolute path, or
/// what went wrong.
pub open spec fn prep_result(success: bool, stdout: Seq<char>, stderr: Seq<char>) -> Result<
    Seq<char>,
    Seq<char>,
> {
    if !success {
        Err("ssh remote prep failed: "@ + text::trim(stderr))
    } else if text::trim(stdout).len() == 0 {
        Err("remote dir resolution returned empty"@)
    } else {
        Ok(text::trim(stdout))
    }
}

pub open spec fn result_view(r: Result<String, String>) -> Result<Seq<char>, Seq<char>> {
    match r {
        Ok(s) => Ok(s@),
        Err(e) => Err(e@),
    }
}

pub fn prep_reply(success: bool, stdout: &str, stderr: &str) -> (r: Result<String, String>)
    ensures
        result_view(r) == prep_result(success, stdout@, stderr@),
{
    if !success {
        let mut e = "ssh remote prep failed: ".to_owned();
        let t = text::trimmed(stderr);
        e.append(t.as_str());
        return Err(e);
    }
    let resolved = text::trimmed(stdout);
    if resolved.as_str().is_empty() {
        return Err("remote dir resolution returned empty".to_owned());
    }
    Ok(resolved)
}

/// Run on the remote: says `MISS` where the file does not exist, else `HIT` and
/// the first free `name-N.ext`.
pub open spec fn collision_script(
    remote_dir: Seq<char>,
    subdir: Option<Seq<char>>,
    basename: Seq<char>,
) -> Seq<char> {
    "d="@ + single_quoted(remote_dir) + "; d=\"${d/#~/$HOME}\"; t=\"$d\""@ + (match subdir {
        Some(sub) => "/"@ + single_quoted(sub),
        None => seq![],
    }) + "; base="@ + single_quoted(basename) + COLLISION_TAIL@
}

pub const COLLISION_TAIL: &'static str =
    "; stem=\"${base%.*}\"; ext=\"${base##*.}\"; if [ \"$base\" = \"$ext\" ]; then ext=\"\"; else ext=\".$ext\"; fi; if [ -e \"$t/$base\" ]; then n=1; while [ -e \"$t/$stem-$n$ext\" ]; do n=$((n+1)); done; echo \"HIT $stem-$n$ext\"; else echo MISS; fi";

fn build_collision_script(remote_dir: &str, subdir: Option<&str>, basename: &str) -> (r: String)
    ensures
        r@ == collision_script(remote_dir@, text::opt_str(subdir), basename@),
{
    let mut s = "d=".to_owned();
    let q = shell_single_quote(remote_dir);
    s.append(q.as_str());
    s.append("; d=\"${d/#~/$HOME}\"; t=\"$d\"");
    let sub = match subdir {
        Some(sub) => {
            let mut x = "/".to_owned();
            let qs = shell_single_quote(sub);
            x.append(qs.as_str());
            x
        },
        None => {
            let x = String::new();
            assert(x@ =~= seq![]);
            x
        },
    };
    s.append(sub.as_str());
    s.append("; base=");
    let qb = shell_single_quote(basename);
    s.append(qb.as_str());
    s.append(COLLISION_TAIL);
    s
}

/// The arguments of the `ssh` that checks whether
/// `<remote_dir>/<subdir>/<basename>` exists on `target`.
pub fn check_collision(
    target: &Target,
    key: Option<&str>,
    subdir: Option<&str>,
    basename: &str,
) -> (r: Vec<String>)
    ensures
        text::strs(r@) == ssh_command(
            "ConnectTimeout=10"@,
            false,
            target@,
            text::opt_str(key),
            collision_script(target@.remote_dir, text::opt_str(subdir), basename@),
        ),
{
    let script = build_collision_script(target.remote_dir.as_str(), subdir, basename);
    ssh_command_args("ConnectTimeout=10", false, target, key, script.as_str())
}

/// What the check came to: the rename to suggest where the file exists. A reply
/// that makes no sense is taken for a collision, to be safe.
pub open spec fn collision_result(
    success: bool,
    stdout: Seq<char>,
    stderr: Seq<char>,
    basename: Seq<char>,
) -> Result<Option<Seq<char>>, Seq<char>> {
    let out = text::trim(stdout);
    if !success {
        Err("ssh collision check failed: "@ + text::trim(stderr))
    } else if out == "MISS"@ {
        Ok(None)
    } else {
        match text::after_prefix(out, "HIT "@) {
            Some(rest) => Ok(Some(rest)),
            None => Ok(Some(basename + ".new"@)),
        }
    }
}

/// Whether the file exists, and what to rename it to if it does.
pub fn collision_reply(success: bool, stdout: &str, stderr: &str, basename: &str) -> (r: Result<
    (bool, Option<String>),
    String,
>)
    ensures
        match r {
            Ok((hit, rename)) => hit == rename is Some && collision_result(
                success,
                stdout@,
                stderr@,
                basename@,
            ) == Ok::<Option<Seq<char>>, Seq<char>>(text::opt(rename)),
            Err(e) => collision_result(success, stdout@, stderr@, basename@) == Err::<
                Option<Seq<char>>,
                Seq<char>,
            >(e@),
        },
{
    if !success {
        let mut e = "ssh collision check failed: ".to_owned();
        let t = text::trimmed(stderr);
        e.append(t.as_str());
        return Err(e);
    }
    let out = text::trimmed(stdout);
    if text::same(out.as_str(), "MISS") {
        return Ok((false, None));
    }
    match text::strip_prefix(out.as_str(), "HIT ") {
        Some(rest) => Ok((true, Some(rest))),
        None => {
            let mut n = basename.to_owned();
            n.append(".new");
            Ok((true, Some(n)))
        },
    }
}

/// The arguments of the `ssh` that merely sees whether a target can be reached.
pub fn preflight(target: &Target, key: Option<&str>) -> (r: Vec<String>)
    ensures
        text::strs(r@) == ssh_command(
            "ConnectTimeout=5"@,
            true,
            target@,
            text::opt_str(key),
            "true"@,
        ),
{
    ssh_command_args("ConnectTimeout=5", true, target, key, "true")
}

/// What that came to, given whether rsync is installed locally.
pub fn preflight_reply(local_rsync: bool, success: bool, stderr: &str) -> (r: Result<(), String>)
    ensures
        match r {
            Ok(_) => local_rsync && success,
            Err(e) => if !local_rsync {
                e@ == "rsync not installed locally"@
            } else {
                !success && e@ == "ssh unreachable: "@ + text::trim(stderr@)
            },
        },
{
    if !local_rsync {
        return Err("rsync not installed locally".to_owned());
    }
    if !success {
        let mut e = "ssh unreachable: ".to_owned();
        let t = text::trimmed(stderr);
        e.append(t.as_str());
        return Err(e);
    }
    Ok(())
}

/// Exits with 66 where ssh works but rsync is missing.
pub const RSYNC_PROBE: &'static str =
    "if command -v rsync >/dev/null 2>&1; then exit 0; else exit 66; fi";

/// The arguments of the `ssh` that sees whether a target can be reached and has
/// rsync.
pub fn preflight_full(target: &Target, key: Option<&str>) -> (r: Vec<String>)
    ensures
        text::strs(r@) == ssh_command(
            "ConnectTimeout=6"@,
            true,
            target@,
            text::opt_str(key),
            RSYNC_PROBE@,
        ),
{
    ssh_command_args("ConnectTimeout=6", true, target, key, RSYNC_PROBE)
}

/// What is wrong with a target, given whether rsync is installed locally and how
/// the probe exited.
pub open spec fn preflight_problem(local_rsync: bool, code: Option<i32>, stderr: Seq<char>) -> Option<
    Seq<char>,
> {
    let e = text::trim(stderr);
    if !local_rsync {
        Some("rsync not installed locally"@)
    } else if code == Some(0i32) {
        None
    } else if code == Some(66i32) {
        Some("rsync not found on remote"@)
    } else if e.len() == 0 {
        Some("ssh unreachable"@)
    } else {
        Some("ssh unreachable: "@ + e)
    }
}

pub fn preflight_full_reply(local_rsync: bool, code: Option<i32>, stderr: &str) -> (r: Result<
    (),
    String,
>)
    ensures
        match r {
            Ok(_) => preflight_problem(local_rsync, code, stderr@) is None,
            Err(e) => preflight_problem(local_rsync, code, stderr@) == Some(e@),
        },
{
    if !local_rsync {
        return Err("rsync not installed locally".to_owned());
    }
    let c: i32 = match code {
        Some(c) => c,
        None => -1,
    };
    if c == 0 {
        return Ok(());
    }
    if c == 66 {
        return Err("rsync not found on remote".to_owned());
    }
    let t = text::trimmed(stderr);
    if t.as_str().is_empty() {
        Err("ssh unreachable".to_owned())
    } else {
        let mut e = "ssh unreachable: ".to_owned();
        e.append(t.as_str());
        Err(e)
    }
}

/// Run on the remote: picks the right package manager and installs rsync,
/// preferring passwordless sudo; falls back to plain (already root).
pub const INSTALL_SCRIPT: &'static str =
    "set -e
                if command -v rsync >/dev/null 2>&1; then
                    exit 0
                fi
                sudo() { if [ \"$(id -u)\" = \"0\" ]; then \"$@\"; else command sudo -n \"$@\"; fi; }
                if command -v apt-get >/dev/null 2>&1; then
                    sudo apt-get update -qq && sudo apt-get install -y rsync
                elif command -v dnf >/dev/null 2>&1; then
                    sudo dnf install -y rsync
                elif command -v yum >/dev/null 2>&1; then
                    sudo yum install -y rsync
                elif command -v apk >/dev/null 2>&1; then
                    sudo apk add --no-cache rsync
                elif command -v pacman >/dev/null 2>&1; then
                    sudo pacman -Sy --noconfirm rsync
                elif command -v zypper >/dev/null 2>&1; then
                    sudo zypper install -y rsync
                elif command -v brew >/dev/null 2>&1; then
                    brew install rsync
                else
                    echo \"no supported package manager found\" >&2
                    exit 1
                fi
                command -v rsync >/dev/null 2>&1";

/// The arguments of the `ssh` that installs rsync on the remote host. Uses
/// `sudo -n` (non-interactive) — if sudo needs a password, installation fails.
pub fn remote_install_rsync(target: &Target, key: Option<&str>) -> (r: Vec<String>)
    ensures
        text::strs(r@) == ssh_command(
            "ConnectTimeout=10"@,
            false,
            target@,
            text::opt_str(key),
            INSTALL_SCRIPT@,
        ),
{
    ssh_command_args("ConnectTimeout=10", false, target, key, INSTALL_SCRIPT)
}

pub fn install_reply(success: bool, stderr: &str) -> (r: Result<(), String>)
    ensures
        match r {
            Ok(_) => success,
            Err(e) => !success && e@ == text::trim(stderr@),
        },
{
    if success {
        Ok(())
    } else {
        Err(text::trimmed(stderr))
    }
}

/// What rsync calls to reach the host.
pub open spec fn ssh_option(t: TargetView, key: Option<Seq<char>>) -> Seq<char> {
    "ssh -p "@ + text::decimal(t.port() as nat) + (match key {
        Some(k) => " -i "@ + k,
        None => seq![],
    }) + " -o BatchMode=no -o StrictHostKeyChecking=accept-new"@
}

fn build_ssh_option(target: &Target, key: Option<&str>) -> (r: String)
    ensures
        r@ == ssh_option(target@, text::opt_str(key)),
{
    let mut s = "ssh -p ".to_owned();
    let port = text::to_decimal(target.ssh_port() as u64);
    s.append(port.as_str());
    let k = match key {
        Some(k) => {
            let mut x = " -i ".to_owned();
            x.append(k);
            x
        },
        None => {
            let x = String::new();
            assert(x@ =~= seq![]);
            x
        },
    };
    s.append(k.as_str());
    s.append(" -o BatchMode=no -o StrictHostKeyChecking=accept-new");
    s
}

/// Where rsync sends to: a directory, or a file of another name in it.
pub open spec fn destination(t: TargetView, dir: Seq<char>, rename: Option<Seq<char>>) -> Seq<char> {
    t.address() + ":"@ + dir + "/"@ + (match rename {
        Some(n) => n,
        None => seq![],
    })
}

/// The arguments of rsync. `--info=progress2` gives live progress, `--partial`
/// lets failed transfers resume, `-r` is needed for directories, and `--iconv`
/// converts the file names of macOS. An rsync without `--info` still tells the
/// progress of each file.
pub open spec fn rsync_args(
    t: TargetView,
    key: Option<Seq<char>>,
    local: Seq<char>,
    dir: Seq<char>,
    rename: Option<Seq<char>>,
    flags: RsyncFlags,
) -> Seq<Seq<char>> {
    let progress = if flags.info {
        "--info=progress2"@
    } else {
        "--progress"@
    };
    let head = seq![progress, "--partial"@, "-r"@];
    let conv = if flags.iconv {
        head.push("--iconv=utf-8-mac,utf-8"@)
    } else {
        head
    };
    conv.push("-e"@).push(ssh_option(t, key)).push(local).push(destination(t, dir, rename))
}

pub fn build_rsync_args(
    target: &Target,
    key: Option<&str>,
    local: &str,
    dir: &str,
    rename: Option<&str>,
    flags: RsyncFlags,
) -> (r: Vec<String>)
    ensures
        text::strs(r@) == rsync_args(
            target@,
            text::opt_str(key),
            local@,
            dir@,
            text::opt_str(rename),
            flags,
        ),
{
    let mut args = text::no_strs();
    if flags.info {
        text::push_str(&mut args, "--info=progress2");
    } else {
        text::push_str(&mut args, "--progress");
    }
    text::push_str(&mut args, "--partial");
    text::push_str(&mut args, "-r");
    if flags.iconv {
        text::push_str(&mut args, "--iconv=utf-8-mac,utf-8");
    }
    text::push_str(&mut args, "-e");
    let opt = build_ssh_option(target, key);
    text::push_str(&mut args, opt.as_str());
    text::push_str(&mut args, local);
    let mut dest = target.address();
    dest.append(":");
    dest.append(dir);
    dest.append("/");
    match rename {
        Some(n) => {
            dest.append(n);
        },
        None => {
            assert(dest@ + seq![] =~= dest@);
        },
    }
    text::push_str(&mut args, dest.as_str());
    args
}

// ---------------------------------------------------------------------------
// How rsync ended
// ---------------------------------------------------------------------------
pub open spec fn exit_meaning(code: i32) -> Seq<char> {
    if code == 1 {
        "syntax or usage error (wrong rsync option?)"@
    } else if code == 2 {
        "protocol incompatibility"@
    } else if code == 3 {
        "file selection error"@
    } else if code == 5 {
        "error starting client-server protocol"@
    } else if code == 10 {
        "socket / network error"@
    } else if code == 11 {
        "file I/O error"@
    } else if code == 12 {
        "data stream error"@
    } else if code == 13 {
        "diagnostic-only error"@
    } else if code == 14 {
        "ipc code error"@
    } else if code == 20 {
        "received SIGUSR1 or SIGINT"@
    } else if code == 23 {
        "partial transfer (some files could not be copied)"@
    } else if code == 24 {
        "source files vanished before transfer"@
    } else if code == 30 {
        "timeout in data send/receive"@
    } else if code == 35 {
        "timeout waiting for connection"@
    } else if code == 127 {
        "rsync not found on remote or local"@
    } else {
        "see above"@
    }
}

pub fn explain_rsync_exit(code: i32) -> (r: &'static str)
    ensures
        r@ == exit_meaning(code),
{
    match code {
        1 => "syntax or usage error (wrong rsync option?)",
        2 => "protocol incompatibility",
        3 => "file selection error",
        5 => "error starting client-server protocol",
        10 => "socket / network error",
        11 => "file I/O error",
        12 => "data stream error",
        13 => "diagnostic-only error",
        14 => "ipc code error",
        20 => "received SIGUSR1 or SIGINT",
        23 => "partial transfer (some files could not be copied)",
        24 => "source files vanished before transfer",
        30 => "timeout in data send/receive",
        35 => "timeout waiting for connection",
        127 => "rsync not found on remote or local",
        _ => "see above",
    }
}

/// The last of the lines that holds more than blanks.
pub open spec fn last_telling(lines: Seq<Seq<char>>) -> Option<Seq<char>>
    decreases lines.len(),
{
    if lines.len() == 0 {
        None
    } else if text::trim(lines.last()).len() > 0 {
        Some(lines.last())
    } else {
        last_telling(lines.drop_last())
    }
}

/// What there is to say about a failed rsync: the last thing it said, else what
/// its exit code means.
pub open spec fn failure_detail(code: i32, captured: Seq<char>) -> Seq<char> {
    if captured.len() == 0 {
        exit_meaning(code)
    } else {
        match last_telling(text::lines(captured)) {
            Some(l) => l,
            None => captured,
        }
    }
}

fn find_telling(captured: &str) -> (r: Option<String>)
    ensures
        text::opt(r) == last_telling(text::lines(captured@)),
{
    let lines = text::split_lines(captured);
    let ghost ls = text::strs(lines@);
    let mut i: usize = lines.len();
    assert(ls.take(i as int) =~= ls);
    while i > 0
        invariant
            i <= lines@.len(),
            ls == text::strs(lines@),
            ls == text::lines(captured@),
            last_telling(ls) == last_telling(ls.take(i as int)),
        decreases i,
    {
        assert(ls.take(i as int).drop_last() =~= ls.take(i - 1));
        assert(ls.take(i as int).last() == lines@[i - 1]@);
        let t = text::trimmed(lines[i - 1].as_str());
        if !t.as_str().is_empty() {
            return Some(lines[i - 1].clone());
        }
        i = i - 1;
    }
    None
}

pub open spec fn failure_text(code: i32, captured: Seq<char>) -> Seq<char> {
    "rsync exit "@ + text::signed_decimal(code as int) + ": "@ + failure_detail(code, captured)
}

pub fn explain_failure(code: i32, captured: &str) -> (r: String)
    ensures
        r@ == failure_text(code, captured@),
{
    let mut r = "rsync exit ".to_owned();
    let n = text::to_signed_decimal(code);
    r.append(n.as_str());
    r.append(": ");
    if captured.is_empty() {
        r.append(explain_rsync_exit(code));
    } else {
        match find_telling(captured) {
            Some(l) => {
                r.append(l.as_str());
            },
            None => {
                r.append(captured);
            },
        }
    }
    r
}

// ---------------------------------------------------------------------------
// Progress
// ---------------------------------------------------------------------------
#[derive(Debug, PartialEq, Eq)]
pub struct Progress {
    pub bytes: u64,
    pub percent: u8,
    pub rate: String,
}

pub ghost struct ProgressView {
    pub bytes: u64,
    pub percent: u8,
    pub rate: Seq<char>,
}

impl View for Progress {
    type V = ProgressView;

    open spec fn view(&self) -> ProgressView {
        ProgressView { bytes: self.bytes, percent: self.percent, rate: self.rate@ }
    }
}

/// Bytes (with commas), percent, and rate, as `rsync --progress` prints them.
pub const PROGRESS_PATTERN: &'static str =
    r"^\s*([\d,]+)\s+(\d{1,3})%\s+([\d.]+\s*[KMGT]?B/s)";

/// The progress that the groups of a match spell; none where a number does not
/// fit.
pub open spec fn progress_of(groups: Option<Seq<Option<Seq<char>>>>) -> Option<ProgressView> {
    match groups {
        Some(g) => if g.len() < 4 {
            None
        } else {
            match (g[1], g[2], g[3]) {
                (Some(b), Some(p), Some(rate)) => match (
                    text::unsigned(text::replace(b, ","@, ""@), u64::MAX as nat),
                    text::unsigned(p, 255),
                ) {
                    (Some(bytes), Some(percent)) => Some(
                        ProgressView { bytes: bytes as u64, percent: percent as u8, rate },
                    ),
                    _ => None,
                },
                _ => None,
            }
        },
        None => None,
    }
}

pub open spec fn progress_view(p: Option<Progress>) -> Option<ProgressView> {
    match p {
        Some(p) => Some(p@),
        None => None,
    }
}

pub fn progress_from_groups(groups: &Vec<Option<String>>) -> (r: Option<Progress>)
    ensures
        progress_view(r) == progress_of(Some(text::opts(groups@))),
{
    if groups.len() < 4 {
        return None;
    }
    let ghost g = text::opts(groups@);
    assert(g[1] == text::opt(groups@[1]));
    assert(g[2] == text::opt(groups@[2]));
    assert(g[3] == text::opt(groups@[3]));
    match (&groups[1], &groups[2], &groups[3]) {
        (Some(b), Some(p), Some(rate)) => {
            proof {
                reveal_strlit(",");
            }
            let plain = text::replaced(b.as_str(), ",", "");
            match (
                text::parse_unsigned(plain.as_str(), 0xffff_ffff_ffff_ffff),
                text::parse_unsigned(p.as_str(), 255),
            ) {
                (Some(bytes), Some(percent)) => Some(
                    Progress { bytes, percent: percent as u8, rate: rate.clone() },
                ),
                _ => None,
            }
        },
        _ => None,
    }
}

pub open spec fn line_progress(line: Seq<char>) -> Option<ProgressView> {
    progress_of(outside::captures(PROGRESS_PATTERN@, line))
}

/// Parse a line like:
/// `     1,234,567  45%   12.34MB/s    0:00:03`
pub fn parse_progress_line(line: &str) -> (r: Option<Progress>)
    ensures
        progress_view(r) == line_progress(line@),
{
    match outside::capture_groups(PROGRESS_PATTERN, line) {
        Some(g) => progress_from_groups(&g),
        None => None,
    }
}

/// What a line of rsync's output announces: progress, or the line itself unless
/// it is blank.
pub open spec fn line_event(id: u64, line: Seq<char>) -> Option<TransferEventView> {
    match line_progress(line) {
        Some(p) => Some(
            TransferEventView::Progress { id, bytes: p.bytes, percent: p.percent, rate: p.rate },
        ),
        None => if text::trim(line).len() > 0 {
            Some(TransferEventView::Line { id, line: text::trim(line) })
        } else {
            None
        },
    }
}

pub open spec fn event_view(e: Option<TransferEvent>) -> Option<TransferEventView> {
    match e {
        Some(e) => Some(e@),
        None => None,
    }
}

pub fn emit_line(id: u64, line: &str) -> (r: Option<TransferEvent>)
    ensures
        event_view(r) == line_event(id, line@),
{
    match parse_progress_line(line) {
        Some(p) => Some(
            TransferEvent::Progress { id, bytes: p.bytes, percent: p.percent, rate: p.rate },
        ),
        None => {
            let t = text::trimmed(line);
            if t.as_str().is_empty() {
                None
            } else {
                Some(TransferEvent::Line { id, line: t })
            }
        },
    }
}

/// How an announced line stands in a verbose log.
pub open spec fn verbose_text(e: TransferEventView) -> Option<Seq<char>> {
    match e {
        TransferEventView::Progress { id, bytes, percent, rate } => Some(
            "id="@ + text::decimal(id as nat) + " progress "@ + text::decimal(percent as nat)
                + "% "@ + text::decimal(bytes as nat) + "B "@ + rate,
        ),
        TransferEventView::Line { id, line } => Some(
            "id="@ + text::decimal(id as nat) + " stdout "@ + line,
        ),
        _ => None,
    }
}

fn id_prefix(id: u64) -> (r: String)
    ensures
        r@ == "id="@ + text::decimal(id as nat),
{
    let mut r = "id=".to_owned();
    let n = text::to_decimal(id);
    r.append(n.as_str());
    r
}

pub fn verbose_line(e: &TransferEvent) -> (r: Option<String>)
    ensures
        text::opt(r) == verbose_text(e@),
{
    match e {
        TransferEvent::Progress { id, bytes, percent, rate } => {
            let mut r = id_prefix(*id);
            r.append(" progress ");
            let p = text::to_decimal(*percent as u64);
            r.append(p.as_str());
            r.append("% ");
            let b = text::to_decimal(*bytes);
            r.append(b.as_str());
            r.append("B ");
            r.append(rate.as_str());
            Some(r)
        },
        TransferEvent::Line { id, line } => {
            let mut r = id_prefix(*id);
            r.append(" stdout ");
            r.append(line.as_str());
            Some(r)
        },
        _ => None,
    }
}

/// The lines in a stream of bytes that follows `buf`, and what is left over.
/// rsync overwrites its progress line with a carriage return, so both line ends
/// count; empty lines do not.
pub open spec fn stream_lines(buf: Seq<u8>, bytes: Seq<u8>) -> (Seq<Seq<u8>>, Seq<u8>)
    decreases bytes.len(),
{
    if bytes.len() == 0 {
        (seq![], buf)
    } else {
        let (done, cur) = stream_lines(buf, bytes.drop_last());
        let b = bytes.last();
        if b == 10 || b == 13 {
            if cur.len() == 0 {
                (done, cur)
            } else {
                (done.push(cur), seq![])
            }
        } else {
            (done, cur.push(b))
        }
    }
}

/// What the given lines announce.
pub open spec fn stream_events(id: u64, lines: Seq<Seq<u8>>) -> Seq<TransferEventView>
    decreases lines.len(),
{
    if lines.len() == 0 {
        seq![]
    } else {
        let before = stream_events(id, lines.drop_last());
        match line_event(id, outside::utf8_lossy(lines.last())) {
            Some(e) => before.push(e),
            None => before,
        }
    }
}

/// Reads the progress output of one rsync, in whatever pieces it comes.
#[derive(Debug)]
pub struct ProgressReader {
    pub id: u64,
    pub buf: Vec<u8>,
}

fn push_line_event(id: u64, line: &Vec<u8>, out: &mut Vec<TransferEvent>)
    ensures
        text::views(final(out)@) == (match line_event(id, outside::utf8_lossy(line@)) {
            Some(e) => text::views(old(out)@).push(e),
            None => text::views(old(out)@),
        }),
{
    let l = outside::decode_utf8(line);
    if let Some(e) = emit_line(id, l.as_str()) {
        proof {
            text::lemma_views_push(out@, e);
        }
        out.push(e);
    }
}

impl ProgressReader {
    pub fn new(id: u64) -> (r: Self)
        ensures
            r.id == id,
            r.buf@.len() == 0,
    {
        ProgressReader { id, buf: Vec::new() }
    }

    /// Takes in more of the output.
    pub fn read(&mut self, bytes: &Vec<u8>) -> (r: Vec<TransferEvent>)
        ensures
            final(self).id == old(self).id,
            final(self).buf@ == stream_lines(old(self).buf@, bytes@).1,
            text::views(r@) == stream_events(
                old(self).id,
                stream_lines(old(self).buf@, bytes@).0,
            ),
    {
        let mut out: Vec<TransferEvent> = Vec::new();
        assert(text::views(out@) =~= seq![]);
        let ghost buf0 = self.buf@;
        let ghost id = self.id;
        let mut i: usize = 0;
        while i < bytes.len()
            invariant
                i <= bytes@.len(),
                self.id == id,
                id == old(self).id,
                self.buf@ == stream_lines(buf0, bytes@.take(i as int)).1,
                text::views(out@) == stream_events(
                    id,
                    stream_lines(buf0, bytes@.take(i as int)).0,
                ),
            decreases bytes@.len() - i,
        {
            let ghost t = bytes@.take(i + 1);
            assert(t.drop_last() =~= bytes@.take(i as int));
            let ghost done = stream_lines(buf0, bytes@.take(i as int)).0;
            let b = bytes[i];
            if b == 10 || b == 13 {
                if self.buf.len() > 0 {
                    assert(done.push(self.buf@).drop_last() =~= done);
                    push_line_event(self.id, &self.buf, &mut out);
                    self.buf = Vec::new();
                    assert(self.buf@ =~= seq![]);
                }
            } else {
                self.buf.push(b);
            }
            i = i + 1;
        }
        assert(bytes@.take(i as int) =~= bytes@);
        out
    }

    /// The output has ended: what is left over is a line.
    pub fn finish(&mut self) -> (r: Vec<TransferEvent>)
        ensures
            final(self).id == old(self).id,
            final(self).buf@.len() == 0,
            text::views(r@) == (if old(self).buf@.len() == 0 {
                seq![]
            } else {
                stream_events(old(self).id, seq![old(self).buf@])
            }),
    {
        let mut out: Vec<TransferEvent> = Vec::new();
        assert(text::views(out@) =~= seq![]);
        if self.buf.len() > 0 {
            let ghost one = seq![self.buf@];
            assert(one.drop_last() =~= Seq::<Seq<u8>>::empty());
            assert(stream_events(self.id, one.drop_last()) =~= seq![]);
            assert(one.last() == self.buf@);
            push_line_event(self.id, &self.buf, &mut out);
            self.buf = Vec::new();
        }
        out
    }
}

/// It makes no difference in what pieces a stream is read.
pub proof fn law_pieces_make_no_difference(buf: Seq<u8>, a: Seq<u8>, b: Seq<u8>)
    ensures
        ({
            let first = stream_lines(buf, a);
            let second = stream_lines(first.1, b);
            stream_lines(buf, a + b) == (first.0 + second.0, second.1)
        }),
    decreases b.len(),
{
    let first = stream_lines(buf, a);
    if b.len() == 0 {
        assert(a + b =~= a);
        assert(first.0 + Seq::<Seq<u8>>::empty() =~= first.0);
    } else {
        law_pieces_make_no_difference(buf, a, b.drop_last());
        assert((a + b).drop_last() =~= a + b.drop_last());
        assert((a + b).last() == b.last());
        let (done, cur) = stream_lines(first.1, b.drop_last());
        assert(first.0 + done.push(cur) =~= (first.0 + done).push(cur));
    }
}

// ---------------------------------------------------------------------------
// One run
// ---------------------------------------------------------------------------
/// One transfer on its way: first the remote directory is prepared, then rsync
/// runs.
#[derive(Debug)]
pub struct Run {
    pub id: u64,
    pub target: Target,
    pub local: String,
    /// A subdirectory under `target.remote_dir`, so each watch can land in its
    /// own folder (e.g. `~/lzsync-inbox/shots/`).
    pub subdir: Option<String>,
    /// The name the file gets on the remote, where that is not its own.
    pub rename: Option<String>,
    /// The identity file to use.
    pub key: Option<String>,
    pub flags: RsyncFlags,
    /// The absolute remote directory, once it is known.
    pub dir: Option<String>,
    /// What rsync has said on stderr.
    pub stderr: String,
    pub reader: ProgressReader,
}

pub ghost struct RunState {
    pub id: u64,
    pub target: TargetView,
    pub local: Seq<char>,
    pub subdir: Option<Seq<char>>,
    pub rename: Option<Seq<char>>,
    pub key: Option<Seq<char>>,
    pub flags: RsyncFlags,
    pub dir: Option<Seq<char>>,
    pub stderr: Seq<char>,
    pub buf: Seq<u8>,
}

impl View for Run {
    type V = RunState;

    open spec fn view(&self) -> RunState {
        RunState {
            id: self.id,
            target: self.target@,
            local: self.local@,
            subdir: text::opt(self.subdir),
            rename: text::opt(self.rename),
            key: text::opt(self.key),
            flags: self.flags,
            dir: text::opt(self.dir),
            stderr: self.stderr@,
            buf: self.reader.buf@,
        }
    }
}

/// What happened to a transfer's processes.
#[derive(Debug, Clone)]
pub enum RunInput {
    Begin,
    /// The preparing ssh could not be run.
    PrepNotRun(String),
    /// The preparing ssh has ended.
    Prepared { success: bool, stdout: String, stderr: String },
    /// rsync could not be started.
    RsyncNotRun(String),
    /// rsync printed a line on stderr.
    StderrLine(String),
    /// rsync printed bytes on stdout.
    StdoutBytes(Vec<u8>),
    /// rsync closed its stdout.
    StdoutClosed,
    /// rsync could not be waited for.
    WaitFailed(String),
    /// rsync has ended.
    Exited { success: bool, code: Option<i32> },
}

pub ghost enum RunInputView {
    Begin,
    PrepNotRun(Seq<char>),
    Prepared { success: bool, stdout: Seq<char>, stderr: Seq<char> },
    RsyncNotRun(Seq<char>),
    StderrLine(Seq<char>),
    StdoutBytes(Seq<u8>),
    StdoutClosed,
    WaitFailed(Seq<char>),
    Exited { success: bool, code: Option<i32> },
}

impl View for RunInput {
    type V = RunInputView;

    open spec fn view(&self) -> RunInputView {
        match self {
            RunInput::Begin => RunInputView::Begin,
            RunInput::PrepNotRun(e) => RunInputView::PrepNotRun(e@),
            RunInput::Prepared { success, stdout, stderr } => RunInputView::Prepared {
                success: *success,
                stdout: stdout@,
                stderr: stderr@,
            },
            RunInput::RsyncNotRun(e) => RunInputView::RsyncNotRun(e@),
            RunInput::StderrLine(l) => RunInputView::StderrLine(l@),
            RunInput::StdoutBytes(b) => RunInputView::StdoutBytes(b@),
            RunInput::StdoutClosed => RunInputView::StdoutClosed,
            RunInput::WaitFailed(e) => RunInputView::WaitFailed(e@),
            RunInput::Exited { success, code } => RunInputView::Exited {
                success: *success,
                code: *code,
            },
        }
    }
}

/// What to do next.
#[derive(Debug, Clone)]
pub enum RunAction {
    /// Run `ssh` with these arguments, to prepare the remote directory.
    Prepare(Vec<String>),
    /// Run rsync with these arguments.
    Rsync(Vec<String>),
    /// Go on reading and waiting.
    Wait,
    /// Nothing: the transfer is over.
    End,
}

pub ghost enum RunActionView {
    Prepare(Seq<Seq<char>>),
    Rsync(Seq<Seq<char>>),
    Wait,
    End,
}

impl View for RunAction {
    type V = RunActionView;

    open spec fn view(&self) -> RunActionView {
        match self {
            RunAction::Prepare(a) => RunActionView::Prepare(text::strs(a@)),
            RunAction::Rsync(a) => RunActionView::Rsync(text::strs(a@)),
            RunAction::Wait => RunActionView::Wait,
            RunAction::End => RunActionView::End,
        }
    }
}

/// What a transfer announces, writes to the log, and does next.
#[derive(Debug)]
pub struct RunOutput {
    pub events: Vec<TransferEvent>,
    pub log: Vec<String>,
    pub action: RunAction,
}

pub ghost struct RunOutputView {
    pub events: Seq<TransferEventView>,
    pub log: Seq<Seq<char>>,
    pub action: RunActionView,
}

impl View for RunOutput {
    type V = RunOutputView;

    open spec fn view(&self) -> RunOutputView {
        RunOutputView {
            events: text::views(self.events@),
            log: text::strs(self.log@),
            action: self.action@,
        }
    }
}

pub open spec fn or_nothing(o: Option<Seq<char>>) -> Seq<char> {
    match o {
        Some(s) => s,
        None => seq![],
    }
}

pub open spec fn id_text(id: u64) -> Seq<char> {
    "id="@ + text::decimal(id as nat)
}

/// Everything rsync has said on stderr, line by line.
pub open spec fn with_line(captured: Seq<char>, line: Seq<char>) -> Seq<char> {
    if captured.len() == 0 {
        line
    } else {
        captured.push('\n') + line
    }
}

pub open spec fn run_next(s: RunState, i: RunInputView) -> RunState {
    match i {
        RunInputView::Prepared { success, stdout, stderr } => RunState {
            dir: match prep_result(success, stdout, stderr) {
                Ok(d) => Some(d),
                Err(_) => s.dir,
            },
            ..s
        },
        RunInputView::StderrLine(l) => RunState { stderr: with_line(s.stderr, l), ..s },
        RunInputView::StdoutBytes(b) => RunState { buf: stream_lines(s.buf, b).1, ..s },
        RunInputView::StdoutClosed => RunState { buf: seq![], ..s },
        _ => s,
    }
}

pub open spec fn just(events: Seq<TransferEventView>, action: RunActionView) -> RunOutputView {
    RunOutputView { events, log: seq![], action }
}

pub open spec fn failed_run(s: RunState, error: Seq<char>) -> RunOutputView {
    just(seq![TransferEventView::Failed { id: s.id, error }], RunActionView::End)
}

pub open spec fn unresolved_text(s: RunState, e: Seq<char>) -> Seq<char> {
    "resolving remote dir for target '"@ + s.target.name + "': "@ + e
}

/// The verbose log lines of announced output.
pub open spec fn verbose_texts(events: Seq<TransferEventView>) -> Seq<Seq<char>>
    decreases events.len(),
{
    if events.len() == 0 {
        seq![]
    } else {
        let before = verbose_texts(events.drop_last());
        match verbose_text(events.last()) {
            Some(t) => before.push(t),
            None => before,
        }
    }
}

pub open spec fn exit_code(code: Option<i32>) -> i32 {
    match code {
        Some(c) => c,
        None => (-1) as i32,
    }
}

/// What an input makes a transfer announce, log, and do next.
pub open spec fn run_output(s: RunState, i: RunInputView, verbose: bool) -> RunOutputView {
    match i {
        RunInputView::Begin => RunOutputView {
            events: seq![
                TransferEventView::Started {
                    id: s.id,
                    target_name: s.target.name,
                    local: s.local,
                },
            ],
            log: if s.rename is None {
                seq![
                    id_text(s.id) + " target="@ + s.target.name + " local="@ + s.local
                        + " subdir="@ + or_nothing(s.subdir) + " START"@,
                ]
            } else {
                seq![]
            },
            action: RunActionView::Prepare(
                ssh_command(
                    "ConnectTimeout=10"@,
                    false,
                    s.target,
                    s.key,
                    prep_script(s.target.remote_dir, s.subdir),
                ),
            ),
        },
        RunInputView::PrepNotRun(e) => failed_run(s, unresolved_text(s, "ssh mkdir -p: "@ + e)),
        RunInputView::Prepared { success, stdout, stderr } => match prep_result(
            success,
            stdout,
            stderr,
        ) {
            Ok(d) => just(
                seq![],
                RunActionView::Rsync(rsync_args(s.target, s.key, s.local, d, s.rename, s.flags)),
            ),
            Err(e) => failed_run(s, unresolved_text(s, e)),
        },
        RunInputView::RsyncNotRun(e) => failed_run(
            s,
            if s.rename is Some {
                "spawning rsync (rename): "@ + e
            } else {
                "spawning rsync: "@ + e
            },
        ),
        RunInputView::StderrLine(l) => RunOutputView {
            events: seq![TransferEventView::Line { id: s.id, line: l }],
            log: seq![id_text(s.id) + " stderr "@ + l],
            action: RunActionView::Wait,
        },
        RunInputView::StdoutBytes(b) => {
            let events = stream_events(s.id, stream_lines(s.buf, b).0);
            RunOutputView {
                events,
                log: if verbose {
                    verbose_texts(events)
                } else {
                    seq![]
                },
                action: RunActionView::Wait,
            }
        },
        RunInputView::StdoutClosed => {
            let events = if s.buf.len() == 0 {
                seq![]
            } else {
                stream_events(s.id, seq![s.buf])
            };
            RunOutputView {
                events,
                log: if verbose {
                    verbose_texts(events)
                } else {
                    seq![]
                },
                action: RunActionView::Wait,
            }
        },
        RunInputView::WaitFailed(e) => failed_run(s, "rsync wait: "@ + e),
        RunInputView::Exited { success, code } => if success {
            RunOutputView {
                events: seq![
                    TransferEventView::Completed { id: s.id, remote_abs_dir: or_nothing(s.dir) },
                ],
                log: seq![
                    id_text(s.id) + " target="@ + s.target.name + " OK "@ + or_nothing(s.dir),
                ],
                action: RunActionView::End,
            }
        } else {
            RunOutputView {
                events: seq![
                    TransferEventView::Failed {
                        id: s.id,
                        error: failure_text(exit_code(code), s.stderr),
                    },
                ],
                log: seq![
                    id_text(s.id) + " EXIT "@ + text::signed_decimal(exit_code(code) as int),
                ],
                action: RunActionView::End,
            }
        },
    }
}

fn one_event(e: TransferEvent) -> (r: Vec<TransferEvent>)
    ensures
        text::views(r@) == seq![e@],
{
    let mut v: Vec<TransferEvent> = Vec::new();
    v.push(e);
    assert(text::views(v@) =~= seq![e@]);
    v
}

fn no_events() -> (r: Vec<TransferEvent>)
    ensures
        text::views(r@) == Seq::<TransferEventView>::empty(),
{
    let v: Vec<TransferEvent> = Vec::new();
    assert(text::views(v@) =~= Seq::<TransferEventView>::empty());
    v
}

fn one_line(l: &str) -> (r: Vec<String>)
    ensures
        text::strs(r@) == seq![l@],
{
    let mut v = text::no_strs();
    text::push_str(&mut v, l);
    v
}

fn verbose_lines(events: &Vec<TransferEvent>, verbose: bool) -> (r: Vec<String>)
    ensures
        text::strs(r@) == (if verbose {
            verbose_texts(text::views(events@))
        } else {
            seq![]
        }),
{
    let mut out = text::no_strs();
    if !verbose {
        return out;
    }
    let ghost es = text::views(events@);
    let mut i: usize = 0;
    while i < events.len()
        invariant
            i <= events@.len(),
            es == text::views(events@),
            text::strs(out@) == verbose_texts(es.take(i as int)),
        decreases events@.len() - i,
    {
        assert(es.take(i + 1).drop_last() =~= es.take(i as int));
        assert(es.take(i + 1).last() == events@[i as int]@);
        if let Some(l) = verbose_line(&events[i]) {
            text::push_str(&mut out, l.as_str());
        }
        i = i + 1;
    }
    assert(es.take(i as int) =~= es);
    out
}

fn as_slice(o: &Option<String>) -> (r: Option<&str>)
    ensures
        text::opt_str(r) == text::opt(*o),
{
    match o {
        Some(s) => Some(s.as_str()),
        None => None,
    }
}

fn slice_or_nothing(o: &Option<String>) -> (r: &str)
    ensures
        r@ == or_nothing(text::opt(*o)),
{
    match o {
        Some(s) => s.as_str(),
        None => {
            proof {
                reveal_strlit("");
            }
            assert(""@ =~= seq![]);
            ""
        },
    }
}

impl Run {
    /// A transfer of `local` to `target`, with the given identity file.
    pub fn new(
        id: u64,
        target: Target,
        local: String,
        subdir: Option<String>,
        rename: Option<String>,
        key: Option<String>,
        flags: RsyncFlags,
    ) -> (r: Self)
        ensures
            r@ == run_start(
                id,
                target@,
                local@,
                text::opt(subdir),
                text::opt(rename),
                text::opt(key),
                flags,
            ),
            r.reader.id == r.id,
    {
        let r = Run {
            id,
            target,
            local,
            subdir,
            rename,
            key,
            flags,
            dir: None,
            stderr: String::new(),
            reader: ProgressReader::new(id),
        };
        assert(r.stderr@ =~= seq![]);
        assert(r.reader.buf@ =~= seq![]);
        r
    }

    fn fail(&self, error: String) -> (r: RunOutput)
        ensures
            r@ == failed_run(self@, error@),
    {
        RunOutput {
            events: one_event(TransferEvent::Failed { id: self.id, error }),
            log: text::no_strs(),
            action: RunAction::End,
        }
    }

    fn unresolved(&self, e: &str) -> (r: String)
        ensures
            r@ == unresolved_text(self@, e@),
    {
        let mut m = "resolving remote dir for target '".to_owned();
        m.append(self.target.name.as_str());
        m.append("': ");
        m.append(e);
        m
    }

    fn begin(&self) -> (r: RunOutput)
        ensures
            r@ == run_output(self@, RunInputView::Begin, false),
            r@ == run_output(self@, RunInputView::Begin, true),
    {
        let events = one_event(
            TransferEvent::Started {
                id: self.id,
                target_name: self.target.name.clone(),
                local: self.local.clone(),
            },
        );
        let log = if self.rename.is_none() {
            let mut l = id_prefix(self.id);
            l.append(" target=");
            l.append(self.target.name.as_str());
            l.append(" local=");
            l.append(self.local.as_str());
            l.append(" subdir=");
            l.append(slice_or_nothing(&self.subdir));
            l.append(" START");
            one_line(l.as_str())
        } else {
            text::no_strs()
        };
        let script = build_prep_script(self.target.remote_dir.as_str(), as_slice(&self.subdir));
        let args = ssh_command_args(
            "ConnectTimeout=10",
            false,
            &self.target,
            as_slice(&self.key),
            script.as_str(),
        );
        RunOutput { events, log, action: RunAction::Prepare(args) }
    }

    fn exited(&self, success: bool, code: Option<i32>) -> (r: RunOutput)
        ensures
            r@ == run_output(self@, RunInputView::Exited { success, code }, false),
            r@ == run_output(self@, RunInputView::Exited { success, code }, true),
    {
        let mut l = id_prefix(self.id);
        if success {
            let dir = slice_or_nothing(&self.dir);
            l.append(" target=");
            l.append(self.target.name.as_str());
            l.append(" OK ");
            l.append(dir);
            RunOutput {
                events: one_event(
                    TransferEvent::Completed { id: self.id, remote_abs_dir: dir.to_owned() },
                ),
                log: one_line(l.as_str()),
                action: RunAction::End,
            }
        } else {
            let c: i32 = match code {
                Some(c) => c,
                None => -1,
            };
            l.append(" EXIT ");
            let n = text::to_signed_decimal(c);
            l.append(n.as_str());
            RunOutput {
                events: one_event(
                    TransferEvent::Failed {
                        id: self.id,
                        error: explain_failure(c, self.stderr.as_str()),
                    },
                ),
                log: one_line(l.as_str()),
                action: RunAction::End,
            }
        }
    }

    /// Takes in what happened; says what to announce, to log and to do next.
    pub fn step(&mut self, input: RunInput, verbose: bool) -> (r: RunOutput)
        requires
            old(self).reader.id == old(self).id,
        ensures
            final(self).reader.id == final(self).id,
            final(self)@ == run_next(old(self)@, input@),
            r@ == run_output(old(self)@, input@, verbose),
    {
        match input {
            RunInput::Begin => self.begin(),
            RunInput::PrepNotRun(e) => {
                let mut m = "ssh mkdir -p: ".to_owned();
                m.append(e.as_str());
                let u = self.unresolved(m.as_str());
                self.fail(u)
            },
            RunInput::Prepared { success, stdout, stderr } => {
                match prep_reply(success, stdout.as_str(), stderr.as_str()) {
                    Ok(dir) => {
                        let args = build_rsync_args(
                            &self.target,
                            as_slice(&self.key),
                            self.local.as_str(),
                            dir.as_str(),
                            as_slice(&self.rename),
                            self.flags,
                        );
                        self.dir = Some(dir);
                        RunOutput {
                            events: no_events(),
                            log: text::no_strs(),
                            action: RunAction::Rsync(args),
                        }
                    },
                    Err(e) => {
                        let u = self.unresolved(e.as_str());
                        self.fail(u)
                    },
                }
            },
            RunInput::RsyncNotRun(e) => {
                let mut m = if self.rename.is_some() {
                    "spawning rsync (rename): ".to_owned()
                } else {
                    "spawning rsync: ".to_owned()
                };
                m.append(e.as_str());
                self.fail(m)
            },
            RunInput::StderrLine(line) => {
                if self.stderr.as_str().is_empty() {
                    self.stderr = line.clone();
                } else {
                    let mut s = self.stderr.clone();
                    s.push('\n');
                    s.append(line.as_str());
                    self.stderr = s;
                }
                let mut l = id_prefix(self.id);
                l.append(" stderr ");
                l.append(line.as_str());
                RunOutput {
                    events: one_event(TransferEvent::Line { id: self.id, line }),
                    log: one_line(l.as_str()),
                    action: RunAction::Wait,
                }
            },
            RunInput::StdoutBytes(bytes) => {
                let events = self.reader.read(&bytes);
                let log = verbose_lines(&events, verbose);
                RunOutput { events, log, action: RunAction::Wait }
            },
            RunInput::StdoutClosed => {
                let events = self.reader.finish();
                assert(self.reader.buf@ =~= seq![]);
                let log = verbose_lines(&events, verbose);
                RunOutput { events, log, action: RunAction::Wait }
            },
            RunInput::WaitFailed(e) => {
                let mut m = "rsync wait: ".to_owned();
                m.append(e.as_str());
                self.fail(m)
            },
            RunInput::Exited { success, code } => self.exited(success, code),
        }
    }
}

pub open spec fn run_start(
    id: u64,
    target: TargetView,
    local: Seq<char>,
    subdir: Option<Seq<char>>,
    rename: Option<Seq<char>>,
    key: Option<Seq<char>>,
    flags: RsyncFlags,
) -> RunState {
    RunState {
        id,
        target,
        local,
        subdir,
        rename,
        key,
        flags,
        dir: None,
        stderr: seq![],
        buf: seq![],
    }
}

/// Sends `local` to `target` with rsync. `subdir` optionally appends a
/// subdirectory under `target.remote_dir`.
pub fn spawn(
    id: u64,
    target: Target,
    local: String,
    subdir: Option<String>,
    flags: RsyncFlags,
    home: Option<&str>,
) -> (r: Run)
    ensures
        r.reader.id == r.id,
        r@ == run_start(
            id,
            target@,
            local@,
            text::opt(subdir),
            None,
            tunnel::identity_of(target@, text::opt_str(home)),
            flags,
        ),
{
    let key = tunnel::identity_file(&target, home);
    Run::new(id, target, local, subdir, None, key, flags)
}

/// Sends `local` under an explicit destination filename (used by the "rename
/// on collision" flow — rsync's default destination is the same basename).
pub fn spawn_with_rename(
    id: u64,
    target: Target,
    local: String,
    subdir: Option<String>,
    dest_basename: String,
    info: bool,
    home: Option<&str>,
) -> (r: Run)
    ensures
        r.reader.id == r.id,
        r@ == run_start(
            id,
            target@,
            local@,
            text::opt(subdir),
            Some(dest_basename@),
            tunnel::identity_of(target@, text::opt_str(home)),
            (RsyncFlags { info, iconv: false }),
        ),
{
    let key = tunnel::identity_file(&target, home);
    let flags = RsyncFlags { info, iconv: false };
    Run::new(id, target, local, subdir, Some(dest_basename), key, flags)
}

/// A transfer that ends announces last whether it completed or failed, and
/// nothing but the end of rsync completes it.
pub proof fn law_every_run_ends_with_a_verdict(s: RunState, i: RunInputView, verbose: bool)
    requires
        run_output(s, i, verbose).action is End,
    ensures
        ({
            let last = run_output(s, i, verbose).events.last();
            &&& last is Completed || last is Failed
            &&& last is Completed ==> (i matches RunInputView::Exited { success, .. } && success)
        }),
{
}

// ---------------------------------------------------------------------------
// What is done on the remote host
// ---------------------------------------------------------------------------
/// A command goes to the target's host and port, as its user and with its identity
/// file; it runs there just as it was given, and nothing is asked for.
pub proof fn law_commands_run_on_the_target(
    timeout: Seq<char>,
    accept_new: bool,
    t: TargetView,
    key: Option<Seq<char>>,
    command: Seq<char>,
)
    requires
        remote::reachable(t),
    ensures
        remote::runs_on(ssh_command(timeout, accept_new, t, key, command), t, key, command),
        remote::ssh_reads(ssh_command(timeout, accept_new, t, key, command))->Some_0.settings
            .contains(timeout),
{
    reveal_strlit("-o");
    reveal_strlit("-p");
    reveal_strlit("-i");
    let (o, p, i) = (seq!['-', 'o'], seq!['-', 'p'], seq!['-', 'i']);
    assert("-o"@ =~= o);
    assert("-p"@ =~= p);
    assert("-i"@ =~= i);
    let batch = "BatchMode=yes"@;
    let accept = "StrictHostKeyChecking=accept-new"@;
    let port = text::decimal(t.port() as nat);
    let end = seq![t.address()] + seq![command];
    remote::lemma_address(t);
    remote::lemma_login(t.address(), seq![command]);
    let keyed = match key {
        Some(k) => seq![i, k] + end,
        None => end,
    };
    if let Some(k) = key {
        remote::lemma_key(k, end);
    }
    let ported = seq![p, port] + keyed;
    remote::lemma_port(t.port() as nat, keyed);
    let accepting = if accept_new {
        seq![o, accept] + ported
    } else {
        ported
    };
    remote::lemma_setting(accept, ported);
    let timed = seq![o, timeout] + accepting;
    remote::lemma_setting(timeout, accepting);
    let all = seq![o, batch] + timed;
    remote::lemma_setting(batch, timed);
    assert(ssh_command(timeout, accept_new, t, key, command) =~= all);
    let c = remote::ssh_reads(all)->Some_0;
    assert(c.settings[0] == batch);
    assert(c.settings[1] == timeout);
}

/// Where a target's directory lies on a host with that home directory: a leading
/// tilde is the home directory, and a path that is not absolute is seen from there.
pub open spec fn remote_place(
    remote_dir: Seq<char>,
    subdir: Option<Seq<char>>,
    home: Seq<char>,
) -> Seq<char> {
    let d = if remote_dir.len() > 0 && remote_dir[0] == '~' {
        home + remote_dir.skip(1)
    } else {
        remote_dir
    };
    let t = match subdir {
        Some(sub) => d + seq!['/'] + sub,
        None => d,
    };
    if t[0] == '/' {
        t
    } else {
        home + seq!['/'] + t
    }
}

/// Run by a shell on the remote host, the script that prepares a directory makes it,
/// enters it and prints its path: the target's directory with its tilde expanded,
/// and the subdirectory below it where there is one.
pub proof fn law_preparing_makes_the_directory(
    remote_dir: Seq<char>,
    subdir: Option<Seq<char>>,
    home: Seq<char>,
)
    requires
        remote_dir.len() > 0,
        remote_dir[0] != '-',
        home.len() > 0,
        home[0] == '/',
    ensures
        ({
            let dir = remote_place(remote_dir, subdir, home);
            let end = remote::run(prep_script(remote_dir, subdir), remote::logged_in(home));
            &&& end is Some
            &&& end->Some_0.made == Set::<Seq<char>>::empty().insert(dir)
            &&& end->Some_0.cwd == dir
            &&& end->Some_0.out == dir.push('\n')
        }),
{
    let st = remote::logged_in(home);
    let d = remote::tilde_replaced(remote_dir, home);
    assert(d.len() > 0 && d[0] != '-');
    let st2 = remote::Remote {
        vars: st.vars.insert(seq!['d'], remote_dir).insert(seq!['d'], d),
        ..st
    };
    assert(st2.vars[seq!['d']] == d);
    let script = prep_script(remote_dir, subdir);
    reveal_strlit("d=");
    reveal_strlit("; d=\"${d/#~/$HOME}\";");
    reveal_strlit(" mkdir -p \"");
    reveal_strlit("\" && cd \"");
    reveal_strlit("\" && pwd");
    let head = "d="@ + single_quoted(remote_dir) + "; d=\"${d/#~/$HOME}\";"@;
    match subdir {
        None => {
            reveal_strlit("; d=\"${d/#~/$HOME}\"; mkdir -p \"$d\" && cd \"$d\" && pwd");
            let rest = remote::make_and_enter('d');
            assert(script =~= head + rest);
            remote::lemma_expanded_variable(remote_dir, home, rest);
            remote::lemma_made_and_entered('d', st2);
            assert(st2.out + remote_place(remote_dir, subdir, home) + seq!['\n']
                =~= remote_place(remote_dir, subdir, home).push('\n'));
        },
        Some(sub) => {
            reveal_strlit("; d=\"${d/#~/$HOME}\"; t=\"$d\"/");
            reveal_strlit("; mkdir -p \"$t\" && cd \"$t\" && pwd");
            let last = remote::make_and_enter('t');
            let value = seq!['"', '$', 'd', '"'] + (seq!['/'] + single_quoted(sub));
            let rest = seq![' ', 't', '='] + value + (seq![';'] + last);
            assert(script =~= head + rest);
            remote::lemma_expanded_variable(remote_dir, home, rest);
            let t = d + (seq!['/'] + sub);
            remote::lemma_joined_variable('d', sub, seq![';'] + last, st2.vars);
            assert(seq!['"', '$', 'd', '"'] + (seq!['/'] + single_quoted(sub) + (seq![';'] + last))
                =~= value + (seq![';'] + last));
            remote::lemma_assigned('t', value, t, last, st2);
            let st3 = remote::Remote { vars: st2.vars.insert(seq!['t'], t), ..st2 };
            assert(t =~= d + seq!['/'] + sub);
            assert(t[0] == d[0]);
            remote::lemma_made_and_entered('t', st3);
            assert(st3.out + remote_place(remote_dir, subdir, home) + seq!['\n']
                =~= remote_place(remote_dir, subdir, home).push('\n'));
        },
    }
}

/// What rsync is asked to do goes to the target: the file is sent, to the given
/// directory of its host, under its own name or the one given; over an `ssh` that
/// uses the target's port and identity file; with progress, and so that a transfer
/// that failed can be taken up again.
pub proof fn law_rsync_sends_to_the_target(
    t: TargetView,
    key: Option<Seq<char>>,
    local: Seq<char>,
    dir: Seq<char>,
    rename: Option<Seq<char>>,
    flags: RsyncFlags,
)
    requires
        remote::reachable(t),
        !t.address().contains(':'),
        key is Some ==> remote::solid(key->Some_0),
    ensures
        ({
            let args = rsync_args(t, key, local, dir, rename, flags);
            let n = args.len() as int;
            let dest = args[n - 1];
            let ssh = text::words(args[n - 3]);
            let call = remote::ssh_reads(ssh.skip(1) + seq![remote::rsync_host(dest)]);
            &&& n >= 4
            &&& args[n - 2] == local
            &&& remote::user_of(remote::rsync_host(dest)) == t.user
            &&& remote::host_of(remote::rsync_host(dest)) == t.host
            &&& remote::rsync_path(dest) == (match rename {
                Some(name) => dir + seq!['/'] + name,
                None => dir + seq!['/'],
            })
            &&& args[n - 4] == "-e"@
            &&& ssh[0] == "ssh"@
            &&& call is Some
            &&& remote::reaches(call->Some_0, t, key)
            &&& args.contains("--partial"@)
            &&& args.contains("-r"@)
            &&& flags.info ==> args.contains("--info=progress2"@)
            &&& !flags.info ==> args.contains("--progress"@)
            &&& flags.iconv ==> args.contains("--iconv=utf-8-mac,utf-8"@)
            &&& !flags.iconv ==> n == 7
        }),
{
    let args = rsync_args(t, key, local, dir, rename, flags);
    let n = args.len() as int;
    let dest = args[n - 1];
    reveal_strlit(":");
    reveal_strlit("/");
    let name = match rename {
        Some(name) => name,
        None => seq![],
    };
    let path = dir + seq!['/'] + name;
    assert(dest =~= t.address() + seq![':'] + path);
    remote::lemma_rsync_dest(t.address(), path);
    if rename is None {
        assert(path =~= dir + seq!['/']);
    }
    remote::lemma_address(t);
    lemma_ssh_option(t, key);
    assert(args[1] == "--partial"@);
    assert(args[2] == "-r"@);
    assert(args[0] == "--info=progress2"@ || args[0] == "--progress"@);
    if flags.iconv {
        assert(args[3] == "--iconv=utf-8-mac,utf-8"@);
    }
}

proof fn lemma_ssh_option(t: TargetView, key: Option<Seq<char>>)
    requires
        remote::reachable(t),
        key is Some ==> remote::solid(key->Some_0),
    ensures
        ({
            let ssh = text::words(ssh_option(t, key));
            let call = remote::ssh_reads(ssh.skip(1) + seq![t.address()]);
            &&& ssh.len() > 0
            &&& ssh[0] == "ssh"@
            &&& call is Some
            &&& remote::reaches(call->Some_0, t, key)
        }),
{
    reveal_strlit("ssh -p ");
    reveal_strlit(" -i ");
    reveal_strlit(" -o BatchMode=no -o StrictHostKeyChecking=accept-new");
    reveal_strlit("ssh");
    let (o, p, i) = (seq!['-', 'o'], seq!['-', 'p'], seq!['-', 'i']);
    reveal_strlit("BatchMode=no");
    reveal_strlit("StrictHostKeyChecking=accept-new");
    let a = "BatchMode=no"@;
    let b = "StrictHostKeyChecking=accept-new"@;
    let port = text::decimal(t.port() as nat);
    text::lemma_decimal_read_back(t.port() as nat);
    assert(remote::solid(port)) by {
        assert forall|j: int| 0 <= j < port.len() implies !text::is_white(#[trigger] port[j]) by {
            assert(text::is_digit(port[j]));
        }
    }
    let sp = seq![' '];
    let w5 = b;
    remote::lemma_words_in_front(b, seq![]);
    let w4 = o + sp + w5;
    remote::lemma_words_in_front(o, w5);
    let w3 = a + sp + w4;
    remote::lemma_words_in_front(a, w4);
    let w2 = o + sp + w3;
    remote::lemma_words_in_front(o, w3);
    let settings = seq![o] + (seq![a] + (seq![o] + seq![b]));
    let (wk, keyed) = match key {
        Some(k) => (i + sp + (k + sp + w2), seq![i] + (seq![k] + settings)),
        None => (w2, settings),
    };
    if let Some(k) = key {
        remote::lemma_words_in_front(k, w2);
        remote::lemma_words_in_front(i, k + sp + w2);
    }
    remote::lemma_words_in_front(port, wk);
    remote::lemma_words_in_front(p, port + sp + wk);
    remote::lemma_words_in_front("ssh"@, p + sp + (port + sp + wk));
    let full = "ssh"@ + sp + (p + sp + (port + sp + wk));
    assert(ssh_option(t, key) =~= full);
    let ssh = seq!["ssh"@] + (seq![p] + (seq![port] + keyed));
    assert(text::words(ssh_option(t, key)) == ssh);
    let end = seq![t.address()];
    remote::lemma_address(t);
    remote::lemma_login(t.address(), seq![]);
    assert(end + Seq::<Seq<char>>::empty() =~= end);
    remote::lemma_setting(b, end);
    remote::lemma_setting(a, seq![o, b] + end);
    let s2 = seq![o, a] + (seq![o, b] + end);
    let s3 = match key {
        Some(k) => seq![i, k] + s2,
        None => s2,
    };
    if let Some(k) = key {
        remote::lemma_key(k, s2);
    }
    remote::lemma_port(t.port() as nat, s3);
    assert(ssh.skip(1) + end =~= seq![p, port] + s3);
}

/// A run that was started begins by announcing itself and by preparing the
/// directory: on the target, with its identity file, the directory that the target
/// names is made, entered and printed.
pub proof fn law_a_run_begins_on_the_target(
    id: u64,
    t: TargetView,
    local: Seq<char>,
    subdir: Option<Seq<char>>,
    rename: Option<Seq<char>>,
    key: Option<Seq<char>>,
    flags: RsyncFlags,
    home: Seq<char>,
    verbose: bool,
)
    requires
        remote::reachable(t),
        t.remote_dir.len() > 0,
        t.remote_dir[0] != '-',
        home.len() > 0,
        home[0] == '/',
    ensures
        ({
            let out = run_output(
                run_start(id, t, local, subdir, rename, key, flags),
                RunInputView::Begin,
                verbose,
            );
            let call = remote::ssh_reads(out.action->Prepare_0);
            let end = remote::run(call->Some_0.command[0], remote::logged_in(home));
            let dir = remote_place(t.remote_dir, subdir, home);
            &&& out.action is Prepare
            &&& call is Some
            &&& remote::reaches(call->Some_0, t, key)
            &&& call->Some_0.command.len() == 1
            &&& end is Some
            &&& end->Some_0.made.contains(dir)
            &&& end->Some_0.out == dir.push('\n')
            &&& out.events == seq![
                TransferEventView::Started { id, target_name: t.name, local },
            ]
        }),
{
    let script = prep_script(t.remote_dir, subdir);
    law_commands_run_on_the_target("ConnectTimeout=10"@, false, t, key, script);
    law_preparing_makes_the_directory(t.remote_dir, subdir, home);
}

/// What rsync says while it runs.
pub open spec fn is_talk(i: RunInputView) -> bool {
    i is StderrLine || i is StdoutBytes || i is StdoutClosed
}

/// The state after several inputs.
pub open spec fn run_after(s: RunState, inputs: Seq<RunInputView>) -> RunState
    decreases inputs.len(),
{
    if inputs.len() == 0 {
        s
    } else {
        run_next(run_after(s, inputs.drop_last()), inputs.last())
    }
}

proof fn lemma_talk_keeps_the_rest(s: RunState, talk: Seq<RunInputView>)
    requires
        forall|i: int| 0 <= i < talk.len() ==> is_talk(#[trigger] talk[i]),
    ensures
        run_after(s, talk) == (RunState {
            stderr: run_after(s, talk).stderr,
            buf: run_after(s, talk).buf,
            ..s
        }),
    decreases talk.len(),
{
    if talk.len() > 0 {
        let init = talk.drop_last();
        assert forall|i: int| 0 <= i < init.len() implies is_talk(#[trigger] init[i]) by {
            assert(init[i] == talk[i]);
        }
        assert(is_talk(talk[talk.len() - 1]));
        lemma_talk_keeps_the_rest(s, init);
    }
}

/// The directory that the remote host printed is the one that the file is sent to,
/// and the one that a run completes with, whatever rsync says meanwhile.
pub proof fn law_a_run_completes_where_it_sent(
    s: RunState,
    dir: Seq<char>,
    stderr: Seq<char>,
    talk: Seq<RunInputView>,
    code: Option<i32>,
    verbose: bool,
)
    requires
        dir.len() > 0,
        text::trim(dir.push('\n')) == dir,
        forall|i: int| 0 <= i < talk.len() ==> is_talk(#[trigger] talk[i]),
        remote::reachable(s.target),
        !s.target.address().contains(':'),
        s.key is Some ==> remote::solid(s.key->Some_0),
    ensures
        ({
            let prepared = RunInputView::Prepared {
                success: true,
                stdout: dir.push('\n'),
                stderr,
            };
            let out = run_output(s, prepared, verbose);
            let args = out.action->Rsync_0;
            let dest = args[args.len() - 1];
            let later = run_after(run_next(s, prepared), talk);
            let end = run_output(later, RunInputView::Exited { success: true, code }, verbose);
            &&& out.action is Rsync
            &&& args[args.len() - 2] == s.local
            &&& remote::rsync_path(dest) == (match s.rename {
                Some(name) => dir + seq!['/'] + name,
                None => dir + seq!['/'],
            })
            &&& remote::host_of(remote::rsync_host(dest)) == s.target.host
            &&& remote::user_of(remote::rsync_host(dest)) == s.target.user
            &&& end.events == seq![
                TransferEventView::Completed { id: s.id, remote_abs_dir: dir },
            ]
            &&& end.action is End
        }),
{
    law_rsync_sends_to_the_target(s.target, s.key, s.local, dir, s.rename, s.flags);
    let prepared = RunInputView::Prepared { success: true, stdout: dir.push('\n'), stderr };
    lemma_talk_keeps_the_rest(run_next(s, prepared), talk);
}

proof fn lemma_last_line(before: Seq<char>, line: Seq<char>)
    requires
        line.len() > 0,
        !line.contains('\n'),
    ensures
        with_line(before, line).len() > 0,
        text::lines(with_line(before, line)).len() > 0,
        text::lines(with_line(before, line)).last() == line,
{
    let s = with_line(before, line);
    text::lemma_one_line(line, '\n');
    if before.len() > 0 {
        assert(s =~= before + seq!['\n'] + line);
        text::lemma_split_joined(before, line, '\n');
    }
}

/// An rsync that fails makes the run fail, and the message holds the exit code and,
/// where rsync said something, the last line of it.
pub proof fn law_a_failed_run_says_why(
    s: RunState,
    line: Seq<char>,
    code: i32,
    verbose: bool,
)
    requires
        text::trim(line).len() > 0,
        !line.contains('\n'),
    ensures
        ({
            let said = run_next(s, RunInputView::StderrLine(line));
            let end = run_output(
                said,
                RunInputView::Exited { success: false, code: Some(code) },
                verbose,
            );
            let error = end.events[0]->Failed_error;
            &&& end.action is End
            &&& end.events.len() == 1
            &&& end.events[0] is Failed
            &&& end.events[0]->Failed_id == s.id
            &&& error.len() >= line.len()
            &&& error.skip(error.len() - line.len()) == line
            &&& text::contains(error, text::signed_decimal(code as int))
        }),
{
    let said = run_next(s, RunInputView::StderrLine(line));
    let captured = said.stderr;
    lemma_last_line(s.stderr, line);
    let ls = text::lines(captured);
    assert(last_telling(ls) == Some(line));
    let error = failure_text(code, captured);
    let head = "rsync exit "@ + text::signed_decimal(code as int) + ": "@;
    assert(error == head + line);
    assert(error.skip(error.len() - line.len()) =~= line);
    reveal_strlit("rsync exit ");
    let d = text::signed_decimal(code as int);
    assert(error.subrange(11, 11 + d.len() as int) =~= d);
    assert(text::occurs_at(error, d, 11));
}

// ---------------------------------------------------------------------------
// What the remote host answers
// ---------------------------------------------------------------------------
/// Starts and ends with a character that is not blank.
pub open spec fn tight(s: Seq<char>) -> bool {
    s.len() > 0 && !text::is_white(s[0]) && !text::is_white(s.last())
}

/// What the remote shell prints once it has made and entered the directory is where the
/// file then goes. If that failed, what `ssh` said is told.
pub proof fn law_the_printed_directory_is_used(
    remote_dir: Seq<char>,
    subdir: Option<Seq<char>>,
    home: Seq<char>,
    stderr: Seq<char>,
)
    requires
        remote_dir.len() > 0,
        remote_dir[0] != '-',
        home.len() > 0,
        home[0] == '/',
        tight(remote_place(remote_dir, subdir, home)),
    ensures
        ({
            let end = remote::run(prep_script(remote_dir, subdir), remote::logged_in(home));
            &&& prep_result(true, end->Some_0.out, stderr) == Ok::<Seq<char>, Seq<char>>(
                remote_place(remote_dir, subdir, home),
            )
            &&& prep_result(false, end->Some_0.out, stderr) is Err
            &&& text::contains(
                prep_result(false, end->Some_0.out, stderr)->Err_0,
                text::trim(stderr),
            )
        }),
{
    law_preparing_makes_the_directory(remote_dir, subdir, home);
    let dir = remote_place(remote_dir, subdir, home);
    let none = Seq::<char>::empty();
    text::law_trim(none, dir, seq!['\n']);
    assert(none + dir + seq!['\n'] =~= dir.push('\n'));
    let head = "ssh remote prep failed: "@;
    text::lemma_contains_within(head, text::trim(stderr), none);
    assert(head + text::trim(stderr) + none =~= head + text::trim(stderr));
}

/// Whether a file is there already is looked for where it would be sent to: the script
/// begins by setting `t` to the target's directory, with its tilde expanded and the
/// subdirectory behind it, and `base` to the name of the file. What follows is the same
/// for every file.
#[verifier::spinoff_prover]
#[verifier::rlimit(60)]
pub proof fn law_files_are_looked_for_in_place(
    remote_dir: Seq<char>,
    subdir: Option<Seq<char>>,
    basename: Seq<char>,
    home: Seq<char>,
)
    ensures
        ({
            let script = collision_script(remote_dir, subdir, basename);
            let n = script.len() - COLLISION_TAIL@.len();
            let begun = remote::run(script.take(n), remote::logged_in(home));
            let dir = remote::tilde_replaced(remote_dir, home);
            &&& script.skip(n) == COLLISION_TAIL@
            &&& begun is Some
            &&& begun->Some_0.vars[seq!['t']] == (match subdir {
                Some(sub) => dir + seq!['/'] + sub,
                None => dir,
            })
            &&& begun->Some_0.vars[seq!['b', 'a', 's', 'e']] == basename
            &&& begun->Some_0.made == Set::<Seq<char>>::empty()
        }),
{
    reveal_strlit("d=");
    reveal_strlit("; d=\"${d/#~/$HOME}\";");
    reveal_strlit("; d=\"${d/#~/$HOME}\"; t=\"$d\"");
    reveal_strlit("; base=");
    reveal_strlit("/");
    let script = collision_script(remote_dir, subdir, basename);
    let n = script.len() - COLLISION_TAIL@.len();
    assert(script.skip(n) =~= COLLISION_TAIL@);
    let base = seq!['b', 'a', 's', 'e'];
    let st = remote::logged_in(home);
    let d = remote::tilde_replaced(remote_dir, home);
    let st2 = remote::Remote {
        vars: st.vars.insert(seq!['d'], remote_dir).insert(seq!['d'], d),
        ..st
    };
    assert(st2.vars[seq!['d']] == d);
    let head = "d="@ + single_quoted(remote_dir) + "; d=\"${d/#~/$HOME}\";"@;
    let end = seq![' '] + base + seq!['='] + single_quoted(basename);
    let tail = seq![';'] + end;
    let quoted = seq!['"', '$', 'd', '"'];
    let (value, t) = match subdir {
        Some(sub) => (quoted + (seq!['/'] + single_quoted(sub)), d + seq!['/'] + sub),
        None => (quoted, d),
    };
    match subdir {
        Some(sub) => {
            remote::lemma_joined_variable('d', sub, tail, st2.vars);
            assert(quoted + (seq!['/'] + single_quoted(sub) + tail) =~= value + tail);
            assert(d + (seq!['/'] + sub) =~= t);
        },
        None => {
            remote::lemma_plain_variable('d', tail, st2.vars);
        },
    }
    let rest = seq![' ', 't', '='] + value + tail;
    assert(script.take(n) =~= head + rest);
    remote::lemma_expanded_variable(remote_dir, home, rest);
    remote::lemma_assigned('t', value, t, end, st2);
    let st3 = remote::Remote { vars: st2.vars.insert(seq!['t'], t), ..st2 };
    remote::lemma_named(base, basename, st3);
    assert(base != seq!['t']) by {
        assert(base.len() == 4);
    }
}

/// Where the file is not there yet it is sent under its own name. Where it is, the name
/// that the remote host found free is suggested; an answer that cannot be read counts as
/// a file that is there, with a name to suggest that differs.
pub proof fn law_free_names_are_suggested(
    name: Seq<char>,
    other: Seq<char>,
    stderr: Seq<char>,
    basename: Seq<char>,
)
    requires
        tight(name),
        !text::contains(other, "MISS"@),
        !text::contains(other, "HIT "@),
    ensures
        collision_result(true, "MISS"@.push('\n'), stderr, basename) == Ok::<
            Option<Seq<char>>,
            Seq<char>,
        >(None),
        collision_result(true, ("HIT "@ + name).push('\n'), stderr, basename) == Ok::<
            Option<Seq<char>>,
            Seq<char>,
        >(Some(name)),
        collision_result(true, other, stderr, basename) matches Ok(Some(n)) && n != basename
            && basename.is_prefix_of(n),
        collision_result(false, other, stderr, basename) is Err,
        text::contains(
            collision_result(false, other, stderr, basename)->Err_0,
            text::trim(stderr),
        ),
{
    reveal_strlit("MISS");
    reveal_strlit("HIT ");
    reveal_strlit(".new");
    let none = Seq::<char>::empty();
    text::law_trim(none, "MISS"@, seq!['\n']);
    assert(none + "MISS"@ + seq!['\n'] =~= "MISS"@.push('\n'));
    let hit = "HIT "@ + name;
    assert(hit.last() == name.last());
    text::law_trim(none, hit, seq!['\n']);
    assert(none + hit + seq!['\n'] =~= hit.push('\n'));
    assert(hit[0] == 'H' && "MISS"@[0] == 'M');
    assert(hit.skip(4) =~= name);
    assert("HIT "@ =~= hit.take(4));
    let out = text::trim(other);
    lemma_trimmed_part(other);
    let (a, b) = choose|a: Seq<char>, b: Seq<char>| other == #[trigger] (a + out + b);
    if out == "MISS"@ {
        text::lemma_contains_within(a, "MISS"@, b);
    }
    if "HIT "@.is_prefix_of(out) {
        let rest = out.skip(4);
        assert(out =~= "HIT "@ + rest);
        text::lemma_contains_within(a, "HIT "@, rest + b);
        assert(a + "HIT "@ + (rest + b) =~= other);
    }
    let n = basename + ".new"@;
    assert(basename =~= n.subrange(0, basename.len() as int));
    assert(n.len() == basename.len() + 4);
    let head = "ssh collision check failed: "@;
    text::lemma_contains_within(head, text::trim(stderr), none);
    assert(head + text::trim(stderr) + none =~= head + text::trim(stderr));
}

proof fn lemma_trimmed_part(s: Seq<char>)
    ensures
        exists|a: Seq<char>, b: Seq<char>| s == #[trigger] (a + text::trim(s) + b),
{
    lemma_start_part(s);
    let t = text::trim_start(s, text::CharClass::White);
    lemma_end_part(t);
    let a = choose|a: Seq<char>| s == #[trigger] (a + t);
    let b = choose|b: Seq<char>| t == #[trigger] (text::trim_end(t, text::CharClass::White) + b);
    assert(s =~= a + text::trim(s) + b);
}

proof fn lemma_start_part(s: Seq<char>)
    ensures
        exists|a: Seq<char>| s == #[trigger] (a + text::trim_start(s, text::CharClass::White)),
    decreases s.len(),
{
    let t = text::trim_start(s, text::CharClass::White);
    if s.len() == 0 || !text::CharClass::White.has(s[0]) {
        assert(s =~= Seq::<char>::empty() + t);
    } else {
        let rest = s.drop_first();
        lemma_start_part(rest);
        assert(t == text::trim_start(rest, text::CharClass::White));
        let a = choose|a: Seq<char>| rest == #[trigger] (a + t);
        assert(seq![s[0]] + (a + t) =~= (seq![s[0]] + a) + t);
        assert(s =~= seq![s[0]] + rest);
    }
}

proof fn lemma_end_part(s: Seq<char>)
    ensures
        exists|b: Seq<char>| s == #[trigger] (text::trim_end(s, text::CharClass::White) + b),
    decreases s.len(),
{
    let t = text::trim_end(s, text::CharClass::White);
    if s.len() == 0 || !text::CharClass::White.has(s.last()) {
        assert(s =~= t + Seq::<char>::empty());
    } else {
        let rest = s.drop_last();
        lemma_end_part(rest);
        assert(t == text::trim_end(rest, text::CharClass::White));
        let b = choose|b: Seq<char>| rest == #[trigger] (t + b);
        assert((t + b).push(s.last()) =~= t + b.push(s.last()));
        assert(s =~= rest.push(s.last()));
    }
}

/// A target is fit for transfers just where rsync is installed here and the probe on the
/// remote host succeeds. An exit code of the probe's own says that rsync is missing
/// there, and any other failure that the host cannot be reached, with what `ssh` said.
pub proof fn law_fit_targets(local_rsync: bool, code: Option<i32>, stderr: Seq<char>)
    ensures
        preflight_problem(local_rsync, code, stderr) is None <==> local_rsync && code == Some(0i32),
        local_rsync && code == Some(66i32) ==> preflight_problem(local_rsync, code, stderr)
            == Some("rsync not found on remote"@),
        text::contains(RSYNC_PROBE@, "exit 66"@),
        text::contains(RSYNC_PROBE@, "command -v rsync"@),
        local_rsync && code != Some(0i32) && code != Some(66i32) ==> text::contains(
            preflight_problem(local_rsync, code, stderr)->Some_0,
            "ssh unreachable"@,
        ) && text::contains(
            preflight_problem(local_rsync, code, stderr)->Some_0,
            text::trim(stderr),
        ),
{
    lemma_probe();
    lemma_unreachable(text::trim(stderr));
}

proof fn lemma_unreachable(e: Seq<char>)
    ensures
        text::contains("ssh unreachable"@, "ssh unreachable"@),
        text::contains("ssh unreachable: "@ + e, "ssh unreachable"@),
        text::contains("ssh unreachable: "@ + e, e),
        e.len() == 0 ==> text::contains("ssh unreachable"@, e),
{
    let none = Seq::<char>::empty();
    let u = "ssh unreachable"@;
    let long = "ssh unreachable: "@ + e;
    assert(text::contains(u, u)) by {
        text::lemma_contains_within(none, u, none);
        assert(none + u + none =~= u);
    }
    assert(text::contains(long, u)) by {
        reveal_strlit("ssh unreachable");
        reveal_strlit("ssh unreachable: ");
        let tail = seq![':', ' '] + e;
        text::lemma_contains_within(none, u, tail);
        assert(none + u + tail =~= long);
    }
    assert(text::contains(long, e)) by {
        text::lemma_contains_within("ssh unreachable: "@, e, none);
        assert("ssh unreachable: "@ + e + none =~= long);
    }
    if e.len() == 0 {
        text::lemma_contains_within(none, e, u);
        assert(none + e + u =~= u);
    }
}

proof fn lemma_probe()
    ensures
        text::contains(RSYNC_PROBE@, "exit 66"@),
        text::contains(RSYNC_PROBE@, "command -v rsync"@),
{
    let probe = RSYNC_PROBE@;
    reveal_strlit("if command -v rsync >/dev/null 2>&1; then exit 0; else exit 66; fi");
    assert(probe.len() == 66);
    assert(text::contains(probe, "command -v rsync"@)) by {
        reveal_strlit("command -v rsync");
        assert("command -v rsync"@ =~= probe.subrange(3, 19));
        text::lemma_contains_within(probe.take(3), "command -v rsync"@, probe.skip(19));
        assert(probe.take(3) + "command -v rsync"@ + probe.skip(19) =~= probe);
    }
    assert(text::contains(probe, "exit 66"@)) by {
        reveal_strlit("exit 66");
        assert("exit 66"@ =~= probe.subrange(55, 62));
        text::lemma_contains_within(probe.take(55), "exit 66"@, probe.skip(62));
        assert(probe.take(55) + "exit 66"@ + probe.skip(62) =~= probe);
    }
}

// ---------------------------------------------------------------------------
// What rsync prints
// ---------------------------------------------------------------------------
/// Bytes without a line end.
pub open spec fn one_row(bytes: Seq<u8>) -> bool {
    forall|i: int| 0 <= i < bytes.len() ==> #[trigger] bytes[i] != 10 && bytes[i] != 13
}

proof fn lemma_row(buf: Seq<u8>, bytes: Seq<u8>)
    requires
        one_row(bytes),
    ensures
        stream_lines(buf, bytes) == (Seq::<Seq<u8>>::empty(), buf + bytes),
    decreases bytes.len(),
{
    if bytes.len() == 0 {
        assert(buf + bytes =~= buf);
    } else {
        let init = bytes.drop_last();
        assert(one_row(init)) by {
            assert forall|i: int| 0 <= i < init.len() implies #[trigger] init[i] != 10 && init[i]
                != 13 by {
                assert(init[i] == bytes[i]);
            }
        }
        lemma_row(buf, init);
        assert(bytes[bytes.len() - 1] == bytes.last());
        assert((buf + init).push(bytes.last()) =~= buf + bytes);
    }
}

/// Rows are taken as they come, whether a line feed or a carriage return ends them, each
/// one whole and in order; what has no end yet is kept for later.
pub proof fn law_rows_are_read_whole(first: Seq<u8>, second: Seq<u8>, rest: Seq<u8>, feed: bool)
    requires
        one_row(first),
        one_row(second),
        one_row(rest),
        first.len() > 0,
        second.len() > 0,
    ensures
        ({
            let end: u8 = if feed {
                10
            } else {
                13
            };
            let none = Seq::<u8>::empty();
            &&& stream_lines(none, first.push(end)) == (seq![first], none)
            &&& stream_lines(none, first.push(end) + second.push(end) + rest) == (
                seq![first, second],
                rest,
            )
            &&& stream_lines(first, second.push(end)) == (seq![first + second], none)
        }),
{
    let end: u8 = if feed {
        10
    } else {
        13
    };
    let none = Seq::<u8>::empty();
    lemma_row(none, first);
    assert(none + first =~= first);
    let a = first.push(end);
    assert(a.drop_last() =~= first);
    assert(Seq::<Seq<u8>>::empty().push(first) =~= seq![first]);
    assert(stream_lines(none, a) == (seq![first], none));
    lemma_row(none, second);
    assert(none + second =~= second);
    let b = second.push(end);
    assert(b.drop_last() =~= second);
    assert(Seq::<Seq<u8>>::empty().push(second) =~= seq![second]);
    lemma_row(first, second);
    assert(Seq::<Seq<u8>>::empty().push(first + second) =~= seq![first + second]);
    lemma_row(none, rest);
    assert(none + rest =~= rest);
    law_pieces_make_no_difference(none, a, b);
    law_pieces_make_no_difference(none, a + b, rest);
    assert(seq![first] + seq![second] =~= seq![first, second]);
    assert(seq![first, second] + Seq::<Seq<u8>>::empty() =~= seq![first, second]);
}

/// The numbers of a progress row are read as what they spell, thousands set apart by
/// commas or not.
pub proof fn law_progress_is_read(
    whole: Option<Seq<char>>,
    a: Seq<char>,
    b: Seq<char>,
    bytes: u64,
    percent: u8,
    rate: Seq<char>,
)
    requires
        a + b == text::decimal(bytes as nat),
    ensures
        ({
            let p = text::decimal(percent as nat);
            let read = Some(ProgressView { bytes, percent, rate });
            &&& progress_of(Some(seq![whole, Some(a + b), Some(p), Some(rate)])) == read
            &&& progress_of(Some(seq![whole, Some(a + seq![','] + b), Some(p), Some(rate)]))
                == read
        }),
{
    reveal_strlit(",");
    reveal_strlit("");
    let d = text::decimal(bytes as nat);
    let comma = seq![','];
    let none = Seq::<char>::empty();
    assert(","@ =~= comma);
    assert(""@ =~= none);
    text::lemma_decimal_read_back(bytes as nat);
    text::lemma_unsigned_read_back(bytes as nat, u64::MAX as nat);
    text::lemma_unsigned_read_back(percent as nat, 255);
    assert forall|i: int| 0 <= i < d.len() implies !comma.is_prefix_of(#[trigger] d.skip(i)) by {
        assert(text::is_digit(d[i]));
        if comma.is_prefix_of(d.skip(i)) {
            assert(d.skip(i).subrange(0, 1)[0] == d[i]);
        }
    }
    text::law_replace_nothing(d, comma, none);
    let s = a + comma + b;
    assert forall|i: int| 0 <= i < a.len() implies !comma.is_prefix_of(#[trigger] s.skip(i)) by {
        assert(d[i] == a[i]);
        assert(text::is_digit(d[i]));
        if comma.is_prefix_of(s.skip(i)) {
            assert(s.skip(i).subrange(0, 1)[0] == s[i]);
        }
    }
    text::law_replace(a, comma, b, none);
    assert forall|i: int| 0 <= i < b.len() implies !comma.is_prefix_of(#[trigger] b.skip(i)) by {
        assert(d[a.len() + i] == b[i]);
        assert(text::is_digit(d[a.len() + i]));
        if comma.is_prefix_of(b.skip(i)) {
            assert(b.skip(i).subrange(0, 1)[0] == b[i]);
        }
    }
    text::law_replace_nothing(b, comma, none);
    assert(a + none + b =~= d);
}

/// The version of the local rsync is read as the numbers that it spells; one that is not
/// given is zero.
pub proof fn law_rsync_versions_are_read(whole: Option<Seq<char>>, a: u32, b: u32, c: u32)
    ensures
        ({
            let (x, y, z) = (
                text::decimal(a as nat),
                text::decimal(b as nat),
                text::decimal(c as nat),
            );
            &&& version_of(Some(seq![whole, Some(x), Some(y), Some(z)])) == (a, b, c)
            &&& version_of(Some(seq![whole, Some(x), Some(y), None])) == (a, b, 0u32)
        }),
{
    text::lemma_unsigned_read_back(a as nat, u32::MAX as nat);
    text::lemma_unsigned_read_back(b as nat, u32::MAX as nat);
    text::lemma_unsigned_read_back(c as nat, u32::MAX as nat);
}

/// The first rsync that exists is taken, in the order of the candidates, and the system's
/// own where none does.
pub proof fn law_the_first_rsync_is_taken(
    candidates: Seq<Seq<char>>,
    exists: Seq<bool>,
    i: int,
)
    requires
        candidates.len() == exists.len(),
        0 <= i <= candidates.len(),
        forall|j: int| 0 <= j < i ==> !#[trigger] exists[j],
        i < exists.len() ==> exists[i],
    ensures
        i < candidates.len() ==> chosen_rsync(candidates, exists) == candidates[i],
        i == candidates.len() ==> chosen_rsync(candidates, exists) == "rsync"@,
    decreases candidates.len(),
{
    if candidates.len() > 0 && i > 0 {
        assert(!exists[0]);
        let e = exists.drop_first();
        assert forall|j: int| 0 <= j < i - 1 implies !#[trigger] e[j] by {
            assert(e[j] == exists[j + 1]);
        }
        law_the_first_rsync_is_taken(candidates.drop_first(), e, i - 1);
    }
}

/// Each row that rsync prints is announced as soon as it is complete: as progress where it
/// tells progress, and else as it is, without the blanks around it. The last row counts
/// even if nothing ends it. The log holds it only if it is to be verbose.
pub proof fn law_rows_are_announced(s: RunState, row: Seq<u8>, feed: bool, verbose: bool)
    requires
        s.buf.len() == 0,
        one_row(row),
        row.len() > 0,
    ensures
        ({
            let end: u8 = if feed {
                10
            } else {
                13
            };
            let out = run_output(s, RunInputView::StdoutBytes(row.push(end)), verbose);
            let open = run_next(s, RunInputView::StdoutBytes(row));
            let last = run_output(open, RunInputView::StdoutClosed, verbose);
            let line = outside::utf8_lossy(row);
            &&& out.action is Wait
            &&& line_progress(line) matches Some(p) ==> out.events == seq![
                TransferEventView::Progress {
                    id: s.id,
                    bytes: p.bytes,
                    percent: p.percent,
                    rate: p.rate,
                },
            ]
            &&& line_progress(line) is None && text::trim(line).len() > 0 ==> out.events == seq![
                TransferEventView::Line { id: s.id, line: text::trim(line) },
            ]
            &&& line_progress(line) is None && text::trim(line).len() == 0 ==> out.events.len()
                == 0
            &&& last.events == out.events
            &&& !verbose ==> out.log.len() == 0
            &&& verbose ==> out.log.len() == out.events.len()
        }),
{
    let end: u8 = if feed {
        10
    } else {
        13
    };
    let none = Seq::<u8>::empty();
    assert(s.buf =~= none);
    lemma_row(none, row);
    assert(none + row =~= row);
    assert(row.push(end).drop_last() =~= row);
    assert(Seq::<Seq<u8>>::empty().push(row) =~= seq![row]);
    assert(stream_lines(none, row.push(end)).0 == seq![row]);
    let lines = seq![row];
    assert(lines.drop_last() =~= Seq::<Seq<u8>>::empty());
    assert(stream_events(s.id, lines.drop_last()) =~= Seq::<TransferEventView>::empty());
    let events = stream_events(s.id, lines);
    match line_event(s.id, outside::utf8_lossy(row)) {
        Some(e) => {
            assert(events =~= seq![e]);
            assert(events.drop_last() =~= Seq::<TransferEventView>::empty());
            assert(verbose_texts(events.drop_last()) =~= Seq::<Seq<char>>::empty());
            assert(events.last() == e);
        },
        None => {
            assert(verbose_texts(events) =~= Seq::<Seq<char>>::empty());
        },
    }
}

/// Whatever keeps a transfer from running ends it, and the reason is told; what rsync says
/// on the way is passed on.
pub proof fn law_what_fails_is_told(s: RunState, e: Seq<char>, verbose: bool)
    ensures
        ({
            let prep = run_output(s, RunInputView::PrepNotRun(e), verbose);
            let sync = run_output(s, RunInputView::RsyncNotRun(e), verbose);
            let wait = run_output(s, RunInputView::WaitFailed(e), verbose);
            let said = run_output(s, RunInputView::StderrLine(e), verbose);
            &&& prep.action is End && prep.events.len() == 1
            &&& prep.events[0] matches TransferEventView::Failed { id, error } && id == s.id
                && text::contains(error, e)
            &&& sync.action is End && sync.events.len() == 1
            &&& sync.events[0] matches TransferEventView::Failed { id, error } && id == s.id
                && text::contains(error, e)
            &&& wait.action is End && wait.events.len() == 1
            &&& wait.events[0] matches TransferEventView::Failed { id, error } && id == s.id
                && text::contains(error, e)
            &&& said.action is Wait && said.events == seq![
                TransferEventView::Line { id: s.id, line: e },
            ]
        }),
{
    let none = Seq::<char>::empty();
    let head = "resolving remote dir for target '"@ + s.target.name + "': "@;
    assert(text::contains(unresolved_text(s, "ssh mkdir -p: "@ + e), e)) by {
        text::lemma_contains_within(head + "ssh mkdir -p: "@, e, none);
        assert(head + "ssh mkdir -p: "@ + e + none =~= head + ("ssh mkdir -p: "@ + e));
    }
    assert(text::contains("spawning rsync (rename): "@ + e, e)) by {
        text::lemma_contains_within("spawning rsync (rename): "@, e, none);
        assert("spawning rsync (rename): "@ + e + none =~= "spawning rsync (rename): "@ + e);
    }
    assert(text::contains("spawning rsync: "@ + e, e)) by {
        text::lemma_contains_within("spawning rsync: "@, e, none);
        assert("spawning rsync: "@ + e + none =~= "spawning rsync: "@ + e);
    }
    assert(text::contains("rsync wait: "@ + e, e)) by {
        text::lemma_contains_within("rsync wait: "@, e, none);
        assert("rsync wait: "@ + e + none =~= "rsync wait: "@ + e);
    }
}

/// The rsync that comes with the program is looked for beside the program first, and then
/// in the home directory.
pub proof fn law_bundled_rsyncs_lie_beside(
    dir: Seq<char>,
    program: Seq<char>,
    home: Option<Seq<char>>,
)
    requires
        dir.len() > 1,
        dir.last() != '/',
        dir.last() != '.',
        program.len() > 1,
        !program.contains('/'),
    ensures
        ({
            let places = bundled_places(Some(dir + seq!['/'] + program), home);
            &&& places[0] == dir + seq!['/'] + "lzsync-rsync"@
            &&& home is Some ==> places.len() == 2 && text::contains(places[1], "lzsync-rsync"@)
                && (home->Some_0).is_prefix_of(places[1])
            &&& home is None ==> places.len() == 1
        }),
{
    reveal_strlit("lzsync-rsync");
    reveal_strlit(".local/share/lzsync/lzsync-rsync");
    let name = "lzsync-rsync"@;
    paths::law_the_parent_is_the_directory(dir, program);
    let places = bundled_places(Some(dir + seq!['/'] + program), home);
    assert(places[0] =~= dir + seq!['/'] + name);
    if let Some(h) = home {
        let tail = ".local/share/lzsync/lzsync-rsync"@;
        let none = Seq::<char>::empty();
        let p = paths::joined(h, tail);
        let front = p.take(p.len() - 12);
        assert(tail.skip(20) =~= name);
        assert(p =~= front + name + none);
        text::lemma_contains_within(front, name, none);
        assert(h =~= p.subrange(0, h.len() as int));
    }
}

} // verus!
