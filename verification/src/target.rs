//! Transfer targets, groups of them, watched folders and forwarded ports, as the
//! configuration names them.
use vstd::prelude::*;

use crate::text;

verus! {

#[derive(Debug)]
pub struct Target {
    pub name: String,
    pub host: String,
    pub user: Option<String>,
    pub remote_dir: String,
    pub ssh_port: Option<u16>,
    pub ssh_key: Option<String>,
    pub clipboard_format: Option<ClipboardFormat>,
}

#[derive(Debug, Clone)]
pub struct Group {
    pub name: String,
    pub targets: Vec<String>,
    pub primary: Option<String>,
}

#[derive(Debug, Clone, Copy, PartialEq, Eq, Structural)]
pub enum ClipboardFormat {
    RemotePath,
    ScpStyle,
    SshPath,
    Custom,
}

#[derive(Debug, Clone, Copy, PartialEq, Eq, Structural)]
pub enum SyncMode {
    Auto,
    Manual,
}

/// One monitored directory. Files matching `patterns` that land in `path` are
/// auto-synced to every name in `targets`. Multi-instance safety is enforced
/// via a per-folder lock; see `crate::watch::LockHandle`.
#[derive(Debug)]
pub struct WatchConfig {
    pub name: String,
    pub path: String,
    pub targets: Vec<String>,
    pub patterns: Vec<String>,
    pub catchup: CatchupMode,
    pub enabled: bool,
    pub debounce_ms: u64,
    pub recursive: bool,
    pub on_conflict: ConflictAction,
}

#[derive(Debug, Clone, Copy, PartialEq, Eq, Structural)]
pub enum CatchupMode {
    /// Show an "N new since X" badge; the user presses `r` to sync the batch.
    Prompt,
    /// Sync every file whose mtime is newer than the last recorded `last_seen`.
    Auto,
    /// Treat everything already on disk as baseline; never auto-sync the past.
    Ignore,
}

/// What to do with a watched file whose name is already taken on the remote.
#[derive(Debug, Clone, Copy, PartialEq, Eq, Structural)]
pub enum ConflictAction {
    /// Send it under a fresh name.
    Rename,
    /// Replace the remote file.
    Overwrite,
    /// Leave the remote file alone.
    Skip,
}

/// One forwarded port: connections to `bind_address:local_port` are carried
/// through `target` to `remote_host:remote_port`.
#[derive(Debug, Clone)]
pub struct TunnelConfig {
    pub name: String,
    pub target: String,
    pub local_port: u16,
    pub remote_host: String,
    pub remote_port: u16,
    pub bind_address: String,
    pub autostart: bool,
}

pub ghost struct TargetView {
    pub name: Seq<char>,
    pub host: Seq<char>,
    pub user: Option<Seq<char>>,
    pub remote_dir: Seq<char>,
    pub ssh_port: Option<u16>,
    pub ssh_key: Option<Seq<char>>,
    pub clipboard_format: Option<ClipboardFormat>,
}

impl View for Target {
    type V = TargetView;

    open spec fn view(&self) -> TargetView {
        TargetView {
            name: self.name@,
            host: self.host@,
            user: text::opt(self.user),
            remote_dir: self.remote_dir@,
            ssh_port: self.ssh_port,
            ssh_key: text::opt(self.ssh_key),
            clipboard_format: self.clipboard_format,
        }
    }
}

pub ghost struct GroupView {
    pub name: Seq<char>,
    pub targets: Seq<Seq<char>>,
    pub primary: Option<Seq<char>>,
}

impl View for Group {
    type V = GroupView;

    open spec fn view(&self) -> GroupView {
        GroupView {
            name: self.name@,
            targets: text::strs(self.targets@),
            primary: text::opt(self.primary),
        }
    }
}

pub ghost struct WatchView {
    pub name: Seq<char>,
    pub path: Seq<char>,
    pub targets: Seq<Seq<char>>,
    pub patterns: Seq<Seq<char>>,
    pub catchup: CatchupMode,
    pub enabled: bool,
    pub debounce_ms: u64,
    pub recursive: bool,
    pub on_conflict: ConflictAction,
}

impl View for WatchConfig {
    type V = WatchView;

    open spec fn view(&self) -> WatchView {
        WatchView {
            name: self.name@,
            path: self.path@,
            targets: text::strs(self.targets@),
            patterns: text::strs(self.patterns@),
            catchup: self.catchup,
            enabled: self.enabled,
            debounce_ms: self.debounce_ms,
            recursive: self.recursive,
            on_conflict: self.on_conflict,
        }
    }
}

pub ghost struct TunnelView {
    pub name: Seq<char>,
    pub target: Seq<char>,
    pub local_port: u16,
    pub remote_host: Seq<char>,
    pub remote_port: u16,
    pub bind_address: Seq<char>,
    pub autostart: bool,
}

impl View for TunnelConfig {
    type V = TunnelView;

    open spec fn view(&self) -> TunnelView {
        TunnelView {
            name: self.name@,
            target: self.target@,
            local_port: self.local_port,
            remote_host: self.remote_host@,
            remote_port: self.remote_port,
            bind_address: self.bind_address@,
            autostart: self.autostart,
        }
    }
}

impl Default for ClipboardFormat {
    fn default() -> (r: Self)
        ensures
            r == ClipboardFormat::RemotePath,
    {
        ClipboardFormat::RemotePath
    }
}

impl Default for SyncMode {
    fn default() -> (r: Self)
        ensures
            r == SyncMode::Auto,
    {
        SyncMode::Auto
    }
}

impl Default for CatchupMode {
    fn default() -> (r: Self)
        ensures
            r == CatchupMode::Prompt,
    {
        CatchupMode::Prompt
    }
}

impl Default for ConflictAction {
    fn default() -> (r: Self)
        ensures
            r == ConflictAction::Rename,
    {
        ConflictAction::Rename
    }
}

impl Clone for WatchConfig {
    fn clone(&self) -> (r: Self)
        ensures
            r@ == self@,
    {
        WatchConfig {
            name: self.name.clone(),
            path: self.path.clone(),
            targets: text::clone_strs(&self.targets),
            patterns: text::clone_strs(&self.patterns),
            catchup: self.catchup,
            enabled: self.enabled,
            debounce_ms: self.debounce_ms,
            recursive: self.recursive,
            on_conflict: self.on_conflict,
        }
    }
}

impl Clone for Target {
    fn clone(&self) -> (r: Self)
        ensures
            r == *self,
    {
        Target {
            name: self.name.clone(),
            host: self.host.clone(),
            user: text::clone_opt(&self.user),
            remote_dir: self.remote_dir.clone(),
            ssh_port: self.ssh_port,
            ssh_key: text::clone_opt(&self.ssh_key),
            clipboard_format: self.clipboard_format,
        }
    }
}

pub open spec fn watch_patterns() -> Seq<Seq<char>> {
    seq!["*.png"@, "*.jpg"@, "*.jpeg"@, "*.heic"@, "*.webp"@, "*.gif"@]
}

/// The patterns of a watch that names none: pictures.
pub fn default_watch_patterns() -> (r: Vec<String>)
    ensures
        text::strs(r@) == watch_patterns(),
{
    let mut r: Vec<String> = Vec::new();
    r.push("*.png".to_owned());
    r.push("*.jpg".to_owned());
    r.push("*.jpeg".to_owned());
    r.push("*.heic".to_owned());
    r.push("*.webp".to_owned());
    r.push("*.gif".to_owned());
    assert(text::strs(r@) =~= watch_patterns());
    r
}

/// How long a file must lie still before it is sent.
pub fn default_debounce_ms() -> (r: u64)
    ensures
        r == 500,
{
    500
}

impl TargetView {
    pub open spec fn user_text(self) -> Seq<char> {
        match self.user {
            Some(u) => u,
            None => seq![],
        }
    }

    /// `host` with `user@` in front where a user is set.
    pub open spec fn address(self) -> Seq<char> {
        match self.user {
            Some(u) => u + "@"@ + self.host,
            None => self.host,
        }
    }

    /// `user@host:dir`, without `user@` where no user is set.
    pub open spec fn endpoint(self) -> Seq<char> {
        self.address() + ":"@ + self.remote_dir
    }

    pub open spec fn port(self) -> u16 {
        match self.ssh_port {
            Some(p) => p,
            None => 22,
        }
    }
}

impl Target {
    pub fn user_str(&self) -> (r: &str)
        ensures
            r@ == self@.user_text(),
    {
        match &self.user {
            Some(u) => u.as_str(),
            None => {
                proof {
                    reveal_strlit("");
                }
                assert(""@ =~= seq![]);
                ""
            },
        }
    }

    pub fn address(&self) -> (r: String)
        ensures
            r@ == self@.address(),
    {
        match &self.user {
            Some(u) => {
                let mut s = u.clone();
                s.append("@");
                s.append(self.host.as_str());
                s
            },
            None => self.host.clone(),
        }
    }

    pub fn display_endpoint(&self) -> (r: String)
        ensures
            r@ == self@.endpoint(),
    {
        let mut r = self.address();
        r.append(":");
        r.append(self.remote_dir.as_str());
        r
    }

    pub fn ssh_port(&self) -> (r: u16)
        ensures
            r == self@.port(),
    {
        match self.ssh_port {
            Some(p) => p,
            None => 22,
        }
    }
}

/// A target is reached on the port that it names, and on the usual one of `ssh` where it
/// names none. Its address has the user in front where there is one, and its endpoint the
/// directory behind.
pub proof fn law_targets_are_addressed(t: TargetView, p: u16, u: Seq<char>)
    ensures
        (TargetView { ssh_port: Some(p), ..t }).port() == p,
        (TargetView { ssh_port: None, ..t }).port() == 22,
        (TargetView { user: Some(u), ..t }).address() == u + seq!['@'] + t.host,
        (TargetView { user: None, ..t }).address() == t.host,
        (TargetView { user: Some(u), ..t }).user_text() == u,
        t.address().is_prefix_of(t.endpoint()),
        t.endpoint().skip(t.address().len() as int) == seq![':'] + t.remote_dir,
{
    reveal_strlit("@");
    reveal_strlit(":");
    assert("@"@ =~= seq!['@']);
    assert(t.address() =~= t.endpoint().subrange(0, t.address().len() as int));
    assert(t.endpoint().skip(t.address().len() as int) =~= seq![':'] + t.remote_dir);
}

} // verus!
