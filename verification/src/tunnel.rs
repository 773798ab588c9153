//! Port-forward tunnels: per-local-port lock, ssh `-L` child process,
//! reconnect loop.
//!
//! A tunnel is scoped to a local port. At most one process may hold the
//! lock for a given local port at any time; this prevents two lzsync
//! instances from both trying to bind the same port (the second would lose
//! to `EADDRINUSE` anyway, but the lock gives the user a clean diagnostic
//! up front).
//!
//! The lock file is a small JSON blob under
//! `~/.config/lzsync/tunnel-locks/<local_port>.lock` containing the pid and
//! started_at of the owning process. The port number is already a small
//! unique key, so unlike the watch lock (which hashes a filesystem path),
//! the port stands directly in the filename.
use vstd::prelude::*;

use crate::config;
use crate::lock;
use crate::lock::{LockSeen, Step};
pub use crate::lock::LockError;
use crate::outside;
use crate::paths;
use crate::remote;
use crate::target::{Target, TargetView, TunnelConfig, TunnelView};
use crate::text;
use crate::watch;

verus! {

// ---------------------------------------------------------------------------
// Locks
// ---------------------------------------------------------------------------
/// What a lock file says.
#[derive(Debug, Clone, Copy, PartialEq, Eq, Structural)]
pub struct LockRecord {
    pub pid: u32,
    pub started_at: u64,
    /// Local port being forwarded — recorded for human diagnosis when a
    /// lock file is inspected directly. Not used for logic.
    pub local_port: u16,
}

/// Owned lock on a local port. Its file goes with it, unless it has been
/// overwritten by another process since acquisition.
#[derive(Debug)]
pub struct LockHandle {
    pub tunnel_name: String,
    pub lock_path: String,
    pub owner_pid: u32,
}

/// Where the lock file of a port lies.
pub open spec fn lock_file(lock_dir: Seq<char>, local_port: u16) -> Seq<char> {
    paths::joined(lock_dir, text::decimal(local_port as nat) + ".lock"@)
}

/// Begins to take the tunnel lock for `local_port`: the record to write, the
/// handle that the process will own, and the first step.
/// `crate::lock::next_step` says how to go on.
pub fn try_acquire_lock(
    tunnel_name: &str,
    local_port: u16,
    lock_dir: &str,
    pid: u32,
    now: u64,
) -> (r: (LockRecord, LockHandle, Step))
    ensures
        r.0 == (LockRecord { pid, started_at: now, local_port }),
        r.1.tunnel_name@ == tunnel_name@,
        r.1.lock_path@ == lock_file(lock_dir@, local_port),
        r.1.owner_pid == pid,
        r.2 == Step::MakeDir,
{
    let mut name = text::to_decimal(local_port as u64);
    name.append(".lock");
    let lock_path = paths::join(lock_dir, name.as_str());
    (
        LockRecord { pid, started_at: now, local_port },
        LockHandle { tunnel_name: tunnel_name.to_owned(), lock_path, owner_pid: pid },
        Step::MakeDir,
    )
}

impl LockHandle {
    /// Whether the lock file, as it was found, is still ours: only then is it
    /// removed when the lock is given back.
    pub fn owns(&self, seen: &LockSeen) -> (r: bool)
        ensures
            r == lock::ours(seen@, self.owner_pid),
    {
        lock::is_ours(seen, self.owner_pid)
    }

    /// Release the lock explicitly, which surfaces I/O errors: what comes of it,
    /// given how the lock file was found and, where it was ours, what came of its
    /// removal.
    pub fn release(&self, seen: LockSeen, removed: Result<(), String>) -> (r: Result<(), String>)
        ensures
            lock::failure_of(r) == lock::release_failure(
                seen@,
                self.owner_pid,
                lock::failure_of(removed),
            ),
    {
        lock::released(seen, self.owner_pid, removed)
    }
}

/// Where tunnel locks lie.
pub fn default_lock_dir(config_dir: Option<&str>) -> (r: String)
    ensures
        r@ == watch::place_or(config_dir, "lzsync/tunnel-locks"@, ".lzsync/tunnel-locks"@),
{
    match config::place(config_dir, "lzsync/tunnel-locks") {
        Some(p) => p,
        None => ".lzsync/tunnel-locks".to_owned(),
    }
}

// ---------------------------------------------------------------------------
// Tunnel status / events
// ---------------------------------------------------------------------------
/// Current state of a tunnel, as surfaced to the UI. The UI renders an icon
/// per variant (`○` off, `…` starting, `⇄` connected, `↻` reconnecting,
/// `⚠` locked, `✗` failed).
#[derive(Debug, Clone)]
pub enum TunnelStatus {
    Off,
    Starting,
    Connected,
    Reconnecting {
        attempt: u32,
        /// Seconds.
        next_retry_in: u64,
    },
    /// Non-connection failure: config error, target missing, ssh binary
    /// absent. Terminal — the loop does not retry.
    Failed(String),
    /// Another live process holds this local port's lock.
    LockedByOther(u32),
}

/// Event emitted by a running tunnel.
#[derive(Debug, Clone)]
pub enum TunnelEvent {
    StatusChanged { name: String, status: TunnelStatus },
    /// One line of ssh stderr. Also mirrored to the transfer log so
    /// debugging is available from there.
    Stderr { name: String, line: String },
    /// The tunnel has ended (user toggled off, or non-retryable failure). The
    /// lock is released at this point.
    Stopped { name: String },
}

pub ghost enum StatusView {
    Off,
    Starting,
    Connected,
    Reconnecting { attempt: u32, next_retry_in: u64 },
    Failed(Seq<char>),
    LockedByOther(u32),
}

impl View for TunnelStatus {
    type V = StatusView;

    open spec fn view(&self) -> StatusView {
        match self {
            TunnelStatus::Off => StatusView::Off,
            TunnelStatus::Starting => StatusView::Starting,
            TunnelStatus::Connected => StatusView::Connected,
            TunnelStatus::Reconnecting { attempt, next_retry_in } => StatusView::Reconnecting {
                attempt: *attempt,
                next_retry_in: *next_retry_in,
            },
            TunnelStatus::Failed(m) => StatusView::Failed(m@),
            TunnelStatus::LockedByOther(pid) => StatusView::LockedByOther(*pid),
        }
    }
}

pub ghost enum TunnelEventView {
    StatusChanged { name: Seq<char>, status: StatusView },
    Stderr { name: Seq<char>, line: Seq<char> },
    Stopped { name: Seq<char> },
}

impl View for TunnelEvent {
    type V = TunnelEventView;

    open spec fn view(&self) -> TunnelEventView {
        match self {
            TunnelEvent::StatusChanged { name, status } => TunnelEventView::StatusChanged {
                name: name@,
                status: status@,
            },
            TunnelEvent::Stderr { name, line } => TunnelEventView::Stderr {
                name: name@,
                line: line@,
            },
            TunnelEvent::Stopped { name } => TunnelEventView::Stopped { name: name@ },
        }
    }
}

/// A handle on a running tunnel, through which it is told to end.
#[derive(Debug)]
pub struct TunnelHandle {
    pub name: String,
    pub stopping: bool,
}

impl TunnelHandle {
    pub fn new(name: String) -> (r: Self)
        ensures
            r.name == name,
            !r.stopping,
    {
        TunnelHandle { name, stopping: false }
    }

    /// The tunnel ends as soon as it looks.
    pub fn stop(&mut self)
        ensures
            final(self).stopping,
            final(self).name == old(self).name,
    {
        self.stopping = true;
    }
}

// ---------------------------------------------------------------------------
// stderr classification
// ---------------------------------------------------------------------------
/// What OpenSSH prints where retrying won't help.
pub open spec fn fatal_patterns() -> Seq<Seq<char>> {
    seq![
        "Address already in use"@,
        "cannot listen to port"@,
        "Permission denied (publickey"@,
        "Permission denied, please try again"@,
        "Could not resolve hostname"@,
        "Host key verification failed"@,
        "No such file or directory"@,
    ]
}

pub open spec fn fatal_line(line: Seq<char>) -> bool {
    exists|i: int|
        0 <= i < fatal_patterns().len() && text::contains(line, #[trigger] fatal_patterns()[i])
}

/// Whether a line of stderr says that retrying won't help.
pub fn is_fatal_stderr(line: &str) -> (r: bool)
    ensures
        r == fatal_line(line@),
{
    let ghost ps = fatal_patterns();
    assert(ps[0] == "Address already in use"@);
    assert(ps[1] == "cannot listen to port"@);
    assert(ps[2] == "Permission denied (publickey"@);
    assert(ps[3] == "Permission denied, please try again"@);
    assert(ps[4] == "Could not resolve hostname"@);
    assert(ps[5] == "Host key verification failed"@);
    assert(ps[6] == "No such file or directory"@);
    text::has_substring(line, "Address already in use") || text::has_substring(
        line,
        "cannot listen to port",
    ) || text::has_substring(line, "Permission denied (publickey") || text::has_substring(
        line,
        "Permission denied, please try again",
    ) || text::has_substring(line, "Could not resolve hostname") || text::has_substring(
        line,
        "Host key verification failed",
    ) || text::has_substring(line, "No such file or directory")
}

pub open spec fn fatal_label(line: Seq<char>, local_port: u16) -> Seq<char> {
    if text::contains(line, "Address already in use"@) || text::contains(
        line,
        "cannot listen to port"@,
    ) {
        "local port "@ + text::decimal(local_port as nat) + " already in use"@
    } else if text::contains(line, "Permission denied"@) {
        "ssh auth failed (publickey/password)"@
    } else if text::contains(line, "Could not resolve hostname"@) {
        "unknown host"@
    } else if text::contains(line, "Host key verification failed"@) {
        "host key verification failed"@
    } else if text::contains(line, "No such file or directory"@) {
        "ssh key or config file missing"@
    } else {
        line
    }
}

/// Friendly label for a fatal stderr line. Keeps the local port in the
/// message when relevant so the user sees *which* port is stuck.
pub fn classify_fatal(line: &str, local_port: u16) -> (r: String)
    ensures
        r@ == fatal_label(line@, local_port),
{
    if text::has_substring(line, "Address already in use") || text::has_substring(
        line,
        "cannot listen to port",
    ) {
        let mut r = "local port ".to_owned();
        let n = text::to_decimal(local_port as u64);
        r.append(n.as_str());
        r.append(" already in use");
        r
    } else if text::has_substring(line, "Permission denied") {
        "ssh auth failed (publickey/password)".to_owned()
    } else if text::has_substring(line, "Could not resolve hostname") {
        "unknown host".to_owned()
    } else if text::has_substring(line, "Host key verification failed") {
        "host key verification failed".to_owned()
    } else if text::has_substring(line, "No such file or directory") {
        "ssh key or config file missing".to_owned()
    } else {
        line.to_owned()
    }
}

// ---------------------------------------------------------------------------
// ssh argument construction
// ---------------------------------------------------------------------------
/// `bind:port:host:port`, as `-L` takes it.
pub open spec fn forward_spec(c: TunnelView) -> Seq<char> {
    c.bind_address + ":"@ + text::decimal(c.local_port as nat) + ":"@ + c.remote_host + ":"@
        + text::decimal(c.remote_port as nat)
}

/// `user@host`, or the host alone where no user is set or its name is empty.
pub open spec fn login(t: TargetView) -> Seq<char> {
    match t.user {
        Some(u) => if u.len() > 0 {
            u + "@"@ + t.host
        } else {
            t.host
        },
        None => t.host,
    }
}

/// The arguments of `ssh` for a `-L` forward, where `key` is the identity file to
/// use.
pub open spec fn ssh_args(c: TunnelView, t: TargetView, key: Option<Seq<char>>) -> Seq<Seq<char>> {
    let head = seq![
        "-N"@,
        "-o"@,
        "ServerAliveInterval=30"@,
        "-o"@,
        "ServerAliveCountMax=3"@,
        "-o"@,
        "ExitOnForwardFailure=yes"@,
        "-o"@,
        "StrictHostKeyChecking=accept-new"@,
        "-p"@,
        text::decimal(t.port() as nat),
    ];
    let keyed = match key {
        Some(k) => head.push("-i"@).push(k),
        None => head,
    };
    keyed.push("-L"@).push(forward_spec(c)).push(login(t))
}

/// Build the full `ssh` argument vector for a `-L` forward, in a stable order.
pub fn ssh_args_with_key(cfg: &TunnelConfig, target: &Target, key: Option<&str>) -> (r: Vec<String>)
    ensures
        text::strs(r@) == ssh_args(
            cfg@,
            target@,
            match key {
                Some(k) => Some(k@),
                None => None,
            },
        ),
{
    let mut args = text::no_strs();
    text::push_str(&mut args, "-N");
    text::push_str(&mut args, "-o");
    text::push_str(&mut args, "ServerAliveInterval=30");
    text::push_str(&mut args, "-o");
    text::push_str(&mut args, "ServerAliveCountMax=3");
    text::push_str(&mut args, "-o");
    text::push_str(&mut args, "ExitOnForwardFailure=yes");
    text::push_str(&mut args, "-o");
    text::push_str(&mut args, "StrictHostKeyChecking=accept-new");
    text::push_str(&mut args, "-p");
    let port = text::to_decimal(target.ssh_port() as u64);
    text::push_str(&mut args, port.as_str());
    if let Some(k) = key {
        text::push_str(&mut args, "-i");
        text::push_str(&mut args, k);
    }
    text::push_str(&mut args, "-L");
    let mut spec = cfg.bind_address.clone();
    spec.append(":");
    let lp = text::to_decimal(cfg.local_port as u64);
    spec.append(lp.as_str());
    spec.append(":");
    spec.append(cfg.remote_host.as_str());
    spec.append(":");
    let rp = text::to_decimal(cfg.remote_port as u64);
    spec.append(rp.as_str());
    text::push_str(&mut args, spec.as_str());
    let user_host = match &target.user {
        Some(u) => if !u.as_str().is_empty() {
            target.address()
        } else {
            target.host.clone()
        },
        None => target.host.clone(),
    };
    text::push_str(&mut args, user_host.as_str());
    args
}

/// The identity file of a target: the one it names, its tilde expanded.
pub open spec fn identity_of(t: TargetView, home: Option<Seq<char>>) -> Option<Seq<char>> {
    match t.ssh_key {
        Some(k) => Some(outside::tilde_form(k, home)),
        None => None,
    }
}

/// A target's identity file, its tilde expanded.
pub fn identity_file(target: &Target, home: Option<&str>) -> (r: Option<String>)
    ensures
        text::opt(r) == identity_of(target@, text::opt_str(home)),
{
    match &target.ssh_key {
        Some(k) => Some(outside::expand_tilde(k.as_str(), home)),
        None => None,
    }
}

/// The arguments of `ssh` for a `-L` forward, with the target's own identity
/// file.
pub fn build_ssh_args(cfg: &TunnelConfig, target: &Target, home: Option<&str>) -> (r: Vec<String>)
    ensures
        text::strs(r@) == ssh_args(cfg@, target@, identity_of(target@, text::opt_str(home))),
{
    let key = identity_file(target, home);
    match &key {
        Some(e) => ssh_args_with_key(cfg, target, Some(e.as_str())),
        None => ssh_args_with_key(cfg, target, None),
    }
}

// ---------------------------------------------------------------------------
// Reconnecting
// ---------------------------------------------------------------------------
pub open spec fn backoff_after(current: u64) -> u64 {
    if current < 2 {
        2
    } else if current < 5 {
        5
    } else if current < 10 {
        10
    } else {
        30
    }
}

/// Exponential backoff schedule: 1s → 2s → 5s → 10s → 30s, capped at 30s.
pub fn next_backoff(current: u64) -> (r: u64)
    ensures
        r == backoff_after(current),
{
    if current < 2 {
        2
    } else if current < 5 {
        5
    } else if current < 10 {
        10
    } else {
        30
    }
}

/// A tunnel between two connections: which attempt is next, how long to wait for
/// it, and whether ssh has said that retrying won't help.
#[derive(Debug)]
pub struct Tunnel {
    pub name: String,
    pub local_port: u16,
    pub attempt: u32,
    pub backoff_secs: u64,
    pub fatal: bool,
}

/// What happened to the ssh process, or to the wait before the next one.
#[derive(Debug, Clone)]
pub enum TunnelInput {
    /// The tunnel is switched on.
    Begin,
    /// ssh was started.
    Spawned,
    /// ssh could not be started.
    SpawnFailed(String),
    /// ssh printed a line on stderr.
    StderrLine(String),
    /// ssh is running, and the tunnel is told to end.
    StopSeen,
    /// ssh was killed on our behalf.
    Killed,
    /// ssh ended by itself.
    Exited,
    /// The wait before the next attempt is over, or was cut short.
    WaitOver,
}

/// What to do next.
#[derive(Debug, Clone, Copy, PartialEq, Eq, Structural)]
pub enum TunnelAction {
    /// Start ssh.
    Spawn,
    /// Wait for ssh to end, or for the tunnel to be told to.
    Watch,
    /// Kill ssh.
    Kill,
    /// Wait that many seconds, or until the tunnel is told to end.
    Sleep(u64),
    /// Nothing: the tunnel has ended.
    End,
}

pub ghost enum InputView {
    Begin,
    Spawned,
    SpawnFailed(Seq<char>),
    StderrLine(Seq<char>),
    StopSeen,
    Killed,
    Exited,
    WaitOver,
}

impl View for TunnelInput {
    type V = InputView;

    open spec fn view(&self) -> InputView {
        match self {
            TunnelInput::Begin => InputView::Begin,
            TunnelInput::Spawned => InputView::Spawned,
            TunnelInput::SpawnFailed(e) => InputView::SpawnFailed(e@),
            TunnelInput::StderrLine(l) => InputView::StderrLine(l@),
            TunnelInput::StopSeen => InputView::StopSeen,
            TunnelInput::Killed => InputView::Killed,
            TunnelInput::Exited => InputView::Exited,
            TunnelInput::WaitOver => InputView::WaitOver,
        }
    }
}

pub ghost struct TunnelState {
    pub name: Seq<char>,
    pub local_port: u16,
    pub attempt: u32,
    pub backoff_secs: u64,
    pub fatal: bool,
}

impl View for Tunnel {
    type V = TunnelState;

    open spec fn view(&self) -> TunnelState {
        TunnelState {
            name: self.name@,
            local_port: self.local_port,
            attempt: self.attempt,
            backoff_secs: self.backoff_secs,
            fatal: self.fatal,
        }
    }
}

pub open spec fn status_event(t: TunnelState, status: StatusView) -> TunnelEventView {
    TunnelEventView::StatusChanged { name: t.name, status }
}

pub open spec fn stopped_event(t: TunnelState) -> TunnelEventView {
    TunnelEventView::Stopped { name: t.name }
}

/// A connection is started, unless the tunnel is told to end.
pub open spec fn launch(t: TunnelState, stop: bool) -> (Seq<TunnelEventView>, TunnelAction) {
    if stop {
        (seq![stopped_event(t)], TunnelAction::End)
    } else {
        (seq![status_event(t, StatusView::Starting)], TunnelAction::Spawn)
    }
}

/// The tunnel after an input.
pub open spec fn next_state(t: TunnelState, i: InputView) -> TunnelState {
    match i {
        InputView::StderrLine(l) => TunnelState { fatal: t.fatal || fatal_line(l), ..t },
        InputView::WaitOver => TunnelState {
            attempt: if t.attempt < u32::MAX {
                (t.attempt + 1) as u32
            } else {
                u32::MAX
            },
            backoff_secs: backoff_after(t.backoff_secs),
            ..t
        },
        _ => t,
    }
}

/// What an input makes the tunnel announce, and do next. `stop` says whether it is
/// told to end.
pub open spec fn reaction(t: TunnelState, i: InputView, stop: bool) -> (
    Seq<TunnelEventView>,
    TunnelAction,
) {
    match i {
        InputView::Begin => launch(t, stop),
        InputView::Spawned => (
            seq![status_event(t, StatusView::Connected)],
            TunnelAction::Watch,
        ),
        InputView::SpawnFailed(e) => (
            seq![status_event(t, StatusView::Failed("spawn ssh: "@ + e)), stopped_event(t)],
            TunnelAction::End,
        ),
        InputView::StderrLine(l) => (
            if fatal_line(l) {
                seq![
                    status_event(t, StatusView::Failed(fatal_label(l, t.local_port))),
                    TunnelEventView::Stderr { name: t.name, line: l },
                ]
            } else {
                seq![TunnelEventView::Stderr { name: t.name, line: l }]
            },
            TunnelAction::Watch,
        ),
        InputView::StopSeen => (seq![], TunnelAction::Kill),
        InputView::Killed => (seq![stopped_event(t)], TunnelAction::End),
        InputView::Exited => if stop || t.fatal {
            (seq![stopped_event(t)], TunnelAction::End)
        } else {
            (
                seq![
                    status_event(
                        t,
                        StatusView::Reconnecting {
                            attempt: t.attempt,
                            next_retry_in: t.backoff_secs,
                        },
                    ),
                ],
                TunnelAction::Sleep(t.backoff_secs),
            )
        },
        InputView::WaitOver => launch(next_state(t, i), stop),
    }
}

fn push_event(v: &mut Vec<TunnelEvent>, e: TunnelEvent)
    ensures
        text::views(final(v)@) == text::views(old(v)@).push(e@),
{
    proof {
        text::lemma_views_push(v@, e);
    }
    v.push(e);
}

impl Tunnel {
    pub fn new(cfg: &TunnelConfig) -> (r: Self)
        ensures
            r@ == (TunnelState {
                name: cfg@.name,
                local_port: cfg.local_port,
                attempt: 1,
                backoff_secs: 1,
                fatal: false,
            }),
    {
        Tunnel {
            name: cfg.name.clone(),
            local_port: cfg.local_port,
            attempt: 1,
            backoff_secs: 1,
            fatal: false,
        }
    }

    fn push_status(&self, v: &mut Vec<TunnelEvent>, status: TunnelStatus)
        ensures
            text::views(final(v)@) == text::views(old(v)@).push(status_event(self@, status@)),
    {
        push_event(v, TunnelEvent::StatusChanged { name: self.name.clone(), status });
    }

    fn push_stopped(&self, v: &mut Vec<TunnelEvent>)
        ensures
            text::views(final(v)@) == text::views(old(v)@).push(stopped_event(self@)),
    {
        push_event(v, TunnelEvent::Stopped { name: self.name.clone() });
    }

    /// Takes in what happened; says what to announce and what to do next.
    pub fn step(&mut self, input: TunnelInput, stop: bool) -> (r: (Vec<TunnelEvent>, TunnelAction))
        ensures
            final(self)@ == next_state(old(self)@, input@),
            (text::views(r.0@), r.1) == reaction(old(self)@, input@, stop),
    {
        let mut out: Vec<TunnelEvent> = Vec::new();
        assert(text::views(out@) =~= Seq::<TunnelEventView>::empty());
        let action = match input {
            TunnelInput::Begin => {
                if stop {
                    self.push_stopped(&mut out);
                    TunnelAction::End
                } else {
                    self.push_status(&mut out, TunnelStatus::Starting);
                    TunnelAction::Spawn
                }
            },
            TunnelInput::Spawned => {
                self.push_status(&mut out, TunnelStatus::Connected);
                TunnelAction::Watch
            },
            TunnelInput::SpawnFailed(e) => {
                let mut m = "spawn ssh: ".to_owned();
                m.append(e.as_str());
                self.push_status(&mut out, TunnelStatus::Failed(m));
                self.push_stopped(&mut out);
                TunnelAction::End
            },
            TunnelInput::StderrLine(line) => {
                if is_fatal_stderr(line.as_str()) {
                    self.fatal = true;
                    let label = classify_fatal(line.as_str(), self.local_port);
                    self.push_status(&mut out, TunnelStatus::Failed(label));
                }
                push_event(&mut out, TunnelEvent::Stderr { name: self.name.clone(), line });
                TunnelAction::Watch
            },
            TunnelInput::StopSeen => TunnelAction::Kill,
            TunnelInput::Killed => {
                self.push_stopped(&mut out);
                TunnelAction::End
            },
            TunnelInput::Exited => {
                if stop || self.fatal {
                    self.push_stopped(&mut out);
                    TunnelAction::End
                } else {
                    self.push_status(
                        &mut out,
                        TunnelStatus::Reconnecting {
                            attempt: self.attempt,
                            next_retry_in: self.backoff_secs,
                        },
                    );
                    TunnelAction::Sleep(self.backoff_secs)
                }
            },
            TunnelInput::WaitOver => {
                self.attempt = self.attempt.saturating_add(1);
                self.backoff_secs = next_backoff(self.backoff_secs);
                if stop {
                    self.push_stopped(&mut out);
                    TunnelAction::End
                } else {
                    self.push_status(&mut out, TunnelStatus::Starting);
                    TunnelAction::Spawn
                }
            },
        };
        (out, action)
    }
}

/// How a line of a tunnel's stderr stands in the transfer log.
pub fn stderr_log_line(name: &str, line: &str) -> (r: String)
    ensures
        r@ == "tunnel["@ + name@ + "] "@ + line@,
{
    let mut r = "tunnel[".to_owned();
    r.append(name);
    r.append("] ");
    r.append(line);
    r
}

// ---------------------------------------------------------------------------
// Laws
// ---------------------------------------------------------------------------
/// The tunnel after several inputs.
pub open spec fn state_after(t: TunnelState, inputs: Seq<InputView>) -> TunnelState
    decreases inputs.len(),
{
    if inputs.len() == 0 {
        t
    } else {
        next_state(state_after(t, inputs.drop_last()), inputs.last())
    }
}

pub open spec fn on_schedule(backoff: u64) -> bool {
    backoff == 1 || backoff == 2 || backoff == 5 || backoff == 10 || backoff == 30
}

/// Whatever happens to a tunnel, its waits follow the schedule and never exceed
/// thirty seconds.
pub proof fn law_waits_follow_the_schedule(t: TunnelState, inputs: Seq<InputView>)
    requires
        on_schedule(t.backoff_secs),
    ensures
        on_schedule(state_after(t, inputs).backoff_secs),
        t.backoff_secs <= state_after(t, inputs).backoff_secs <= 30,
    decreases inputs.len(),
{
    if inputs.len() > 0 {
        law_waits_follow_the_schedule(t, inputs.drop_last());
    }
}

/// Once ssh has said that retrying won't help, its end is the tunnel's end.
pub proof fn law_no_retry_after_a_fatal_line(
    t: TunnelState,
    line: Seq<char>,
    inputs: Seq<InputView>,
    stop: bool,
)
    requires
        fatal_line(line),
    ensures
        reaction(
            state_after(next_state(t, InputView::StderrLine(line)), inputs),
            InputView::Exited,
            stop,
        ).1 == TunnelAction::End,
    decreases inputs.len(),
{
    if inputs.len() > 0 {
        law_no_retry_after_a_fatal_line(t, line, inputs.drop_last(), stop);
        lemma_fatal_stays(next_state(t, InputView::StderrLine(line)), inputs);
    }
}

proof fn lemma_fatal_stays(t: TunnelState, inputs: Seq<InputView>)
    requires
        t.fatal,
    ensures
        state_after(t, inputs).fatal,
    decreases inputs.len(),
{
    if inputs.len() > 0 {
        lemma_fatal_stays(t, inputs.drop_last());
    }
}

/// A tunnel that is told to end starts no further ssh, and one that ends always
/// announces it last.
pub proof fn law_stop_ends_the_tunnel(t: TunnelState, i: InputView)
    ensures
        reaction(t, i, true).1 != TunnelAction::Spawn,
        !(reaction(t, i, true).1 is Sleep),
        forall|stop: bool|
            (#[trigger] reaction(t, i, stop)).1 == TunnelAction::End ==> reaction(
                t,
                i,
                stop,
            ).0.last() == stopped_event(t),
{
}

/// Read as `ssh` reads its arguments, a tunnel's call runs no command, goes to the
/// target with its port, user and identity file, ends where the port cannot be
/// forwarded, and listens on the configured local address and port for connections
/// that it carries to the configured remote host and port.
pub proof fn law_the_forward_is_read_back(c: TunnelView, t: TargetView, key: Option<Seq<char>>)
    requires
        remote::reachable(t),
        !c.bind_address.contains(':'),
        !c.remote_host.contains(':'),
    ensures
        ({
            let call = remote::ssh_reads(ssh_args(c, t, key));
            &&& call is Some
            &&& remote::reaches(call->Some_0, t, key)
            &&& call->Some_0.idle
            &&& call->Some_0.command.len() == 0
            &&& call->Some_0.settings.contains("ExitOnForwardFailure=yes"@)
            &&& call->Some_0.settings.contains("ServerAliveInterval=30"@)
            &&& call->Some_0.settings.contains("ServerAliveCountMax=3"@)
            &&& call->Some_0.forward is Some
            &&& remote::forward_reads(call->Some_0.forward->Some_0) == Some(
                (c.bind_address, c.local_port as nat, c.remote_host, c.remote_port as nat),
            )
        }),
{
    reveal_strlit("-o");
    reveal_strlit("-p");
    reveal_strlit("-i");
    reveal_strlit("-L");
    reveal_strlit("-N");
    reveal_strlit(":");
    let (o, p, i) = (seq!['-', 'o'], seq!['-', 'p'], seq!['-', 'i']);
    let (l, n) = (seq!['-', 'L'], seq!['-', 'N']);
    assert("-o"@ =~= o);
    assert("-p"@ =~= p);
    assert("-i"@ =~= i);
    assert("-L"@ =~= l);
    assert("-N"@ =~= n);
    let f = forward_spec(c);
    assert(f =~= c.bind_address + seq![':'] + text::decimal(c.local_port as nat) + seq![':']
        + c.remote_host + seq![':'] + text::decimal(c.remote_port as nat));
    remote::lemma_forward(
        c.bind_address,
        c.local_port as nat,
        c.remote_host,
        c.remote_port as nat,
    );
    let none = Seq::<Seq<char>>::empty();
    remote::lemma_address(t);
    assert(login(t) == t.address());
    remote::lemma_login(login(t), none);
    let end = seq![login(t)] + none;
    remote::lemma_forwarding(f, end);
    let a1 = seq![l, f] + end;
    let a2 = match key {
        Some(k) => seq![i, k] + a1,
        None => a1,
    };
    if let Some(k) = key {
        remote::lemma_key(k, a1);
    }
    remote::lemma_port(t.port() as nat, a2);
    let a3 = seq![p, text::decimal(t.port() as nat)] + a2;
    let (s1, s2) = ("ServerAliveInterval=30"@, "ServerAliveCountMax=3"@);
    let (s3, s4) = ("ExitOnForwardFailure=yes"@, "StrictHostKeyChecking=accept-new"@);
    remote::lemma_setting(s4, a3);
    let a4 = seq![o, s4] + a3;
    remote::lemma_setting(s3, a4);
    let a5 = seq![o, s3] + a4;
    remote::lemma_setting(s2, a5);
    let a6 = seq![o, s2] + a5;
    remote::lemma_setting(s1, a6);
    let a7 = seq![o, s1] + a6;
    remote::lemma_idle(a7);
    assert(ssh_args(c, t, key) =~= seq![n] + a7);
    let call = remote::ssh_reads(seq![n] + a7)->Some_0;
    assert(call.settings[0] == s1);
    assert(call.settings[1] == s2);
    assert(call.settings[2] == s3);
}

/// Each port has a lock file of its own, which is named after it.
pub proof fn law_ports_have_their_own_locks(dir: Seq<char>, a: u16, b: u16)
    ensures
        lock_file(dir, a) == lock_file(dir, b) ==> a == b,
        paths::base_name(lock_file(dir, a)) == Some(text::decimal(a as nat) + ".lock"@),
{
    reveal_strlit(".lock");
    let na = text::decimal(a as nat) + ".lock"@;
    let nb = text::decimal(b as nat) + ".lock"@;
    lemma_lock_name(dir, a);
    lemma_lock_name(dir, b);
    if lock_file(dir, a) == lock_file(dir, b) {
        assert(na == nb);
        assert(na.take(na.len() - 5) =~= text::decimal(a as nat));
        assert(nb.take(nb.len() - 5) =~= text::decimal(b as nat));
        text::lemma_decimal_read_back(a as nat);
        text::lemma_decimal_read_back(b as nat);
    }
}

proof fn lemma_lock_name(dir: Seq<char>, port: u16)
    ensures
        paths::base_name(lock_file(dir, port)) == Some(text::decimal(port as nat) + ".lock"@),
{
    reveal_strlit(".lock");
    let d = text::decimal(port as nat);
    let n = d + ".lock"@;
    text::lemma_decimal_lacks(port as nat, '/');
    if n.contains('/') {
        let i = choose|i: int| 0 <= i < n.len() && n[i] == '/';
        if i < d.len() {
            assert(d[i] == '/');
        } else {
            assert(".lock"@[i - d.len()] == '/');
        }
    }
    paths::lemma_joined_name(dir, n);
}

/// Several ends of a wait, one after the other.
pub open spec fn waits(n: nat) -> Seq<InputView> {
    Seq::new(n, |i: int| InputView::WaitOver)
}

/// A tunnel whose ssh ends for no fatal reason comes back for as long as it is not
/// told to end: it says for how long it waits, which is 1, 2, 5, 10 and from then on
/// 30 seconds, and which attempt comes next; it waits as long as it said, and then
/// starts ssh again.
pub proof fn law_a_lost_connection_comes_back(name: Seq<char>, local_port: u16, n: nat)
    requires
        n < u32::MAX,
    ensures
        ({
            let t = TunnelState { name, local_port, attempt: 1, backoff_secs: 1, fatal: false };
            let now = state_after(t, waits(n));
            let secs: u64 = if n == 0 {
                1
            } else if n == 1 {
                2
            } else if n == 2 {
                5
            } else if n == 3 {
                10
            } else {
                30
            };
            let (events, action) = reaction(now, InputView::Exited, false);
            &&& events == seq![
                TunnelEventView::StatusChanged {
                    name,
                    status: StatusView::Reconnecting {
                        attempt: (n + 1) as u32,
                        next_retry_in: secs,
                    },
                },
            ]
            &&& action == TunnelAction::Sleep(secs)
            &&& reaction(now, InputView::WaitOver, false).1 == TunnelAction::Spawn
            &&& reaction(now, InputView::Begin, false).1 == TunnelAction::Spawn
        }),
{
    lemma_waits(name, local_port, n);
}

proof fn lemma_waits(name: Seq<char>, local_port: u16, n: nat)
    requires
        n < u32::MAX,
    ensures
        ({
            let t = TunnelState { name, local_port, attempt: 1, backoff_secs: 1, fatal: false };
            let secs: u64 = if n == 0 {
                1
            } else if n == 1 {
                2
            } else if n == 2 {
                5
            } else if n == 3 {
                10
            } else {
                30
            };
            state_after(t, waits(n)) == (TunnelState {
                attempt: (n + 1) as u32,
                backoff_secs: secs,
                ..t
            })
        }),
    decreases n,
{
    if n > 0 {
        lemma_waits(name, local_port, (n - 1) as nat);
        assert(waits(n).drop_last() =~= waits((n - 1) as nat));
        assert(waits(n).last() == InputView::WaitOver);
    }
}

/// ssh says that retrying won't help wherever, in a line of its stderr, it says that
/// the port is in use, that it may not log in, that it knows no such host, that the
/// host is not the one it was, or that a file is missing.
pub proof fn law_what_is_fatal(pre: Seq<char>, post: Seq<char>)
    ensures
        fatal_line(pre + "Address already in use"@ + post),
        fatal_line(pre + "cannot listen to port"@ + post),
        fatal_line(pre + "Permission denied (publickey"@ + post),
        fatal_line(pre + "Permission denied, please try again"@ + post),
        fatal_line(pre + "Could not resolve hostname"@ + post),
        fatal_line(pre + "Host key verification failed"@ + post),
        fatal_line(pre + "No such file or directory"@ + post),
        forall|line: Seq<char>| #[trigger]
            fatal_line(line) ==> text::contains(line, "Address already in use"@)
                || text::contains(line, "cannot listen to port"@) || text::contains(
                line,
                "Permission denied (publickey"@,
            ) || text::contains(line, "Permission denied, please try again"@) || text::contains(
                line,
                "Could not resolve hostname"@,
            ) || text::contains(line, "Host key verification failed"@) || text::contains(
                line,
                "No such file or directory"@,
            ),
{
    let ps = fatal_patterns();
    assert(ps[0] == "Address already in use"@);
    assert(ps[1] == "cannot listen to port"@);
    assert(ps[2] == "Permission denied (publickey"@);
    assert(ps[3] == "Permission denied, please try again"@);
    assert(ps[4] == "Could not resolve hostname"@);
    assert(ps[5] == "Host key verification failed"@);
    assert(ps[6] == "No such file or directory"@);
    text::lemma_contains_within(pre, "Address already in use"@, post);
    text::lemma_contains_within(pre, "cannot listen to port"@, post);
    text::lemma_contains_within(pre, "Permission denied (publickey"@, post);
    text::lemma_contains_within(pre, "Permission denied, please try again"@, post);
    text::lemma_contains_within(pre, "Could not resolve hostname"@, post);
    text::lemma_contains_within(pre, "Host key verification failed"@, post);
    text::lemma_contains_within(pre, "No such file or directory"@, post);
}

/// Where the local port is in use, the tunnel fails with a message that names it.
pub proof fn law_a_port_in_use_is_named(t: TunnelState, pre: Seq<char>, post: Seq<char>, stop: bool)
    ensures
        ({
            let line = pre + "Address already in use"@ + post;
            let events = reaction(t, InputView::StderrLine(line), stop).0;
            &&& events.len() == 2
            &&& events[0] is StatusChanged
            &&& events[0]->StatusChanged_name == t.name
            &&& events[0]->StatusChanged_status is Failed
            &&& text::contains(
                events[0]->StatusChanged_status->Failed_0,
                text::decimal(t.local_port as nat),
            )
            &&& events[1] == (TunnelEventView::Stderr { name: t.name, line })
        }),
{
    law_what_is_fatal(pre, post);
    text::lemma_contains_within(pre, "Address already in use"@, post);
    text::lemma_contains_within(
        "local port "@,
        text::decimal(t.local_port as nat),
        " already in use"@,
    );
}

/// What a tunnel says of itself: that it starts, that it is connected once ssh runs,
/// that it failed where ssh cannot be started, and every line that ssh prints, always
/// under its own name.
pub proof fn law_a_tunnel_says_how_it_is(t: TunnelState, e: Seq<char>, line: Seq<char>, stop: bool)
    ensures
        reaction(t, InputView::Begin, false).0 == seq![
            TunnelEventView::StatusChanged { name: t.name, status: StatusView::Starting },
        ],
        reaction(t, InputView::Spawned, stop) == (
            seq![TunnelEventView::StatusChanged { name: t.name, status: StatusView::Connected }],
            TunnelAction::Watch,
        ),
        reaction(t, InputView::SpawnFailed(e), stop).1 == TunnelAction::End,
        reaction(t, InputView::SpawnFailed(e), stop).0[0]->StatusChanged_status is Failed,
        text::contains(
            reaction(t, InputView::SpawnFailed(e), stop).0[0]->StatusChanged_status->Failed_0,
            e,
        ),
        reaction(t, InputView::StderrLine(line), stop).0.contains(
            TunnelEventView::Stderr { name: t.name, line },
        ),
        reaction(t, InputView::StderrLine(line), stop).1 == TunnelAction::Watch,
        reaction(t, InputView::StopSeen, stop).1 == TunnelAction::Kill,
        reaction(t, InputView::Killed, stop).1 == TunnelAction::End,
{
    let none = Seq::<char>::empty();
    text::lemma_contains_within("spawn ssh: "@, e, none);
    assert("spawn ssh: "@ + e + none =~= "spawn ssh: "@ + e);
    let events = reaction(t, InputView::StderrLine(line), stop).0;
    assert(events[events.len() - 1] == (TunnelEventView::Stderr { name: t.name, line }));
}

/// The identity file is the one that the target names, a leading tilde standing for the
/// home directory; a target that names none has none.
pub proof fn law_identity_files_are_found(t: TargetView, key: Seq<char>, home: Seq<char>)
    ensures
        t.ssh_key is None ==> identity_of(t, Some(home)) is None,
        t.ssh_key == Some(seq!['~', '/'] + key) ==> identity_of(t, Some(home)) == Some(
            home + seq!['/'] + key,
        ),
        t.ssh_key == Some(seq!['/'] + key) ==> identity_of(t, Some(home)) == Some(
            seq!['/'] + key,
        ),
{
    let k = seq!['~', '/'] + key;
    assert(k.skip(1) =~= seq!['/'] + key);
    assert(home + k.skip(1) =~= home + seq!['/'] + key);
}

} // verus!
