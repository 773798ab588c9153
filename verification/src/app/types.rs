//! What the program's state is made of.
use vstd::prelude::*;

use crate::config::{Config, ConfigView};
use crate::environment::{Environment, EnvironmentView};
use crate::history::{EntryView, HistoryStore};
use crate::ssh_config::{HostView, SshHost};
use crate::target::{ClipboardFormat, SyncMode, Target, TargetView};
use crate::text;
use crate::transfer::{Transfer, TransferEvent, TransferView};
use crate::watch::WatchEvent;

verus! {

// ---------------------------------------------------------------------------
// Small choices
// ---------------------------------------------------------------------------
#[derive(Debug, Clone, Copy, PartialEq, Eq, Structural)]
pub enum Tab {
    Drop,
    Watch,
}

impl Tab {
    pub open spec fn name(self) -> Seq<char> {
        match self {
            Tab::Drop => "Drop"@,
            Tab::Watch => "Watch"@,
        }
    }

    pub fn label(self) -> (r: &'static str)
        ensures
            r@ == self.name(),
    {
        match self {
            Tab::Drop => "Drop",
            Tab::Watch => "Watch",
        }
    }
}

#[derive(Debug, Clone, Copy, PartialEq, Eq, Structural)]
pub enum Focus {
    DropZone,
    Targets,
    Progress,
    Watches,
}

#[derive(Debug, Clone, Copy, PartialEq, Eq, Structural)]
pub enum HelpBarAction {
    CycleFocus,
    ToggleSelection,
    Sync,
    CycleMode,
    CycleClipboard,
    CheckUpdate,
    ToggleHelp,
    OpenMenu,
    Quit,
}

#[derive(Debug, Clone, Copy, PartialEq, Eq, Structural)]
pub enum MenuAction {
    AddTargetFromSsh,
    RemoveCurrentTarget,
    ReprobeTargets,
    InstallRsyncOnSelected,
    ClearProgressHistory,
    ToggleMode,
    CycleClipboardFormat,
    CycleTheme,
    ClearQueue,
    CheckUpdate,
    Help,
    Quit,
}

/// The menu, from top to bottom.
pub open spec fn menu() -> Seq<MenuAction> {
    seq![
        MenuAction::AddTargetFromSsh,
        MenuAction::RemoveCurrentTarget,
        MenuAction::ReprobeTargets,
        MenuAction::InstallRsyncOnSelected,
        MenuAction::ClearProgressHistory,
        MenuAction::ToggleMode,
        MenuAction::CycleClipboardFormat,
        MenuAction::CycleTheme,
        MenuAction::ClearQueue,
        MenuAction::CheckUpdate,
        MenuAction::Help,
        MenuAction::Quit,
    ]
}

impl MenuAction {
    pub open spec fn title(self) -> Seq<char> {
        match self {
            MenuAction::AddTargetFromSsh => "Add target from ~/.ssh/config"@,
            MenuAction::RemoveCurrentTarget => "Remove selected target"@,
            MenuAction::ReprobeTargets => "Re-probe all targets"@,
            MenuAction::InstallRsyncOnSelected => "Install rsync on selected target"@,
            MenuAction::ClearProgressHistory => "Clear transfer history"@,
            MenuAction::ToggleMode => "Toggle auto / manual mode"@,
            MenuAction::CycleClipboardFormat => "Cycle clipboard format"@,
            MenuAction::CycleTheme => "Cycle theme"@,
            MenuAction::ClearQueue => "Clear queue"@,
            MenuAction::CheckUpdate => "Check for update"@,
            MenuAction::Help => "Show help"@,
            MenuAction::Quit => "Quit"@,
        }
    }

    pub fn label(self) -> (r: &'static str)
        ensures
            r@ == self.title(),
    {
        match self {
            MenuAction::AddTargetFromSsh => "Add target from ~/.ssh/config",
            MenuAction::RemoveCurrentTarget => "Remove selected target",
            MenuAction::ReprobeTargets => "Re-probe all targets",
            MenuAction::InstallRsyncOnSelected => "Install rsync on selected target",
            MenuAction::ClearProgressHistory => "Clear transfer history",
            MenuAction::ToggleMode => "Toggle auto / manual mode",
            MenuAction::CycleClipboardFormat => "Cycle clipboard format",
            MenuAction::CycleTheme => "Cycle theme",
            MenuAction::ClearQueue => "Clear queue",
            MenuAction::CheckUpdate => "Check for update",
            MenuAction::Help => "Show help",
            MenuAction::Quit => "Quit",
        }
    }

    pub open spec fn keys(self) -> Seq<char> {
        match self {
            MenuAction::ToggleMode => "^A / ^N"@,
            MenuAction::CycleClipboardFormat => "^F"@,
            MenuAction::CycleTheme => "^T"@,
            MenuAction::CheckUpdate => "^U"@,
            MenuAction::Help => "^H"@,
            MenuAction::Quit => "^Q"@,
            _ => ""@,
        }
    }

    pub fn shortcut(self) -> (r: &'static str)
        ensures
            r@ == self.keys(),
    {
        match self {
            MenuAction::ToggleMode => "^A / ^N",
            MenuAction::CycleClipboardFormat => "^F",
            MenuAction::CycleTheme => "^T",
            MenuAction::CheckUpdate => "^U",
            MenuAction::Help => "^H",
            MenuAction::Quit => "^Q",
            _ => "",
        }
    }

    pub fn all() -> (r: Vec<MenuAction>)
        ensures
            r@ == menu(),
    {
        let mut v: Vec<MenuAction> = Vec::new();
        v.push(MenuAction::AddTargetFromSsh);
        v.push(MenuAction::RemoveCurrentTarget);
        v.push(MenuAction::ReprobeTargets);
        v.push(MenuAction::InstallRsyncOnSelected);
        v.push(MenuAction::ClearProgressHistory);
        v.push(MenuAction::ToggleMode);
        v.push(MenuAction::CycleClipboardFormat);
        v.push(MenuAction::CycleTheme);
        v.push(MenuAction::ClearQueue);
        v.push(MenuAction::CheckUpdate);
        v.push(MenuAction::Help);
        v.push(MenuAction::Quit);
        v
    }
}

#[derive(Debug, Clone, Copy, PartialEq, Eq, Structural)]
pub enum ModalHit {
    Confirm,
    Cancel,
    Dismiss,
}

#[derive(Debug, Clone, Copy, PartialEq, Eq, Structural)]
pub enum TargetKind {
    Single,
    Group,
}

/// Identity of a row rendered in the Activity panel. Lets the key handler
/// act on the renderer's exact ordering (live transfers first, then merged
/// history groups).
#[derive(Debug, Clone, Copy, PartialEq, Eq, Structural)]
pub enum ActivityRef {
    Live(u64),
    /// Index into the filtered history list; refers to the REPRESENTATIVE
    /// entry of a merged group (same remote_path collapses multiple targets
    /// into one row).
    History(usize),
}

// ---------------------------------------------------------------------------
// Rectangles
// ---------------------------------------------------------------------------
/// A part of the screen, in cells.
#[derive(Debug, Clone, Copy, PartialEq, Eq, Structural)]
pub struct Rect {
    pub x: u16,
    pub y: u16,
    pub width: u16,
    pub height: u16,
}

impl Default for Rect {
    fn default() -> (r: Self)
        ensures
            r == (Rect { x: 0, y: 0, width: 0, height: 0 }),
    {
        Rect { x: 0, y: 0, width: 0, height: 0 }
    }
}

impl Rect {
    pub open spec fn has(self, x: u16, y: u16) -> bool {
        self.x <= x < self.x + self.width && self.y <= y < self.y + self.height
    }
}

/// Whether a cell lies in a rectangle.
pub fn rect_contains(r: Rect, x: u16, y: u16) -> (b: bool)
    ensures
        b == r.has(x, y),
{
    x >= r.x && (x as u32) < r.x as u32 + r.width as u32 && y >= r.y && (y as u32) < r.y as u32
        + r.height as u32
}

/// What was drawn where, so that clicks can be told apart.
#[derive(Debug)]
pub struct HitRegions {
    pub drop_zone: Rect,
    pub queue_rows: Vec<Rect>,
    pub targets_panel: Rect,
    pub target_rows: Vec<Rect>,
    pub progress_panel: Rect,
    /// Clickable Activity rows — (area, cursor index into `activity_row_refs`,
    /// what the row represents).
    pub activity_rows: Vec<(Rect, usize, ActivityRef)>,
    pub help_bar_hits: Vec<(Rect, HelpBarAction)>,
    pub modal_area: Option<Rect>,
    pub modal_hits: Vec<(Rect, ModalHit)>,
    pub menu_rows: Vec<(Rect, MenuAction)>,
    pub ssh_picker_rows: Vec<Rect>,
}

pub ghost struct HitView {
    pub drop_zone: Rect,
    pub queue_rows: Seq<Rect>,
    pub targets_panel: Rect,
    pub target_rows: Seq<Rect>,
    pub progress_panel: Rect,
    pub activity_rows: Seq<(Rect, usize, ActivityRef)>,
    pub help_bar_hits: Seq<(Rect, HelpBarAction)>,
    pub modal_area: Option<Rect>,
    pub modal_hits: Seq<(Rect, ModalHit)>,
    pub menu_rows: Seq<(Rect, MenuAction)>,
    pub ssh_picker_rows: Seq<Rect>,
}

impl View for HitRegions {
    type V = HitView;

    open spec fn view(&self) -> HitView {
        HitView {
            drop_zone: self.drop_zone,
            queue_rows: self.queue_rows@,
            targets_panel: self.targets_panel,
            target_rows: self.target_rows@,
            progress_panel: self.progress_panel,
            activity_rows: self.activity_rows@,
            help_bar_hits: self.help_bar_hits@,
            modal_area: self.modal_area,
            modal_hits: self.modal_hits@,
            menu_rows: self.menu_rows@,
            ssh_picker_rows: self.ssh_picker_rows@,
        }
    }
}

pub open spec fn no_cell() -> Rect {
    Rect { x: 0, y: 0, width: 0, height: 0 }
}

/// Nothing has been drawn.
pub open spec fn no_hits() -> HitView {
    HitView {
        drop_zone: no_cell(),
        queue_rows: seq![],
        targets_panel: no_cell(),
        target_rows: seq![],
        progress_panel: no_cell(),
        activity_rows: seq![],
        help_bar_hits: seq![],
        modal_area: None,
        modal_hits: seq![],
        menu_rows: seq![],
        ssh_picker_rows: seq![],
    }
}

impl Default for HitRegions {
    fn default() -> (r: Self)
        ensures
            r@ == no_hits(),
    {
        let none = Rect { x: 0, y: 0, width: 0, height: 0 };
        let r = HitRegions {
            drop_zone: none,
            queue_rows: Vec::new(),
            targets_panel: none,
            target_rows: Vec::new(),
            progress_panel: none,
            activity_rows: Vec::new(),
            help_bar_hits: Vec::new(),
            modal_area: None,
            modal_hits: Vec::new(),
            menu_rows: Vec::new(),
            ssh_picker_rows: Vec::new(),
        };
        assert(r.queue_rows@ =~= seq![]);
        assert(r.target_rows@ =~= seq![]);
        assert(r.activity_rows@ =~= seq![]);
        assert(r.help_bar_hits@ =~= seq![]);
        assert(r.modal_hits@ =~= seq![]);
        assert(r.menu_rows@ =~= seq![]);
        assert(r.ssh_picker_rows@ =~= seq![]);
        r
    }
}

// ---------------------------------------------------------------------------
// Rows
// ---------------------------------------------------------------------------
#[derive(Debug, PartialEq, Eq)]
pub enum TargetStatus {
    Unknown,
    Probing,
    Reachable,
    NoRsync,
    Unreachable(String),
}

pub ghost enum TargetStatusView {
    Unknown,
    Probing,
    Reachable,
    NoRsync,
    Unreachable(Seq<char>),
}

impl View for TargetStatus {
    type V = TargetStatusView;

    open spec fn view(&self) -> TargetStatusView {
        match self {
            TargetStatus::Unknown => TargetStatusView::Unknown,
            TargetStatus::Probing => TargetStatusView::Probing,
            TargetStatus::Reachable => TargetStatusView::Reachable,
            TargetStatus::NoRsync => TargetStatusView::NoRsync,
            TargetStatus::Unreachable(e) => TargetStatusView::Unreachable(e@),
        }
    }
}

impl Clone for TargetStatus {
    fn clone(&self) -> (r: Self)
        ensures
            r == *self,
    {
        match self {
            TargetStatus::Unknown => TargetStatus::Unknown,
            TargetStatus::Probing => TargetStatus::Probing,
            TargetStatus::Reachable => TargetStatus::Reachable,
            TargetStatus::NoRsync => TargetStatus::NoRsync,
            TargetStatus::Unreachable(e) => TargetStatus::Unreachable(e.clone()),
        }
    }
}

impl Default for TargetStatus {
    fn default() -> (r: Self)
        ensures
            r == TargetStatus::Unknown,
    {
        TargetStatus::Unknown
    }
}

/// What a preflight says about a target. A missing rsync is told apart, so that
/// it can be installed; not so after an attempt to install it.
pub open spec fn status_from(result: Option<Seq<char>>, after_install: bool) -> TargetStatusView {
    match result {
        None => TargetStatusView::Reachable,
        Some(e) => if !after_install && text::contains(e, "rsync not found on remote"@) {
            TargetStatusView::NoRsync
        } else {
            TargetStatusView::Unreachable(e)
        },
    }
}

pub open spec fn error_of(r: Result<(), String>) -> Option<Seq<char>> {
    match r {
        Ok(_) => None,
        Err(e) => Some(e@),
    }
}

pub fn preflight_status(result: Result<(), String>, after_install: bool) -> (r: TargetStatus)
    ensures
        r@ == status_from(error_of(result), after_install),
{
    match result {
        Ok(_) => TargetStatus::Reachable,
        Err(e) => if !after_install && text::has_substring(
            e.as_str(),
            "rsync not found on remote",
        ) {
            TargetStatus::NoRsync
        } else {
            TargetStatus::Unreachable(e)
        },
    }
}

#[derive(Debug)]
pub struct TargetRow {
    pub name: String,
    pub kind: TargetKind,
    pub summary: String,
    pub selected: bool,
    pub status: TargetStatus,
}

pub ghost struct RowView {
    pub name: Seq<char>,
    pub kind: TargetKind,
    pub summary: Seq<char>,
    pub selected: bool,
    pub status: TargetStatusView,
}

impl View for TargetRow {
    type V = RowView;

    open spec fn view(&self) -> RowView {
        RowView {
            name: self.name@,
            kind: self.kind,
            summary: self.summary@,
            selected: self.selected,
            status: self.status@,
        }
    }
}

/// Hosts to choose a new target from.
#[derive(Debug)]
pub struct SshPicker {
    pub list: Vec<SshHost>,
    pub cursor: usize,
}

pub ghost struct PickerView {
    pub list: Seq<HostView>,
    pub cursor: usize,
}

impl View for SshPicker {
    type V = PickerView;

    open spec fn view(&self) -> PickerView {
        PickerView { list: text::views(self.list@), cursor: self.cursor }
    }
}

#[derive(Debug, Clone, PartialEq, Eq)]
pub enum UpdateStatus {
    Idle,
    Checking,
    /// A newer version is there.
    Available(String),
    /// The version being installed.
    Installing(String),
    Installed(Vec<String>),
    Failed(String),
}

pub ghost enum UpdateView {
    Idle,
    Checking,
    Available(Seq<char>),
    Installing(Seq<char>),
    Installed(Seq<Seq<char>>),
    Failed(Seq<char>),
}

impl View for UpdateStatus {
    type V = UpdateView;

    open spec fn view(&self) -> UpdateView {
        match self {
            UpdateStatus::Idle => UpdateView::Idle,
            UpdateStatus::Checking => UpdateView::Checking,
            UpdateStatus::Available(v) => UpdateView::Available(v@),
            UpdateStatus::Installing(v) => UpdateView::Installing(v@),
            UpdateStatus::Installed(p) => UpdateView::Installed(text::strs(p@)),
            UpdateStatus::Failed(e) => UpdateView::Failed(e@),
        }
    }
}

impl Default for UpdateStatus {
    fn default() -> (r: Self)
        ensures
            r == UpdateStatus::Idle,
    {
        UpdateStatus::Idle
    }
}

/// A message at the bottom of the screen, and when it came up.
#[derive(Debug, Clone)]
pub struct Toast {
    pub text: String,
    pub at_ms: u64,
}

// ---------------------------------------------------------------------------
// Watched folders
// ---------------------------------------------------------------------------
#[derive(Debug, Clone, PartialEq, Eq)]
pub enum WatchUiStatus {
    Off,
    Starting,
    Running,
    LockedByOther(u32),
    Error(String),
}

pub ghost enum WatchUiStatusView {
    Off,
    Starting,
    Running,
    LockedByOther(u32),
    Error(Seq<char>),
}

impl View for WatchUiStatus {
    type V = WatchUiStatusView;

    open spec fn view(&self) -> WatchUiStatusView {
        match self {
            WatchUiStatus::Off => WatchUiStatusView::Off,
            WatchUiStatus::Starting => WatchUiStatusView::Starting,
            WatchUiStatus::Running => WatchUiStatusView::Running,
            WatchUiStatus::LockedByOther(pid) => WatchUiStatusView::LockedByOther(*pid),
            WatchUiStatus::Error(e) => WatchUiStatusView::Error(e@),
        }
    }
}

/// A watched folder, as the Watch tab shows it.
#[derive(Debug)]
pub struct WatchUi {
    pub name: String,
    pub path_display: String,
    pub targets_display: String,
    pub status: WatchUiStatus,
    pub synced_count: u64,
    /// Files that appeared while the program was off.
    pub pending_catchup: Vec<String>,
}

pub ghost struct WatchUiView {
    pub name: Seq<char>,
    pub path_display: Seq<char>,
    pub targets_display: Seq<char>,
    pub status: WatchUiStatusView,
    pub synced_count: u64,
    pub pending_catchup: Seq<Seq<char>>,
}

impl View for WatchUi {
    type V = WatchUiView;

    open spec fn view(&self) -> WatchUiView {
        WatchUiView {
            name: self.name@,
            path_display: self.path_display@,
            targets_display: self.targets_display@,
            status: self.status@,
            synced_count: self.synced_count,
            pending_catchup: text::strs(self.pending_catchup@),
        }
    }
}

/// A line of the form in which a watched folder is described.
#[derive(Debug, Clone, Copy, PartialEq, Eq, Structural)]
pub enum FormField {
    Name,
    Path,
    Targets,
}

/// A watched folder that is being added or edited.
#[derive(Debug)]
pub struct WatchForm {
    /// The watch that is being edited, none for a new one.
    pub editing: Option<String>,
    pub field: FormField,
    pub name: String,
    pub path: String,
    /// Names of targets, separated by commas.
    pub targets: String,
}

pub ghost struct FormView {
    pub editing: Option<Seq<char>>,
    pub field: FormField,
    pub name: Seq<char>,
    pub path: Seq<char>,
    pub targets: Seq<char>,
}

impl View for WatchForm {
    type V = FormView;

    open spec fn view(&self) -> FormView {
        FormView {
            editing: text::opt(self.editing),
            field: self.field,
            name: self.name@,
            path: self.path@,
            targets: self.targets@,
        }
    }
}

impl Clone for WatchForm {
    fn clone(&self) -> (r: Self)
        ensures
            r@ == self@,
    {
        WatchForm {
            editing: text::clone_opt(&self.editing),
            field: self.field,
            name: self.name.clone(),
            path: self.path.clone(),
            targets: self.targets.clone(),
        }
    }
}

/// A file that a watch has sent.
#[derive(Debug)]
pub struct WatchRecent {
    pub file_display: String,
    pub watch_name: String,
    pub at_ms: u64,
}

pub ghost struct RecentView {
    pub file_display: Seq<char>,
    pub watch_name: Seq<char>,
    pub at_ms: u64,
}

impl View for WatchRecent {
    type V = RecentView;

    open spec fn view(&self) -> RecentView {
        RecentView {
            file_display: self.file_display@,
            watch_name: self.watch_name@,
            at_ms: self.at_ms,
        }
    }
}

// ---------------------------------------------------------------------------
// Effects
// ---------------------------------------------------------------------------
/// Something to be done outside. Effects are carried out in their order.
#[derive(Debug)]
pub enum Effect {
    /// Write the configuration; answered by `AppEvent::ConfigSaved`, which hands
    /// `then_toast` back.
    SaveConfig { then_toast: Option<String> },
    /// See whether a target can be reached; answered by
    /// `AppEvent::PreflightResult`.
    Preflight { target: Target, after_install: bool },
    /// Install rsync on a target; answered by `AppEvent::RemoteInstallResult`.
    InstallRsync { target: Target },
    /// Ask for the latest version; answered by `AppEvent::UpdateCheckResult`.
    CheckUpdate,
    /// Install a version; answered by `AppEvent::UpdateInstallResult`.
    InstallUpdate { version: String },
    /// Put text on the clipboard; answered by `AppEvent::ClipboardWritten`.
    WriteClipboard { text: String, remote_path: Option<String> },
    /// Send a file; answered by `AppEvent::TransferUpdate`s.
    StartTransfer { id: u64, target: Target, local: String, subdir: Option<String> },
    /// Record a completed transfer; answered by `AppEvent::HistoryWritten`.
    RecordHistory {
        target_name: String,
        local: String,
        remote_abs_dir: String,
        source_watch: Option<String>,
    },
    /// Read the user's ssh configuration; answered by `AppEvent::SshHosts`.
    LoadSshHosts,
    /// See which of the paths exist; answered by `AppEvent::PathsChecked`.
    CheckPaths { paths: Vec<String> },
    /// Find out the version of the local rsync; answered by
    /// `AppEvent::RsyncVersion`.
    ProbeRsync,
    /// Start or stop watching a folder.
    StartWatch { name: String },
    StopWatch { name: String },
}

pub ghost enum EffectView {
    SaveConfig { then_toast: Option<Seq<char>> },
    Preflight { target: TargetView, after_install: bool },
    InstallRsync { target: TargetView },
    CheckUpdate,
    InstallUpdate { version: Seq<char> },
    WriteClipboard { text: Seq<char>, remote_path: Option<Seq<char>> },
    StartTransfer { id: u64, target: TargetView, local: Seq<char>, subdir: Option<Seq<char>> },
    RecordHistory {
        target_name: Seq<char>,
        local: Seq<char>,
        remote_abs_dir: Seq<char>,
        source_watch: Option<Seq<char>>,
    },
    LoadSshHosts,
    CheckPaths { paths: Seq<Seq<char>> },
    ProbeRsync,
    StartWatch { name: Seq<char> },
    StopWatch { name: Seq<char> },
}

impl View for Effect {
    type V = EffectView;

    open spec fn view(&self) -> EffectView {
        match self {
            Effect::SaveConfig { then_toast } => EffectView::SaveConfig {
                then_toast: text::opt(*then_toast),
            },
            Effect::Preflight { target, after_install } => EffectView::Preflight {
                target: target@,
                after_install: *after_install,
            },
            Effect::InstallRsync { target } => EffectView::InstallRsync { target: target@ },
            Effect::CheckUpdate => EffectView::CheckUpdate,
            Effect::InstallUpdate { version } => EffectView::InstallUpdate { version: version@ },
            Effect::WriteClipboard { text, remote_path } => EffectView::WriteClipboard {
                text: text@,
                remote_path: text::opt(*remote_path),
            },
            Effect::StartTransfer { id, target, local, subdir } => EffectView::StartTransfer {
                id: *id,
                target: target@,
                local: local@,
                subdir: text::opt(*subdir),
            },
            Effect::RecordHistory { target_name, local, remote_abs_dir, source_watch } =>
            EffectView::RecordHistory {
                target_name: target_name@,
                local: local@,
                remote_abs_dir: remote_abs_dir@,
                source_watch: text::opt(*source_watch),
            },
            Effect::LoadSshHosts => EffectView::LoadSshHosts,
            Effect::CheckPaths { paths } => EffectView::CheckPaths { paths: text::strs(paths@) },
            Effect::ProbeRsync => EffectView::ProbeRsync,
            Effect::StartWatch { name } => EffectView::StartWatch { name: name@ },
            Effect::StopWatch { name } => EffectView::StopWatch { name: name@ },
        }
    }
}

// ---------------------------------------------------------------------------
// Events
// ---------------------------------------------------------------------------
#[derive(Debug, Clone, Copy, PartialEq, Eq, Structural)]
pub enum KeyCode {
    Char(char),
    Enter,
    Esc,
    Tab,
    BackTab,
    Up,
    Down,
    Backspace,
    Delete,
    Other,
}

/// A key that was pressed, held or released.
#[derive(Debug, Clone, Copy, PartialEq, Eq, Structural)]
pub struct Key {
    pub code: KeyCode,
    pub ctrl: bool,
    pub pressed: bool,
}

#[derive(Debug, Clone, Copy, PartialEq, Eq, Structural)]
pub enum Mouse {
    ScrollDown,
    ScrollUp,
    /// The left button went down on a cell.
    LeftDown { x: u16, y: u16 },
    Other,
}

/// Something that happened.
#[derive(Debug)]
pub enum AppEvent {
    Key(Key),
    Paste(String),
    Mouse(Mouse),
    TransferUpdate(TransferEvent),
    UpdateCheckResult(Result<Option<String>, String>),
    UpdateInstallResult(Result<Vec<String>, String>),
    PreflightResult { target_name: String, status: TargetStatus },
    RemoteInstallResult { target_name: String, result: Result<(), String> },
    RsyncVersion((u32, u32, u32)),
    RsyncVersionWarning(String),
    /// What came of `Effect::SaveConfig`: the path written.
    ConfigSaved { result: Result<String, String>, then_toast: Option<String> },
    ClipboardWritten {
        text: String,
        remote_path: Option<String>,
        result: Result<(), String>,
    },
    /// What came of `Effect::RecordHistory`.
    HistoryWritten(HistoryNote),
    SshHosts(Vec<SshHost>),
    PathsChecked { paths: Vec<String>, exists: Vec<bool> },
    Watch(WatchEvent),
    WatchStarted { name: String },
    WatchLocked { name: String, pid: u32 },
    WatchFailed { name: String, error: String },
}

/// A transfer to be recorded, with what the filesystem says about its file, and
/// whether its line could be written.
#[derive(Debug)]
pub struct HistoryNote {
    pub target_name: String,
    pub local: String,
    pub remote_abs_dir: String,
    pub source_watch: Option<String>,
    /// The canonical path, where there is one.
    pub canonical: Option<String>,
    /// The size, zero where it cannot be read.
    pub size: u64,
    pub synced_at: u64,
    pub written: Result<(), String>,
}

// ---------------------------------------------------------------------------
// The state
// ---------------------------------------------------------------------------
#[derive(Debug)]
pub struct App {
    pub cfg: Config,
    pub mode: SyncMode,
    pub clipboard_format: ClipboardFormat,
    pub focus: Focus,
    pub current_tab: Tab,
    pub should_quit: bool,
    pub target_rows: Vec<TargetRow>,
    pub target_cursor: usize,
    pub queue: Vec<String>,
    pub queue_cursor: usize,
    pub last_paste_error: Option<String>,
    pub transfers: Vec<Transfer>,
    pub next_transfer_id: u64,
    pub last_clipboard: Option<String>,
    pub toast: Option<Toast>,
    pub help_visible: bool,
    pub menu_visible: bool,
    pub menu_cursor: usize,
    pub ssh_picker: Option<SshPicker>,
    /// None = inactive. Some("") = filter bar visible but no query. Some(q) =
    /// filtering the activity list by q. Lives with Focus::Progress.
    pub activity_filter: Option<String>,
    /// Cursor index into the combined Activity row list (live transfers
    /// first, then merged history groups). Clamped every frame by the
    /// renderer so it can never point past the end.
    pub activity_cursor: usize,
    /// Remote path text currently on the system clipboard. Rendered as a
    /// persistent `📋 on clipboard` suffix on any Activity row whose
    /// remote_path matches, so you can always tell what's about to paste.
    pub last_copied_remote: Option<String>,
    pub history: HistoryStore,
    pub update_status: UpdateStatus,
    pub hit_regions: HitRegions,
    pub watches: Vec<WatchUi>,
    pub watch_cursor: usize,
    /// The machine that paths are read on.
    pub env: Environment,
    /// Newest first.
    pub watch_recent: Vec<WatchRecent>,
    pub watch_form: Option<WatchForm>,
    /// Characters typed over the drop zone, and when the last of them came: the
    /// path being dragged into a terminal that does not mark pastes.
    pub typed: String,
    pub typed_at_ms: u64,
    /// What is still to be done outside.
    pub outbox: Vec<Effect>,
}

pub ghost struct AppView {
    pub cfg: ConfigView,
    pub mode: SyncMode,
    pub clipboard_format: ClipboardFormat,
    pub focus: Focus,
    pub current_tab: Tab,
    pub should_quit: bool,
    pub target_rows: Seq<RowView>,
    pub target_cursor: usize,
    pub queue: Seq<Seq<char>>,
    pub queue_cursor: usize,
    pub last_paste_error: Option<Seq<char>>,
    pub transfers: Seq<TransferView>,
    pub next_transfer_id: u64,
    pub last_clipboard: Option<Seq<char>>,
    pub toast: Option<(Seq<char>, u64)>,
    pub help_visible: bool,
    pub menu_visible: bool,
    pub menu_cursor: usize,
    pub ssh_picker: Option<PickerView>,
    pub activity_filter: Option<Seq<char>>,
    pub activity_cursor: usize,
    pub last_copied_remote: Option<Seq<char>>,
    pub history: Seq<EntryView>,
    pub history_base: Seq<char>,
    pub update_status: UpdateView,
    pub hit_regions: HitView,
    pub watches: Seq<WatchUiView>,
    pub watch_cursor: usize,
    pub env: EnvironmentView,
    pub watch_recent: Seq<RecentView>,
    pub watch_form: Option<FormView>,
    pub typed: Seq<char>,
    pub typed_at_ms: u64,
    pub outbox: Seq<EffectView>,
}

impl View for App {
    type V = AppView;

    open spec fn view(&self) -> AppView {
        AppView {
            cfg: self.cfg@,
            mode: self.mode,
            clipboard_format: self.clipboard_format,
            focus: self.focus,
            current_tab: self.current_tab,
            should_quit: self.should_quit,
            target_rows: text::views(self.target_rows@),
            target_cursor: self.target_cursor,
            queue: text::strs(self.queue@),
            queue_cursor: self.queue_cursor,
            last_paste_error: text::opt(self.last_paste_error),
            transfers: text::views(self.transfers@),
            next_transfer_id: self.next_transfer_id,
            last_clipboard: text::opt(self.last_clipboard),
            toast: match self.toast {
                Some(t) => Some((t.text@, t.at_ms)),
                None => None,
            },
            help_visible: self.help_visible,
            menu_visible: self.menu_visible,
            menu_cursor: self.menu_cursor,
            ssh_picker: match self.ssh_picker {
                Some(p) => Some(p@),
                None => None,
            },
            activity_filter: text::opt(self.activity_filter),
            activity_cursor: self.activity_cursor,
            last_copied_remote: text::opt(self.last_copied_remote),
            history: self.history@,
            history_base: self.history.base@,
            update_status: self.update_status@,
            hit_regions: self.hit_regions@,
            watches: text::views(self.watches@),
            watch_cursor: self.watch_cursor,
            env: self.env@,
            watch_recent: text::views(self.watch_recent@),
            watch_form: match self.watch_form {
                Some(f) => Some(f@),
                None => None,
            },
            typed: self.typed@,
            typed_at_ms: self.typed_at_ms,
            outbox: text::views(self.outbox@),
        }
    }
}

impl AppView {
    /// The menu's cursor stands on one of its lines.
    pub open spec fn wf(self) -> bool {
        self.menu_cursor < menu().len()
    }
}

} // verus!
