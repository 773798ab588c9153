//! Keys, clicks and every other event.
use vstd::prelude::*;

use crate::app::activity;
use crate::app::edit;
use crate::app::types;
use crate::app::types::{
    ActivityRef, App, AppEvent, AppView, Focus, HelpBarAction, Key, KeyCode, MenuAction, ModalHit,
    Mouse, PickerView, Rect, Tab, TargetKind, TargetStatus, TargetStatusView, UpdateStatus,
    UpdateView, WatchUiStatus, WatchUiStatusView,
};
use crate::target::SyncMode;
use crate::text;
use crate::transfer;

verus! {

// ---------------------------------------------------------------------------
// Cursors and the queue
// ---------------------------------------------------------------------------
impl AppView {
    /// The cursor of the focused panel moves; at either end it wraps around.
    pub open spec fn cursor_moved(self, delta: i32) -> AppView {
        match self.focus {
            Focus::DropZone => if self.queue.len() == 0 {
                self
            } else {
                AppView {
                    queue_cursor: edit::wrapped(self.queue_cursor, delta, self.queue.len()),
                    ..self
                }
            },
            Focus::Targets => if self.target_rows.len() == 0 {
                self
            } else {
                AppView {
                    target_cursor: edit::wrapped(
                        self.target_cursor,
                        delta,
                        self.target_rows.len(),
                    ),
                    ..self
                }
            },
            Focus::Progress => self.activity_moved(delta),
            Focus::Watches => if self.watches.len() == 0 {
                self
            } else {
                AppView {
                    watch_cursor: edit::wrapped(self.watch_cursor, delta, self.watches.len()),
                    ..self
                }
            },
        }
    }

    /// The file under the cursor leaves the queue.
    pub open spec fn queue_dropped(self) -> AppView {
        let i = self.queue_cursor as int;
        if i < self.queue.len() {
            AppView {
                queue: self.queue.remove(i),
                queue_cursor: if i >= self.queue.len() - 1 && i > 0 {
                    (i - 1) as usize
                } else {
                    self.queue_cursor
                },
                ..self
            }
        } else {
            self
        }
    }
}

impl App {
    pub fn move_cursor(&mut self, delta: i32)
        ensures
            final(self)@ == old(self)@.cursor_moved(delta),
    {
        match self.focus {
            Focus::DropZone => {
                assert(self@.queue.len() == self.queue@.len());
                if self.queue.len() > 0 {
                    self.queue_cursor = edit::wrap_step(self.queue_cursor, delta, self.queue.len());
                }
            },
            Focus::Targets => {
                assert(self@.target_rows.len() == self.target_rows@.len());
                if self.target_rows.len() > 0 {
                    self.target_cursor =
                    edit::wrap_step(self.target_cursor, delta, self.target_rows.len());
                }
            },
            Focus::Progress => self.move_activity_cursor(delta),
            Focus::Watches => {
                assert(self@.watches.len() == self.watches@.len());
                if self.watches.len() > 0 {
                    self.watch_cursor =
                    edit::wrap_step(self.watch_cursor, delta, self.watches.len());
                }
            },
        }
    }

    pub fn drop_queued(&mut self)
        ensures
            final(self)@ == old(self)@.queue_dropped(),
    {
        let i = self.queue_cursor;
        assert(self@.queue.len() == self.queue@.len());
        if i < self.queue.len() {
            let ghost before = self.queue@;
            let _ = self.queue.remove(i);
            assert(text::strs(self.queue@) =~= text::strs(before).remove(i as int));
            if i >= self.queue.len() && i > 0 {
                self.queue_cursor = i - 1;
            }
        }
    }
}

// ---------------------------------------------------------------------------
// The menu and the help bar
// ---------------------------------------------------------------------------
impl AppView {
    pub open spec fn menu_run(self, a: MenuAction, now: u64) -> AppView {
        match a {
            MenuAction::AddTargetFromSsh => self.emit(types::EffectView::LoadSshHosts),
            MenuAction::RemoveCurrentTarget => self.target_removed(now),
            MenuAction::CheckUpdate => self.checking_update(),
            MenuAction::ReprobeTargets => self.probing_all().toasted(
                "re-probing targets…"@,
                now,
            ),
            MenuAction::InstallRsyncOnSelected => {
                let i = self.target_cursor as int;
                if i >= self.target_rows.len() {
                    self
                } else if self.target_rows[i].kind == TargetKind::Single {
                    self.installing_rsync(self.target_rows[i].name, now)
                } else {
                    self.toasted("select a single target first"@, now)
                }
            },
            MenuAction::ClearProgressHistory => AppView { transfers: seq![], ..self }.toasted(
                "cleared "@ + text::decimal(self.transfers.len()) + " transfer(s)"@,
                now,
            ),
            MenuAction::ToggleMode => self.mode_toggled(now),
            MenuAction::CycleClipboardFormat => self.format_cycled(now),
            MenuAction::CycleTheme => self.theme_cycled(now),
            MenuAction::ClearQueue => AppView { queue: seq![], queue_cursor: 0, ..self }.toasted(
                "cleared "@ + text::decimal(self.queue.len()) + " queued"@,
                now,
            ),
            MenuAction::Help => AppView { help_visible: true, ..self },
            MenuAction::Quit => self.quitting(),
        }
    }

    pub open spec fn quitting(self) -> AppView {
        AppView { should_quit: true, ..self }
    }

    pub open spec fn menu_opened(self) -> AppView {
        AppView { menu_visible: true, menu_cursor: 0, ..self }
    }

    pub open spec fn menu_closed(self) -> AppView {
        AppView { menu_visible: false, ..self }
    }

    pub open spec fn help_toggled(self) -> AppView {
        AppView { help_visible: !self.help_visible, ..self }
    }

    pub open spec fn chip_pressed(self, a: HelpBarAction, now: u64) -> AppView {
        match a {
            HelpBarAction::CycleFocus => self.focus_cycled(true),
            HelpBarAction::ToggleSelection => if self.focus == Focus::Targets {
                self.row_toggled()
            } else {
                self
            },
            HelpBarAction::Sync => self.queue_synced(now),
            HelpBarAction::CycleMode => self.mode_toggled(now),
            HelpBarAction::CycleClipboard => self.format_cycled(now),
            HelpBarAction::CheckUpdate => self.checking_update(),
            HelpBarAction::ToggleHelp => self.help_toggled(),
            HelpBarAction::OpenMenu => self.menu_opened(),
            HelpBarAction::Quit => self.quitting(),
        }
    }
}

impl App {
    pub fn run_menu_action(&mut self, a: MenuAction, now: u64)
        ensures
            final(self)@ == old(self)@.menu_run(a, now),
    {
        match a {
            MenuAction::AddTargetFromSsh => self.open_ssh_picker(),
            MenuAction::RemoveCurrentTarget => self.remove_current_target(now),
            MenuAction::CheckUpdate => self.start_update_check(),
            MenuAction::ReprobeTargets => {
                self.spawn_preflight_all();
                self.show("re-probing targets…", now);
            },
            MenuAction::InstallRsyncOnSelected => {
                let i = self.target_cursor;
                assert(self@.target_rows.len() == self.target_rows@.len());
                if i < self.target_rows.len() {
                    assert(self@.target_rows[i as int] == self.target_rows@[i as int]@);
                    if self.target_rows[i].kind == TargetKind::Single {
                        let name = self.target_rows[i].name.clone();
                        self.start_remote_rsync_install(name.as_str(), now);
                    } else {
                        self.show("select a single target first", now);
                    }
                }
            },
            MenuAction::ClearProgressHistory => {
                assert(self@.transfers.len() == self.transfers@.len());
                let mut m = "cleared ".to_owned();
                let n = text::to_decimal(self.transfers.len() as u64);
                m.append(n.as_str());
                m.append(" transfer(s)");
                self.transfers = Vec::new();
                assert(self@.transfers =~= seq![]);
                self.show(m.as_str(), now);
            },
            MenuAction::ToggleMode => self.toggle_mode(now),
            MenuAction::CycleClipboardFormat => self.cycle_clipboard_format(now),
            MenuAction::CycleTheme => self.cycle_theme(now),
            MenuAction::ClearQueue => {
                assert(self@.queue.len() == self.queue@.len());
                let mut m = "cleared ".to_owned();
                let n = text::to_decimal(self.queue.len() as u64);
                m.append(n.as_str());
                m.append(" queued");
                self.queue = Vec::new();
                assert(self@.queue =~= seq![]);
                self.queue_cursor = 0;
                self.show(m.as_str(), now);
            },
            MenuAction::Help => {
                self.help_visible = true;
            },
            MenuAction::Quit => {
                self.should_quit = true;
            },
        }
    }

    pub fn trigger_help_bar_action(&mut self, a: HelpBarAction, now: u64)
        ensures
            final(self)@ == old(self)@.chip_pressed(a, now),
    {
        match a {
            HelpBarAction::CycleFocus => self.cycle_focus(true),
            HelpBarAction::ToggleSelection => {
                if self.focus == Focus::Targets {
                    self.toggle_target_cursor();
                }
            },
            HelpBarAction::Sync => self.start_queue_sync(now),
            HelpBarAction::CycleMode => self.toggle_mode(now),
            HelpBarAction::CycleClipboard => self.cycle_clipboard_format(now),
            HelpBarAction::CheckUpdate => self.start_update_check(),
            HelpBarAction::ToggleHelp => {
                self.help_visible = !self.help_visible;
            },
            HelpBarAction::OpenMenu => {
                self.menu_visible = true;
                self.menu_cursor = 0;
            },
            HelpBarAction::Quit => {
                self.should_quit = true;
            },
        }
    }
}

// ---------------------------------------------------------------------------
// Keys
// ---------------------------------------------------------------------------
/// `1` to `9` as an index from zero.
pub open spec fn nth(c: char) -> Option<usize> {
    if '1' <= c <= '9' {
        Some((c as int - '1' as int) as usize)
    } else {
        None
    }
}

pub fn digit_index(c: char) -> (r: Option<usize>)
    ensures
        r == nth(c),
        r matches Some(i) ==> i < 9,
{
    if '1' <= c && c <= '9' {
        Some((c as u32 - '1' as u32) as usize)
    } else {
        None
    }
}

impl AppView {
    /// Keys while an update is offered: it is confirmed or put off.
    #[verifier::opaque]
    pub open spec fn offer_key(self, version: Seq<char>, code: KeyCode) -> AppView {
        match code {
            KeyCode::Char('y') | KeyCode::Char('Y') | KeyCode::Enter => self.installing_update(
                version,
            ),
            KeyCode::Char('n') | KeyCode::Char('N') | KeyCode::Esc => self.update_dismissed(),
            _ => self,
        }
    }

    pub open spec fn update_dismissed(self) -> AppView {
        AppView { update_status: UpdateView::Idle, ..self }
    }

    pub open spec fn picker_closed(self) -> AppView {
        AppView { ssh_picker: None, ..self }
    }

    #[verifier::opaque]
    pub open spec fn picker_key(self, code: KeyCode) -> AppView {
        match code {
            KeyCode::Esc | KeyCode::Char('q') => self.picker_closed(),
            KeyCode::Up => self.picker_moved((-1) as i32),
            KeyCode::Down | KeyCode::Tab => self.picker_moved(1),
            KeyCode::Enter => self.picked(),
            _ => self,
        }
    }

    #[verifier::opaque]
    pub open spec fn menu_key(self, code: KeyCode, now: u64) -> AppView {
        let n = types::menu().len();
        match code {
            KeyCode::Esc | KeyCode::Char('q') => self.menu_closed(),
            KeyCode::Up => AppView {
                menu_cursor: edit::wrapped(self.menu_cursor, (-1) as i32, n),
                ..self
            },
            KeyCode::Down | KeyCode::Tab => AppView {
                menu_cursor: edit::wrapped(self.menu_cursor, 1, n),
                ..self
            },
            KeyCode::Enter => self.menu_closed().menu_run(
                types::menu()[self.menu_cursor as int],
                now,
            ),
            KeyCode::Char(c) => match nth(c) {
                Some(i) => self.menu_closed().menu_run(types::menu()[i as int], now),
                None => self,
            },
            _ => self,
        }
    }

    /// Keys while the Activity filter is being typed.
    #[verifier::opaque]
    pub open spec fn filter_key(self, query: Seq<char>, k: Key) -> AppView {
        match k.code {
            KeyCode::Esc | KeyCode::Enter => AppView { activity_filter: None, ..self },
            KeyCode::Backspace => AppView {
                activity_filter: Some(
                    if query.len() == 0 {
                        query
                    } else {
                        query.drop_last()
                    },
                ),
                ..self
            },
            KeyCode::Char(c) => if k.ctrl {
                self
            } else {
                AppView { activity_filter: Some(query.push(c)), ..self }
            },
            _ => self,
        }
    }

    pub open spec fn ctrl_key(self, c: char, now: u64) -> AppView {
        match c {
            'p' => self.menu_opened(),
            'q' => self.quitting(),
            'h' => self.help_toggled(),
            'u' => self.checking_update(),
            't' => self.theme_cycled(now),
            'a' => self.with_mode(SyncMode::Auto, now),
            'n' => self.with_mode(SyncMode::Manual, now),
            'f' => if self.focus == Focus::Progress {
                AppView { activity_filter: Some(seq![]), ..self }
            } else {
                self.format_cycled(now)
            },
            '1' => self.on_tab(Tab::Drop),
            '2' => self.on_tab(Tab::Watch),
            _ => self,
        }
    }

    /// A character typed over the drop zone, where it may belong to a path that is
    /// being dragged in.
    pub open spec fn char_typed(self, c: char, now: u64) -> AppView {
        AppView { typed: self.typed.push(c), typed_at_ms: now, ..self }
    }

    /// Plain characters trigger nothing while the drop zone is focused.
    pub open spec fn plain_key(self, c: char, now: u64) -> AppView {
        match self.focus {
            Focus::DropZone => self.char_typed(c, now),
            Focus::Targets => match nth(c) {
                Some(i) => if i < self.target_rows.len() {
                    AppView { target_cursor: i, ..self }.row_toggled()
                } else {
                    self
                },
                None => if c == ' ' {
                    self.row_toggled()
                } else {
                    self.stepped(c)
                },
            },
            Focus::Progress => self.tabbed(c),
            Focus::Watches => if c == ' ' {
                self.watch_toggled()
            } else if c == 'r' {
                self.caught_up(now)
            } else {
                self.watch_managed(c)
            },
        }
    }

    /// Watched folders are added, edited and deleted.
    pub open spec fn watch_managed(self, c: char) -> AppView {
        match c {
            'a' => self.form_opened(),
            'e' => self.form_opened_for_cursor(),
            'd' => self.watch_deleted(),
            _ => self.tabbed(c),
        }
    }

    pub open spec fn tabbed(self, c: char) -> AppView {
        match c {
            '1' => self.on_tab(Tab::Drop),
            '2' => self.on_tab(Tab::Watch),
            _ => self.stepped(c),
        }
    }

    pub open spec fn stepped(self, c: char) -> AppView {
        match c {
            'j' => self.cursor_moved(1),
            'k' => self.cursor_moved((-1) as i32),
            _ => self,
        }
    }

    /// Keys while nothing lies over the panels.
    #[verifier::opaque]
    pub open spec fn panel_key(self, k: Key, now: u64) -> AppView {
        match k.code {
            KeyCode::Tab => self.focus_cycled(true),
            KeyCode::BackTab => self.focus_cycled(false),
            KeyCode::Up => self.cursor_moved((-1) as i32),
            KeyCode::Down => self.cursor_moved(1),
            KeyCode::Enter => match self.focus {
                Focus::Progress => self.cursor_copied(now),
                Focus::Watches => self.caught_up(now),
                _ => self.queue_synced(now),
            },
            KeyCode::Delete | KeyCode::Backspace => if self.focus == Focus::DropZone {
                self.queue_dropped()
            } else {
                self
            },
            KeyCode::Char(c) => if k.ctrl {
                self.ctrl_key(c, now)
            } else {
                self.plain_key(c, now)
            },
            _ => self,
        }
    }

    /// A key goes to whatever lies on top; Ctrl+C quits through everything.
    pub open spec fn key_handled(self, k: Key, now: u64) -> AppView {
        if !k.pressed {
            self
        } else if k.ctrl && k.code == KeyCode::Char('c') {
            self.quitting()
        } else if self.update_status is Available {
            self.offer_key(self.update_status->Available_0, k.code)
        } else if self.update_status is Installed || self.update_status is Failed {
            self.update_dismissed()
        } else if self.ssh_picker is Some {
            self.picker_key(k.code)
        } else if self.menu_visible {
            self.menu_key(k.code, now)
        } else if self.help_visible {
            AppView { help_visible: false, ..self }
        } else if self.watch_form is Some {
            self.form_key(self.watch_form->Some_0, k, now)
        } else if self.activity_filter is Some && self.focus == Focus::Progress {
            self.filter_key(self.activity_filter->Some_0, k)
        } else {
            self.panel_key(k, now)
        }
    }
}

fn without_last(s: &str) -> (r: String)
    ensures
        r@ == (if s@.len() == 0 {
            s@
        } else {
            s@.drop_last()
        }),
{
    let cs = text::chars_of(s);
    if cs.len() == 0 {
        s.to_owned()
    } else {
        let r = text::string_of(&cs, 0, cs.len() - 1);
        assert(r@ =~= s@.drop_last());
        r
    }
}

impl App {
    fn offer_keyed(&mut self, version: String, code: KeyCode)
        ensures
            final(self)@ == old(self)@.offer_key(version@, code),
    {
        proof {
            reveal(AppView::offer_key);
        }
        match code {
            KeyCode::Char('y') | KeyCode::Char('Y') | KeyCode::Enter => {
                self.start_update_install(version);
            },
            KeyCode::Char('n') | KeyCode::Char('N') | KeyCode::Esc => {
                self.update_status = UpdateStatus::Idle;
            },
            _ => {},
        }
    }

    fn picker_keyed(&mut self, code: KeyCode)
        ensures
            final(self)@ == old(self)@.picker_key(code),
    {
        proof {
            reveal(AppView::picker_key);
        }
        match code {
            KeyCode::Esc | KeyCode::Char('q') => {
                self.ssh_picker = None;
            },
            KeyCode::Up => self.picker_move(-1),
            KeyCode::Down | KeyCode::Tab => self.picker_move(1),
            KeyCode::Enter => self.add_picker_selection(),
            _ => {},
        }
    }

    fn menu_keyed(&mut self, code: KeyCode, now: u64)
        requires
            old(self)@.wf(),
        ensures
            final(self)@ == old(self)@.menu_key(code, now),
    {
        proof {
            reveal(AppView::menu_key);
        }
        let actions = MenuAction::all();
        match code {
            KeyCode::Esc | KeyCode::Char('q') => {
                self.menu_visible = false;
            },
            KeyCode::Up => {
                self.menu_cursor = edit::wrap_step(self.menu_cursor, -1, actions.len());
            },
            KeyCode::Down | KeyCode::Tab => {
                self.menu_cursor = edit::wrap_step(self.menu_cursor, 1, actions.len());
            },
            KeyCode::Enter => {
                let a = actions[self.menu_cursor];
                self.menu_visible = false;
                self.run_menu_action(a, now);
            },
            KeyCode::Char(c) => {
                if let Some(i) = digit_index(c) {
                    let a = actions[i];
                    self.menu_visible = false;
                    self.run_menu_action(a, now);
                }
            },
            _ => {},
        }
    }

    fn filter_keyed(&mut self, query: String, k: Key)
        ensures
            final(self)@ == old(self)@.filter_key(query@, k),
    {
        proof {
            reveal(AppView::filter_key);
        }
        match k.code {
            KeyCode::Esc | KeyCode::Enter => {
                self.activity_filter = None;
            },
            KeyCode::Backspace => {
                self.activity_filter = Some(without_last(query.as_str()));
            },
            KeyCode::Char(c) => {
                if !k.ctrl {
                    let mut q = query;
                    q.push(c);
                    self.activity_filter = Some(q);
                }
            },
            _ => {},
        }
    }

    fn ctrl_keyed(&mut self, c: char, now: u64)
        ensures
            final(self)@ == old(self)@.ctrl_key(c, now),
    {
        match c {
            'p' => {
                self.menu_visible = true;
                self.menu_cursor = 0;
            },
            'q' => {
                self.should_quit = true;
            },
            'h' => {
                self.help_visible = !self.help_visible;
            },
            'u' => self.start_update_check(),
            't' => self.cycle_theme(now),
            'a' => self.set_mode(SyncMode::Auto, now),
            'n' => self.set_mode(SyncMode::Manual, now),
            'f' => {
                if self.focus == Focus::Progress {
                    let q = String::new();
                    assert(q@ =~= seq![]);
                    self.activity_filter = Some(q);
                } else {
                    self.cycle_clipboard_format(now);
                }
            },
            '1' => self.switch_tab(Tab::Drop),
            '2' => self.switch_tab(Tab::Watch),
            _ => {},
        }
    }

    fn step_keyed(&mut self, c: char)
        ensures
            final(self)@ == old(self)@.stepped(c),
    {
        match c {
            'j' => self.move_cursor(1),
            'k' => self.move_cursor(-1),
            _ => {},
        }
    }

    fn tab_keyed(&mut self, c: char)
        ensures
            final(self)@ == old(self)@.tabbed(c),
    {
        match c {
            '1' => self.switch_tab(Tab::Drop),
            '2' => self.switch_tab(Tab::Watch),
            _ => self.step_keyed(c),
        }
    }

    fn plain_keyed(&mut self, c: char, now: u64)
        ensures
            final(self)@ == old(self)@.plain_key(c, now),
    {
        match self.focus {
            Focus::DropZone => {
                self.typed.push(c);
                self.typed_at_ms = now;
            },
            Focus::Targets => {
                assert(self@.target_rows.len() == self.target_rows@.len());
                match digit_index(c) {
                    Some(i) => {
                        if i < self.target_rows.len() {
                            self.target_cursor = i;
                            self.toggle_target_cursor();
                        }
                    },
                    None => {
                        if c == ' ' {
                            self.toggle_target_cursor();
                        } else {
                            self.step_keyed(c);
                        }
                    },
                }
            },
            Focus::Progress => self.tab_keyed(c),
            Focus::Watches => {
                if c == ' ' {
                    self.toggle_watch();
                } else if c == 'r' {
                    self.run_catchup(now);
                } else {
                    self.manage_keyed(c);
                }
            },
        }
    }

    fn manage_keyed(&mut self, c: char)
        ensures
            final(self)@ == old(self)@.watch_managed(c),
    {
        if c == 'a' {
            self.open_watch_form();
        } else if c == 'e' {
            self.edit_current_watch();
        } else if c == 'd' {
            self.delete_current_watch();
        } else {
            self.tab_keyed(c);
        }
    }

    fn panel_keyed(&mut self, k: Key, now: u64)
        ensures
            final(self)@ == old(self)@.panel_key(k, now),
    {
        proof {
            reveal(AppView::panel_key);
        }
        match k.code {
            KeyCode::Tab => self.cycle_focus(true),
            KeyCode::BackTab => self.cycle_focus(false),
            KeyCode::Up => self.move_cursor(-1),
            KeyCode::Down => self.move_cursor(1),
            KeyCode::Enter => match self.focus {
                Focus::Progress => self.copy_activity_cursor(now),
                Focus::Watches => self.run_catchup(now),
                _ => self.start_queue_sync(now),
            },
            KeyCode::Delete | KeyCode::Backspace => {
                if self.focus == Focus::DropZone {
                    self.drop_queued();
                }
            },
            KeyCode::Char(c) => {
                if k.ctrl {
                    self.ctrl_keyed(c, now);
                } else {
                    self.plain_keyed(c, now);
                }
            },
            _ => {},
        }
    }

    pub fn handle_key(&mut self, k: Key, now: u64)
        requires
            old(self)@.wf(),
        ensures
            final(self)@ == old(self)@.key_handled(k, now),
    {
        if !k.pressed {
            return;
        }
        if k.ctrl && k.code == KeyCode::Char('c') {
            self.should_quit = true;
            return;
        }
        if let UpdateStatus::Available(v) = &self.update_status {
            let version = v.clone();
            self.offer_keyed(version, k.code);
            return;
        }
        let dismissable = match &self.update_status {
            UpdateStatus::Installed(_) | UpdateStatus::Failed(_) => true,
            _ => false,
        };
        if dismissable {
            self.update_status = UpdateStatus::Idle;
            return;
        }
        if self.ssh_picker.is_some() {
            self.picker_keyed(k.code);
            return;
        }
        if self.menu_visible {
            self.menu_keyed(k.code, now);
            return;
        }
        if self.help_visible {
            self.help_visible = false;
            return;
        }
        if let Some(f) = &self.watch_form {
            let form = f.clone();
            self.form_keyed(form, k, now);
            return;
        }
        if let Some(q) = &self.activity_filter {
            if self.focus == Focus::Progress {
                let query = q.clone();
                self.filter_keyed(query, k);
                return;
            }
        }
        self.panel_keyed(k, now);
    }
}

// ---------------------------------------------------------------------------
// Clicks
// ---------------------------------------------------------------------------
/// The first of the rectangles that holds the cell; past the end where none does.
pub open spec fn first_hit(rects: Seq<Rect>, x: u16, y: u16) -> int
    decreases rects.len(),
{
    if rects.len() == 0 || rects[0].has(x, y) {
        0
    } else {
        1 + first_hit(rects.drop_first(), x, y)
    }
}

pub open spec fn areas<T>(hits: Seq<(Rect, T)>) -> Seq<Rect> {
    Seq::new(hits.len(), |i: int| hits[i].0)
}

pub open spec fn row_areas(hits: Seq<(Rect, usize, ActivityRef)>) -> Seq<Rect> {
    Seq::new(hits.len(), |i: int| hits[i].0)
}

pub open spec fn first_line(s: Seq<char>) -> Seq<char> {
    let ls = text::lines(s);
    if ls.len() == 0 {
        seq![]
    } else {
        text::trim(ls[0])
    }
}

impl AppView {
    pub open spec fn picker_clicked(self, p: PickerView, x: u16, y: u16) -> AppView {
        let i = first_hit(self.hit_regions.ssh_picker_rows, x, y);
        if i < self.hit_regions.ssh_picker_rows.len() {
            AppView { ssh_picker: Some(PickerView { cursor: i as usize, ..p }), ..self }.picked()
        } else {
            self.picker_closed()
        }
    }

    pub open spec fn menu_clicked(self, x: u16, y: u16, now: u64) -> AppView {
        let rows = self.hit_regions.menu_rows;
        let i = first_hit(areas(rows), x, y);
        if i < rows.len() {
            self.menu_closed().menu_run(rows[i].1, now)
        } else {
            self.menu_closed()
        }
    }

    pub open spec fn modal_clicked(self, x: u16, y: u16) -> AppView {
        let hits = self.hit_regions.modal_hits;
        let i = first_hit(areas(hits), x, y);
        if i < hits.len() {
            match hits[i].1 {
                ModalHit::Confirm => match self.update_status {
                    UpdateView::Available(v) => self.installing_update(v),
                    _ => self,
                },
                ModalHit::Cancel | ModalHit::Dismiss => self.update_dismissed(),
            }
        } else if self.update_status is Installed || self.update_status is Failed {
            self.update_dismissed()
        } else {
            self
        }
    }

    /// A target without rsync gets it installed, one that cannot be reached says
    /// why, and any other is selected, or no longer.
    pub open spec fn target_clicked(self, i: usize, now: u64) -> AppView {
        let a = AppView { focus: Focus::Targets, target_cursor: i, ..self };
        if i < a.target_rows.len() {
            let row = a.target_rows[i as int];
            match row.status {
                TargetStatusView::NoRsync => a.installing_rsync(row.name, now),
                TargetStatusView::Unreachable(e) => a.toasted(first_line(e), now),
                _ => a.row_toggled(),
            }
        } else {
            a
        }
    }

    pub open spec fn queue_clicked(self, i: usize) -> AppView {
        AppView {
            focus: Focus::DropZone,
            queue_cursor: if i < self.queue.len() {
                i
            } else {
                self.queue_cursor
            },
            ..self
        }
    }

    /// The row's remote path is copied, and the cursor moves there.
    pub open spec fn activity_clicked(self, hit: (Rect, usize, ActivityRef), now: u64) -> AppView {
        AppView { focus: Focus::Progress, activity_cursor: hit.1, ..self }.row_copied(hit.2, now)
    }

    pub open spec fn panel_focused(self, x: u16, y: u16) -> AppView {
        let h = self.hit_regions;
        AppView {
            focus: if h.drop_zone.has(x, y) {
                Focus::DropZone
            } else if h.targets_panel.has(x, y) {
                Focus::Targets
            } else if h.progress_panel.has(x, y) {
                Focus::Progress
            } else {
                self.focus
            },
            ..self
        }
    }

    /// A click on whatever was drawn there last.
    #[verifier::opaque]
    pub open spec fn panel_clicked(self, x: u16, y: u16, now: u64) -> AppView {
        let h = self.hit_regions;
        let chip = first_hit(areas(h.help_bar_hits), x, y);
        let target = first_hit(h.target_rows, x, y);
        let queued = first_hit(h.queue_rows, x, y);
        let row = first_hit(row_areas(h.activity_rows), x, y);
        if chip < h.help_bar_hits.len() {
            self.chip_pressed(h.help_bar_hits[chip].1, now)
        } else if target < h.target_rows.len() {
            self.target_clicked(target as usize, now)
        } else if queued < h.queue_rows.len() {
            self.queue_clicked(queued as usize)
        } else if row < h.activity_rows.len() {
            self.activity_clicked(h.activity_rows[row], now)
        } else {
            self.panel_focused(x, y)
        }
    }

    /// A click goes to whatever lies on top. Any click dismisses the help; an open
    /// form keeps clicks off the panels below it.
    pub open spec fn clicked(self, x: u16, y: u16, now: u64) -> AppView {
        let helping = self.help_visible && self.update_status is Idle;
        if self.ssh_picker is Some {
            self.picker_clicked(self.ssh_picker->Some_0, x, y)
        } else if self.menu_visible {
            self.menu_clicked(x, y, now)
        } else if !helping && self.hit_regions.modal_area is Some
            && self.hit_regions.modal_area->Some_0.has(x, y) {
            self.modal_clicked(x, y)
        } else if self.help_visible {
            AppView { help_visible: false, ..self }
        } else if self.watch_form is Some {
            self
        } else {
            self.panel_clicked(x, y, now)
        }
    }

    pub open spec fn mouse_handled(self, m: Mouse, now: u64) -> AppView {
        match m {
            Mouse::ScrollDown => self.cursor_moved(1),
            Mouse::ScrollUp => self.cursor_moved((-1) as i32),
            Mouse::LeftDown { x, y } => self.clicked(x, y, now),
            Mouse::Other => self,
        }
    }
}

fn find_rect(rects: &Vec<Rect>, x: u16, y: u16) -> (r: usize)
    ensures
        r == first_hit(rects@, x, y),
        r <= rects@.len(),
{
    let ghost all = rects@;
    let mut i: usize = 0;
    assert(all.skip(0) =~= all);
    while i < rects.len()
        invariant
            i <= rects@.len(),
            all == rects@,
            first_hit(all, x, y) == i + first_hit(all.skip(i as int), x, y),
        decreases rects@.len() - i,
    {
        if types::rect_contains(rects[i], x, y) {
            return i;
        }
        assert(all.skip(i as int).drop_first() =~= all.skip(i + 1));
        i = i + 1;
    }
    i
}

fn find_hit<T>(hits: &Vec<(Rect, T)>, x: u16, y: u16) -> (r: usize)
    ensures
        r == first_hit(areas(hits@), x, y),
        r <= hits@.len(),
{
    let ghost all = areas(hits@);
    let mut i: usize = 0;
    assert(all.skip(0) =~= all);
    while i < hits.len()
        invariant
            i <= hits@.len(),
            all == areas(hits@),
            first_hit(all, x, y) == i + first_hit(all.skip(i as int), x, y),
        decreases hits@.len() - i,
    {
        assert(all.skip(i as int)[0] == hits@[i as int].0);
        if types::rect_contains(hits[i].0, x, y) {
            return i;
        }
        assert(all.skip(i as int).drop_first() =~= all.skip(i + 1));
        i = i + 1;
    }
    i
}

fn find_row_hit(hits: &Vec<(Rect, usize, ActivityRef)>, x: u16, y: u16) -> (r: usize)
    ensures
        r == first_hit(row_areas(hits@), x, y),
        r <= hits@.len(),
{
    let ghost all = row_areas(hits@);
    let mut i: usize = 0;
    assert(all.skip(0) =~= all);
    while i < hits.len()
        invariant
            i <= hits@.len(),
            all == row_areas(hits@),
            first_hit(all, x, y) == i + first_hit(all.skip(i as int), x, y),
        decreases hits@.len() - i,
    {
        assert(all.skip(i as int)[0] == hits@[i as int].0);
        if types::rect_contains(hits[i].0, x, y) {
            return i;
        }
        assert(all.skip(i as int).drop_first() =~= all.skip(i + 1));
        i = i + 1;
    }
    i
}

/// The first line, without blanks around it.
pub fn first_line_of(s: &str) -> (r: String)
    ensures
        r@ == first_line(s@),
{
    let ls = text::split_lines(s);
    assert(text::strs(ls@).len() == ls@.len());
    if ls.len() == 0 {
        let r = String::new();
        assert(r@ =~= seq![]);
        r
    } else {
        assert(text::strs(ls@)[0] == ls@[0]@);
        text::trimmed(ls[0].as_str())
    }
}

impl App {
    fn click_picker(&mut self, x: u16, y: u16)
        requires
            old(self)@.ssh_picker is Some,
        ensures
            final(self)@ == old(self)@.picker_clicked(old(self)@.ssh_picker->Some_0, x, y),
    {
        let i = find_rect(&self.hit_regions.ssh_picker_rows, x, y);
        if i < self.hit_regions.ssh_picker_rows.len() {
            if let Some(picker) = &mut self.ssh_picker {
                picker.cursor = i;
            }
            self.add_picker_selection();
        } else {
            self.ssh_picker = None;
        }
    }

    fn click_menu(&mut self, x: u16, y: u16, now: u64)
        ensures
            final(self)@ == old(self)@.menu_clicked(x, y, now),
    {
        let i = find_hit(&self.hit_regions.menu_rows, x, y);
        self.menu_visible = false;
        if i < self.hit_regions.menu_rows.len() {
            let a = self.hit_regions.menu_rows[i].1;
            self.run_menu_action(a, now);
        }
    }

    fn click_modal(&mut self, x: u16, y: u16)
        ensures
            final(self)@ == old(self)@.modal_clicked(x, y),
    {
        let i = find_hit(&self.hit_regions.modal_hits, x, y);
        if i < self.hit_regions.modal_hits.len() {
            match self.hit_regions.modal_hits[i].1 {
                ModalHit::Confirm => {
                    if let UpdateStatus::Available(v) = &self.update_status {
                        let version = v.clone();
                        self.start_update_install(version);
                    }
                },
                ModalHit::Cancel | ModalHit::Dismiss => {
                    self.update_status = UpdateStatus::Idle;
                },
            }
            return;
        }
        let dismissable = match &self.update_status {
            UpdateStatus::Installed(_) | UpdateStatus::Failed(_) => true,
            _ => false,
        };
        if dismissable {
            self.update_status = UpdateStatus::Idle;
        }
    }

    fn click_target(&mut self, i: usize, now: u64)
        ensures
            final(self)@ == old(self)@.target_clicked(i, now),
    {
        self.focus = Focus::Targets;
        self.target_cursor = i;
        assert(self@.target_rows.len() == self.target_rows@.len());
        if i < self.target_rows.len() {
            assert(self@.target_rows[i as int] == self.target_rows@[i as int]@);
            match &self.target_rows[i].status {
                TargetStatus::NoRsync => {
                    let name = self.target_rows[i].name.clone();
                    self.start_remote_rsync_install(name.as_str(), now);
                },
                TargetStatus::Unreachable(e) => {
                    let m = first_line_of(e.as_str());
                    self.show(m.as_str(), now);
                },
                _ => self.toggle_target_cursor(),
            }
        }
    }

    fn click_queue(&mut self, i: usize)
        ensures
            final(self)@ == old(self)@.queue_clicked(i),
    {
        self.focus = Focus::DropZone;
        assert(self@.queue.len() == self.queue@.len());
        if i < self.queue.len() {
            self.queue_cursor = i;
        }
    }

    fn focus_panel(&mut self, x: u16, y: u16)
        ensures
            final(self)@ == old(self)@.panel_focused(x, y),
    {
        if types::rect_contains(self.hit_regions.drop_zone, x, y) {
            self.focus = Focus::DropZone;
        } else if types::rect_contains(self.hit_regions.targets_panel, x, y) {
            self.focus = Focus::Targets;
        } else if types::rect_contains(self.hit_regions.progress_panel, x, y) {
            self.focus = Focus::Progress;
        }
    }

    fn click_panels(&mut self, x: u16, y: u16, now: u64)
        ensures
            final(self)@ == old(self)@.panel_clicked(x, y, now),
    {
        proof {
            reveal(AppView::panel_clicked);
        }
        let chip = find_hit(&self.hit_regions.help_bar_hits, x, y);
        if chip < self.hit_regions.help_bar_hits.len() {
            let a = self.hit_regions.help_bar_hits[chip].1;
            self.trigger_help_bar_action(a, now);
            return;
        }
        let target = find_rect(&self.hit_regions.target_rows, x, y);
        if target < self.hit_regions.target_rows.len() {
            self.click_target(target, now);
            return;
        }
        let queued = find_rect(&self.hit_regions.queue_rows, x, y);
        if queued < self.hit_regions.queue_rows.len() {
            self.click_queue(queued);
            return;
        }
        let row = find_row_hit(&self.hit_regions.activity_rows, x, y);
        if row < self.hit_regions.activity_rows.len() {
            let (_, cursor, r) = self.hit_regions.activity_rows[row];
            self.focus = Focus::Progress;
            self.activity_cursor = cursor;
            self.copy_row(r, now);
            return;
        }
        self.focus_panel(x, y);
    }

    pub fn handle_click(&mut self, x: u16, y: u16, now: u64)
        ensures
            final(self)@ == old(self)@.clicked(x, y, now),
    {
        if self.ssh_picker.is_some() {
            self.click_picker(x, y);
            return;
        }
        if self.menu_visible {
            self.click_menu(x, y, now);
            return;
        }
        let idle = match &self.update_status {
            UpdateStatus::Idle => true,
            _ => false,
        };
        let on_modal = match self.hit_regions.modal_area {
            Some(r) => types::rect_contains(r, x, y),
            None => false,
        };
        if !(self.help_visible && idle) && on_modal {
            self.click_modal(x, y);
            return;
        }
        if self.help_visible {
            self.help_visible = false;
            return;
        }
        if self.watch_form.is_some() {
            return;
        }
        self.click_panels(x, y, now);
    }

    pub fn handle_mouse(&mut self, m: Mouse, now: u64)
        ensures
            final(self)@ == old(self)@.mouse_handled(m, now),
    {
        match m {
            Mouse::ScrollDown => self.move_cursor(1),
            Mouse::ScrollUp => self.move_cursor(-1),
            Mouse::LeftDown { x, y } => self.handle_click(x, y, now),
            Mouse::Other => {},
        }
    }
}

// ---------------------------------------------------------------------------
// Every event
// ---------------------------------------------------------------------------
/// How the state answers to an event.
pub open spec fn answer(a: AppView, e: AppEvent, now: u64) -> AppView {
    match e {
        AppEvent::Key(k) => a.key_handled(k, now),
        AppEvent::Paste(raw) => a.pasted(raw@),
        AppEvent::Mouse(m) => a.mouse_handled(m, now),
        AppEvent::TransferUpdate(u) => a.transfer_updated(u@, now),
        AppEvent::UpdateCheckResult(r) => a.update_checked(activity::check_view(r), now),
        AppEvent::UpdateInstallResult(r) => a.update_installed(activity::install_view(r)),
        AppEvent::PreflightResult { target_name, status } => a.with_row_status(
            target_name@,
            status@,
        ),
        AppEvent::RemoteInstallResult { target_name, result } => a.rsync_installed(
            target_name@,
            types::error_of(result),
            now,
        ),
        AppEvent::RsyncVersion(v) => a.rsync_version_known(v, now),
        AppEvent::RsyncVersionWarning(msg) => a.toasted(msg@, now),
        AppEvent::ConfigSaved { result, then_toast } => a.config_saved(
            transfer::result_view(result),
            text::opt(then_toast),
            now,
        ),
        AppEvent::ClipboardWritten { text, remote_path, result } => a.clipboard_set(
            text@,
            text::opt(remote_path),
            types::error_of(result),
            now,
        ),
        AppEvent::HistoryWritten(n) => a.history_noted(n@, now),
        AppEvent::SshHosts(hosts) => a.picking(text::views(hosts@), now),
        AppEvent::PathsChecked { paths, exists } => a.paths_checked(
            text::strs(paths@),
            exists@,
            now,
        ),
        AppEvent::Watch(ev) => a.watch_heard(ev@, now),
        AppEvent::WatchStarted { name } => a.with_watch_status(
            name@,
            WatchUiStatusView::Running,
        ),
        AppEvent::WatchLocked { name, pid } => a.with_watch_status(
            name@,
            WatchUiStatusView::LockedByOther(pid),
        ),
        AppEvent::WatchFailed { name, error } => a.with_watch_status(
            name@,
            WatchUiStatusView::Error(error@),
        ),
    }
}

impl App {
    #[verifier::spinoff_prover]
    pub fn handle_event(&mut self, evt: AppEvent, now: u64)
        requires
            old(self)@.wf(),
        ensures
            final(self)@ == answer(old(self)@, evt, now),
    {
        match evt {
            AppEvent::Key(k) => self.handle_key(k, now),
            AppEvent::Paste(raw) => self.handle_paste(raw.as_str()),
            AppEvent::Mouse(m) => self.handle_mouse(m, now),
            AppEvent::TransferUpdate(u) => self.handle_transfer_event(u, now),
            AppEvent::UpdateCheckResult(r) => self.handle_update_check_result(r, now),
            AppEvent::UpdateInstallResult(r) => self.handle_update_install_result(r),
            AppEvent::PreflightResult { target_name, status } => self.apply_preflight_result(
                target_name.as_str(),
                status,
            ),
            AppEvent::RemoteInstallResult { target_name, result } =>
            self.apply_remote_install_result(target_name.as_str(), result, now),
            AppEvent::RsyncVersion(v) => self.apply_rsync_version(v, now),
            AppEvent::RsyncVersionWarning(msg) => self.show(msg.as_str(), now),
            AppEvent::ConfigSaved { result, then_toast } => self.config_written(
                result,
                then_toast,
                now,
            ),
            AppEvent::ClipboardWritten { text, remote_path, result } => self.clipboard_written(
                text,
                remote_path,
                result,
                now,
            ),
            AppEvent::HistoryWritten(n) => self.history_written(n, now),
            AppEvent::SshHosts(hosts) => self.ssh_hosts_loaded(hosts, now),
            AppEvent::PathsChecked { paths, exists } => self.apply_checked_paths(
                paths,
                exists,
                now,
            ),
            AppEvent::Watch(ev) => self.handle_watch_event(ev, now),
            AppEvent::WatchStarted { name } => self.set_watch_status(
                name.as_str(),
                WatchUiStatus::Running,
            ),
            AppEvent::WatchLocked { name, pid } => self.set_watch_status(
                name.as_str(),
                WatchUiStatus::LockedByOther(pid),
            ),
            AppEvent::WatchFailed { name, error } => self.set_watch_status(
                name.as_str(),
                WatchUiStatus::Error(error),
            ),
        }
    }
}

} // verus!
