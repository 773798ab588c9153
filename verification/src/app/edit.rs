//! Choices that the user makes: modes, themes, targets to add and remove, what is
//! selected and where the cursors stand.
use vstd::prelude::*;

use crate::app::rows;
use crate::app::types::{
    App, AppView, Effect, EffectView, Focus, PickerView, SshPicker, Tab, TargetKind,
};
use crate::clipboard;
use crate::config;
use crate::config::ConfigView;
use crate::ssh_config::{HostView, SshHost};
use crate::target::{ClipboardFormat, SyncMode, Target, TargetView};
use crate::text;

verus! {

// ---------------------------------------------------------------------------
// Cursors
// ---------------------------------------------------------------------------
/// `cursor` moved by `delta` in a list of `len` that wraps around.
pub open spec fn wrapped(cursor: usize, delta: i32, len: nat) -> usize {
    ((cursor + delta) % len as int) as usize
}

/// Moves a cursor in a list that wraps around.
pub fn wrap_step(cursor: usize, delta: i32, len: usize) -> (r: usize)
    requires
        len > 0,
    ensures
        r == wrapped(cursor, delta, len as nat),
        r < len,
{
    let m: u128 = len as u128;
    let base: u128 = (cursor as u128) % m;
    if delta >= 0 {
        let d: u128 = (delta as u128) % m;
        let r: u128 = (base + d) % m;
        proof {
            vstd::arithmetic::div_mod::lemma_add_mod_noop(cursor as int, delta as int, m as int);
            vstd::arithmetic::div_mod::lemma_mod_bound(cursor + delta, m as int);
        }
        r as usize
    } else {
        let neg: i64 = -(delta as i64);
        let d: u128 = (neg as u128) % m;
        let r: u128 = (base + (m - d)) % m;
        proof {
            vstd::arithmetic::div_mod::lemma_sub_mod_noop(cursor as int, neg as int, m as int);
            vstd::arithmetic::div_mod::lemma_mod_add_multiples_vanish(base - d, m as int);
            vstd::arithmetic::div_mod::lemma_mod_bound(cursor + delta, m as int);
            assert(base + (m - d) == m + (base - d));
        }
        r as usize
    }
}

// ---------------------------------------------------------------------------
// Modes
// ---------------------------------------------------------------------------
pub open spec fn mode_text(m: SyncMode) -> Seq<char> {
    match m {
        SyncMode::Auto => "mode: auto"@,
        SyncMode::Manual => "mode: manual"@,
    }
}

pub open spec fn format_name(f: ClipboardFormat) -> Seq<char> {
    match f {
        ClipboardFormat::RemotePath => "RemotePath"@,
        ClipboardFormat::ScpStyle => "ScpStyle"@,
        ClipboardFormat::SshPath => "SshPath"@,
        ClipboardFormat::Custom => "Custom"@,
    }
}

pub fn name_of_format(f: ClipboardFormat) -> (r: &'static str)
    ensures
        r@ == format_name(f),
{
    match f {
        ClipboardFormat::RemotePath => "RemotePath",
        ClipboardFormat::ScpStyle => "ScpStyle",
        ClipboardFormat::SshPath => "SshPath",
        ClipboardFormat::Custom => "Custom",
    }
}

pub open spec fn next_format(f: ClipboardFormat) -> ClipboardFormat {
    match f {
        ClipboardFormat::RemotePath => ClipboardFormat::ScpStyle,
        ClipboardFormat::ScpStyle => ClipboardFormat::SshPath,
        ClipboardFormat::SshPath => ClipboardFormat::Custom,
        ClipboardFormat::Custom => ClipboardFormat::RemotePath,
    }
}

/// The themes, in the order in which they are cycled through.
pub open spec fn themes() -> Seq<Seq<char>> {
    seq!["mocha"@, "tokyo_night"@, "gruvbox"@, "nord"@, "dracula"@]
}

/// The theme after `t`; the second one after a theme that is not known.
pub open spec fn next_theme(t: Seq<char>) -> Seq<char> {
    if t == "mocha"@ {
        "tokyo_night"@
    } else if t == "tokyo_night"@ {
        "gruvbox"@
    } else if t == "gruvbox"@ {
        "nord"@
    } else if t == "nord"@ {
        "dracula"@
    } else if t == "dracula"@ {
        "mocha"@
    } else {
        "tokyo_night"@
    }
}

pub open spec fn save(then_toast: Option<Seq<char>>) -> EffectView {
    EffectView::SaveConfig { then_toast }
}

impl AppView {
    pub open spec fn with_mode(self, m: SyncMode, now: u64) -> AppView {
        AppView { mode: m, cfg: ConfigView { default_mode: m, ..self.cfg }, ..self }.toasted(
            mode_text(m),
            now,
        ).emit(save(None))
    }

    pub open spec fn mode_toggled(self, now: u64) -> AppView {
        self.with_mode(
            match self.mode {
                SyncMode::Auto => SyncMode::Manual,
                SyncMode::Manual => SyncMode::Auto,
            },
            now,
        )
    }

    pub open spec fn theme_cycled(self, now: u64) -> AppView {
        let t = next_theme(self.cfg.theme);
        AppView { cfg: ConfigView { theme: t, ..self.cfg }, ..self }.toasted("theme: "@ + t, now).emit(
            save(None),
        )
    }

    /// The configuration follows the format, so that it is saved.
    pub open spec fn format_cycled(self, now: u64) -> AppView {
        let f = next_format(self.clipboard_format);
        AppView {
            clipboard_format: f,
            cfg: ConfigView { clipboard_format: f, ..self.cfg },
            ..self
        }.toasted("clipboard: "@ + format_name(f), now).emit(save(None))
    }

    /// The configuration has been written, or could not be.
    pub open spec fn config_saved(
        self,
        result: Result<Seq<char>, Seq<char>>,
        then_toast: Option<Seq<char>>,
        now: u64,
    ) -> AppView {
        let a = self.toasted(
            match result {
                Ok(path) => "saved "@ + clipboard::basename(path),
                Err(e) => "save failed: "@ + e,
            },
            now,
        );
        match then_toast {
            Some(t) => a.toasted(t, now),
            None => a,
        }
    }
}

impl App {
    pub(crate) fn persist_config(&mut self, then_toast: Option<String>)
        ensures
            final(self)@ == old(self)@.emit(save(text::opt(then_toast))),
    {
        self.emit(Effect::SaveConfig { then_toast });
    }

    pub fn set_mode(&mut self, m: SyncMode, now: u64)
        ensures
            final(self)@ == old(self)@.with_mode(m, now),
    {
        self.mode = m;
        self.cfg.default_mode = m;
        match m {
            SyncMode::Auto => self.show("mode: auto", now),
            SyncMode::Manual => self.show("mode: manual", now),
        }
        self.persist_config(None);
    }

    pub fn toggle_mode(&mut self, now: u64)
        ensures
            final(self)@ == old(self)@.mode_toggled(now),
    {
        let m = match self.mode {
            SyncMode::Auto => SyncMode::Manual,
            SyncMode::Manual => SyncMode::Auto,
        };
        self.set_mode(m, now);
    }

    pub fn cycle_theme(&mut self, now: u64)
        ensures
            final(self)@ == old(self)@.theme_cycled(now),
    {
        let t = self.cfg.theme.as_str();
        let next = if text::same(t, "mocha") {
            "tokyo_night"
        } else if text::same(t, "tokyo_night") {
            "gruvbox"
        } else if text::same(t, "gruvbox") {
            "nord"
        } else if text::same(t, "nord") {
            "dracula"
        } else if text::same(t, "dracula") {
            "mocha"
        } else {
            "tokyo_night"
        };
        self.cfg.theme = next.to_owned();
        let mut m = "theme: ".to_owned();
        m.append(next);
        self.show(m.as_str(), now);
        self.persist_config(None);
    }

    pub fn cycle_clipboard_format(&mut self, now: u64)
        ensures
            final(self)@ == old(self)@.format_cycled(now),
    {
        let f = match self.clipboard_format {
            ClipboardFormat::RemotePath => ClipboardFormat::ScpStyle,
            ClipboardFormat::ScpStyle => ClipboardFormat::SshPath,
            ClipboardFormat::SshPath => ClipboardFormat::Custom,
            ClipboardFormat::Custom => ClipboardFormat::RemotePath,
        };
        self.clipboard_format = f;
        self.cfg.clipboard_format = f;
        let mut m = "clipboard: ".to_owned();
        m.append(name_of_format(f));
        self.show(m.as_str(), now);
        self.persist_config(None);
    }

    pub fn config_written(
        &mut self,
        result: Result<String, String>,
        then_toast: Option<String>,
        now: u64,
    )
        ensures
            final(self)@ == old(self)@.config_saved(
                crate::transfer::result_view(result),
                text::opt(then_toast),
                now,
            ),
    {
        match result {
            Ok(path) => {
                let mut m = "saved ".to_owned();
                let n = clipboard::local_basename(path.as_str());
                m.append(n.as_str());
                self.show(m.as_str(), now);
            },
            Err(e) => {
                let mut m = "save failed: ".to_owned();
                m.append(e.as_str());
                self.show(m.as_str(), now);
            },
        }
        if let Some(t) = then_toast {
            self.show(t.as_str(), now);
        }
    }
}

// ---------------------------------------------------------------------------
// Focus and selection
// ---------------------------------------------------------------------------
pub open spec fn next_focus(f: Focus, forward: bool) -> Focus {
    match (f, forward) {
        (Focus::DropZone, true) => Focus::Targets,
        (Focus::Targets, true) => Focus::Progress,
        (Focus::Progress, true) => Focus::DropZone,
        (Focus::Watches, true) => Focus::Targets,
        (Focus::DropZone, false) => Focus::Progress,
        (Focus::Targets, false) => Focus::DropZone,
        (Focus::Progress, false) => Focus::Targets,
        (Focus::Watches, false) => Focus::Progress,
    }
}

impl AppView {
    /// The focus goes round the panels of the tab; the Watch tab has only one.
    pub open spec fn focus_cycled(self, forward: bool) -> AppView {
        AppView {
            focus: match self.current_tab {
                Tab::Drop => next_focus(self.focus, forward),
                Tab::Watch => Focus::Watches,
            },
            ..self
        }
    }

    /// Another tab is shown, with the focus on its main panel.
    pub open spec fn on_tab(self, tab: Tab) -> AppView {
        if self.current_tab == tab {
            self
        } else {
            AppView {
                current_tab: tab,
                focus: match tab {
                    Tab::Drop => Focus::DropZone,
                    Tab::Watch => Focus::Watches,
                },
                ..self
            }
        }
    }

    /// The row under the cursor is selected, or no longer.
    pub open spec fn row_toggled(self) -> AppView {
        let i = self.target_cursor as int;
        if i < self.target_rows.len() {
            AppView {
                target_rows: rows::with_selected(
                    self.target_rows,
                    i,
                    !self.target_rows[i].selected,
                ),
                ..self
            }
        } else {
            self
        }
    }
}

impl App {
    pub fn cycle_focus(&mut self, forward: bool)
        ensures
            final(self)@ == old(self)@.focus_cycled(forward),
    {
        self.focus =
        match self.current_tab {
            Tab::Watch => Focus::Watches,
            Tab::Drop => match (self.focus, forward) {
                (Focus::DropZone, true) => Focus::Targets,
                (Focus::Targets, true) => Focus::Progress,
                (Focus::Progress, true) => Focus::DropZone,
                (Focus::Watches, true) => Focus::Targets,
                (Focus::DropZone, false) => Focus::Progress,
                (Focus::Targets, false) => Focus::DropZone,
                (Focus::Progress, false) => Focus::Targets,
                (Focus::Watches, false) => Focus::Progress,
            },
        };
    }

    pub fn switch_tab(&mut self, tab: Tab)
        ensures
            final(self)@ == old(self)@.on_tab(tab),
    {
        if self.current_tab != tab {
            self.current_tab = tab;
            self.focus =
            match tab {
                Tab::Drop => Focus::DropZone,
                Tab::Watch => Focus::Watches,
            };
        }
    }

    pub fn toggle_target_cursor(&mut self)
        ensures
            final(self)@ == old(self)@.row_toggled(),
    {
        let i = self.target_cursor;
        let ghost before = self@.target_rows;
        if i < self.target_rows.len() {
            assert(before[i as int] == self.target_rows@[i as int]@);
            let s = self.target_rows[i].selected;
            self.target_rows[i].selected = !s;
            assert(self@.target_rows =~= rows::with_selected(before, i as int, !s));
        }
    }
}

// ---------------------------------------------------------------------------
// Adding and removing targets
// ---------------------------------------------------------------------------
/// The hosts whose name no target has, in order.
pub open spec fn new_hosts(hosts: Seq<HostView>, targets: Seq<TargetView>) -> Seq<HostView>
    decreases hosts.len(),
{
    if hosts.len() == 0 {
        seq![]
    } else if config::names_target(targets, hosts.last().name) {
        new_hosts(hosts.drop_last(), targets)
    } else {
        new_hosts(hosts.drop_last(), targets).push(hosts.last())
    }
}

/// The targets of another name, in order.
pub open spec fn without_target(targets: Seq<TargetView>, name: Seq<char>) -> Seq<TargetView>
    decreases targets.len(),
{
    if targets.len() == 0 {
        seq![]
    } else if targets.last().name == name {
        without_target(targets.drop_last(), name)
    } else {
        without_target(targets.drop_last(), name).push(targets.last())
    }
}

impl AppView {
    /// Hosts to choose from are shown, without those that are targets already.
    pub open spec fn picking(self, hosts: Seq<HostView>, now: u64) -> AppView {
        let list = new_hosts(hosts, self.cfg.targets);
        if list.len() == 0 {
            self.toasted("no SSH hosts found (or all already added)"@, now)
        } else {
            AppView { ssh_picker: Some(PickerView { list, cursor: 0 }), ..self }
        }
    }

    pub open spec fn picker_moved(self, delta: i32) -> AppView {
        match self.ssh_picker {
            Some(p) => if p.list.len() == 0 {
                self
            } else {
                AppView {
                    ssh_picker: Some(
                        PickerView { cursor: wrapped(p.cursor, delta, p.list.len()), ..p },
                    ),
                    ..self
                }
            },
            None => self,
        }
    }

    /// A host becomes a target, the default one where it is the first, and is
    /// probed.
    pub open spec fn host_added(self, h: HostView) -> AppView {
        let t = config::inbox_target(h);
        AppView {
            ssh_picker: None,
            cfg: ConfigView {
                targets: self.cfg.targets.push(t),
                default_target: if self.cfg.targets.len() == 0 {
                    Some(t.name)
                } else {
                    self.cfg.default_target
                },
                ..self.cfg
            },
            ..self
        }.rebuilt().emit(save(Some("added target: "@ + t.name))).emit(
            EffectView::Preflight { target: t, after_install: false },
        )
    }

    /// The host under the cursor is chosen.
    pub open spec fn picked(self) -> AppView {
        match self.ssh_picker {
            Some(p) => if p.cursor < p.list.len() {
                self.host_added(p.list[p.cursor as int])
            } else {
                self
            },
            None => self,
        }
    }

    /// The target under the cursor goes; if it was the default one, the first
    /// that is left takes its place.
    pub open spec fn target_removed(self, now: u64) -> AppView {
        let i = self.target_cursor as int;
        if i >= self.target_rows.len() {
            self
        } else if self.target_rows[i].kind != TargetKind::Single {
            self.toasted("select a target (not a group) to remove"@, now)
        } else {
            let name = self.target_rows[i].name;
            let targets = without_target(self.cfg.targets, name);
            AppView {
                cfg: ConfigView {
                    targets,
                    default_target: if self.cfg.default_target == Some(name) {
                        if targets.len() > 0 {
                            Some(targets[0].name)
                        } else {
                            None
                        }
                    } else {
                        self.cfg.default_target
                    },
                    ..self.cfg
                },
                ..self
            }.rebuilt().emit(save(Some("removed target: "@ + name)))
        }
    }
}

fn target_with_name(targets: &Vec<Target>, name: &str) -> (r: bool)
    ensures
        r == config::names_target(text::views(targets@), name@),
{
    let ghost all = text::views(targets@);
    let mut i: usize = 0;
    while i < targets.len()
        invariant
            i <= targets@.len(),
            all == text::views(targets@),
            forall|k: int| 0 <= k < i ==> (#[trigger] all[k]).name != name@,
        decreases targets@.len() - i,
    {
        assert(all[i as int].name == targets@[i as int].name@);
        if text::same(targets[i].name.as_str(), name) {
            return true;
        }
        i = i + 1;
    }
    false
}

fn copy_host(h: &SshHost) -> (r: SshHost)
    ensures
        r@ == h@,
{
    SshHost {
        name: h.name.clone(),
        hostname: text::clone_opt(&h.hostname),
        user: text::clone_opt(&h.user),
        port: h.port,
        identity_file: text::clone_opt(&h.identity_file),
    }
}

fn keep_new_hosts(hosts: &Vec<SshHost>, targets: &Vec<Target>) -> (r: Vec<SshHost>)
    ensures
        text::views(r@) == new_hosts(text::views(hosts@), text::views(targets@)),
{
    let ghost all = text::views(hosts@);
    let ghost ts = text::views(targets@);
    let mut r: Vec<SshHost> = Vec::new();
    let mut i: usize = 0;
    assert(text::views(r@) =~= seq![]);
    while i < hosts.len()
        invariant
            i <= hosts@.len(),
            all == text::views(hosts@),
            ts == text::views(targets@),
            text::views(r@) == new_hosts(all.take(i as int), ts),
        decreases hosts@.len() - i,
    {
        let h = &hosts[i];
        assert(all.take(i + 1).drop_last() =~= all.take(i as int));
        assert(all.take(i + 1).last() == h@);
        if !target_with_name(targets, h.name.as_str()) {
            let c = copy_host(h);
            proof {
                text::lemma_views_push(r@, c);
            }
            r.push(c);
        }
        i = i + 1;
    }
    assert(all.take(i as int) =~= all);
    r
}

fn drop_target(targets: &Vec<Target>, name: &str) -> (r: Vec<Target>)
    ensures
        text::views(r@) == without_target(text::views(targets@), name@),
{
    let ghost all = text::views(targets@);
    let mut r: Vec<Target> = Vec::new();
    let mut i: usize = 0;
    assert(text::views(r@) =~= seq![]);
    while i < targets.len()
        invariant
            i <= targets@.len(),
            all == text::views(targets@),
            text::views(r@) == without_target(all.take(i as int), name@),
        decreases targets@.len() - i,
    {
        let t = &targets[i];
        assert(all.take(i + 1).drop_last() =~= all.take(i as int));
        assert(all.take(i + 1).last() == t@);
        if !text::same(t.name.as_str(), name) {
            let c = t.clone();
            proof {
                text::lemma_views_push(r@, c);
            }
            r.push(c);
        }
        i = i + 1;
    }
    assert(all.take(i as int) =~= all);
    r
}

impl App {
    pub fn open_ssh_picker(&mut self)
        ensures
            final(self)@ == old(self)@.emit(EffectView::LoadSshHosts),
    {
        self.emit(Effect::LoadSshHosts);
    }

    pub fn ssh_hosts_loaded(&mut self, hosts: Vec<SshHost>, now: u64)
        ensures
            final(self)@ == old(self)@.picking(text::views(hosts@), now),
    {
        let list = keep_new_hosts(&hosts, &self.cfg.targets);
        assert(text::views(list@).len() == list@.len());
        if list.len() == 0 {
            self.show("no SSH hosts found (or all already added)", now);
            return;
        }
        self.ssh_picker = Some(SshPicker { list, cursor: 0 });
    }

    pub fn picker_move(&mut self, delta: i32)
        ensures
            final(self)@ == old(self)@.picker_moved(delta),
    {
        match self.ssh_picker.take() {
            Some(p) => {
                assert(text::views(p.list@).len() == p.list@.len());
                let mut q = p;
                if q.list.len() > 0 {
                    q.cursor = wrap_step(q.cursor, delta, q.list.len());
                }
                self.ssh_picker = Some(q);
            },
            None => {},
        }
    }

    fn add_host(&mut self, h: SshHost)
        ensures
            final(self)@ == old(self)@.host_added(h@),
    {
        self.ssh_picker = None;
        let target = config::target_from_ssh_host(h);
        let name = target.name.clone();
        // If this is the first target, mark it as default so it's
        // auto-selected in the UI and the user can start dropping files
        // immediately without another click.
        let was_empty = self.cfg.targets.len() == 0;
        let added = target.clone();
        proof {
            text::lemma_views_push(self.cfg.targets@, added);
        }
        self.cfg.targets.push(added);
        if was_empty {
            self.cfg.default_target = Some(name.clone());
        }
        self.rebuild_target_rows();
        let mut m = "added target: ".to_owned();
        m.append(name.as_str());
        self.persist_config(Some(m));
        self.emit(Effect::Preflight { target, after_install: false });
    }

    pub fn add_picker_selection(&mut self)
        ensures
            final(self)@ == old(self)@.picked(),
    {
        let chosen = match &self.ssh_picker {
            Some(p) => if p.cursor < p.list.len() {
                assert(text::views(p.list@)[p.cursor as int] == p.list@[p.cursor as int]@);
                Some(copy_host(&p.list[p.cursor]))
            } else {
                None
            },
            None => None,
        };
        if let Some(h) = chosen {
            self.add_host(h);
        }
    }

    pub fn remove_current_target(&mut self, now: u64)
        ensures
            final(self)@ == old(self)@.target_removed(now),
    {
        let i = self.target_cursor;
        assert(text::views(self.target_rows@).len() == self.target_rows@.len());
        if i >= self.target_rows.len() {
            return;
        }
        assert(self@.target_rows[i as int] == self.target_rows@[i as int]@);
        match self.target_rows[i].kind {
            TargetKind::Group => {
                self.show("select a target (not a group) to remove", now);
                return;
            },
            TargetKind::Single => {},
        }
        let name = self.target_rows[i].name.clone();
        self.cfg.targets = drop_target(&self.cfg.targets, name.as_str());
        let was_default = match &self.cfg.default_target {
            Some(dt) => text::same(dt.as_str(), name.as_str()),
            None => false,
        };
        assert(text::views(self.cfg.targets@).len() == self.cfg.targets@.len());
        if was_default {
            self.cfg.default_target =
            if self.cfg.targets.len() > 0 {
                Some(self.cfg.targets[0].name.clone())
            } else {
                None
            };
        }
        self.rebuild_target_rows();
        let mut m = "removed target: ".to_owned();
        m.append(name.as_str());
        self.persist_config(Some(m));
    }
}

} // verus!
