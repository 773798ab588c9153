//! Adding, editing and deleting watched folders.
use vstd::prelude::*;

use crate::app::edit;
use crate::app::rows;
use crate::app::types::{
    App, AppView, Effect, EffectView, FormField, FormView, Key, KeyCode, WatchForm, WatchUi,
    WatchUiStatus, WatchUiView,
};
use crate::app::watching;
use crate::config;
use crate::config::{Config, ConfigView};
use crate::target;
use crate::target::{
    CatchupMode, ConflictAction, GroupView, TargetView, WatchConfig, WatchView,
};
use crate::text;
use crate::text::CharClass;

verus! {

// ---------------------------------------------------------------------------
// What a form says
// ---------------------------------------------------------------------------
pub open spec fn all_trimmed(parts: Seq<Seq<char>>) -> Seq<Seq<char>> {
    Seq::new(parts.len(), |i: int| text::trim(parts[i]))
}

/// Names between commas, without blanks around them.
pub open spec fn names_in(s: Seq<char>) -> Seq<Seq<char>> {
    text::non_empty(all_trimmed(text::split(s, CharClass::Just(','))))
}

fn read_names(s: &str) -> (r: Vec<String>)
    ensures
        text::strs(r@) == names_in(s@),
{
    let parts = text::split_by(s, CharClass::Just(','));
    let ghost all = all_trimmed(text::strs(parts@));
    let mut r = text::no_strs();
    let mut i: usize = 0;
    assert(text::non_empty(all.take(0)) =~= seq![]);
    while i < parts.len()
        invariant
            i <= parts@.len(),
            all == all_trimmed(text::strs(parts@)),
            text::strs(r@) == text::non_empty(all.take(i as int)),
        decreases parts@.len() - i,
    {
        let t = text::trimmed(parts[i].as_str());
        assert(all.take(i + 1).drop_last() =~= all.take(i as int));
        assert(all.take(i + 1).last() == t@);
        if !t.as_str().is_empty() {
            text::push_str(&mut r, t.as_str());
        }
        i = i + 1;
    }
    assert(all.take(i as int) =~= all);
    r
}

/// A watch of which nothing is said but what a form asks for: everything else is
/// as in a configuration file that leaves it out.
pub open spec fn plain_watch() -> WatchView {
    WatchView {
        name: seq![],
        path: seq![],
        targets: seq![],
        patterns: target::watch_patterns(),
        catchup: CatchupMode::Prompt,
        enabled: false,
        debounce_ms: 500,
        recursive: false,
        on_conflict: ConflictAction::Rename,
    }
}

/// `base` with the name, the folder and the targets that the form gives.
pub open spec fn filled(f: FormView, base: WatchView) -> WatchView {
    WatchView {
        name: text::trim(f.name),
        path: text::trim(f.path),
        targets: names_in(f.targets),
        ..base
    }
}

fn fill(f: &WatchForm, base: WatchConfig) -> (r: WatchConfig)
    ensures
        r@ == filled(f@, base@),
{
    WatchConfig {
        name: text::trimmed(f.name.as_str()),
        path: text::trimmed(f.path.as_str()),
        targets: read_names(f.targets.as_str()),
        patterns: base.patterns,
        catchup: base.catchup,
        enabled: base.enabled,
        debounce_ms: base.debounce_ms,
        recursive: base.recursive,
        on_conflict: base.on_conflict,
    }
}

fn fresh_watch() -> (r: WatchConfig)
    ensures
        r@ == plain_watch(),
{
    let r = WatchConfig {
        name: String::new(),
        path: String::new(),
        targets: text::no_strs(),
        patterns: target::default_watch_patterns(),
        catchup: CatchupMode::Prompt,
        enabled: false,
        debounce_ms: target::default_debounce_ms(),
        recursive: false,
        on_conflict: ConflictAction::Rename,
    };
    assert(r.name@ =~= seq![]);
    assert(r.path@ =~= seq![]);
    r
}

/// Where the watch of that name is configured; past the end where it is not.
pub open spec fn entry_index(ws: Seq<WatchView>, name: Seq<char>) -> int
    decreases ws.len(),
{
    if ws.len() == 0 || ws[0].name == name {
        0
    } else {
        1 + entry_index(ws.drop_first(), name)
    }
}

fn find_entry(ws: &Vec<WatchConfig>, name: &str) -> (r: usize)
    ensures
        r == entry_index(text::views(ws@), name@),
        r <= ws@.len(),
{
    let ghost all = text::views(ws@);
    let mut i: usize = 0;
    assert(all.skip(0) =~= all);
    while i < ws.len()
        invariant
            i <= ws@.len(),
            all == text::views(ws@),
            entry_index(all, name@) == i + entry_index(all.skip(i as int), name@),
        decreases ws@.len() - i,
    {
        assert(all.skip(i as int)[0] == ws@[i as int]@);
        if text::same(ws[i].name.as_str(), name) {
            return i;
        }
        assert(all.skip(i as int).drop_first() =~= all.skip(i + 1));
        i = i + 1;
    }
    i
}

/// The place in the configuration that a form is about; past the end for a new
/// watch.
pub open spec fn entry_of(f: FormView, ws: Seq<WatchView>) -> int {
    match f.editing {
        Some(n) => entry_index(ws, n),
        None => ws.len() as int,
    }
}

/// The watch that a form describes.
pub open spec fn described(f: FormView, ws: Seq<WatchView>) -> WatchView {
    let i = entry_of(f, ws);
    filled(
        f,
        if i < ws.len() {
            ws[i]
        } else {
            plain_watch()
        },
    )
}

/// The configuration with the watch that a form describes.
pub open spec fn revised(cfg: ConfigView, f: FormView) -> ConfigView {
    let i = entry_of(f, cfg.watches);
    let w = described(f, cfg.watches);
    ConfigView {
        watches: if i < cfg.watches.len() {
            cfg.watches.update(i, w)
        } else {
            cfg.watches.push(w)
        },
        ..cfg
    }
}

/// Puts the watch that the form describes into the configuration, where that leaves
/// it valid; gives the watch's name and its row, or what would be wrong.
fn revise(cfg: &mut Config, f: &WatchForm) -> (r: Result<(String, WatchUi), String>)
    ensures
        match config::problem(revised(old(cfg)@, f@)) {
            Some(e) => r is Err && r->Err_0@ == config::problem_text(e) && final(cfg)@ == old(
                cfg,
            )@,
            None => r is Ok && final(cfg)@ == revised(old(cfg)@, f@) && ({
                let w = described(f@, old(cfg)@.watches);
                r->Ok_0.0@ == w.name && r->Ok_0.1@ == rows::idle_watch(w)
            }),
        },
{
    let ghost before = cfg@;
    assert(before.watches.len() == cfg.watches@.len());
    let i = match &f.editing {
        Some(n) => find_entry(&cfg.watches, n.as_str()),
        None => cfg.watches.len(),
    };
    if i < cfg.watches.len() {
        let former = cfg.watches[i].clone();
        assert(former@ == before.watches[i as int]);
        let w = fill(f, cfg.watches[i].clone());
        let name = w.name.clone();
        let row = rows::idle_row(&w);
        cfg.watches.set(i, w);
        assert(text::views(cfg.watches@) =~= revised(before, f@).watches);
        match config::validate(cfg) {
            Ok(_) => Ok((name, row)),
            Err(e) => {
                cfg.watches.set(i, former);
                assert(text::views(cfg.watches@) =~= before.watches);
                Err(e.message())
            },
        }
    } else {
        let w = fill(f, fresh_watch());
        let name = w.name.clone();
        let row = rows::idle_row(&w);
        cfg.watches.push(w);
        assert(text::views(cfg.watches@) =~= revised(before, f@).watches);
        match config::validate(cfg) {
            Ok(_) => Ok((name, row)),
            Err(e) => {
                let _ = cfg.watches.pop();
                assert(text::views(cfg.watches@) =~= before.watches);
                Err(e.message())
            },
        }
    }
}

// ---------------------------------------------------------------------------
// Opening, typing and closing
// ---------------------------------------------------------------------------
pub open spec fn next_field(f: FormField, forward: bool) -> FormField {
    match (f, forward) {
        (FormField::Name, true) => FormField::Path,
        (FormField::Path, true) => FormField::Targets,
        (FormField::Targets, true) => FormField::Name,
        (FormField::Name, false) => FormField::Targets,
        (FormField::Path, false) => FormField::Name,
        (FormField::Targets, false) => FormField::Path,
    }
}

fn step_field(f: FormField, forward: bool) -> (r: FormField)
    ensures
        r == next_field(f, forward),
{
    match (f, forward) {
        (FormField::Name, true) => FormField::Path,
        (FormField::Path, true) => FormField::Targets,
        (FormField::Targets, true) => FormField::Name,
        (FormField::Name, false) => FormField::Targets,
        (FormField::Path, false) => FormField::Name,
        (FormField::Targets, false) => FormField::Path,
    }
}

/// The text of the line that is being typed in.
pub open spec fn line_text(f: FormView) -> Seq<char> {
    match f.field {
        FormField::Name => f.name,
        FormField::Path => f.path,
        FormField::Targets => f.targets,
    }
}

pub open spec fn with_line(f: FormView, t: Seq<char>) -> FormView {
    match f.field {
        FormField::Name => FormView { name: t, ..f },
        FormField::Path => FormView { path: t, ..f },
        FormField::Targets => FormView { targets: t, ..f },
    }
}

pub open spec fn empty_form() -> FormView {
    FormView {
        editing: None,
        field: FormField::Name,
        name: seq![],
        path: seq![],
        targets: seq![],
    }
}

pub open spec fn form_for(w: WatchView) -> FormView {
    FormView {
        editing: Some(w.name),
        field: FormField::Name,
        name: w.name,
        path: w.path,
        targets: text::joined(w.targets, ", "@),
    }
}

impl AppView {
    /// The form for a new watch.
    pub open spec fn form_opened(self) -> AppView {
        AppView { watch_form: Some(empty_form()), ..self }
    }

    /// The form for the watch under the cursor.
    pub open spec fn form_opened_for_cursor(self) -> AppView {
        let i = self.watch_cursor as int;
        if i >= self.watches.len() {
            self
        } else {
            let k = entry_index(self.cfg.watches, self.watches[i].name);
            if k >= self.cfg.watches.len() {
                self
            } else {
                AppView { watch_form: Some(form_for(self.cfg.watches[k])), ..self }
            }
        }
    }

    pub open spec fn form_closed(self) -> AppView {
        AppView { watch_form: None, ..self }
    }

    pub open spec fn form_typed(self, f: FormView, t: Seq<char>) -> AppView {
        AppView { watch_form: Some(with_line(f, t)), ..self }
    }

    /// The watch called `name`, where it runs, is told to end.
    pub open spec fn watch_ended(self, name: Seq<char>) -> AppView {
        let i = watching::watch_index(self.watches, name);
        if i < self.watches.len() && (self.watches[i].status is Starting
            || self.watches[i].status is Running) {
            self.emit(EffectView::StopWatch { name })
        } else {
            self
        }
    }

    /// A row takes the place of the watch called `name`, or comes last.
    pub open spec fn row_stored(self, name: Option<Seq<char>>, row: WatchUiView) -> AppView {
        let i = match name {
            Some(n) => watching::watch_index(self.watches, n),
            None => self.watches.len() as int,
        };
        AppView {
            watches: if i < self.watches.len() {
                self.watches.update(i, row)
            } else {
                self.watches.push(row)
            },
            ..self
        }
    }

    /// What a form describes is configured, and the form closes.
    pub open spec fn form_accepted(self, f: FormView) -> AppView {
        AppView { cfg: revised(self.cfg, f), watch_form: None, ..self }
    }

    /// A form is sent off. What it describes must leave the configuration valid;
    /// else it is said what is wrong, and the form stays. A watch that is edited
    /// ends, and waits to be started again.
    pub open spec fn form_sent(self, f: FormView, now: u64) -> AppView {
        match config::problem(revised(self.cfg, f)) {
            Some(e) => self.toasted(config::problem_text(e), now),
            None => {
                let w = described(f, self.cfg.watches);
                let row = rows::idle_watch(w);
                let a = self.form_accepted(f);
                match f.editing {
                    Some(n) => a.watch_ended(n).row_stored(Some(n), row).emit(
                        edit::save(Some("saved watch: "@ + w.name)),
                    ),
                    None => a.row_stored(None, row).emit(
                        edit::save(Some("added watch: "@ + w.name)),
                    ),
                }
            },
        }
    }

    /// Keys while a form is open.
    #[verifier::opaque]
    pub open spec fn form_key(self, f: FormView, k: Key, now: u64) -> AppView {
        let t = line_text(f);
        match k.code {
            KeyCode::Esc => self.form_closed(),
            KeyCode::Enter => self.form_sent(f, now),
            KeyCode::Tab | KeyCode::Down => AppView {
                watch_form: Some(FormView { field: next_field(f.field, true), ..f }),
                ..self
            },
            KeyCode::BackTab | KeyCode::Up => AppView {
                watch_form: Some(FormView { field: next_field(f.field, false), ..f }),
                ..self
            },
            KeyCode::Backspace => if t.len() == 0 {
                self
            } else {
                self.form_typed(f, t.drop_last())
            },
            KeyCode::Char(c) => if k.ctrl {
                self
            } else {
                self.form_typed(f, t.push(c))
            },
            _ => self,
        }
    }
}

impl App {
    pub fn open_watch_form(&mut self)
        ensures
            final(self)@ == old(self)@.form_opened(),
    {
        let f = WatchForm {
            editing: None,
            field: FormField::Name,
            name: String::new(),
            path: String::new(),
            targets: String::new(),
        };
        assert(f.name@ =~= seq![]);
        assert(f.path@ =~= seq![]);
        assert(f.targets@ =~= seq![]);
        self.watch_form = Some(f);
    }

    pub fn edit_current_watch(&mut self)
        ensures
            final(self)@ == old(self)@.form_opened_for_cursor(),
    {
        let i = self.watch_cursor;
        assert(self@.watches.len() == self.watches@.len());
        if i >= self.watches.len() {
            return;
        }
        assert(self@.watches[i as int] == self.watches@[i as int]@);
        let k = find_entry(&self.cfg.watches, self.watches[i].name.as_str());
        if k >= self.cfg.watches.len() {
            return;
        }
        let w = &self.cfg.watches[k];
        assert(w@ == self@.cfg.watches[k as int]);
        let f = WatchForm {
            editing: Some(w.name.clone()),
            field: FormField::Name,
            name: w.name.clone(),
            path: w.path.clone(),
            targets: text::join(&w.targets, ", "),
        };
        self.watch_form = Some(f);
    }

    fn end_watch(&mut self, name: &str)
        ensures
            final(self)@ == old(self)@.watch_ended(name@),
    {
        let i = watching::find_watch(&self.watches, name);
        if i < self.watches.len() {
            assert(self@.watches[i as int] == self.watches@[i as int]@);
            let runs = match &self.watches[i].status {
                WatchUiStatus::Starting | WatchUiStatus::Running => true,
                _ => false,
            };
            if runs {
                self.emit(Effect::StopWatch { name: name.to_owned() });
            }
        }
    }

    /// Puts a row in the place of the watch called `name`, or at the end.
    fn store_row(&mut self, name: Option<&str>, row: WatchUi)
        ensures
            final(self)@ == old(self)@.row_stored(text::opt_str(name), row@),
    {
        let ghost before = self.watches@;
        let i = match name {
            Some(n) => watching::find_watch(&self.watches, n),
            None => self.watches.len(),
        };
        if i < self.watches.len() {
            self.watches.set(i, row);
            assert(text::views(self.watches@) =~= text::views(before).update(i as int, row@));
        } else {
            self.watches.push(row);
            assert(text::views(self.watches@) =~= text::views(before).push(row@));
        }
    }

    fn store_watch(&mut self, former: &Option<String>, name: &str, row: WatchUi)
        ensures
            final(self)@ == (match text::opt(*former) {
                Some(n) => old(self)@.watch_ended(n).row_stored(Some(n), row@).emit(
                    edit::save(Some("saved watch: "@ + name@)),
                ),
                None => old(self)@.row_stored(None, row@).emit(
                    edit::save(Some("added watch: "@ + name@)),
                ),
            }),
    {
        match former {
            Some(n) => {
                self.end_watch(n.as_str());
                self.store_row(Some(n.as_str()), row);
                let mut m = "saved watch: ".to_owned();
                m.append(name);
                self.persist_config(Some(m));
            },
            None => {
                self.store_row(None, row);
                let mut m = "added watch: ".to_owned();
                m.append(name);
                self.persist_config(Some(m));
            },
        }
    }

    pub fn send_watch_form(&mut self, f: WatchForm, now: u64)
        ensures
            final(self)@ == old(self)@.form_sent(f@, now),
    {
        let ghost a = self@;
        match revise(&mut self.cfg, &f) {
            Err(e) => {
                assert(self@ == a);
                self.show(e.as_str(), now);
            },
            Ok((name, row)) => {
                self.watch_form = None;
                assert(self@ == a.form_accepted(f@));
                self.store_watch(&f.editing, name.as_str(), row);
            },
        }
    }

    fn type_line(&mut self, f: WatchForm, t: String)
        ensures
            final(self)@ == old(self)@.form_typed(f@, t@),
    {
        let mut g = f;
        match g.field {
            FormField::Name => {
                g.name = t;
            },
            FormField::Path => {
                g.path = t;
            },
            FormField::Targets => {
                g.targets = t;
            },
        }
        self.watch_form = Some(g);
    }

    pub(crate) fn form_keyed(&mut self, f: WatchForm, k: Key, now: u64)
        ensures
            final(self)@ == old(self)@.form_key(f@, k, now),
    {
        proof {
            reveal(AppView::form_key);
        }
        let line = match f.field {
            FormField::Name => f.name.clone(),
            FormField::Path => f.path.clone(),
            FormField::Targets => f.targets.clone(),
        };
        match k.code {
            KeyCode::Esc => {
                self.watch_form = None;
            },
            KeyCode::Enter => self.send_watch_form(f, now),
            KeyCode::Tab | KeyCode::Down => {
                let mut g = f;
                g.field = step_field(g.field, true);
                self.watch_form = Some(g);
            },
            KeyCode::BackTab | KeyCode::Up => {
                let mut g = f;
                g.field = step_field(g.field, false);
                self.watch_form = Some(g);
            },
            KeyCode::Backspace => {
                let cs = text::chars_of(line.as_str());
                if cs.len() > 0 {
                    let t = text::string_of(&cs, 0, cs.len() - 1);
                    assert(t@ =~= line@.drop_last());
                    self.type_line(f, t);
                }
            },
            KeyCode::Char(c) => {
                if !k.ctrl {
                    let mut t = line;
                    t.push(c);
                    self.type_line(f, t);
                }
            },
            _ => {},
        }
    }
}

// ---------------------------------------------------------------------------
// Deleting
// ---------------------------------------------------------------------------
/// The watches of another name, in order.
pub open spec fn without_watch(ws: Seq<WatchView>, name: Seq<char>) -> Seq<WatchView>
    decreases ws.len(),
{
    if ws.len() == 0 {
        seq![]
    } else if ws.last().name == name {
        without_watch(ws.drop_last(), name)
    } else {
        without_watch(ws.drop_last(), name).push(ws.last())
    }
}

fn drop_watch(ws: &Vec<WatchConfig>, name: &str) -> (r: Vec<WatchConfig>)
    ensures
        text::views(r@) == without_watch(text::views(ws@), name@),
{
    let ghost all = text::views(ws@);
    let mut r: Vec<WatchConfig> = Vec::new();
    let mut i: usize = 0;
    assert(text::views(r@) =~= without_watch(all.take(0), name@));
    while i < ws.len()
        invariant
            i <= ws@.len(),
            all == text::views(ws@),
            text::views(r@) == without_watch(all.take(i as int), name@),
        decreases ws@.len() - i,
    {
        assert(all.take(i + 1).drop_last() =~= all.take(i as int));
        assert(all.take(i + 1).last() == ws@[i as int]@);
        if !text::same(ws[i].name.as_str(), name) {
            let w = ws[i].clone();
            proof {
                text::lemma_views_push(r@, w);
            }
            r.push(w);
        }
        i = i + 1;
    }
    assert(all.take(i as int) =~= all);
    r
}

impl AppView {
    /// The watch under the cursor ends, and goes.
    pub open spec fn watch_deleted(self) -> AppView {
        let i = self.watch_cursor as int;
        if i >= self.watches.len() {
            self
        } else {
            let name = self.watches[i].name;
            let rest = self.watches.remove(i);
            AppView {
                cfg: ConfigView {
                    watches: without_watch(self.cfg.watches, name),
                    ..self.cfg
                },
                watches: rest,
                watch_cursor: if i < rest.len() || i == 0 {
                    self.watch_cursor
                } else {
                    (i - 1) as usize
                },
                ..self.watch_ended(name)
            }.emit(edit::save(Some("removed watch: "@ + name)))
        }
    }
}

impl App {
    pub fn delete_current_watch(&mut self)
        ensures
            final(self)@ == old(self)@.watch_deleted(),
    {
        let ghost a = self@;
        let i = self.watch_cursor;
        assert(self@.watches.len() == self.watches@.len());
        if i >= self.watches.len() {
            return;
        }
        assert(self@.watches[i as int] == self.watches@[i as int]@);
        let name = self.watches[i].name.clone();
        self.end_watch(name.as_str());
        self.cfg.watches = drop_watch(&self.cfg.watches, name.as_str());
        let ghost before = self.watches@;
        let _ = self.watches.remove(i);
        assert(text::views(self.watches@) =~= text::views(before).remove(i as int));
        if i >= self.watches.len() && i > 0 {
            self.watch_cursor = i - 1;
        }
        let mut m = "removed watch: ".to_owned();
        m.append(name.as_str());
        self.persist_config(Some(m));
    }
}

// ---------------------------------------------------------------------------
// Laws
// ---------------------------------------------------------------------------
/// A form that is accepted leaves a valid configuration that holds the watch it
/// describes; one that is refused changes nothing and stays open.
pub proof fn law_accepted_forms_are_configured(a: AppView, f: FormView, now: u64)
    ensures
        config::problem(revised(a.cfg, f)) is None ==> {
            let b = a.form_sent(f, now);
            &&& config::problem(b.cfg) is None
            &&& b.cfg.watches.contains(described(f, a.cfg.watches))
            &&& b.watch_form is None
        },
        config::problem(revised(a.cfg, f)) is Some ==> a.form_sent(f, now) == (AppView {
            toast: a.form_sent(f, now).toast,
            ..a
        }),
{
    if config::problem(revised(a.cfg, f)) is None {
        let ws = a.cfg.watches;
        let i = entry_of(f, ws);
        lemma_entry_index(ws, match f.editing {
            Some(n) => n,
            None => seq![],
        });
        let b = a.form_sent(f, now);
        assert(b.cfg == revised(a.cfg, f));
        if i < ws.len() {
            assert(b.cfg.watches[i] == described(f, ws));
        } else {
            assert(b.cfg.watches[ws.len() as int] == described(f, ws));
        }
    }
}

proof fn lemma_entry_index(ws: Seq<WatchView>, name: Seq<char>)
    ensures
        0 <= entry_index(ws, name) <= ws.len(),
        entry_index(ws, name) < ws.len() ==> ws[entry_index(ws, name)].name == name,
    decreases ws.len(),
{
    if ws.len() > 0 && ws[0].name != name {
        lemma_entry_index(ws.drop_first(), name);
    }
}

/// No watch of the deleted one's name is left, and no other has come.
pub proof fn law_deleted_watches_are_gone(a: AppView, i: int)
    requires
        a.watch_cursor < a.watches.len(),
        0 <= i < a.watch_deleted().cfg.watches.len(),
    ensures
        a.watch_deleted().cfg.watches[i].name != a.watches[a.watch_cursor as int].name,
        a.cfg.watches.contains(a.watch_deleted().cfg.watches[i]),
{
    lemma_without_watch(a.cfg.watches, a.watches[a.watch_cursor as int].name, i);
}

proof fn lemma_without_watch(ws: Seq<WatchView>, name: Seq<char>, i: int)
    requires
        0 <= i < without_watch(ws, name).len(),
    ensures
        without_watch(ws, name)[i].name != name,
        ws.contains(without_watch(ws, name)[i]),
    decreases ws.len(),
{
    let rest = without_watch(ws.drop_last(), name);
    if i < rest.len() {
        lemma_without_watch(ws.drop_last(), name, i);
        let k = choose|k: int| 0 <= k < ws.drop_last().len() && ws.drop_last()[k] == rest[i];
        assert(ws[k] == rest[i]);
    } else {
        assert(ws[ws.len() - 1] == ws.last());
    }
}

proof fn lemma_same_checks(
    n: nat,
    c: spec_fn(nat) -> Option<config::Problem>,
    d: spec_fn(nat) -> Option<config::Problem>,
)
    requires
        forall|i: nat| i < n ==> #[trigger] c(i) == d(i),
    ensures
        config::first_problem(n, c) == config::first_problem(n, d),
    decreases n,
{
    if n > 0 {
        lemma_same_checks((n - 1) as nat, c, d);
        assert(c((n - 1) as nat) == d((n - 1) as nat));
    }
}

proof fn lemma_more_watches(ts: Seq<TargetView>, gs: Seq<GroupView>, ws: Seq<WatchView>)
    requires
        ws.len() > 0,
    ensures
        config::first_problem(
            (ws.len() - 1) as nat,
            config::watch_check(ts, gs, ws.drop_last()),
        ) == config::first_problem((ws.len() - 1) as nat, config::watch_check(ts, gs, ws)),
{
    let c = config::watch_check(ts, gs, ws.drop_last());
    let d = config::watch_check(ts, gs, ws);
    assert forall|i: nat| i < ws.len() - 1 implies #[trigger] c(i) == d(i) by {
        assert(ws.drop_last().take(i as int) =~= ws.take(i as int));
    }
    lemma_same_checks((ws.len() - 1) as nat, c, d);
}

proof fn lemma_fewer_watches(
    ts: Seq<TargetView>,
    gs: Seq<GroupView>,
    ws: Seq<WatchView>,
    name: Seq<char>,
)
    requires
        config::first_problem(ws.len(), config::watch_check(ts, gs, ws)) is None,
    ensures
        config::first_problem(
            without_watch(ws, name).len(),
            config::watch_check(ts, gs, without_watch(ws, name)),
        ) is None,
    decreases ws.len(),
{
    if ws.len() > 0 {
        let n = (ws.len() - 1) as nat;
        let before = without_watch(ws.drop_last(), name);
        lemma_more_watches(ts, gs, ws);
        lemma_fewer_watches(ts, gs, ws.drop_last(), name);
        if ws.last().name != name {
            let after = before.push(ws.last());
            assert(after.drop_last() =~= before);
            lemma_more_watches(ts, gs, after);
            assert(config::watch_check(ts, gs, ws)(n) is None);
            assert(after.take(before.len() as int) =~= before);
            assert(!config::names_watch(ws.take(n as int), ws.last().name));
            if config::names_watch(before, ws.last().name) {
                let i = choose|i: int|
                    0 <= i < before.len() && #[trigger] before[i].name == ws.last().name;
                lemma_without_watch(ws.drop_last(), name, i);
                let k = choose|k: int|
                    0 <= k < ws.drop_last().len() && ws.drop_last()[k] == before[i];
                assert(ws.take(n as int)[k] == before[i]);
            }
            assert(config::watch_check(ts, gs, after)(before.len()) is None);
        }
    }
}

/// Deleting a watch leaves a valid configuration valid.
pub proof fn law_deleting_keeps_configurations_valid(a: AppView)
    requires
        config::problem(a.cfg) is None,
    ensures
        config::problem(a.watch_deleted().cfg) is None,
{
    if a.watch_cursor < a.watches.len() {
        lemma_fewer_watches(
            a.cfg.targets,
            a.cfg.groups,
            a.cfg.watches,
            a.watches[a.watch_cursor as int].name,
        );
    }
}

/// A watch that runs is told to end when it is deleted, where no other has its
/// name.
pub proof fn law_deleted_watches_end(a: AppView)
    requires
        a.watch_cursor < a.watches.len(),
        a.watches[a.watch_cursor as int].status is Starting
            || a.watches[a.watch_cursor as int].status is Running,
        forall|i: int|
            0 <= i < a.watches.len() && i != a.watch_cursor ==> (#[trigger] a.watches[i]).name
                != a.watches[a.watch_cursor as int].name,
    ensures
        a.watch_deleted().outbox == a.outbox.push(
            EffectView::StopWatch { name: a.watches[a.watch_cursor as int].name },
        ).push(edit::save(Some("removed watch: "@ + a.watches[a.watch_cursor as int].name))),
{
    lemma_only_row(a.watches, a.watch_cursor as int);
}

proof fn lemma_only_row(ws: Seq<WatchUiView>, i: int)
    requires
        0 <= i < ws.len(),
        forall|k: int| 0 <= k < ws.len() && k != i ==> (#[trigger] ws[k]).name != ws[i].name,
    ensures
        watching::watch_index(ws, ws[i].name) == i,
    decreases ws.len(),
{
    if i > 0 {
        let rest = ws.drop_first();
        assert(ws[0].name != ws[i].name);
        assert forall|k: int| 0 <= k < rest.len() && k != i - 1 implies (#[trigger] rest[k]).name
            != rest[i - 1].name by {
            assert(rest[k] == ws[k + 1]);
        }
        lemma_only_row(rest, i - 1);
    }
}

/// A name that can stand in a list of names as it is.
pub open spec fn listable(n: Seq<char>) -> bool {
    n.len() > 0 && !n.contains(',') && text::trim(n) == n
}

proof fn lemma_split_run(s: Seq<char>, t: Seq<char>)
    requires
        !t.contains(','),
    ensures
        text::split(s, CharClass::Just(',')).len() > 0,
        text::split(s + t, CharClass::Just(',')) == text::split(s, CharClass::Just(',')).update(
            text::split(s, CharClass::Just(',')).len() - 1,
            text::split(s, CharClass::Just(',')).last() + t,
        ),
    decreases s.len() + 2 * t.len(),
{
    let k = CharClass::Just(',');
    if t.len() == 0 {
        if s.len() > 0 {
            lemma_split_run(s.drop_last(), seq![]);
        }
        assert(s + t =~= s);
        let r = text::split(s, k);
        assert(r.last() + t =~= r.last());
        assert(r =~= r.update(r.len() - 1, r.last()));
    } else {
        let u = t.drop_last();
        assert(!u.contains(',')) by {
            if u.contains(',') {
                let i = choose|i: int| 0 <= i < u.len() && u[i] == ',';
                assert(t[i] == ',');
            }
        }
        assert(t[t.len() - 1] != ',');
        lemma_split_run(s, u);
        assert((s + t).drop_last() =~= s + u);
        let r = text::split(s, k);
        let q = text::split(s + u, k);
        assert(q.last().push(t.last()) =~= r.last() + t);
        assert(q.update(q.len() - 1, q.last().push(t.last())) =~= r.update(
            r.len() - 1,
            r.last() + t,
        ));
    }
}

proof fn lemma_names_come_back(names: Seq<Seq<char>>)
    requires
        forall|i: int| 0 <= i < names.len() ==> listable(#[trigger] names[i]),
    ensures
        names.len() > 0 ==> all_trimmed(
            text::split(text::joined(names, ", "@), CharClass::Just(',')),
        ) == names,
        names_in(text::joined(names, ", "@)) == names,
    decreases names.len(),
{
    let k = CharClass::Just(',');
    let s = text::joined(names, ", "@);
    reveal_strlit(", ");
    if names.len() == 0 {
        let none = Seq::<char>::empty();
        assert(s =~= none);
        assert(text::split(s, k) =~= seq![none]);
        assert(text::trim(none) =~= none);
        assert(all_trimmed(text::split(s, k)) =~= seq![none]);
        assert(seq![none].drop_last() =~= seq![]);
        assert(text::non_empty(seq![none].drop_last()) =~= seq![]);
        assert(text::non_empty(seq![none]) =~= names);
    } else {
        let last = names.last();
        assert(listable(names[names.len() - 1]));
        if names.len() == 1 {
            lemma_split_run(seq![], last);
            assert(Seq::<char>::empty() + last =~= last);
            assert(text::split(s, k) =~= seq![last]);
            assert(all_trimmed(text::split(s, k)) =~= names);
        } else {
            let init = names.drop_last();
            assert forall|i: int| 0 <= i < init.len() implies listable(#[trigger] init[i]) by {
                assert(init[i] == names[i]);
            }
            lemma_names_come_back(init);
            let j = text::joined(init, ", "@);
            let t = seq![' '] + last;
            assert(s =~= j.push(',') + t);
            assert(!t.contains(',')) by {
                if t.contains(',') {
                    let i = choose|i: int| 0 <= i < t.len() && t[i] == ',';
                    assert(last[i - 1] == ',');
                }
            }
            lemma_split_run(j.push(','), t);
            assert(j.push(',').drop_last() =~= j);
            assert(Seq::<char>::empty() + t =~= t);
            assert(text::split(s, k) =~= text::split(j, k).push(t));
            assert(t.drop_first() =~= last);
            assert(text::trim(t) == last);
            assert(all_trimmed(text::split(s, k)) =~= all_trimmed(text::split(j, k)).push(last));
            assert(all_trimmed(text::split(s, k)) =~= names);
        }
        lemma_none_empty(names);
    }
}

proof fn lemma_none_empty(names: Seq<Seq<char>>)
    requires
        forall|i: int| 0 <= i < names.len() ==> listable(#[trigger] names[i]),
    ensures
        text::non_empty(names) == names,
    decreases names.len(),
{
    if names.len() > 0 {
        let init = names.drop_last();
        assert(listable(names[names.len() - 1]));
        assert forall|i: int| 0 <= i < init.len() implies listable(#[trigger] init[i]) by {
            assert(init[i] == names[i]);
        }
        lemma_none_empty(init);
        assert(init.push(names.last()) =~= names);
    }
}

/// A form that is opened for a watch and sent off as it is changes nothing in the
/// configuration, where the watch's name and folder have no blanks around them and
/// its targets can be listed.
pub proof fn law_untouched_forms_change_nothing(cfg: ConfigView, name: Seq<char>)
    requires
        entry_index(cfg.watches, name) < cfg.watches.len(),
        ({
            let w = cfg.watches[entry_index(cfg.watches, name)];
            &&& text::trim(w.name) == w.name
            &&& text::trim(w.path) == w.path
            &&& forall|i: int| 0 <= i < w.targets.len() ==> listable(#[trigger] w.targets[i])
        }),
    ensures
        revised(cfg, form_for(cfg.watches[entry_index(cfg.watches, name)])) == cfg,
{
    let i = entry_index(cfg.watches, name);
    let w = cfg.watches[i];
    lemma_entry_index(cfg.watches, name);
    lemma_names_come_back(w.targets);
    assert(filled(form_for(w), w) == w);
    assert(cfg.watches.update(i, w) =~= cfg.watches);
}

/// A watch gets the name, the folder and the targets that were typed, without the blanks
/// around them, and keeps whatever else it had.
pub proof fn law_forms_give_what_was_typed(
    name: Seq<char>,
    path: Seq<char>,
    targets: Seq<Seq<char>>,
    pre: Seq<char>,
    post: Seq<char>,
    f: FormView,
    base: WatchView,
)
    requires
        text::blanks(pre),
        text::blanks(post),
        name.len() > 0 && !text::is_white(name[0]) && !text::is_white(name.last()),
        path.len() > 0 && !text::is_white(path[0]) && !text::is_white(path.last()),
        forall|i: int| 0 <= i < targets.len() ==> listable(#[trigger] targets[i]),
        f.name == pre + name + post,
        f.path == pre + path + post,
        f.targets == text::joined(targets, ", "@),
    ensures
        ({
            let w = filled(f, base);
            &&& w.name == name
            &&& w.path == path
            &&& w.targets == targets
            &&& w == WatchView { name, path, targets, ..base }
        }),
{
    text::law_trim(pre, name, post);
    text::law_trim(pre, path, post);
    lemma_names_come_back(targets);
}

/// A new watch comes last, is not started by itself, and looks only into its own folder.
pub proof fn law_new_watches_come_last(cfg: ConfigView, f: FormView)
    requires
        f.editing is None,
    ensures
        ({
            let c = revised(cfg, f);
            let w = c.watches.last();
            &&& c == ConfigView { watches: c.watches, ..cfg }
            &&& c.watches.len() == cfg.watches.len() + 1
            &&& c.watches.drop_last() == cfg.watches
            &&& w.name == text::trim(f.name)
            &&& !w.enabled
            &&& !w.recursive
            &&& w.patterns.len() > 0
        }),
{
    let c = revised(cfg, f);
    assert(c.watches.drop_last() =~= cfg.watches);
}

/// Editing a watch changes that watch only, and of it only what the form shows.
pub proof fn law_editing_changes_one_watch(cfg: ConfigView, f: FormView, k: int, j: int)
    requires
        0 <= k < cfg.watches.len(),
        f.editing == Some(cfg.watches[k].name),
        forall|x: int| 0 <= x < k ==> (#[trigger] cfg.watches[x]).name != cfg.watches[k].name,
        0 <= j < cfg.watches.len(),
        j != k,
    ensures
        ({
            let c = revised(cfg, f);
            let w = c.watches[k];
            &&& c == ConfigView { watches: c.watches, ..cfg }
            &&& c.watches.len() == cfg.watches.len()
            &&& c.watches[j] == cfg.watches[j]
            &&& w == WatchView {
                name: w.name,
                path: w.path,
                targets: w.targets,
                ..cfg.watches[k]
            }
            &&& w.name == text::trim(f.name)
            &&& w.path == text::trim(f.path)
        }),
{
    lemma_first_entry(cfg.watches, k);
}

proof fn lemma_first_entry(ws: Seq<WatchView>, k: int)
    requires
        0 <= k < ws.len(),
        forall|x: int| 0 <= x < k ==> (#[trigger] ws[x]).name != ws[k].name,
    ensures
        entry_index(ws, ws[k].name) == k,
    decreases ws.len(),
{
    if k > 0 {
        assert(ws[0].name != ws[k].name);
        let rest = ws.drop_first();
        assert(rest[k - 1] == ws[k]);
        assert forall|x: int| 0 <= x < k - 1 implies (#[trigger] rest[x]).name != rest[k
            - 1].name by {
            assert(rest[x] == ws[x + 1]);
        }
        lemma_first_entry(rest, k - 1);
    }
}

/// A watch that runs ends when it is edited: what watches by the old settings is told to
/// stop, and its row says that it is off.
pub proof fn law_edited_watches_end(a: AppView, f: FormView, i: int, now: u64)
    requires
        0 <= i < a.watches.len(),
        a.watches[i].status is Starting || a.watches[i].status is Running,
        f.editing == Some(a.watches[i].name),
        config::problem(revised(a.cfg, f)) is None,
        forall|k: int|
            0 <= k < a.watches.len() && k != i ==> (#[trigger] a.watches[k]).name
                != a.watches[i].name,
    ensures
        ({
            let b = a.form_sent(f, now);
            &&& b.outbox.len() == a.outbox.len() + 2
            &&& b.outbox[a.outbox.len() as int] == (EffectView::StopWatch {
                name: a.watches[i].name,
            })
            &&& b.outbox.last() is SaveConfig
            &&& b.watches.len() == a.watches.len()
            &&& b.watches[i].status is Off
            &&& b.watches[i].name == text::trim(f.name)
            &&& forall|k: int|
                0 <= k < a.watches.len() && k != i ==> #[trigger] b.watches[k] == a.watches[k]
        }),
{
    lemma_only_row(a.watches, i);
}

/// Every watch but the deleted one stays configured, and its row stays, too.
pub proof fn law_other_watches_stay(a: AppView, w: WatchView, j: int)
    requires
        a.watch_cursor < a.watches.len(),
        a.cfg.watches.contains(w),
        w.name != a.watches[a.watch_cursor as int].name,
    ensures
        ({
            let b = a.watch_deleted();
            let i = a.watch_cursor as int;
            &&& b.cfg.watches.contains(w)
            &&& b.watches.len() == a.watches.len() - 1
            &&& 0 <= j < i ==> b.watches[j] == a.watches[j]
            &&& i < j < a.watches.len() ==> b.watches[j - 1] == a.watches[j]
            &&& b.watches.len() > 0 ==> b.watch_cursor < b.watches.len()
            &&& b.cfg.targets == a.cfg.targets && b.cfg.groups == a.cfg.groups
        }),
{
    lemma_others_kept(a.cfg.watches, a.watches[a.watch_cursor as int].name, w);
}

proof fn lemma_others_kept(ws: Seq<WatchView>, name: Seq<char>, w: WatchView)
    requires
        ws.contains(w),
        w.name != name,
    ensures
        without_watch(ws, name).contains(w),
    decreases ws.len(),
{
    let init = ws.drop_last();
    let out = without_watch(init, name);
    let all = without_watch(ws, name);
    let i = choose|i: int| 0 <= i < ws.len() && ws[i] == w;
    if i == ws.len() - 1 {
        assert(all[out.len() as int] == w);
    } else {
        assert(init[i] == w);
        lemma_others_kept(init, name, w);
        let k = choose|k: int| 0 <= k < out.len() && out[k] == w;
        assert(all[k] == w);
    }
}

} // verus!
