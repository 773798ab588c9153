//! What the user's keys and clicks come to: cursors, selections, targets that are added
//! and removed, what is copied, and what is said about it.
use vstd::prelude::*;

use crate::app::activity;
use crate::app::edit;
use crate::app::input;
use crate::app::rows;
use crate::app::sync;
use crate::app::types;
use crate::app::types::{
    ActivityRef, AppEvent, AppView, EffectView, Focus, FormField, FormView, Key, KeyCode,
    MenuAction, ModalHit, PickerView, RecentView, RowView, Tab, TargetKind, TargetStatus,
    TargetStatusView, UpdateView, WatchUiStatusView, WatchUiView,
};
use crate::app::watching;
use crate::config;
use crate::config::ConfigView;
use crate::environment::EnvironmentView;
use crate::history::EntryView;
use crate::ssh_config::HostView;
use crate::target::{ClipboardFormat, SyncMode, TargetView, WatchView};
use crate::text;
use crate::transfer::{TransferState, TransferView};

verus! {

// ---------------------------------------------------------------------------
// Keys
// ---------------------------------------------------------------------------
/// Nothing lies over the panels, and no filter is being typed.
pub open spec fn panels_open(a: AppView) -> bool {
    &&& a.update_status is Idle || a.update_status is Checking || a.update_status is Installing
    &&& a.ssh_picker is None
    &&& !a.menu_visible
    &&& !a.help_visible
    &&& a.watch_form is None
    &&& a.activity_filter is None || a.focus != Focus::Progress
}

/// A key that is pressed alone.
pub open spec fn alone(code: KeyCode) -> Key {
    Key { code, ctrl: false, pressed: true }
}

/// A character that is pressed together with Ctrl.
pub open spec fn with_ctrl(c: char) -> Key {
    Key { code: KeyCode::Char(c), ctrl: true, pressed: true }
}

/// Characters with Ctrl are commands, in whatever panel: the menu, the help, the end,
/// the modes, the tabs, and a look for a new version.
pub proof fn law_ctrl_keys_are_commands(a: AppView, now: u64)
    requires
        panels_open(a),
    ensures
        a.key_handled(with_ctrl('p'), now).menu_visible,
        a.key_handled(with_ctrl('p'), now).menu_cursor == 0,
        a.key_handled(with_ctrl('q'), now).should_quit,
        a.key_handled(with_ctrl('h'), now).help_visible,
        a.key_handled(with_ctrl('a'), now).mode == SyncMode::Auto,
        a.key_handled(with_ctrl('a'), now).cfg.default_mode == SyncMode::Auto,
        a.key_handled(with_ctrl('n'), now).mode == SyncMode::Manual,
        a.key_handled(with_ctrl('n'), now).cfg.default_mode == SyncMode::Manual,
        a.key_handled(with_ctrl('1'), now).current_tab == Tab::Drop,
        a.key_handled(with_ctrl('2'), now).current_tab == Tab::Watch,
        a.update_status is Idle ==> a.key_handled(with_ctrl('u'), now).update_status is Checking
            && a.key_handled(with_ctrl('u'), now).outbox == a.outbox.push(EffectView::CheckUpdate),
        !(a.update_status is Idle) ==> a.key_handled(with_ctrl('u'), now) == a,
{
    reveal(AppView::panel_key);
}

/// Modes, themes and clipboard formats are kept in the configuration, and it is saved.
pub proof fn law_settings_are_saved(a: AppView, now: u64)
    requires
        panels_open(a),
    ensures
        a.key_handled(with_ctrl('a'), now).outbox == a.outbox.push(
            EffectView::SaveConfig { then_toast: None },
        ),
        a.key_handled(with_ctrl('n'), now).outbox == a.outbox.push(
            EffectView::SaveConfig { then_toast: None },
        ),
        a.key_handled(with_ctrl('t'), now).outbox == a.outbox.push(
            EffectView::SaveConfig { then_toast: None },
        ),
        a.key_handled(with_ctrl('t'), now).cfg == (ConfigView {
            theme: edit::next_theme(a.cfg.theme),
            ..a.cfg
        }),
        a.focus != Focus::Progress ==> ({
            let b = a.key_handled(with_ctrl('f'), now);
            &&& b.clipboard_format == edit::next_format(a.clipboard_format)
            &&& b.cfg == ConfigView { clipboard_format: b.clipboard_format, ..a.cfg }
            &&& b.outbox == a.outbox.push(EffectView::SaveConfig { then_toast: None })
        }),
        a.focus == Focus::Progress ==> a.key_handled(with_ctrl('f'), now) == (AppView {
            activity_filter: Some(seq![]),
            ..a
        }),
{
    reveal(AppView::panel_key);
}

/// The clipboard formats, from the plain path to the user's own template.
pub open spec fn formats() -> Seq<ClipboardFormat> {
    seq![
        ClipboardFormat::RemotePath,
        ClipboardFormat::ScpStyle,
        ClipboardFormat::SshPath,
        ClipboardFormat::Custom,
    ]
}

/// The format after one is the next in their order, and after the last the first. So it is
/// with the themes.
pub proof fn law_formats_and_themes_follow_their_order(i: int)
    ensures
        0 <= i < 4 ==> edit::next_format(formats()[i]) == formats()[(i + 1) % 4],
        0 <= i < 5 ==> edit::next_theme(edit::themes()[i]) == edit::themes()[(i + 1) % 5],
        edit::themes() == seq!["mocha"@, "tokyo_night"@, "gruvbox"@, "nord"@, "dracula"@],
{
    if 0 <= i < 5 {
        crate::app::laws::law_themes_go_round(i);
    }
}

/// The place after `i`, or before it, in a list of `n` that wraps around.
pub open spec fn next_place(i: usize, n: nat, down: bool) -> usize {
    if down {
        if i + 1 == n {
            0
        } else {
            (i + 1) as usize
        }
    } else if i == 0 {
        (n - 1) as usize
    } else {
        (i - 1) as usize
    }
}

proof fn lemma_next_place(i: usize, n: nat)
    requires
        i < n <= usize::MAX,
    ensures
        edit::wrapped(i, 1, n) == next_place(i, n, true),
        edit::wrapped(i, (-1) as i32, n) == next_place(i, n, false),
{
    if i + 1 == n {
        vstd::arithmetic::div_mod::lemma_mod_self_0(n as int);
    } else {
        vstd::arithmetic::div_mod::lemma_small_mod((i + 1) as nat, n);
    }
    if i == 0 {
        vstd::arithmetic::div_mod::lemma_mod_add_multiples_vanish(-1, n as int);
        vstd::arithmetic::div_mod::lemma_small_mod((n - 1) as nat, n);
    } else {
        vstd::arithmetic::div_mod::lemma_small_mod((i - 1) as nat, n);
    }
}

/// The cursor of a panel.
pub open spec fn cursor_in(a: AppView, f: Focus) -> usize {
    match f {
        Focus::DropZone => a.queue_cursor,
        Focus::Targets => a.target_cursor,
        Focus::Progress => a.activity_cursor,
        Focus::Watches => a.watch_cursor,
    }
}

/// How many rows a panel has.
pub open spec fn rows_in(a: AppView, f: Focus) -> nat {
    match f {
        Focus::DropZone => a.queue.len(),
        Focus::Targets => a.target_rows.len(),
        Focus::Progress => activity::row_refs(a).len(),
        Focus::Watches => a.watches.len(),
    }
}

/// `b` is `a` but for the cursor of a panel.
pub open spec fn only_cursor(a: AppView, b: AppView, f: Focus) -> bool {
    b == match f {
        Focus::DropZone => AppView { queue_cursor: b.queue_cursor, ..a },
        Focus::Targets => AppView { target_cursor: b.target_cursor, ..a },
        Focus::Progress => AppView { activity_cursor: b.activity_cursor, ..a },
        Focus::Watches => AppView { watch_cursor: b.watch_cursor, ..a },
    }
}

/// Down and Up move the cursor of the focused panel by one row, from either end to the
/// other, and change nothing else. So do `j` and `k`, but over the drop zone.
pub proof fn law_cursors_move_by_one(a: AppView, down: bool, now: u64)
    requires
        panels_open(a),
        cursor_in(a, a.focus) < rows_in(a, a.focus) <= usize::MAX,
    ensures
        ({
            let arrow = if down {
                alone(KeyCode::Down)
            } else {
                alone(KeyCode::Up)
            };
            let letter = if down {
                alone(KeyCode::Char('j'))
            } else {
                alone(KeyCode::Char('k'))
            };
            let b = a.key_handled(arrow, now);
            &&& only_cursor(a, b, a.focus)
            &&& cursor_in(b, a.focus) == next_place(
                cursor_in(a, a.focus),
                rows_in(a, a.focus),
                down,
            )
            &&& a.focus != Focus::DropZone ==> a.key_handled(letter, now) == b
        }),
{
    reveal(AppView::panel_key);
    lemma_next_place(cursor_in(a, a.focus), rows_in(a, a.focus));
}

/// Enter sends the queue from the drop zone and from the targets, copies the row under
/// the cursor in the Activity panel, and sends what a watch holds back.
pub proof fn law_enter_acts_on_the_panel(a: AppView, now: u64)
    requires
        panels_open(a),
    ensures
        a.focus == Focus::DropZone || a.focus == Focus::Targets ==> a.key_handled(
            alone(KeyCode::Enter),
            now,
        ) == a.queue_synced(now),
        a.focus == Focus::Progress ==> a.key_handled(alone(KeyCode::Enter), now)
            == a.cursor_copied(now),
        a.focus == Focus::Watches ==> a.key_handled(alone(KeyCode::Enter), now) == a.caught_up(now)
            && a.key_handled(alone(KeyCode::Char('r')), now) == a.caught_up(now)
            && a.key_handled(alone(KeyCode::Char(' ')), now) == a.watch_toggled(),
{
    reveal(AppView::panel_key);
}

/// `b` is `a` with row `i` selected where it was not, and the other way round.
pub open spec fn row_flipped(a: AppView, b: AppView, i: int) -> bool {
    &&& b == AppView { target_rows: b.target_rows, target_cursor: b.target_cursor, ..a }
    &&& b.target_cursor == i
    &&& b.target_rows.len() == a.target_rows.len()
    &&& b.target_rows[i] == RowView { selected: !a.target_rows[i].selected, ..a.target_rows[i] }
    &&& forall|j: int|
        0 <= j < a.target_rows.len() && j != i ==> #[trigger] b.target_rows[j] == a.target_rows[j]
}

/// Space selects the row under the cursor, and a digit the row of that number; or they
/// are selected no longer. Other rows stay as they are.
pub proof fn law_space_and_digits_select(a: AppView, digit: char, now: u64)
    requires
        panels_open(a),
        a.focus == Focus::Targets,
        '1' <= digit <= '9',
    ensures
        a.target_cursor < a.target_rows.len() ==> row_flipped(
            a,
            a.key_handled(alone(KeyCode::Char(' ')), now),
            a.target_cursor as int,
        ),
        digit as int - '1' as int >= a.target_rows.len() ==> a.key_handled(
            alone(KeyCode::Char(digit)),
            now,
        ) == a,
        a.target_rows.len() > digit as int - '1' as int ==> row_flipped(
            a,
            a.key_handled(alone(KeyCode::Char(digit)), now),
            digit as int - '1' as int,
        ),
{
    reveal(AppView::panel_key);
}

/// Over the drop zone, Delete and Backspace take the file under the cursor out of the
/// queue. The others stay, in order, and the cursor stays on one of them.
pub proof fn law_one_file_leaves_the_queue(a: AppView, back: bool, now: u64)
    requires
        panels_open(a),
        a.focus == Focus::DropZone,
        a.queue_cursor < a.queue.len(),
    ensures
        ({
            let code = if back {
                KeyCode::Backspace
            } else {
                KeyCode::Delete
            };
            let b = a.key_handled(alone(code), now);
            let i = a.queue_cursor as int;
            &&& b == AppView { queue: b.queue, queue_cursor: b.queue_cursor, ..a }
            &&& b.queue == a.queue.take(i) + a.queue.skip(i + 1)
            &&& b.queue.len() > 0 ==> b.queue_cursor < b.queue.len()
            &&& i + 1 < a.queue.len() ==> b.queue_cursor == i
        }),
{
    reveal(AppView::panel_key);
    let i = a.queue_cursor as int;
    assert(a.queue.remove(i) =~= a.queue.take(i) + a.queue.skip(i + 1));
}

/// Tab goes to the next panel and Shift+Tab to the one before: from the drop zone to
/// the targets, from there to the activity, and round.
pub proof fn law_tab_goes_round_the_panels(a: AppView, now: u64)
    requires
        panels_open(a),
        a.current_tab == Tab::Drop,
    ensures
        a.focus == Focus::DropZone ==> a.key_handled(alone(KeyCode::Tab), now) == (AppView {
            focus: Focus::Targets,
            ..a
        }),
        a.focus == Focus::Targets ==> a.key_handled(alone(KeyCode::Tab), now) == (AppView {
            focus: Focus::Progress,
            ..a
        }),
        a.focus == Focus::Progress ==> a.key_handled(alone(KeyCode::Tab), now) == (AppView {
            focus: Focus::DropZone,
            ..a
        }),
        a.focus == Focus::Targets ==> a.key_handled(alone(KeyCode::BackTab), now) == (AppView {
            focus: Focus::DropZone,
            ..a
        }),
{
    reveal(AppView::panel_key);
}

/// A tab that is gone to has the focus on its main panel; nothing else changes.
pub proof fn law_tabs_have_their_panels(a: AppView)
    ensures
        a.current_tab != Tab::Watch ==> a.on_tab(Tab::Watch) == (AppView {
            current_tab: Tab::Watch,
            focus: Focus::Watches,
            ..a
        }),
        a.current_tab != Tab::Drop ==> a.on_tab(Tab::Drop) == (AppView {
            current_tab: Tab::Drop,
            focus: Focus::DropZone,
            ..a
        }),
        a.on_tab(a.current_tab) == a,
{
}

/// Whatever is typed into the filter is kept; Backspace takes the last character back,
/// and Escape and Enter leave the filter.
pub proof fn law_the_filter_is_typed(a: AppView, q: Seq<char>, c: char, now: u64)
    requires
        panels_open(AppView { activity_filter: None, ..a }),
        a.focus == Focus::Progress,
        a.activity_filter == Some(q),
    ensures
        ({
            let b = a.key_handled(alone(KeyCode::Char(c)), now);
            &&& b == AppView { activity_filter: Some(q + seq![c]), ..a }
            &&& b.key_handled(alone(KeyCode::Backspace), now) == a
        }),
        a.key_handled(alone(KeyCode::Esc), now) == (AppView { activity_filter: None, ..a }),
        a.key_handled(alone(KeyCode::Enter), now) == (AppView { activity_filter: None, ..a }),
{
    reveal(AppView::filter_key);
    assert(q.push(c) =~= q + seq![c]);
    assert(q.push(c).drop_last() =~= q);
}

/// In the menu, Enter runs the action under the cursor and a digit the one of that
/// number, once the menu is closed; Escape only closes it.
pub proof fn law_the_menu_runs_what_is_chosen(a: AppView, digit: char, now: u64)
    requires
        a.update_status is Idle,
        a.ssh_picker is None,
        a.menu_visible,
        '1' <= digit <= '9',
    ensures
        ({
            let closed = AppView { menu_visible: false, ..a };
            &&& a.key_handled(alone(KeyCode::Esc), now) == closed
            &&& a.key_handled(alone(KeyCode::Enter), now) == closed.menu_run(
                types::menu()[a.menu_cursor as int],
                now,
            )
            &&& a.key_handled(alone(KeyCode::Char(digit)), now) == closed.menu_run(
                types::menu()[digit as int - '1' as int],
                now,
            )
        }),
        a.menu_cursor < types::menu().len() ==> a.key_handled(alone(KeyCode::Down), now) == (
        AppView { menu_cursor: next_place(a.menu_cursor, types::menu().len(), true), ..a })
            && a.key_handled(alone(KeyCode::Up), now) == (AppView {
            menu_cursor: next_place(a.menu_cursor, types::menu().len(), false),
            ..a
        }),
{
    reveal(AppView::menu_key);
    assert(types::menu().len() == 12);
    if a.menu_cursor < types::menu().len() {
        lemma_next_place(a.menu_cursor, types::menu().len());
    }
}

/// Clearing the queue leaves no file in it, clearing the transfers none of those; both
/// say how many there were. Further entries quit, explain, change the mode, ask for hosts,
/// look for a new version and remove a target.
pub proof fn law_menu_entries(a: AppView, now: u64)
    ensures
        ({
            let b = a.menu_run(MenuAction::ClearQueue, now);
            &&& b.queue.len() == 0 && b.queue_cursor == 0 && b.transfers == a.transfers
            &&& b.outbox == a.outbox
            &&& b.toast is Some && text::contains(
                b.toast->Some_0.0,
                text::decimal(a.queue.len()),
            )
        }),
        ({
            let b = a.menu_run(MenuAction::ClearProgressHistory, now);
            &&& b.transfers.len() == 0 && b.queue == a.queue && b.history == a.history
            &&& b.outbox == a.outbox
            &&& b.toast is Some && text::contains(
                b.toast->Some_0.0,
                text::decimal(a.transfers.len()),
            )
        }),
        a.menu_run(MenuAction::Quit, now).should_quit,
        a.menu_run(MenuAction::Help, now).help_visible,
        a.menu_run(MenuAction::ToggleMode, now).mode != a.mode,
        a.menu_run(MenuAction::AddTargetFromSsh, now).outbox == a.outbox.push(
            EffectView::LoadSshHosts,
        ),
        a.menu_run(MenuAction::CheckUpdate, now) == a.checking_update(),
        a.menu_run(MenuAction::RemoveCurrentTarget, now) == a.target_removed(now),
{
    text::lemma_contains_within("cleared "@, text::decimal(a.queue.len()), " queued"@);
    text::lemma_contains_within(
        "cleared "@,
        text::decimal(a.transfers.len()),
        " transfer(s)"@,
    );
}

/// An update that is offered is installed where the user agrees, and put off where not;
/// other keys leave the question standing.
pub proof fn law_offers_are_answered(a: AppView, version: Seq<char>, code: KeyCode, now: u64)
    requires
        a.update_status == UpdateView::Available(version),
    ensures
        ({
            let b = a.key_handled(alone(code), now);
            let yes = code == KeyCode::Enter || code == KeyCode::Char('y') || code
                == KeyCode::Char('Y');
            let no = code == KeyCode::Esc || code == KeyCode::Char('n') || code == KeyCode::Char(
                'N',
            );
            &&& yes ==> b.outbox == a.outbox.push(EffectView::InstallUpdate { version })
                && b.update_status == UpdateView::Installing(version)
            &&& no ==> b == AppView { update_status: UpdateView::Idle, ..a }
            &&& !yes && !no ==> b == a
        }),
{
    reveal(AppView::offer_key);
}

/// What a look for a new version, and its installation, came to is shown.
pub proof fn law_updates_are_shown(a: AppView, v: Seq<char>, e: Seq<char>, now: u64)
    ensures
        a.update_checked(Ok(Some(v)), now) == (AppView {
            update_status: UpdateView::Available(v),
            ..a
        }),
        a.update_checked(Ok(None), now).update_status is Idle,
        a.update_checked(Ok(None), now).toast is Some,
        a.update_checked(Err(e), now) == (AppView { update_status: UpdateView::Failed(e), ..a }),
        a.update_installed(Ok(seq![v])) == (AppView {
            update_status: UpdateView::Installed(seq![v]),
            ..a
        }),
        a.update_installed(Err(e)) == (AppView { update_status: UpdateView::Failed(e), ..a }),
{
}

// ---------------------------------------------------------------------------
// Messages
// ---------------------------------------------------------------------------
/// A message stands for four seconds and is then gone; a tick changes nothing else while
/// nothing is being typed.
pub proof fn law_messages_stand_for_four_seconds(
    a: AppView,
    msg: Seq<char>,
    at: u64,
    now: u64,
)
    requires
        at <= now,
        a.typed.len() == 0,
    ensures
        now - at <= 4000 ==> a.toasted(msg, at).after_tick(now) == a.toasted(msg, at),
        now - at > 4000 ==> a.toasted(msg, at).after_tick(now) == (AppView { toast: None, ..a }),
{
}

// ---------------------------------------------------------------------------
// Adding and removing targets
// ---------------------------------------------------------------------------
/// Exactly those hosts can be picked that are not targets already.
pub proof fn law_hosts_to_pick_are_new(
    hosts: Seq<HostView>,
    targets: Seq<TargetView>,
    h: HostView,
)
    ensures
        edit::new_hosts(hosts, targets).contains(h) <==> hosts.contains(h) && forall|i: int|
            0 <= i < targets.len() ==> (#[trigger] targets[i]).name != h.name,
    decreases hosts.len(),
{
    if hosts.len() > 0 {
        let init = hosts.drop_last();
        let last = hosts.last();
        let out = edit::new_hosts(init, targets);
        law_hosts_to_pick_are_new(init, targets, h);
        assert(hosts[hosts.len() - 1] == last);
        if init.contains(h) {
            let i = choose|i: int| 0 <= i < init.len() && init[i] == h;
            assert(hosts[i] == h);
        }
        if hosts.contains(h) && h != last {
            let i = choose|i: int| 0 <= i < hosts.len() && hosts[i] == h;
            assert(init[i] == h);
        }
        if !config::names_target(targets, last.name) {
            let p = out.push(last);
            assert(p[out.len() as int] == last);
            if out.contains(h) {
                let i = choose|i: int| 0 <= i < out.len() && out[i] == h;
                assert(p[i] == h);
            }
            if p.contains(h) && h != last {
                let i = choose|i: int| 0 <= i < p.len() && p[i] == h;
                assert(out[i] == h);
            }
        }
    }
}

/// The picker opens on the first of the hosts, or it is said that there are none.
pub proof fn law_the_picker_opens(a: AppView, hosts: Seq<HostView>, now: u64)
    ensures
        ({
            let b = a.picking(hosts, now);
            let list = edit::new_hosts(hosts, a.cfg.targets);
            &&& list.len() > 0 ==> b == AppView {
                ssh_picker: Some(PickerView { list, cursor: 0 }),
                ..a
            }
            &&& list.len() == 0 ==> b == AppView { toast: b.toast, ..a } && b.toast is Some
        }),
{
}

/// Keys move the picker's cursor by one, from either end to the other; Enter picks, and
/// Escape closes.
pub proof fn law_the_picker_is_moved(a: AppView, p: PickerView, now: u64)
    requires
        !(a.update_status is Available || a.update_status is Installed
            || a.update_status is Failed),
        a.ssh_picker == Some(p),
        p.cursor < p.list.len() <= usize::MAX,
    ensures
        a.key_handled(alone(KeyCode::Down), now) == (AppView {
            ssh_picker: Some(
                PickerView { cursor: next_place(p.cursor, p.list.len(), true), ..p },
            ),
            ..a
        }),
        a.key_handled(alone(KeyCode::Up), now) == (AppView {
            ssh_picker: Some(
                PickerView { cursor: next_place(p.cursor, p.list.len(), false), ..p },
            ),
            ..a
        }),
        a.key_handled(alone(KeyCode::Enter), now) == a.host_added(p.list[p.cursor as int]),
        a.key_handled(alone(KeyCode::Esc), now) == (AppView { ssh_picker: None, ..a }),
{
    reveal(AppView::picker_key);
    lemma_next_place(p.cursor, p.list.len());
}

/// A host that is picked becomes the last target, of its name, with its host, user, port
/// and identity file. The first target of all is the default one. The configuration is
/// saved and the target probed.
pub proof fn law_a_picked_host_becomes_a_target(a: AppView, h: HostView)
    ensures
        ({
            let b = a.host_added(h);
            let t = b.cfg.targets.last();
            let n = a.outbox.len() as int;
            &&& b.ssh_picker is None
            &&& b.cfg.targets == a.cfg.targets.push(t)
            &&& t.name == h.name
            &&& t.host == (if h.hostname is Some {
                h.hostname->Some_0
            } else {
                h.name
            })
            &&& t.user == h.user
            &&& t.ssh_port == h.port
            &&& t.ssh_key == h.identity_file
            &&& t.remote_dir.len() > 0
            &&& a.cfg.targets.len() == 0 ==> b.cfg.default_target == Some(h.name)
            &&& a.cfg.targets.len() > 0 ==> b.cfg.default_target == a.cfg.default_target
            &&& b.outbox.len() == n + 2
            &&& b.outbox.take(n) == a.outbox
            &&& b.outbox[n] is SaveConfig
            &&& b.outbox[n + 1] == EffectView::Preflight { target: t, after_install: false }
        }),
{
    reveal_strlit("~/lzsync-inbox");
    let b = a.host_added(h);
    let t = config::inbox_target(h);
    assert(b.cfg.targets.last() == t);
    assert(b.outbox.take(a.outbox.len() as int) =~= a.outbox);
}

/// The target under the cursor is removed, whatever its place, and the configuration is
/// saved. Where it was the default, the first target that is left becomes the default.
/// A group is not removed.
pub proof fn law_the_target_under_the_cursor_goes(a: AppView, t: TargetView, now: u64)
    requires
        a.target_cursor < a.target_rows.len(),
    ensures
        ({
            let row = a.target_rows[a.target_cursor as int];
            let b = a.target_removed(now);
            &&& row.kind == TargetKind::Group ==> b == AppView { toast: b.toast, ..a }
            &&& row.kind == TargetKind::Single ==> {
                &&& b.cfg.targets.contains(t) <==> a.cfg.targets.contains(t) && t.name != row.name
                &&& a.cfg.default_target != Some(row.name) ==> b.cfg.default_target
                    == a.cfg.default_target
                &&& a.cfg.default_target == Some(row.name) && b.cfg.targets.len() > 0
                    ==> b.cfg.default_target == Some(b.cfg.targets[0].name)
                &&& a.cfg.default_target == Some(row.name) && b.cfg.targets.len() == 0
                    ==> b.cfg.default_target is None
                &&& b.cfg.groups == a.cfg.groups && b.cfg.watches == a.cfg.watches
                &&& b.outbox.len() == a.outbox.len() + 1 && b.outbox.last() is SaveConfig
            }
        }),
{
    let row = a.target_rows[a.target_cursor as int];
    crate::app::laws::law_removed_targets_are_gone(a.cfg.targets, row.name, t);
}

// ---------------------------------------------------------------------------
// Rows of targets
// ---------------------------------------------------------------------------
/// The rows list the targets and then the groups, each by its name and in order.
pub open spec fn lists(rs: Seq<RowView>, cfg: ConfigView) -> bool {
    let n = cfg.targets.len() as int;
    &&& rs.len() == n + cfg.groups.len()
    &&& forall|i: int|
        0 <= i < n ==> (#[trigger] rs[i]).name == cfg.targets[i].name && rs[i].kind
            == TargetKind::Single
    &&& forall|i: int|
        n <= i < rs.len() ==> (#[trigger] rs[i]).name == cfg.groups[i - n].name && rs[i].kind
            == TargetKind::Group
}

/// To begin with, every target and every group has a row. Only one is selected: that of
/// the default target, or the first where there is no default.
pub proof fn law_rows_begin_with_the_default(cfg: ConfigView, i: int)
    requires
        0 <= i < rows::first_rows(cfg).len(),
    ensures
        lists(rows::first_rows(cfg), cfg),
        rows::first_rows(cfg)[i].status is Unknown,
        cfg.default_target is None ==> (rows::first_rows(cfg)[i].selected <==> i == 0),
        cfg.default_target is Some ==> (rows::first_rows(cfg)[i].selected <==> (
        rows::first_rows(cfg)[i].name == cfg.default_target->Some_0 && forall|j: int|
            0 <= j < i ==> (#[trigger] rows::first_rows(cfg)[j]).name
                != cfg.default_target->Some_0)),
{
    let plain = rows::plain_rows(cfg);
    let rs = rows::first_rows(cfg);
    if let Some(n) = cfg.default_target {
        rows::lemma_row_index(plain, n);
        let k = rows::row_index(plain, n);
        assert forall|j: int| 0 <= j < rs.len() implies (#[trigger] rs[j]).name == plain[j].name by {
        }
        if i < k {
            assert(plain[i].name != n);
        }
        if k < i {
            assert(rs[k].name == n);
        }
        if i == k {
            assert forall|j: int| 0 <= j < i implies (#[trigger] rs[j]).name != n by {
                assert(plain[j].name != n);
            }
        }
    }
}

proof fn lemma_last_row(rs: Seq<RowView>, i: int)
    requires
        0 <= i < rs.len(),
        forall|j: int| i < j < rs.len() ==> (#[trigger] rs[j]).name != rs[i].name,
    ensures
        rows::last_row(rs, rs[i].name) == Some(rs[i]),
    decreases rs.len(),
{
    if i < rs.len() - 1 {
        assert(rs[rs.len() - 1].name != rs[i].name);
        assert(rs.drop_last()[i] == rs[i]);
        assert forall|j: int| i < j < rs.drop_last().len() implies (
        #[trigger] rs.drop_last()[j]).name != rs.drop_last()[i].name by {
            assert(rs.drop_last()[j] == rs[j]);
        }
        lemma_last_row(rs.drop_last(), i);
    }
}

proof fn lemma_no_row(rs: Seq<RowView>, name: Seq<char>)
    requires
        forall|j: int| 0 <= j < rs.len() ==> (#[trigger] rs[j]).name != name,
    ensures
        rows::last_row(rs, name) is None,
    decreases rs.len(),
{
    if rs.len() > 0 {
        assert(rs[rs.len() - 1].name != name);
        assert forall|j: int| 0 <= j < rs.drop_last().len() implies (
        #[trigger] rs.drop_last()[j]).name != name by {
            assert(rs.drop_last()[j] == rs[j]);
        }
        lemma_no_row(rs.drop_last(), name);
    }
}

/// When the targets change, the rows follow. A row that was there before, `k`, keeps its
/// selection and its status; a new target is selected only where it is the default.
pub proof fn law_rows_keep_what_they_show(a: AppView, i: int, k: int)
    requires
        0 <= i < a.rebuilt().target_rows.len(),
        forall|x: int, y: int|
            0 <= x < y < a.target_rows.len() ==> (#[trigger] a.target_rows[x]).name != (
            #[trigger] a.target_rows[y]).name,
    ensures
        ({
            let b = a.rebuilt();
            let row = b.target_rows[i];
            &&& lists(b.target_rows, a.cfg)
            &&& b.target_cursor < b.target_rows.len()
            &&& 0 <= k < a.target_rows.len() && a.target_rows[k].name == row.name ==> row.selected
                == a.target_rows[k].selected && row.status == a.target_rows[k].status
            &&& (forall|x: int|
                0 <= x < a.target_rows.len() ==> (#[trigger] a.target_rows[x]).name != row.name)
                ==> row.status is Unknown && (row.selected <==> row.kind == TargetKind::Single
                && a.cfg.default_target == Some(row.name))
        }),
{
    let rs = a.target_rows;
    let row = a.rebuilt().target_rows[i];
    if 0 <= k < rs.len() && rs[k].name == row.name {
        lemma_last_row(rs, k);
    }
    if forall|x: int| 0 <= x < rs.len() ==> (#[trigger] rs[x]).name != row.name {
        lemma_no_row(rs, row.name);
    }
}

/// What a probe says of a target is shown in its row, and in no other.
pub proof fn law_a_probe_is_shown_in_its_row(
    a: AppView,
    i: int,
    status: TargetStatusView,
    j: int,
)
    requires
        0 <= i < a.target_rows.len(),
        0 <= j < a.target_rows.len(),
        forall|x: int| 0 <= x < i ==> (#[trigger] a.target_rows[x]).name != a.target_rows[i].name,
    ensures
        ({
            let b = a.with_row_status(a.target_rows[i].name, status);
            &&& b == AppView { target_rows: b.target_rows, ..a }
            &&& b.target_rows.len() == a.target_rows.len()
            &&& b.target_rows[i] == RowView { status, ..a.target_rows[i] }
            &&& j != i ==> b.target_rows[j] == a.target_rows[j]
        }),
{
    let rs = a.target_rows;
    rows::lemma_row_index(rs, rs[i].name);
    let k = rows::row_index(rs, rs[i].name);
    if i < k {
        assert(rs[i].name != rs[i].name);
    }
    if k < i {
        assert(rs[k].name == rs[i].name);
    }
    assert(k == i);
}

/// When all targets are probed, each is asked for, once and in order, and its row says so.
pub proof fn law_every_target_is_probed(a: AppView, i: int)
    requires
        0 <= i < a.target_rows.len(),
    ensures
        ({
            let b = a.probing_all();
            let n = a.outbox.len() as int;
            &&& b.outbox.len() == n + a.cfg.targets.len()
            &&& forall|k: int|
                0 <= k < a.cfg.targets.len() ==> #[trigger] b.outbox[n + k]
                    == (EffectView::Preflight { target: a.cfg.targets[k], after_install: false })
            &&& a.cfg.targets.len() > 0 && a.target_rows[i].kind == TargetKind::Single
                ==> b.target_rows[i] == RowView {
                status: TargetStatusView::Probing,
                ..a.target_rows[i]
            }
            &&& a.target_rows[i].kind == TargetKind::Group ==> b.target_rows[i]
                == a.target_rows[i]
        }),
{
}

/// rsync is installed on the target of that name; then the target is probed again, or it
/// is said what went wrong.
pub proof fn law_rsync_is_installed_and_probed(
    a: AppView,
    t: TargetView,
    e: Seq<char>,
    now: u64,
)
    requires
        config::find_target(a.cfg.targets, t.name) == Some(t),
    ensures
        a.installing_rsync(t.name, now).outbox == a.outbox.push(
            EffectView::InstallRsync { target: t },
        ),
        a.rsync_installed(t.name, None, now).outbox == a.outbox.push(
            EffectView::Preflight { target: t, after_install: true },
        ),
        a.rsync_installed(t.name, Some(e), now).outbox == a.outbox,
        a.rsync_installed(t.name, Some(e), now).target_rows == a.with_row_status(
            t.name,
            TargetStatusView::NoRsync,
        ).target_rows,
        text::contains(a.rsync_installed(t.name, Some(e), now).toast->Some_0.0, e),
{
    let none = Seq::<char>::empty();
    text::lemma_contains_within("install failed: "@, e, none);
    assert("install failed: "@ + e + none =~= "install failed: "@ + e);
}

/// A local rsync that is missing, or older than 3, is complained about; no other is.
pub proof fn law_old_rsyncs_are_complained_about(a: AppView, v: (u32, u32, u32), now: u64)
    ensures
        v.0 >= 3 ==> a.rsync_version_known(v, now) == a,
        v.0 < 3 ==> a.rsync_version_known(v, now).toast is Some && a.rsync_version_known(
            v,
            now,
        ).toast->Some_0.1 == now,
        0 < v.0 < 3 ==> text::contains(
            a.rsync_version_known(v, now).toast->Some_0.0,
            text::decimal(v.0 as nat) + "."@ + text::decimal(v.1 as nat),
        ),
{
    let d = text::decimal(v.0 as nat) + "."@ + text::decimal(v.1 as nat);
    let tail = " (old); upgrade: brew install rsync"@;
    text::lemma_contains_within("local rsync is v"@, d, tail);
    assert("local rsync is v"@ + d + tail =~= "local rsync is v"@ + text::decimal(v.0 as nat)
        + "."@ + text::decimal(v.1 as nat) + tail);
}

// ---------------------------------------------------------------------------
// Activity
// ---------------------------------------------------------------------------
/// Without a filter, the live rows are the transfers that have not completed, the newest
/// first.
pub proof fn law_live_rows_are_newest_first(ts: Seq<TransferView>)
    requires
        forall|i: int| 0 <= i < ts.len() ==> (#[trigger] ts[i]).state != TransferState::Completed,
    ensures
        activity::live_transfers(ts, seq![]) == ts.reverse(),
    decreases ts.len(),
{
    if ts.len() == 0 {
        assert(ts.reverse() =~= seq![]);
    } else {
        let init = ts.drop_last();
        assert forall|i: int| 0 <= i < init.len() implies (#[trigger] init[i]).state
            != TransferState::Completed by {
            assert(init[i] == ts[i]);
        }
        law_live_rows_are_newest_first(init);
        assert(ts[ts.len() - 1] == ts.last());
        assert(seq![ts.last()] + init.reverse() =~= ts.reverse());
    }
}

/// A transfer is among the live rows just where it has not completed and the filter, in
/// lower case, occurs in the lower-case name of its file or of its target.
pub proof fn law_live_rows_match_the_filter(ts: Seq<TransferView>, q: Seq<char>, t: TransferView)
    requires
        q.len() > 0,
    ensures
        activity::live_transfers(ts, q).contains(t) <==> ts.contains(t) && t.state
            != TransferState::Completed && (text::contains(
            crate::outside::lowercase(crate::clipboard::basename(t.local)),
            q,
        ) || text::contains(crate::outside::lowercase(t.target_name), q)),
    decreases ts.len(),
{
    if ts.len() > 0 {
        let init = ts.drop_last();
        let last = ts.last();
        let out = activity::live_transfers(init, q);
        let all = activity::live_transfers(ts, q);
        law_live_rows_match_the_filter(init, q, t);
        assert(ts[ts.len() - 1] == last);
        if init.contains(t) {
            let i = choose|i: int| 0 <= i < init.len() && init[i] == t;
            assert(ts[i] == t);
        }
        if ts.contains(t) && t != last {
            let i = choose|i: int| 0 <= i < ts.len() && ts[i] == t;
            assert(init[i] == t);
        }
        if activity::live_shown(last, q) {
            assert(all[0] == last);
            if out.contains(t) {
                let i = choose|i: int| 0 <= i < out.len() && out[i] == t;
                assert(all[i + 1] == t);
            }
            if all.contains(t) && t != last {
                let i = choose|i: int| 0 <= i < all.len() && all[i] == t;
                assert(out[i - 1] == t);
            }
        } else {
            assert(all =~= out);
        }
    }
}

/// Copying a row of the history puts a path on the clipboard and says which remote path
/// it stands for; where the target is no longer configured, it is that path itself.
pub proof fn law_history_rows_are_copied(a: AppView, idx: usize, now: u64)
    requires
        idx < crate::history::filtered(a.history, activity::query_of(a)).len(),
    ensures
        ({
            let e = crate::history::filtered(a.history, activity::query_of(a))[idx as int];
            let b = a.row_copied(ActivityRef::History(idx), now);
            &&& b == AppView { outbox: b.outbox, ..a }
            &&& b.outbox.len() == a.outbox.len() + 1
            &&& b.outbox.last() matches EffectView::WriteClipboard { text: _, remote_path }
                && remote_path == Some(e.remote_path)
            &&& config::find_target(a.cfg.targets, e.target_name) is None ==> b.outbox.last() == (
            EffectView::WriteClipboard { text: e.remote_path, remote_path: Some(e.remote_path) })
        }),
{
}

/// What was put on the clipboard is remembered and shown; a failure is told, and changes
/// nothing else.
pub proof fn law_the_clipboard_is_remembered(
    a: AppView,
    content: Seq<char>,
    remote: Option<Seq<char>>,
    e: Seq<char>,
    now: u64,
)
    ensures
        ({
            let b = a.clipboard_set(content, remote, None, now);
            &&& b.last_clipboard == Some(content)
            &&& b.last_copied_remote == remote
            &&& content.len() <= 60 ==> text::contains(b.toast->Some_0.0, content)
        }),
        ({
            let b = a.clipboard_set(content, remote, Some(e), now);
            &&& b == AppView { toast: b.toast, ..a }
            &&& text::contains(b.toast->Some_0.0, e)
        }),
{
    let none = Seq::<char>::empty();
    text::lemma_contains_within("clipboard ← "@, content, none);
    assert("clipboard ← "@ + content + none =~= "clipboard ← "@ + content);
    text::lemma_contains_within("clipboard error: "@, e, none);
    assert("clipboard error: "@ + e + none =~= "clipboard error: "@ + e);
}

/// A completed transfer is recorded with its file, its target and where it went.
pub proof fn law_records_say_what_was_sent(n: activity::NoteView, t: TargetView)
    ensures
        ({
            let e = activity::entry_of(n, t);
            &&& e.target_name == n.target_name
            &&& e.target_host == t.address()
            &&& e.size == n.size
            &&& e.synced_at == n.synced_at
            &&& e.source_watch == n.source_watch
            &&& e.local_path == (if n.canonical is Some {
                n.canonical->Some_0
            } else {
                n.local
            })
            &&& crate::paths::base_name(n.local) == Some(e.local_name) ==> e.remote_path
                == crate::clipboard::remote_file(n.remote_abs_dir, e.local_name)
        }),
{
}

// ---------------------------------------------------------------------------
// Clicks
// ---------------------------------------------------------------------------
proof fn lemma_first_hit(rects: Seq<types::Rect>, x: u16, y: u16, i: int)
    requires
        0 <= i < rects.len(),
        rects[i].has(x, y),
        forall|j: int| 0 <= j < i ==> !(#[trigger] rects[j]).has(x, y),
    ensures
        input::first_hit(rects, x, y) == i,
    decreases rects.len(),
{
    if i > 0 {
        assert(!rects[0].has(x, y));
        let rest = rects.drop_first();
        assert(rest[i - 1] == rects[i]);
        assert forall|j: int| 0 <= j < i - 1 implies !(#[trigger] rest[j]).has(x, y) by {
            assert(rest[j] == rects[j + 1]);
        }
        lemma_first_hit(rest, x, y, i - 1);
    }
}

proof fn lemma_no_hit(rects: Seq<types::Rect>, x: u16, y: u16)
    requires
        forall|j: int| 0 <= j < rects.len() ==> !(#[trigger] rects[j]).has(x, y),
    ensures
        input::first_hit(rects, x, y) == rects.len(),
    decreases rects.len(),
{
    if rects.len() > 0 {
        assert(!rects[0].has(x, y));
        let rest = rects.drop_first();
        assert forall|j: int| 0 <= j < rest.len() implies !(#[trigger] rest[j]).has(x, y) by {
            assert(rest[j] == rects[j + 1]);
        }
        lemma_no_hit(rest, x, y);
    }
}

/// A click on the row of a target puts the cursor there. Where the target lacks rsync,
/// that is installed; where it cannot be reached, it is said why; else the row is
/// selected, or no longer.
pub proof fn law_clicked_targets_answer(a: AppView, i: usize, now: u64)
    requires
        i < a.target_rows.len(),
    ensures
        ({
            let row = a.target_rows[i as int];
            let b = a.target_clicked(i, now);
            &&& b.focus == Focus::Targets && b.target_cursor == i
            &&& row.status is NoRsync && config::find_target(a.cfg.targets, row.name) is Some
                ==> b.outbox == a.outbox.push(
                EffectView::InstallRsync {
                    target: config::find_target(a.cfg.targets, row.name)->Some_0,
                },
            )
            &&& row.status is Unreachable ==> b.target_rows == a.target_rows && b.toast is Some
            &&& !(row.status is NoRsync) && !(row.status is Unreachable)
                ==> b.target_rows[i as int].selected == !row.selected
        }),
{
}

/// In the picker, a click on a row picks its host, and a click elsewhere closes it.
pub proof fn law_clicked_hosts_are_picked(a: AppView, p: PickerView, x: u16, y: u16, i: int, now: u64)
    requires
        a.ssh_picker == Some(p),
        0 <= i < p.list.len() <= usize::MAX,
        i < a.hit_regions.ssh_picker_rows.len(),
    ensures
        a.hit_regions.ssh_picker_rows[i].has(x, y) && (forall|j: int|
            0 <= j < i ==> !(#[trigger] a.hit_regions.ssh_picker_rows[j]).has(x, y)) ==> a.clicked(
            x,
            y,
            now,
        ).cfg == a.host_added(p.list[i]).cfg,
        (forall|j: int|
            0 <= j < a.hit_regions.ssh_picker_rows.len() ==> !(
            #[trigger] a.hit_regions.ssh_picker_rows[j]).has(x, y)) ==> a.clicked(x, y, now) == (
        AppView { ssh_picker: None, ..a }),
{
    let rects = a.hit_regions.ssh_picker_rows;
    if rects[i].has(x, y) && (forall|j: int|
        0 <= j < i ==> !(#[trigger] rects[j]).has(x, y)) {
        lemma_first_hit(rects, x, y, i);
    }
    if forall|j: int| 0 <= j < rects.len() ==> !(#[trigger] rects[j]).has(x, y) {
        lemma_no_hit(rects, x, y);
    }
}

/// The wheel moves the cursor of the focused panel as the arrow keys do.
pub proof fn law_the_wheel_moves_the_cursor(a: AppView, now: u64)
    requires
        panels_open(a),
    ensures
        a.mouse_handled(types::Mouse::ScrollDown, now) == a.key_handled(alone(KeyCode::Down), now),
        a.mouse_handled(types::Mouse::ScrollUp, now) == a.key_handled(alone(KeyCode::Up), now),
{
    reveal(AppView::panel_key);
}

// ---------------------------------------------------------------------------
// Watches
// ---------------------------------------------------------------------------
/// Space ends a watch that runs, and starts one that does not; its row says so, and the
/// other watches stay as they are.
pub proof fn law_watches_are_started_and_ended(a: AppView, i: int, j: int)
    requires
        a.watch_cursor == i,
        0 <= i < a.watches.len(),
        0 <= j < a.watches.len(),
        i != j,
    ensures
        ({
            let w = a.watches[i];
            let b = a.watch_toggled();
            let runs = w.status is Starting || w.status is Running;
            &&& runs ==> b.watches[i].status is Off && b.outbox == a.outbox.push(
                EffectView::StopWatch { name: w.name },
            )
            &&& !runs ==> b.watches[i].status is Starting && b.outbox == a.outbox.push(
                EffectView::StartWatch { name: w.name },
            )
            &&& b.watches[i] == WatchUiView { status: b.watches[i].status, ..w }
            &&& b.watches[j] == a.watches[j]
            &&& b.watches.len() == a.watches.len()
        }),
{
}

/// The files that waited for a watch wait no longer once they are sent, and count as
/// sent; where none waits, that is said.
pub proof fn law_waiting_files_are_counted(a: AppView, i: int, now: u64)
    requires
        a.watch_cursor == i,
        0 <= i < a.watches.len(),
        a.watches[i].synced_count + a.watches[i].pending_catchup.len() <= u64::MAX,
    ensures
        ({
            let w = a.watches[i];
            let b = a.caught_up(now);
            &&& b.watches.len() == a.watches.len()
            &&& b.watches[i].pending_catchup.len() == 0
            &&& b.watches[i].synced_count == w.synced_count + w.pending_catchup.len()
            &&& b.watches[i].name == w.name
            &&& b.toast is Some
            &&& w.pending_catchup.len() == 0 ==> b == AppView { toast: b.toast, ..a }
            &&& w.pending_catchup.len() > 0 ==> text::contains(
                b.toast->Some_0.0,
                text::decimal(w.pending_catchup.len()),
            )
        }),
{
    let w = a.watches[i];
    if w.pending_catchup.len() > 0 {
        let c = a.with_watch(i, WatchUiView { pending_catchup: seq![], ..w });
        let files = w.pending_catchup;
        let d = AppView {
            watch_recent: watching::with_recent(c.watch_recent, files, w.name, now),
            ..c.with_watch(
                i,
                WatchUiView {
                    synced_count: watching::counted(w.synced_count, files.len()),
                    ..c.watches[i]
                },
            )
        };
        crate::app::laws::lemma_sent_all_only_sends(
            d,
            files,
            watching::destinations(c.cfg, w.name),
            Some(w.name),
        );
        text::lemma_contains_within("catching up on "@, text::decimal(files.len()), " file(s)"@);
    }
}

/// Of the files that a watch sent, the latest stands first in the list, under its name;
/// those from before follow.
pub proof fn law_recent_files_come_first(
    recent: Seq<RecentView>,
    files: Seq<Seq<char>>,
    name: Seq<char>,
    now: u64,
    i: int,
)
    requires
        0 <= i < files.len(),
    ensures
        ({
            let r = watching::with_recent(recent, files, name, now);
            &&& r.len() == files.len() + recent.len()
            &&& r[files.len() - 1 - i] == RecentView {
                file_display: crate::clipboard::basename(files[i]),
                watch_name: name,
                at_ms: now,
            }
            &&& r.skip(files.len() as int) == recent
        }),
    decreases files.len(),
{
    let init = files.drop_last();
    let before = watching::with_recent(recent, init, name, now);
    let r = watching::with_recent(recent, files, name, now);
    if init.len() > 0 {
        law_recent_files_come_first(recent, init, name, now, if i < init.len() {
            i
        } else {
            0
        });
        assert(before.skip(init.len() as int) == recent);
    } else {
        assert(before == recent);
        assert(before.skip(0) =~= recent);
    }
    assert(r.skip(files.len() as int) =~= before.skip(init.len() as int));
    if i < init.len() {
        assert(r[files.len() - 1 - i] == before[init.len() - 1 - i]);
        assert(init[i] == files[i]);
    }
}

/// What is typed into a form goes to the line that is being filled in, and Backspace
/// takes it back. Tab and Down go on to the next line, Shift+Tab and Up to the one before.
pub proof fn law_the_form_is_typed(a: AppView, f: FormView, c: char, now: u64)
    requires
        a.update_status is Idle,
        a.ssh_picker is None,
        !a.menu_visible,
        !a.help_visible,
        a.watch_form == Some(f),
    ensures
        ({
            let b = a.key_handled(alone(KeyCode::Char(c)), now);
            &&& f.field == FormField::Name ==> b.watch_form == Some(
                FormView { name: f.name + seq![c], ..f },
            )
            &&& f.field == FormField::Path ==> b.watch_form == Some(
                FormView { path: f.path + seq![c], ..f },
            )
            &&& f.field == FormField::Targets ==> b.watch_form == Some(
                FormView { targets: f.targets + seq![c], ..f },
            )
            &&& b == AppView { watch_form: b.watch_form, ..a }
            &&& b.key_handled(alone(KeyCode::Backspace), now) == a
        }),
        a.key_handled(alone(KeyCode::Esc), now) == (AppView { watch_form: None, ..a }),
        a.key_handled(alone(KeyCode::Enter), now) == a.form_sent(f, now),
        ({
            let on = a.key_handled(alone(KeyCode::Tab), now);
            let g = on.watch_form->Some_0;
            &&& f.field == FormField::Name ==> g.field == FormField::Path
            &&& f.field == FormField::Path ==> g.field == FormField::Targets
            &&& f.field == FormField::Targets ==> g.field == FormField::Name
            &&& g == FormView { field: g.field, ..f }
            &&& a.key_handled(alone(KeyCode::Down), now) == on
            &&& on.key_handled(alone(KeyCode::BackTab), now) == a
            &&& on.key_handled(alone(KeyCode::Up), now) == a
        }),
{
    reveal(AppView::form_key);
    let t = crate::app::forms::line_text(f);
    assert(t.push(c) =~= t + seq![c]);
    assert(t.push(c).drop_last() =~= t);
}

/// In the Watch tab, `a` opens an empty form, `e` one that shows the watch under the
/// cursor as it is configured.
pub proof fn law_forms_show_the_watch(a: AppView, w: WatchView, now: u64)
    requires
        panels_open(a),
        a.focus == Focus::Watches,
        a.watch_cursor < a.watches.len(),
        watching::configured(a.cfg.watches, a.watches[a.watch_cursor as int].name) == Some(w),
    ensures
        ({
            let f = a.key_handled(alone(KeyCode::Char('a')), now).watch_form;
            &&& f is Some && f->Some_0.editing is None
            &&& f->Some_0.name.len() == 0 && f->Some_0.path.len() == 0
            &&& f->Some_0.targets.len() == 0 && f->Some_0.field == FormField::Name
        }),
        ({
            let f = a.key_handled(alone(KeyCode::Char('e')), now).watch_form;
            &&& f is Some && f->Some_0.editing == Some(w.name)
            &&& f->Some_0.name == w.name && f->Some_0.path == w.path
            &&& f->Some_0.targets == text::joined(w.targets, ", "@)
        }),
        a.key_handled(alone(KeyCode::Char('d')), now) == a.watch_deleted(),
{
    reveal(AppView::panel_key);
    lemma_configured_entry(a.cfg.watches, a.watches[a.watch_cursor as int].name);
}

proof fn lemma_configured_entry(ws: Seq<WatchView>, name: Seq<char>)
    ensures
        ({
            let k = crate::app::forms::entry_index(ws, name);
            &&& 0 <= k <= ws.len()
            &&& watching::configured(ws, name) == (if k < ws.len() {
                Some(ws[k])
            } else {
                None
            })
        }),
    decreases ws.len(),
{
    if ws.len() > 0 && ws[0].name != name {
        lemma_configured_entry(ws.drop_first(), name);
    }
}

/// What a click on the panels reaches: a chip of the help bar, then the row of a target,
/// of a queued file or of the activity, as it was drawn there; and else the panel gets the
/// focus.
pub proof fn law_clicks_reach_what_was_drawn(a: AppView, x: u16, y: u16, i: int, now: u64)
    requires
        panels_open(a),
        a.hit_regions.modal_area is None,
        0 <= i,
        forall|j: int|
            0 <= j < a.hit_regions.help_bar_hits.len() ==> !(
            #[trigger] a.hit_regions.help_bar_hits[j]).0.has(x, y),
    ensures
        ({
            let h = a.hit_regions;
            let b = a.clicked(x, y, now);
            let no_target = forall|j: int|
                0 <= j < h.target_rows.len() ==> !(#[trigger] h.target_rows[j]).has(x, y);
            let no_file = forall|j: int|
                0 <= j < h.queue_rows.len() ==> !(#[trigger] h.queue_rows[j]).has(x, y);
            let no_row = forall|j: int|
                0 <= j < h.activity_rows.len() ==> !(#[trigger] h.activity_rows[j]).0.has(x, y);
            &&& i < h.target_rows.len() <= usize::MAX && h.target_rows[i].has(x, y) && (forall|j: int|
                0 <= j < i ==> !(#[trigger] h.target_rows[j]).has(x, y)) ==> b == a.target_clicked(
                i as usize,
                now,
            )
            &&& no_target && i < h.queue_rows.len() <= usize::MAX && h.queue_rows[i].has(x, y) && (
            forall|j: int| 0 <= j < i ==> !(#[trigger] h.queue_rows[j]).has(x, y)) && i
                < a.queue.len() ==> b == (AppView {
                focus: Focus::DropZone,
                queue_cursor: i as usize,
                ..a
            })
            &&& no_target && no_file && no_row ==> b == AppView { focus: b.focus, ..a }
            &&& no_target && no_file && no_row && h.drop_zone.has(x, y) ==> b.focus
                == Focus::DropZone
            &&& no_target && no_file && no_row && !h.drop_zone.has(x, y) && h.targets_panel.has(x, y)
                ==> b.focus == Focus::Targets
        }),
{
    reveal(AppView::panel_clicked);
    let h = a.hit_regions;
    let chips = input::areas(h.help_bar_hits);
    assert forall|j: int| 0 <= j < chips.len() implies !(#[trigger] chips[j]).has(x, y) by {
        assert(!h.help_bar_hits[j].0.has(x, y));
    }
    lemma_no_hit(chips, x, y);
    if i < h.target_rows.len() && h.target_rows[i].has(x, y) && (forall|j: int|
        0 <= j < i ==> !(#[trigger] h.target_rows[j]).has(x, y)) {
        lemma_first_hit(h.target_rows, x, y, i);
    }
    if forall|j: int| 0 <= j < h.target_rows.len() ==> !(#[trigger] h.target_rows[j]).has(x, y) {
        lemma_no_hit(h.target_rows, x, y);
    }
    if i < h.queue_rows.len() && h.queue_rows[i].has(x, y) && (forall|j: int|
        0 <= j < i ==> !(#[trigger] h.queue_rows[j]).has(x, y)) {
        lemma_first_hit(h.queue_rows, x, y, i);
    }
    if forall|j: int| 0 <= j < h.queue_rows.len() ==> !(#[trigger] h.queue_rows[j]).has(x, y) {
        lemma_no_hit(h.queue_rows, x, y);
    }
    if forall|j: int|
        0 <= j < h.activity_rows.len() ==> !(#[trigger] h.activity_rows[j]).0.has(x, y) {
        let areas = input::row_areas(h.activity_rows);
        assert forall|j: int| 0 <= j < areas.len() implies !(#[trigger] areas[j]).has(x, y) by {
            assert(!h.activity_rows[j].0.has(x, y));
        }
        lemma_no_hit(areas, x, y);
    }
}

/// A row of the activity that is clicked gets the cursor, and is copied.
pub proof fn law_clicked_rows_are_copied(
    a: AppView,
    hit: (types::Rect, usize, ActivityRef),
    now: u64,
)
    ensures
        ({
            let b = a.activity_clicked(hit, now);
            let at = AppView { focus: Focus::Progress, activity_cursor: hit.1, ..a };
            &&& b == at.row_copied(hit.2, now)
            &&& b.focus == Focus::Progress
            &&& b.activity_cursor == hit.1
        }),
{
}

/// What a finished transfer puts on the clipboard is, in the plain format, where the file
/// lies on the remote host. A target's own format goes before the one that is set.
pub proof fn law_finished_files_can_be_pasted(
    a: AppView,
    t: TargetView,
    local: Seq<char>,
    name: Seq<char>,
    dir: Seq<char>,
)
    requires
        crate::paths::base_name(local) == Some(name),
        dir.len() > 0,
        dir.last() != '/',
        t.clipboard_format == Some(ClipboardFormat::RemotePath) || t.clipboard_format is None
            && a.clipboard_format == ClipboardFormat::RemotePath,
    ensures
        sync::clipboard_text(a, t, local, dir) == dir + seq!['/'] + name,
        sync::remote_path_of(local, dir) == dir + seq!['/'] + name,
{
    reveal_strlit("/");
    assert("/"@ =~= seq!['/']);
}

/// `b` and `d` are contained in `a + b + c + d + e`.
proof fn lemma_two_within(a: Seq<char>, b: Seq<char>, c: Seq<char>, d: Seq<char>, e: Seq<char>)
    ensures
        text::contains(a + b + c + d + e, b),
        text::contains(a + b + c + d + e, d),
{
    let all = a + b + c + d + e;
    text::lemma_contains_within(a + b + c, d, e);
    text::lemma_contains_within(a, b, c + d + e);
    assert(a + b + (c + d + e) =~= all);
}

/// What is said about a queue that was sent: how many files there were, and either how
/// many targets got them or which ones did and which ones did not.
pub proof fn law_sent_queues_are_told(n: nat, ok: Seq<Seq<char>>, skipped: Seq<Seq<char>>)
    ensures
        ({
            let m = sync::sync_text(n, ok, skipped);
            &&& text::contains(m, text::decimal(n))
            &&& skipped.len() == 0 ==> text::contains(m, text::decimal(ok.len()))
            &&& skipped.len() > 0 ==> text::contains(m, text::joined(ok, ", "@))
            &&& skipped.len() > 0 ==> text::contains(m, text::joined(skipped, ", "@))
        }),
{
    let d = text::decimal(n);
    let (a, b) = ("sync "@, " file(s) → "@);
    if skipped.len() == 0 {
        lemma_two_within(a, d, b, text::decimal(ok.len()), " target(s)"@);
    } else {
        let o = text::joined(ok, ", "@);
        let s = text::joined(skipped, ", "@);
        let c = " (skipped "@;
        lemma_two_within(a + d + b, o, c, s, ")"@);
        let rest = o + c + s + ")"@;
        text::lemma_contains_within(a, d, b + rest);
        assert(a + d + (b + rest) =~= a + d + b + o + c + s + ")"@);
    }
}

// ---------------------------------------------------------------------------
// What is copied
// ---------------------------------------------------------------------------
/// A row of the history whose target is still configured is copied in the format of that
/// target, or in the one that is set: the same text as when the transfer finished.
pub proof fn law_history_rows_are_copied_in_the_format(
    a: AppView,
    e: EntryView,
    t: TargetView,
    dir: Seq<char>,
    name: Seq<char>,
)
    requires
        config::find_target(a.cfg.targets, e.target_name) == Some(t),
        dir.len() > 1,
        dir.last() != '/',
        dir.last() != '.',
        name.len() > 1,
        !name.contains('/'),
        e.remote_path == dir + seq!['/'] + name,
    ensures
        activity::entry_text(a, e) == sync::clipboard_text(a, t, e.local_path, dir),
{
    crate::paths::law_the_parent_is_the_directory(dir, name);
}

/// The path of a transfer is copied once it has completed, and never before.
pub proof fn law_live_rows_are_copied(a: AppView, i: int, t: TargetView, now: u64)
    requires
        0 <= i < a.transfers.len(),
        forall|k: int| 0 <= k < i ==> (#[trigger] a.transfers[k]).id != a.transfers[i].id,
        config::find_target(a.cfg.targets, a.transfers[i].target_name) == Some(t),
    ensures
        ({
            let tr = a.transfers[i];
            let b = a.row_copied(ActivityRef::Live(tr.id), now);
            &&& tr.state != TransferState::Completed ==> b == AppView { toast: b.toast, ..a }
            &&& tr.state == TransferState::Completed ==> b.outbox == a.outbox.push(
                EffectView::WriteClipboard {
                    text: sync::clipboard_text(a, t, tr.local, tr.remote_abs_dir),
                    remote_path: Some(sync::remote_path_of(tr.local, tr.remote_abs_dir)),
                },
            )
        }),
{
    sync::lemma_transfer_index(a.transfers, a.transfers[i].id);
    let k = sync::transfer_index(a.transfers, a.transfers[i].id);
    if i < k {
        assert(a.transfers[i].id != a.transfers[i].id);
    }
    if k < i {
        assert(a.transfers[k].id == a.transfers[i].id);
    }
}

/// The row under the cursor is the one that is copied.
pub proof fn law_the_row_under_the_cursor_is_copied(a: AppView, now: u64)
    requires
        a.activity_cursor < activity::row_refs(a).len(),
    ensures
        a.cursor_copied(now) == a.row_copied(
            activity::row_refs(a)[a.activity_cursor as int],
            now,
        ),
{
}

/// The rows of the activity are the live transfers and then the history, each by its
/// number or its place.
pub proof fn law_activity_lists_live_rows_first(a: AppView, i: int)
    ensures
        ({
            let live = activity::live_transfers(a.transfers, activity::query_of(a));
            let refs = activity::row_refs(a);
            &&& refs.len() >= live.len()
            &&& 0 <= i < live.len() ==> refs[i] == ActivityRef::Live(live[i].id)
            &&& live.len() <= i < refs.len() ==> refs[i] is History
        }),
{
}

// ---------------------------------------------------------------------------
// Boxes that are clicked
// ---------------------------------------------------------------------------
/// A click on an entry of the menu runs it once the menu is closed; a click beside the
/// entries only closes it.
pub proof fn law_clicked_entries_are_run(a: AppView, x: u16, y: u16, i: int, now: u64)
    requires
        a.ssh_picker is None,
        a.menu_visible,
        0 <= i < a.hit_regions.menu_rows.len(),
    ensures
        ({
            let rows = a.hit_regions.menu_rows;
            let closed = AppView { menu_visible: false, ..a };
            &&& rows[i].0.has(x, y) && (forall|j: int|
                0 <= j < i ==> !(#[trigger] rows[j]).0.has(x, y)) ==> a.clicked(x, y, now)
                == closed.menu_run(rows[i].1, now)
            &&& (forall|j: int| 0 <= j < rows.len() ==> !(#[trigger] rows[j]).0.has(x, y))
                ==> a.clicked(x, y, now) == closed
        }),
{
    let rows = a.hit_regions.menu_rows;
    let rects = input::areas(rows);
    if rows[i].0.has(x, y) && (forall|j: int|
        0 <= j < i ==> !(#[trigger] rows[j]).0.has(x, y)) {
        assert forall|j: int| 0 <= j < i implies !(#[trigger] rects[j]).has(x, y) by {
            assert(!rows[j].0.has(x, y));
        }
        lemma_first_hit(rects, x, y, i);
    }
    if forall|j: int| 0 <= j < rows.len() ==> !(#[trigger] rows[j]).0.has(x, y) {
        assert forall|j: int| 0 <= j < rects.len() implies !(#[trigger] rects[j]).has(x, y) by {
            assert(!rows[j].0.has(x, y));
        }
        lemma_no_hit(rects, x, y);
    }
}

/// In the box of an offered update, a click on the one zone installs it, a click on the
/// other puts it off, and a click beside them leaves the question standing.
pub proof fn law_clicked_offers_are_answered(
    a: AppView,
    version: Seq<char>,
    yes: types::Rect,
    no: types::Rect,
    x: u16,
    y: u16,
)
    requires
        a.update_status == UpdateView::Available(version),
        a.hit_regions.modal_hits == seq![(yes, ModalHit::Confirm), (no, ModalHit::Cancel)],
    ensures
        ({
            let b = a.modal_clicked(x, y);
            &&& yes.has(x, y) ==> b.outbox == a.outbox.push(EffectView::InstallUpdate { version })
                && b.update_status == UpdateView::Installing(version)
            &&& !yes.has(x, y) && no.has(x, y) ==> b == AppView {
                update_status: UpdateView::Idle,
                ..a
            }
            &&& !yes.has(x, y) && !no.has(x, y) ==> b == a
        }),
{
    let rects = input::areas(a.hit_regions.modal_hits);
    assert(rects[0] == yes && rects[1] == no);
    if yes.has(x, y) {
        lemma_first_hit(rects, x, y, 0);
    } else if no.has(x, y) {
        lemma_first_hit(rects, x, y, 1);
    } else {
        lemma_no_hit(rects, x, y);
    }
}

/// A click on a chip of the help bar does what the chip stands for.
pub proof fn law_clicked_chips_are_pressed(a: AppView, x: u16, y: u16, i: int, now: u64)
    requires
        panels_open(a),
        a.hit_regions.modal_area is None,
        0 <= i < a.hit_regions.help_bar_hits.len(),
        a.hit_regions.help_bar_hits[i].0.has(x, y),
        forall|j: int| 0 <= j < i ==> !(#[trigger] a.hit_regions.help_bar_hits[j]).0.has(x, y),
    ensures
        a.clicked(x, y, now) == a.chip_pressed(a.hit_regions.help_bar_hits[i].1, now),
{
    reveal(AppView::panel_clicked);
    let hits = a.hit_regions.help_bar_hits;
    let rects = input::areas(hits);
    assert forall|j: int| 0 <= j < i implies !(#[trigger] rects[j]).has(x, y) by {
        assert(!hits[j].0.has(x, y));
    }
    lemma_first_hit(rects, x, y, i);
}

// ---------------------------------------------------------------------------
// Beginning, and what is heard from outside
// ---------------------------------------------------------------------------
/// The program begins as it is configured, with nothing queued and nothing under way.
pub proof fn law_the_beginning_is_as_configured(
    cfg: ConfigView,
    history: Seq<EntryView>,
    base: Seq<char>,
    env: EnvironmentView,
    i: int,
)
    ensures
        ({
            let a = rows::fresh_app(cfg, history, base, env);
            &&& a.cfg == cfg && a.history == history && a.env == env
            &&& a.mode == cfg.default_mode && a.clipboard_format == cfg.clipboard_format
            &&& a.queue.len() == 0 && a.transfers.len() == 0 && a.outbox.len() == 0
            &&& panels_open(a) && a.focus == Focus::DropZone && a.current_tab == Tab::Drop
            &&& !a.should_quit && a.toast is None
            &&& a.watches.len() == cfg.watches.len()
            &&& 0 <= i < cfg.watches.len() ==> a.watches[i].name == cfg.watches[i].name
                && a.watches[i].path_display == cfg.watches[i].path && a.watches[i].status is Off
        }),
{
}

proof fn lemma_first_watch(ws: Seq<WatchUiView>, k: int)
    requires
        0 <= k < ws.len(),
        forall|x: int| 0 <= x < k ==> (#[trigger] ws[x]).name != ws[k].name,
    ensures
        watching::watch_index(ws, ws[k].name) == k,
    decreases ws.len(),
{
    if k > 0 {
        assert(ws[0].name != ws[k].name);
        let rest = ws.drop_first();
        assert(rest[k - 1] == ws[k]);
        assert forall|x: int| 0 <= x < k - 1 implies (#[trigger] rest[x]).name != rest[k
            - 1].name by {
            assert(rest[x] == ws[x + 1]);
        }
        lemma_first_watch(rest, k - 1);
    }
}

/// What is heard of a watch is shown in its row: that it runs, that another process holds
/// its lock, or what went wrong.
pub proof fn law_news_of_watches_are_shown(
    a: AppView,
    k: int,
    name: String,
    pid: u32,
    error: String,
    now: u64,
)
    requires
        0 <= k < a.watches.len(),
        a.watches[k].name == name@,
        forall|x: int| 0 <= x < k ==> (#[trigger] a.watches[x]).name != a.watches[k].name,
    ensures
        ({
            let w = a.watches[k];
            let runs = input::answer(a, AppEvent::WatchStarted { name }, now);
            let locked = input::answer(a, AppEvent::WatchLocked { name, pid }, now);
            let failed = input::answer(a, AppEvent::WatchFailed { name, error }, now);
            &&& runs == AppView {
                watches: a.watches.update(
                    k,
                    WatchUiView { status: WatchUiStatusView::Running, ..w },
                ),
                ..a
            }
            &&& locked == AppView {
                watches: a.watches.update(
                    k,
                    WatchUiView { status: WatchUiStatusView::LockedByOther(pid), ..w },
                ),
                ..a
            }
            &&& failed == AppView {
                watches: a.watches.update(
                    k,
                    WatchUiView { status: WatchUiStatusView::Error(error@), ..w },
                ),
                ..a
            }
        }),
{
    lemma_first_watch(a.watches, k);
}

/// What is heard of a target is shown in its row; a warning is shown as it is; the paths
/// of a paste are asked after, and hosts can be picked.
pub proof fn law_news_are_shown(
    a: AppView,
    i: int,
    target_name: String,
    status: TargetStatus,
    msg: String,
    now: u64,
)
    requires
        0 <= i < a.target_rows.len(),
        a.target_rows[i].name == target_name@,
        forall|x: int| 0 <= x < i ==> (#[trigger] a.target_rows[x]).name != a.target_rows[i].name,
    ensures
        input::answer(a, AppEvent::PreflightResult { target_name, status }, now) == (AppView {
            target_rows: a.target_rows.update(
                i,
                RowView { status: status@, ..a.target_rows[i] },
            ),
            ..a
        }),
        input::answer(a, AppEvent::RsyncVersionWarning(msg), now) == (AppView {
            toast: Some((msg@, now)),
            ..a
        }),
        input::answer(a, AppEvent::Paste(msg), now) == a.pasted(msg@),
{
    law_a_probe_is_shown_in_its_row(a, i, status@, i);
    let rs = a.target_rows;
    let b = a.with_row_status(rs[i].name, status@);
    assert forall|j: int| 0 <= j < rs.len() && j != i implies #[trigger] b.target_rows[j]
        == rs[j] by {
        law_a_probe_is_shown_in_its_row(a, i, status@, j);
    }
    assert(b.target_rows =~= rs.update(i, RowView { status: status@, ..rs[i] }));
}

/// A configuration that was saved is told by the name of its file, one that could not be
/// by the reason; what there was to say about the change comes last.
pub proof fn law_saving_is_told(
    a: AppView,
    path: Seq<char>,
    name: Seq<char>,
    e: Seq<char>,
    then: Seq<char>,
    now: u64,
)
    requires
        crate::paths::base_name(path) == Some(name),
    ensures
        text::contains(a.config_saved(Ok(path), None, now).toast->Some_0.0, name),
        text::contains(a.config_saved(Err(e), None, now).toast->Some_0.0, e),
        a.config_saved(Ok(path), Some(then), now).toast == Some((then, now)),
        a.config_saved(Ok(path), None, now).outbox == a.outbox,
{
    let none = Seq::<char>::empty();
    text::lemma_contains_within("saved "@, name, none);
    assert("saved "@ + name + none =~= "saved "@ + name);
    text::lemma_contains_within("save failed: "@, e, none);
    assert("save failed: "@ + e + none =~= "save failed: "@ + e);
}

/// The menu probes all targets again, and installs rsync on the target under the cursor.
pub proof fn law_the_menu_looks_after_targets(a: AppView, now: u64)
    ensures
        a.menu_run(MenuAction::ReprobeTargets, now).outbox == a.probing_all().outbox,
        a.menu_run(MenuAction::ReprobeTargets, now).target_rows == a.probing_all().target_rows,
        a.target_cursor < a.target_rows.len() && a.target_rows[a.target_cursor as int].kind
            == TargetKind::Single ==> a.menu_run(MenuAction::InstallRsyncOnSelected, now)
            == a.installing_rsync(a.target_rows[a.target_cursor as int].name, now),
        a.target_cursor < a.target_rows.len() && a.target_rows[a.target_cursor as int].kind
            == TargetKind::Group ==> a.menu_run(MenuAction::InstallRsyncOnSelected, now).outbox
            == a.outbox,
{
}

/// A probe that succeeds shows a target that can be reached. One that finds no rsync there
/// offers to install it, but not again after an attempt to do so. Any other failure shows
/// a target that cannot be reached, and why.
pub proof fn law_probes_tell_the_state(stderr: Seq<char>, code: i32)
    requires
        code != 0,
        code != 66,
        !text::contains(
            crate::transfer::preflight_problem(true, Some(code), stderr)->Some_0,
            "rsync not found on remote"@,
        ),
    ensures
        ({
            let fine = crate::transfer::preflight_problem(true, Some(0), stderr);
            let bare = crate::transfer::preflight_problem(true, Some(66), stderr);
            let lost = crate::transfer::preflight_problem(true, Some(code), stderr);
            &&& types::status_from(fine, false) is Reachable
            &&& types::status_from(fine, true) is Reachable
            &&& types::status_from(bare, false) is NoRsync
            &&& types::status_from(bare, true) is Unreachable
            &&& lost is Some
            &&& types::status_from(lost, false) == TargetStatusView::Unreachable(lost->Some_0)
            &&& types::status_from(lost, true) == TargetStatusView::Unreachable(lost->Some_0)
        }),
{
    let none = Seq::<char>::empty();
    let m = "rsync not found on remote"@;
    text::lemma_contains_within(none, m, none);
    assert(none + m + none =~= m);
}

} // verus!
