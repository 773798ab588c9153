//! What holds of the program's state as a whole.
use vstd::prelude::*;

use crate::app::activity;
use crate::app::edit;
use crate::app::input;
use crate::app::rows;
use crate::app::sync;
use crate::app::types;
use crate::app::types::{AppEvent, AppView, EffectView, Focus, Key, KeyCode, Mouse, RowView, Tab};
use crate::app::watching;
use crate::config;
use crate::history;
use crate::history::EntryView;
use crate::target::{ClipboardFormat, SyncMode, TargetView};
use crate::text;
use crate::transfer::{TransferEventView, TransferState, TransferView};
use crate::watch::WatchEventView;

verus! {

// ---------------------------------------------------------------------------
// Sending
// ---------------------------------------------------------------------------
/// Sending touches nothing but the transfers, their numbers and the outbox.
pub open spec fn only_sends(a: AppView, b: AppView) -> bool {
    b == AppView {
        transfers: b.transfers,
        next_transfer_id: b.next_transfer_id,
        outbox: b.outbox,
        ..a
    }
}

pub proof fn lemma_sent_to_only_sends(
    a: AppView,
    file: Seq<char>,
    names: Seq<Seq<char>>,
    watch: Option<Seq<char>>,
)
    ensures
        only_sends(a, a.sent_to(file, names, watch)),
    decreases names.len(),
{
    if names.len() > 0 {
        lemma_sent_to_only_sends(a, file, names.drop_last(), watch);
    }
}

pub proof fn lemma_sent_all_only_sends(
    a: AppView,
    files: Seq<Seq<char>>,
    names: Seq<Seq<char>>,
    watch: Option<Seq<char>>,
)
    ensures
        only_sends(a, a.sent_all(files, names, watch)),
    decreases files.len(),
{
    if files.len() > 0 {
        lemma_sent_all_only_sends(a, files.drop_last(), names, watch);
        lemma_sent_to_only_sends(
            a.sent_all(files.drop_last(), names, watch),
            files.last(),
            names,
            watch,
        );
    }
}

/// An effect that sends `file` to `t`.
pub open spec fn starts(
    e: EffectView,
    file: Seq<char>,
    t: TargetView,
    watch: Option<Seq<char>>,
) -> bool {
    e matches EffectView::StartTransfer { target, local, subdir, .. } && target == t && local
        == file && subdir == watch
}

/// The outbox holds a transfer of `file` to the target `t`.
pub open spec fn under_way(
    a: AppView,
    file: Seq<char>,
    t: TargetView,
    watch: Option<Seq<char>>,
) -> bool {
    exists|i: int|
        0 <= i < a.outbox.len() && starts(#[trigger] a.outbox[i], file, t, watch)
}

proof fn lemma_sent_keeps_under_way(
    a: AppView,
    file: Seq<char>,
    name: Seq<char>,
    watch: Option<Seq<char>>,
    f: Seq<char>,
    t: TargetView,
)
    requires
        under_way(a, f, t, watch),
    ensures
        under_way(a.sent(file, name, watch), f, t, watch),
{
    let i = choose|i: int|
        0 <= i < a.outbox.len() && starts(#[trigger] a.outbox[i], f, t, watch);
    let b = a.sent(file, name, watch);
    assert(b.outbox[i] == a.outbox[i]);
}

proof fn lemma_sent_to_keeps_under_way(
    a: AppView,
    file: Seq<char>,
    names: Seq<Seq<char>>,
    watch: Option<Seq<char>>,
    f: Seq<char>,
    t: TargetView,
)
    requires
        under_way(a, f, t, watch),
    ensures
        under_way(a.sent_to(file, names, watch), f, t, watch),
    decreases names.len(),
{
    if names.len() > 0 {
        lemma_sent_to_keeps_under_way(a, file, names.drop_last(), watch, f, t);
        lemma_sent_keeps_under_way(
            a.sent_to(file, names.drop_last(), watch),
            file,
            names.last(),
            watch,
            f,
            t,
        );
    }
}

proof fn lemma_sent_to_reaches(
    a: AppView,
    file: Seq<char>,
    names: Seq<Seq<char>>,
    watch: Option<Seq<char>>,
    k: int,
)
    requires
        0 <= k < names.len(),
        config::find_target(a.cfg.targets, names[k]) is Some,
    ensures
        under_way(
            a.sent_to(file, names, watch),
            file,
            config::find_target(a.cfg.targets, names[k])->Some_0,
            watch,
        ),
    decreases names.len(),
{
    let before = a.sent_to(file, names.drop_last(), watch);
    lemma_sent_to_only_sends(a, file, names.drop_last(), watch);
    let t = config::find_target(a.cfg.targets, names[k])->Some_0;
    if k == names.len() - 1 {
        let b = before.sent(file, names.last(), watch);
        assert(b.outbox[before.outbox.len() as int] == (EffectView::StartTransfer {
            id: before.next_transfer_id,
            target: t,
            local: file,
            subdir: watch,
        }));
    } else {
        assert(names.drop_last()[k] == names[k]);
        lemma_sent_to_reaches(a, file, names.drop_last(), watch, k);
        lemma_sent_keeps_under_way(before, file, names.last(), watch, file, t);
    }
}

/// Every file that is sent is under way to every target it is sent to.
pub proof fn law_every_file_goes_to_every_target(
    a: AppView,
    files: Seq<Seq<char>>,
    names: Seq<Seq<char>>,
    watch: Option<Seq<char>>,
    f: int,
    k: int,
)
    requires
        0 <= f < files.len(),
        0 <= k < names.len(),
        config::find_target(a.cfg.targets, names[k]) is Some,
    ensures
        under_way(
            a.sent_all(files, names, watch),
            files[f],
            config::find_target(a.cfg.targets, names[k])->Some_0,
            watch,
        ),
    decreases files.len(),
{
    let before = a.sent_all(files.drop_last(), names, watch);
    lemma_sent_all_only_sends(a, files.drop_last(), names, watch);
    if f == files.len() - 1 {
        lemma_sent_to_reaches(before, files.last(), names, watch, k);
    } else {
        assert(files.drop_last()[f] == files[f]);
        law_every_file_goes_to_every_target(a, files.drop_last(), names, watch, f, k);
        lemma_sent_to_keeps_under_way(
            before,
            files.last(),
            names,
            watch,
            files[f],
            config::find_target(a.cfg.targets, names[k])->Some_0,
        );
    }
}

pub proof fn lemma_parted(rs: Seq<RowView>, names: Seq<Seq<char>>, ok: bool, name: Seq<char>)
    ensures
        sync::parted(rs, names, ok).contains(name) <==> names.contains(name) && sync::reachable(
            rs,
            name,
        ) == ok,
    decreases names.len(),
{
    if names.len() > 0 {
        let l = names.drop_last();
        let p = sync::parted(rs, l, ok);
        lemma_parted(rs, l, ok, name);
        assert(names =~= l.push(names.last()));
        if names.contains(name) {
            let i = choose|i: int| 0 <= i < names.len() && names[i] == name;
            if i < l.len() {
                assert(l[i] == name);
            }
        }
        if l.contains(name) {
            let i = choose|i: int| 0 <= i < l.len() && l[i] == name;
            assert(names[i] == name);
        }
        assert(names[names.len() - 1] == names.last());
        if sync::reachable(rs, names.last()) == ok {
            let q = p.push(names.last());
            assert(q[p.len() as int] == names.last());
            if p.contains(name) {
                let i = choose|i: int| 0 <= i < p.len() && p[i] == name;
                assert(q[i] == name);
            }
            if q.contains(name) {
                let i = choose|i: int| 0 <= i < q.len() && q[i] == name;
                if i < p.len() {
                    assert(p[i] == name);
                }
            }
        }
    }
}

/// What the effects after the first `n` start goes to targets with one of the
/// given names.
pub open spec fn starts_only(a: AppView, n: nat, names: Seq<Seq<char>>) -> bool {
    forall|i: int|
        n <= i < a.outbox.len() ==> (#[trigger] a.outbox[i] matches EffectView::StartTransfer {
            target,
            ..
        } && names.contains(target.name))
}

proof fn lemma_find_target_name(ts: Seq<TargetView>, name: Seq<char>)
    ensures
        config::find_target(ts, name) matches Some(t) ==> t.name == name,
{
    config::lemma_target_index(ts, name);
}

proof fn lemma_sent_to_starts_only(
    a: AppView,
    n: nat,
    file: Seq<char>,
    names: Seq<Seq<char>>,
    watch: Option<Seq<char>>,
    all: Seq<Seq<char>>,
)
    requires
        n <= a.outbox.len(),
        starts_only(a, n, all),
        forall|k: int| 0 <= k < names.len() ==> all.contains(#[trigger] names[k]),
    ensures
        starts_only(a.sent_to(file, names, watch), n, all),
        a.outbox.len() <= a.sent_to(file, names, watch).outbox.len(),
        forall|i: int|
            0 <= i < a.outbox.len() ==> #[trigger] a.sent_to(file, names, watch).outbox[i]
                == a.outbox[i],
    decreases names.len(),
{
    if names.len() > 0 {
        let l = names.drop_last();
        assert forall|k: int| 0 <= k < l.len() implies all.contains(#[trigger] l[k]) by {
            assert(l[k] == names[k]);
        }
        lemma_sent_to_starts_only(a, n, file, l, watch, all);
        let b = a.sent_to(file, l, watch);
        lemma_sent_to_only_sends(a, file, l, watch);
        lemma_find_target_name(b.cfg.targets, names.last());
        let c = b.sent(file, names.last(), watch);
        assert(all.contains(names[names.len() - 1]));
        assert forall|i: int| n <= i < c.outbox.len() implies (
        #[trigger] c.outbox[i] matches EffectView::StartTransfer { target, .. } && all.contains(
            target.name,
        )) by {
            if i < b.outbox.len() {
                assert(c.outbox[i] == b.outbox[i]);
            }
        }
    }
}

proof fn lemma_sent_all_starts_only(
    a: AppView,
    n: nat,
    files: Seq<Seq<char>>,
    names: Seq<Seq<char>>,
    watch: Option<Seq<char>>,
)
    requires
        n == a.outbox.len(),
    ensures
        starts_only(a.sent_all(files, names, watch), n, names),
        n <= a.sent_all(files, names, watch).outbox.len(),
        forall|i: int|
            0 <= i < n ==> #[trigger] a.sent_all(files, names, watch).outbox[i] == a.outbox[i],
    decreases files.len(),
{
    if files.len() > 0 {
        lemma_sent_all_starts_only(a, n, files.drop_last(), names, watch);
        let b = a.sent_all(files.drop_last(), names, watch);
        lemma_sent_to_starts_only(b, n, files.last(), names, watch, names);
        let c = b.sent_to(files.last(), names, watch);
        assert forall|i: int| 0 <= i < n implies #[trigger] c.outbox[i] == a.outbox[i] by {
            assert(c.outbox[i] == b.outbox[i]);
        }
    }
}

/// Syncing the queue starts transfers to selected targets only, and to none that
/// the latest probe found unreachable.
pub proof fn law_unreachable_targets_get_nothing(a: AppView, now: u64, i: int)
    requires
        a.outbox.len() <= i < a.queue_synced(now).outbox.len(),
    ensures
        a.queue_synced(now).outbox[i] matches EffectView::StartTransfer { target, .. }
            && sync::reachable(a.target_rows, target.name) && sync::selected_names(
            a.target_rows,
            a.cfg.groups,
        ).contains(target.name),
{
    let names = sync::selected_names(a.target_rows, a.cfg.groups);
    let ok = sync::parted(a.target_rows, names, true);
    let start = AppView { queue: seq![], queue_cursor: 0, ..a };
    lemma_sent_all_starts_only(start, a.outbox.len(), a.queue, ok, None);
    let b = a.queue_synced(now);
    let c = start.sent_all(a.queue, ok, None);
    assert(b.outbox == c.outbox);
    assert(c.outbox[i] is StartTransfer);
    lemma_parted(a.target_rows, names, true, (c.outbox[i]->StartTransfer_target).name);
}

/// Syncing the queue sends each of its files to each selected target that can be
/// reached, and leaves the queue empty.
pub proof fn law_queue_goes_to_the_selected_targets(a: AppView, now: u64, f: int, t: TargetView)
    requires
        0 <= f < a.queue.len(),
        config::find_target(a.cfg.targets, t.name) == Some(t),
        sync::selected_names(a.target_rows, a.cfg.groups).contains(t.name),
        sync::reachable(a.target_rows, t.name),
    ensures
        under_way(a.queue_synced(now), a.queue[f], t, None),
        a.queue_synced(now).queue.len() == 0,
{
    let names = sync::selected_names(a.target_rows, a.cfg.groups);
    let ok = sync::parted(a.target_rows, names, true);
    lemma_parted(a.target_rows, names, true, t.name);
    let k = choose|k: int| 0 <= k < ok.len() && ok[k] == t.name;
    let start = AppView { queue: seq![], queue_cursor: 0, ..a };
    law_every_file_goes_to_every_target(start, a.queue, ok, None, f, k);
    lemma_sent_all_only_sends(start, a.queue, ok, None);
    let c = start.sent_all(a.queue, ok, None);
    let b = a.queue_synced(now);
    assert(b.outbox == c.outbox);
    let i = choose|i: int|
        0 <= i < c.outbox.len() && starts(#[trigger] c.outbox[i], a.queue[f], t, None);
    assert(b.outbox[i] == c.outbox[i]);
}

/// A new file of a watch is sent, in auto mode, to each of the watch's targets,
/// into the watch's own folder.
pub proof fn law_watched_files_are_sent(
    a: AppView,
    watch: Seq<char>,
    path: Seq<char>,
    size: u64,
    now: u64,
    t: TargetView,
)
    requires
        a.mode == SyncMode::Auto,
        watching::watch_index(a.watches, watch) < a.watches.len(),
        watching::destinations(a.cfg, watch).contains(t.name),
        config::find_target(a.cfg.targets, t.name) == Some(t),
    ensures
        under_way(
            a.watch_heard(
                WatchEventView::NewFile { watch_name: watch, path, size },
                now,
            ),
            path,
            t,
            Some(watch),
        ),
{
    let i = watching::watch_index(a.watches, watch);
    lemma_watch_index(a.watches, watch);
    let names = watching::destinations(a.cfg, watch);
    let k = choose|k: int| 0 <= k < names.len() && names[k] == t.name;
    let w = a.watches[i];
    let start = AppView {
        watch_recent: watching::with_recent(a.watch_recent, seq![path], w.name, now),
        ..a.with_watch(
            i,
            types::WatchUiView { synced_count: watching::counted(w.synced_count, 1), ..w },
        )
    };
    assert(seq![path].len() == 1);
    law_every_file_goes_to_every_target(start, seq![path], names, Some(watch), 0, k);
}

pub proof fn lemma_watch_index(ws: Seq<types::WatchUiView>, name: Seq<char>)
    ensures
        0 <= watching::watch_index(ws, name) <= ws.len(),
        watching::watch_index(ws, name) < ws.len() ==> ws[watching::watch_index(ws, name)].name
            == name,
    decreases ws.len(),
{
    if ws.len() > 0 && ws[0].name != name {
        lemma_watch_index(ws.drop_first(), name);
    }
}

// ---------------------------------------------------------------------------
// Auto and manual mode
// ---------------------------------------------------------------------------
/// In auto mode a pasted file that exists is on its way at once, to each selected
/// target that can be reached.
pub proof fn law_auto_mode_sends_at_once(
    a: AppView,
    paths: Seq<Seq<char>>,
    exists: Seq<bool>,
    now: u64,
    f: int,
    t: TargetView,
)
    requires
        a.mode == SyncMode::Auto,
        0 <= f < sync::existing(paths, exists, true).len(),
        config::find_target(a.cfg.targets, t.name) == Some(t),
        sync::selected_names(a.target_rows, a.cfg.groups).contains(t.name),
        sync::reachable(a.target_rows, t.name),
    ensures
        under_way(
            a.paths_checked(paths, exists, now),
            sync::existing(paths, exists, true)[f],
            t,
            None,
        ),
        a.paths_checked(paths, exists, now).queue.len() == 0,
{
    let good = sync::existing(paths, exists, true);
    let missing = sync::existing(paths, exists, false);
    let queued = AppView {
        queue: a.queue + good,
        last_paste_error: if missing.len() == 0 {
            None
        } else {
            Some(text::decimal(missing.len()) + " path(s) not found"@)
        },
        ..a
    }.toasted("queued "@ + text::decimal(good.len()), now);
    assert(a.paths_checked(paths, exists, now) == queued.queue_synced(now));
    assert(queued.queue[a.queue.len() + f] == good[f]);
    law_queue_goes_to_the_selected_targets(queued, now, a.queue.len() + f, t);
}

/// In manual mode pasted files that exist only join the queue: nothing is started
/// before the user asks for it.
pub proof fn law_manual_mode_queues(
    a: AppView,
    paths: Seq<Seq<char>>,
    exists: Seq<bool>,
    now: u64,
)
    requires
        a.mode == SyncMode::Manual,
    ensures
        a.paths_checked(paths, exists, now).queue == a.queue + sync::existing(paths, exists, true),
        a.paths_checked(paths, exists, now).transfers == a.transfers,
        a.paths_checked(paths, exists, now).outbox == a.outbox,
{
    assert(a.queue + sync::existing(paths, exists, true) == a.queue || sync::existing(
        paths,
        exists,
        true,
    ).len() > 0) by {
        if sync::existing(paths, exists, true).len() == 0 {
            assert(a.queue + sync::existing(paths, exists, true) =~= a.queue);
        }
    }
}

/// In manual mode a new file of a watch waits with the watch: nothing is started.
pub proof fn law_manual_mode_holds_watched_files(
    a: AppView,
    watch: Seq<char>,
    path: Seq<char>,
    size: u64,
    now: u64,
)
    requires
        a.mode == SyncMode::Manual,
        watching::watch_index(a.watches, watch) < a.watches.len(),
    ensures
        ({
            let b = a.watch_heard(WatchEventView::NewFile { watch_name: watch, path, size }, now);
            &&& b.transfers == a.transfers
            &&& b.outbox == a.outbox
            &&& b.watches[watching::watch_index(a.watches, watch)].pending_catchup.contains(path)
        }),
{
    let i = watching::watch_index(a.watches, watch);
    lemma_watch_index(a.watches, watch);
    let held = a.watches[i].pending_catchup;
    let next = sync::with_missing(held, seq![path]);
    assert(seq![path].drop_last() =~= seq![]);
    assert(seq![path].last() == path);
    assert(sync::with_missing(held, seq![path].drop_last()) == held);
    if !held.contains(path) {
        assert(next == held.push(path));
        assert(next[held.len() as int] == path);
    }
}

/// Catching up sends every file that has waited to each of the watch's targets,
/// and leaves none waiting.
pub proof fn law_catching_up_sends_what_waited(a: AppView, now: u64, f: int, t: TargetView)
    requires
        a.watch_cursor < a.watches.len(),
        0 <= f < a.watches[a.watch_cursor as int].pending_catchup.len(),
        watching::destinations(a.cfg, a.watches[a.watch_cursor as int].name).contains(t.name),
        config::find_target(a.cfg.targets, t.name) == Some(t),
    ensures
        under_way(
            a.caught_up(now),
            a.watches[a.watch_cursor as int].pending_catchup[f],
            t,
            Some(a.watches[a.watch_cursor as int].name),
        ),
        a.caught_up(now).watches[a.watch_cursor as int].pending_catchup.len() == 0,
{
    let i = a.watch_cursor as int;
    let w = a.watches[i];
    let files = w.pending_catchup;
    let names = watching::destinations(a.cfg, w.name);
    let k = choose|k: int| 0 <= k < names.len() && names[k] == t.name;
    let cleared = a.with_watch(i, types::WatchUiView { pending_catchup: seq![], ..w });
    let w1 = cleared.watches[i];
    let start = AppView {
        watch_recent: watching::with_recent(cleared.watch_recent, files, w1.name, now),
        ..cleared.with_watch(
            i,
            types::WatchUiView {
                synced_count: watching::counted(w1.synced_count, files.len()),
                ..w1
            },
        )
    };
    law_every_file_goes_to_every_target(start, files, names, Some(w.name), f, k);
    lemma_sent_all_only_sends(start, files, names, Some(w.name));
    let c = start.sent_all(files, names, Some(w.name));
    let b = a.caught_up(now);
    assert(b.outbox == c.outbox && b.transfers == c.transfers);
    let j = choose|j: int|
        0 <= j < c.outbox.len() && starts(#[trigger] c.outbox[j], files[f], t, Some(w.name));
    assert(b.outbox[j] == c.outbox[j]);
}

// ---------------------------------------------------------------------------
// Numbers of transfers
// ---------------------------------------------------------------------------
/// Every transfer has a number of its own, below the next one to be given out.
pub open spec fn numbered(a: AppView) -> bool {
    &&& forall|i: int|
        0 <= i < a.transfers.len() ==> (#[trigger] a.transfers[i]).id < a.next_transfer_id
    &&& forall|i: int, j: int|
        0 <= i < j < a.transfers.len() ==> (#[trigger] a.transfers[i]).id != (
        #[trigger] a.transfers[j]).id
}

/// A transfer that is started gets a number that no other one has, as long as
/// numbers last.
pub proof fn law_numbers_are_fresh(
    a: AppView,
    file: Seq<char>,
    name: Seq<char>,
    watch: Option<Seq<char>>,
)
    requires
        numbered(a),
        a.next_transfer_id < u64::MAX,
    ensures
        numbered(a.sent(file, name, watch)),
{
    let b = a.sent(file, name, watch);
    assert forall|i: int| 0 <= i < b.transfers.len() implies (#[trigger] b.transfers[i]).id
        < b.next_transfer_id by {
        if i < a.transfers.len() {
            assert(b.transfers[i] == a.transfers[i]);
        }
    }
    assert forall|i: int, j: int| 0 <= i < j < b.transfers.len() implies (
    #[trigger] b.transfers[i]).id != (#[trigger] b.transfers[j]).id by {
        assert(b.transfers[i] == a.transfers[i]);
        if j < a.transfers.len() {
            assert(b.transfers[j] == a.transfers[j]);
        }
    }
}

// ---------------------------------------------------------------------------
// Completed transfers
// ---------------------------------------------------------------------------
/// When a transfer completes, its remote path goes to the clipboard in the chosen
/// format, and the transfer is recorded, as long as its target is configured.
pub proof fn law_completed_transfers_reach_the_clipboard(
    a: AppView,
    id: u64,
    dir: Seq<char>,
    now: u64,
    tr: TransferView,
    t: TargetView,
)
    requires
        sync::find_transfer(a.transfers, id) == Some(tr),
        config::find_target(a.cfg.targets, tr.target_name) == Some(t),
    ensures
        a.transfer_updated(
            TransferEventView::Completed { id, remote_abs_dir: dir },
            now,
        ).outbox == a.outbox.push(
            EffectView::RecordHistory {
                target_name: tr.target_name,
                local: tr.local,
                remote_abs_dir: dir,
                source_watch: tr.source_watch,
            },
        ).push(
            EffectView::WriteClipboard {
                text: sync::clipboard_text(a, t, tr.local, dir),
                remote_path: Some(sync::remote_path_of(tr.local, dir)),
            },
        ),
{
}

/// An effect of a completed transfer, once it is recorded, stands first in the
/// history, and no other record has its key.
pub proof fn law_recorded_transfers_come_first(a: AppView, n: activity::NoteView, now: u64)
    requires
        config::find_target(a.cfg.targets, n.target_name) is Some,
        n.error is None,
        history::distinct_keys(a.history),
    ensures
        history::distinct_keys(a.history_noted(n, now).history),
        a.history_noted(n, now).history[0] == activity::entry_of(
            n,
            config::find_target(a.cfg.targets, n.target_name)->Some_0,
        ),
{
    let e = activity::entry_of(n, config::find_target(a.cfg.targets, n.target_name)->Some_0);
    history::law_append_replaces_its_key(a.history, e, e);
}

// ---------------------------------------------------------------------------
// Activity rows
// ---------------------------------------------------------------------------
proof fn lemma_first_of_each(es: Seq<EntryView>, k: int)
    requires
        es.len() <= usize::MAX,
        0 <= k < activity::first_of_each(es).len(),
    ensures
        activity::first_of_each(es)[k] < es.len(),
    decreases es.len(),
{
    if k < activity::first_of_each(es.drop_last()).len() {
        lemma_first_of_each(es.drop_last(), k);
    }
}

/// The remote path of the history's row `k`.
pub open spec fn row_remote(es: Seq<EntryView>, k: int) -> Seq<char> {
    es[activity::first_of_each(es)[k] as int].remote_path
}

/// No two rows of the history have the same remote path.
pub proof fn law_rows_have_different_remote_paths(es: Seq<EntryView>, i: int, j: int)
    requires
        es.len() <= usize::MAX,
        0 <= i < j < activity::first_of_each(es).len(),
    ensures
        row_remote(es, i) != row_remote(es, j),
    decreases es.len(),
{
    let l = es.drop_last();
    let before = activity::first_of_each(l);
    lemma_first_of_each(l, i);
    assert(row_remote(es, i) == row_remote(l, i));
    if j < before.len() {
        lemma_first_of_each(l, j);
        law_rows_have_different_remote_paths(l, i, j);
        assert(row_remote(es, j) == row_remote(l, j));
    } else {
        let m = before[i] as int;
        assert(l[m].remote_path == row_remote(l, i));
        assert(row_remote(es, j) == es.last().remote_path);
    }
}

/// Every remote path of the history has a row.
pub proof fn law_every_remote_path_has_a_row(es: Seq<EntryView>, i: int)
    requires
        es.len() <= usize::MAX,
        0 <= i < es.len(),
    ensures
        exists|k: int|
            0 <= k < activity::first_of_each(es).len() && #[trigger] row_remote(es, k)
                == es[i].remote_path,
    decreases es.len(),
{
    let l = es.drop_last();
    let before = activity::first_of_each(l);
    let last = es.last().remote_path;
    if i < l.len() || activity::has_remote(l, last) {
        let m = if i < l.len() {
            i
        } else {
            choose|m: int| 0 <= m < l.len() && (#[trigger] l[m]).remote_path == last
        };
        law_every_remote_path_has_a_row(l, m);
        let k = choose|k: int|
            0 <= k < before.len() && #[trigger] row_remote(l, k) == l[m].remote_path;
        lemma_first_of_each(l, k);
        assert(row_remote(es, k) == row_remote(l, k));
    } else {
        assert(row_remote(es, before.len() as int) == last);
    }
}

/// A transfer that has completed is no longer among the live ones.
pub proof fn law_live_rows_are_unfinished(ts: Seq<TransferView>, q: Seq<char>)
    ensures
        forall|i: int|
            0 <= i < activity::live_transfers(ts, q).len() ==> (
            #[trigger] activity::live_transfers(ts, q)[i]).state != TransferState::Completed,
    decreases ts.len(),
{
    if ts.len() > 0 {
        law_live_rows_are_unfinished(ts.drop_last(), q);
        let rest = activity::live_transfers(ts.drop_last(), q);
        let all = activity::live_transfers(ts, q);
        assert forall|i: int| 0 <= i < all.len() implies (#[trigger] all[i]).state
            != TransferState::Completed by {
            if activity::live_shown(ts.last(), q) {
                if i > 0 {
                    assert(all[i] == rest[i - 1]);
                }
            } else {
                assert(all[i] == rest[i]);
            }
        }
    }
}

// ---------------------------------------------------------------------------
// Choices
// ---------------------------------------------------------------------------
/// Going on to the next clipboard format four times leads back, and not sooner.
pub proof fn law_formats_go_round(f: ClipboardFormat)
    ensures
        edit::next_format(f) != f,
        edit::next_format(edit::next_format(f)) != f,
        edit::next_format(edit::next_format(edit::next_format(f))) != f,
        edit::next_format(edit::next_format(edit::next_format(edit::next_format(f)))) == f,
{
}

/// The theme after a known one is the next in the list, and after the last one
/// the first.
pub proof fn law_themes_go_round(i: int)
    requires
        0 <= i < edit::themes().len(),
    ensures
        edit::next_theme(edit::themes()[i]) == edit::themes()[(i + 1) % 5],
{
    reveal_strlit("mocha");
    reveal_strlit("tokyo_night");
    reveal_strlit("gruvbox");
    reveal_strlit("nord");
    reveal_strlit("dracula");
    assert("mocha"@.len() == 5 && "tokyo_night"@.len() == 11 && "gruvbox"@.len() == 7
        && "nord"@.len() == 4 && "dracula"@.len() == 7);
    assert("gruvbox"@[0] == 'g' && "dracula"@[0] == 'd');
}

/// Toggling the mode twice leads back to it.
pub proof fn law_modes_toggle(a: AppView, now: u64)
    ensures
        a.mode_toggled(now).mode != a.mode,
        a.mode_toggled(now).mode_toggled(now).mode == a.mode,
        a.mode_toggled(now).cfg.default_mode == a.mode_toggled(now).mode,
{
}

/// On the Drop tab, going back undoes going forward, and three steps go all the
/// way round.
pub proof fn law_focus_goes_round(a: AppView)
    requires
        a.current_tab == Tab::Drop,
        a.focus != Focus::Watches,
    ensures
        a.focus_cycled(true).focus_cycled(false) == a,
        a.focus_cycled(false).focus_cycled(true) == a,
        a.focus_cycled(true).focus_cycled(true).focus_cycled(true) == a,
{
}

/// Toggling a row twice leaves everything as it was.
pub proof fn law_rows_toggle(a: AppView)
    ensures
        a.row_toggled().row_toggled() == a,
{
    let i = a.target_cursor as int;
    if i < a.target_rows.len() {
        assert(a.row_toggled().row_toggled().target_rows =~= a.target_rows);
    }
}

/// No target of the removed name is left, and every other one is.
pub proof fn law_removed_targets_are_gone(targets: Seq<TargetView>, name: Seq<char>, t: TargetView)
    ensures
        edit::without_target(targets, name).contains(t) <==> targets.contains(t) && t.name != name,
    decreases targets.len(),
{
    if targets.len() > 0 {
        let l = targets.drop_last();
        law_removed_targets_are_gone(l, name, t);
        let p = edit::without_target(l, name);
        let r = edit::without_target(targets, name);
        if targets.contains(t) {
            let i = choose|i: int| 0 <= i < targets.len() && targets[i] == t;
            if i < l.len() {
                assert(l[i] == t);
            }
        }
        if l.contains(t) {
            let i = choose|i: int| 0 <= i < l.len() && l[i] == t;
            assert(targets[i] == t);
        }
        assert(targets[targets.len() - 1] == targets.last());
        if targets.last().name != name {
            assert(r[p.len() as int] == targets.last());
            if p.contains(t) {
                let i = choose|i: int| 0 <= i < p.len() && p[i] == t;
                assert(r[i] == t);
            }
            if r.contains(t) {
                let i = choose|i: int| 0 <= i < r.len() && r[i] == t;
                if i < p.len() {
                    assert(p[i] == t);
                }
            }
        }
    }
}

// ---------------------------------------------------------------------------
// Keys
// ---------------------------------------------------------------------------
/// Ctrl+C quits, whatever is on the screen.
pub proof fn law_ctrl_c_quits(a: AppView, now: u64)
    ensures
        a.key_handled(Key { code: KeyCode::Char('c'), ctrl: true, pressed: true }, now).should_quit,
{
}

/// The drop zone is focused, and nothing lies over it.
pub open spec fn drop_zone_open(a: AppView) -> bool {
    &&& a.focus == Focus::DropZone
    &&& a.update_status is Idle || a.update_status is Checking || a.update_status is Installing
    &&& a.ssh_picker is None
    &&& !a.menu_visible
    &&& !a.help_visible
    &&& a.watch_form is None
}

/// Characters of a path that is dragged onto the drop zone, key by key, trigger
/// nothing: they are only kept.
pub proof fn law_dragged_paths_trigger_nothing(a: AppView, c: char, now: u64)
    requires
        drop_zone_open(a),
    ensures
        a.key_handled(Key { code: KeyCode::Char(c), ctrl: false, pressed: true }, now)
            == a.char_typed(c, now),
        drop_zone_open(a.char_typed(c, now)),
{
    reveal(AppView::panel_key);
}

/// The state after the characters `s` were typed at the given times.
pub open spec fn after_typing(a: AppView, s: Seq<char>, times: Seq<u64>) -> AppView
    decreases s.len(),
{
    if s.len() == 0 {
        a
    } else {
        after_typing(a, s.drop_last(), times).key_handled(
            Key { code: KeyCode::Char(s.last()), ctrl: false, pressed: true },
            times[s.len() - 1],
        )
    }
}

proof fn lemma_typing_is_kept(a: AppView, s: Seq<char>, times: Seq<u64>)
    requires
        drop_zone_open(a),
        0 < s.len() <= times.len(),
    ensures
        after_typing(a, s, times) == (AppView {
            typed: a.typed + s,
            typed_at_ms: times[s.len() - 1],
            ..a
        }),
    decreases s.len(),
{
    let before = after_typing(a, s.drop_last(), times);
    if s.len() == 1 {
        assert(before == a);
    } else {
        lemma_typing_is_kept(a, s.drop_last(), times);
    }
    law_dragged_paths_trigger_nothing(before, s.last(), times[s.len() - 1]);
    assert(before.typed.push(s.last()) =~= a.typed + s);
}

/// Text that comes key by key over the drop zone is, as soon as no key has come
/// for 120 ms, taken just as if it had been pasted.
pub proof fn law_typed_text_counts_as_pasted(a: AppView, s: Seq<char>, times: Seq<u64>, now: u64)
    requires
        drop_zone_open(a),
        a.typed.len() == 0,
        0 < s.len() == times.len(),
        now - times.last() >= 120,
    ensures
        after_typing(a, s, times).after_tick(now) == (AppView {
            typed_at_ms: times.last(),
            ..a.ticked(now)
        }).pasted(s),
{
    lemma_typing_is_kept(a, s, times);
    let b = after_typing(a, s, times);
    assert(b.typed =~= s);
    assert(a.typed =~= seq![]);
    assert((AppView { typed: seq![], ..b.ticked(now) }) == (AppView {
        typed_at_ms: times.last(),
        ..a.ticked(now)
    }));
}

/// A key that is held or let go does nothing.
pub proof fn law_released_keys_do_nothing(a: AppView, code: KeyCode, ctrl: bool, now: u64)
    ensures
        a.key_handled(Key { code, ctrl, pressed: false }, now) == a,
{
}

// ---------------------------------------------------------------------------
// The menu's cursor
// ---------------------------------------------------------------------------
proof fn lemma_queue_synced_keeps_menu(a: AppView, now: u64)
    ensures
        a.queue_synced(now).menu_cursor == a.menu_cursor,
{
    let names = sync::selected_names(a.target_rows, a.cfg.groups);
    let ok = sync::parted(a.target_rows, names, true);
    lemma_sent_all_only_sends(AppView { queue: seq![], queue_cursor: 0, ..a }, a.queue, ok, None);
}

proof fn lemma_watch_sent_keeps_menu(a: AppView, i: int, files: Seq<Seq<char>>, now: u64)
    ensures
        a.watch_sent(i, files, now).menu_cursor == a.menu_cursor,
{
    let w = a.watches[i];
    lemma_sent_all_only_sends(
        AppView {
            watch_recent: watching::with_recent(a.watch_recent, files, w.name, now),
            ..a.with_watch(
                i,
                types::WatchUiView {
                    synced_count: watching::counted(w.synced_count, files.len()),
                    ..w
                },
            )
        },
        files,
        watching::destinations(a.cfg, w.name),
        Some(w.name),
    );
}

proof fn lemma_menu_run_keeps_menu(a: AppView, m: types::MenuAction, now: u64)
    ensures
        a.menu_run(m, now).menu_cursor == a.menu_cursor,
{
}

proof fn lemma_caught_up_keeps_menu(a: AppView, now: u64)
    ensures
        a.caught_up(now).menu_cursor == a.menu_cursor,
{
    let i = a.watch_cursor as int;
    if i < a.watches.len() {
        let w = a.watches[i];
        lemma_watch_sent_keeps_menu(
            a.with_watch(i, types::WatchUiView { pending_catchup: seq![], ..w }),
            i,
            w.pending_catchup,
            now,
        );
    }
}

proof fn lemma_panel_key_keeps_menu(a: AppView, k: Key, now: u64)
    requires
        a.wf(),
    ensures
        a.panel_key(k, now).wf(),
{
    reveal(AppView::panel_key);
    lemma_queue_synced_keeps_menu(a, now);
    lemma_caught_up_keeps_menu(a, now);
}

proof fn lemma_menu_key_keeps_menu(a: AppView, code: KeyCode, now: u64)
    requires
        a.wf(),
    ensures
        a.menu_key(code, now).wf(),
{
    reveal(AppView::menu_key);
    let n = types::menu().len();
    assert(n == 12);
    assert(0 <= (a.menu_cursor + 1) % 12 < 12);
    assert(0 <= (a.menu_cursor - 1) % 12 < 12);
    lemma_menu_run_keeps_menu(a.menu_closed(), types::menu()[a.menu_cursor as int], now);
    if code is Char && input::nth(code->Char_0) is Some {
        lemma_menu_run_keeps_menu(
            a.menu_closed(),
            types::menu()[input::nth(code->Char_0)->Some_0 as int],
            now,
        );
    }
}

proof fn lemma_click_keeps_menu(a: AppView, x: u16, y: u16, now: u64)
    requires
        a.wf(),
    ensures
        a.clicked(x, y, now).wf(),
{
    reveal(AppView::panel_clicked);
    lemma_queue_synced_keeps_menu(a, now);
    let rows = a.hit_regions.menu_rows;
    let i = input::first_hit(input::areas(rows), x, y);
    lemma_menu_run_keeps_menu(a.menu_closed(), rows[i].1, now);
}

/// No event moves the menu's cursor off the menu.
pub proof fn law_menu_cursor_stays_on_the_menu(a: AppView, e: AppEvent, now: u64)
    requires
        a.wf(),
    ensures
        input::answer(a, e, now).wf(),
{
    match e {
        AppEvent::Key(k) => {
            lemma_panel_key_keeps_menu(a, k, now);
            lemma_menu_key_keeps_menu(a, k.code, now);
            reveal(AppView::offer_key);
            reveal(AppView::picker_key);
            reveal(AppView::filter_key);
            reveal(AppView::form_key);
        },
        AppEvent::Mouse(m) => {
            if let Mouse::LeftDown { x, y } = m {
                lemma_click_keeps_menu(a, x, y, now);
            }
        },
        AppEvent::PathsChecked { paths, exists } => {
            let ps = crate::text::strs(paths@);
            let good = sync::existing(ps, exists@, true);
            let missing = sync::existing(ps, exists@, false);
            lemma_queue_synced_keeps_menu(
                AppView {
                    queue: a.queue + good,
                    last_paste_error: if missing.len() == 0 {
                        None
                    } else {
                        Some(text::decimal(missing.len()) + " path(s) not found"@)
                    },
                    ..a
                }.toasted("queued "@ + text::decimal(good.len()), now),
                now,
            );
        },
        AppEvent::Watch(ev) => {
            if let WatchEventView::NewFile { watch_name, path, size } = ev@ {
                let i = watching::watch_index(a.watches, watch_name);
                lemma_watch_sent_keeps_menu(a, i, seq![path], now);
            }
        },
        _ => {},
    }
}

} // verus!
