//! What is sent where, said in terms of rows, groups and files.
use vstd::prelude::*;

use crate::app::laws;
use crate::app::rows;
use crate::app::sync;
use crate::app::types;
use crate::app::types::{AppView, EffectView, RowView, TargetKind};
use crate::app::watching;
use crate::config;
use crate::config::ConfigView;
use crate::target::{GroupView, SyncMode, TargetView, WatchView};
use crate::text;
use crate::transfer::{TransferEventView, TransferState, TransferView};
use crate::watch::WatchEventView;

verus! {

// ---------------------------------------------------------------------------
// Names
// ---------------------------------------------------------------------------
/// No name occurs twice.
pub open spec fn each_once(names: Seq<Seq<char>>) -> bool {
    forall|i: int, j: int| 0 <= i < j < names.len() ==> #[trigger] names[i] != #[trigger] names[j]
}

/// Adding the names that are missing loses none, adds all, and repeats none.
pub proof fn law_missing_names_are_added(
    out: Seq<Seq<char>>,
    names: Seq<Seq<char>>,
    name: Seq<char>,
)
    ensures
        sync::with_missing(out, names).contains(name) <==> out.contains(name) || names.contains(
            name,
        ),
        each_once(out) ==> each_once(sync::with_missing(out, names)),
        out.is_prefix_of(sync::with_missing(out, names)),
    decreases names.len(),
{
    if names.len() > 0 {
        let init = names.drop_last();
        let last = names.last();
        law_missing_names_are_added(out, init, name);
        law_missing_names_are_added(out, init, last);
        let o = sync::with_missing(out, init);
        assert(names[names.len() - 1] == last);
        if init.contains(name) {
            let i = choose|i: int| 0 <= i < init.len() && init[i] == name;
            assert(names[i] == name);
        }
        if names.contains(name) && name != last {
            let i = choose|i: int| 0 <= i < names.len() && names[i] == name;
            assert(init[i] == name);
        }
        if !o.contains(last) {
            let p = o.push(last);
            assert(p[o.len() as int] == last);
            if o.contains(name) {
                let i = choose|i: int| 0 <= i < o.len() && o[i] == name;
                assert(p[i] == name);
            }
            if p.contains(name) && name != last {
                let i = choose|i: int| 0 <= i < p.len() && p[i] == name;
                assert(o[i] == name);
            }
            if each_once(out) {
                assert forall|i: int, j: int| 0 <= i < j < p.len() implies #[trigger] p[i]
                    != #[trigger] p[j] by {
                    assert(p[i] == o[i]);
                    if j < o.len() {
                        assert(p[j] == o[j]);
                    }
                }
            }
        }
    }
}

/// The name is a member of the group that `group` names: the first of that name.
pub open spec fn is_member(groups: Seq<GroupView>, group: Seq<char>, name: Seq<char>) -> bool {
    exists|j: int|
        0 <= j < groups.len() && (#[trigger] groups[j]).name == group && groups[j].targets.contains(
            name,
        ) && (forall|k: int| 0 <= k < j ==> (#[trigger] groups[k]).name != group)
}

pub open spec fn names_a_group(groups: Seq<GroupView>, name: Seq<char>) -> bool {
    exists|j: int| 0 <= j < groups.len() && (#[trigger] groups[j]).name == name
}

proof fn lemma_member(groups: Seq<GroupView>, group: Seq<char>, name: Seq<char>)
    ensures
        is_member(groups, group, name) <==> (config::find_group(groups, group) is Some
            && config::find_group(groups, group)->Some_0.targets.contains(name)),
        names_a_group(groups, group) <==> config::find_group(groups, group) is Some,
{
    config::lemma_group_index(groups, group);
    let i = config::group_index(groups, group);
    if i < groups.len() {
        assert(groups[i].name == group);
    }
    if is_member(groups, group, name) {
        let j = choose|j: int|
            0 <= j < groups.len() && (#[trigger] groups[j]).name == group
                && groups[j].targets.contains(name) && (forall|k: int|
                0 <= k < j ==> (#[trigger] groups[k]).name != group);
        if i < j {
            assert(groups[i].name != group);
        }
        assert(i == j);
    }
}

/// The row stands for the target: it is the target's own, or that of a group which the
/// target is a member of.
pub open spec fn stands_for(r: RowView, groups: Seq<GroupView>, name: Seq<char>) -> bool {
    match r.kind {
        TargetKind::Single => r.name == name,
        TargetKind::Group => is_member(groups, r.name, name),
    }
}

/// Exactly those targets are selected that some selected row stands for: each member
/// of a selected group is, and so is each target whose own row is.
pub proof fn law_selected_rows_stand_for_their_targets(
    rs: Seq<RowView>,
    groups: Seq<GroupView>,
    name: Seq<char>,
)
    ensures
        sync::selected_names(rs, groups).contains(name) <==> exists|i: int|
            0 <= i < rs.len() && (#[trigger] rs[i]).selected && stands_for(rs[i], groups, name),
    decreases rs.len(),
{
    if rs.len() > 0 {
        let init = rs.drop_last();
        let r = rs.last();
        law_selected_rows_stand_for_their_targets(init, groups, name);
        let out = sync::selected_names(init, groups);
        assert(rs[rs.len() - 1] == r);
        lemma_member(groups, r.name, name);
        if out.contains(name) {
            let i = choose|i: int|
                0 <= i < init.len() && (#[trigger] init[i]).selected && stands_for(
                    init[i],
                    groups,
                    name,
                );
            assert(rs[i] == init[i]);
        }
        if exists|i: int|
            0 <= i < rs.len() && (#[trigger] rs[i]).selected && stands_for(rs[i], groups, name) {
            let i = choose|i: int|
                0 <= i < rs.len() && (#[trigger] rs[i]).selected && stands_for(
                    rs[i],
                    groups,
                    name,
                );
            if i < init.len() {
                assert(init[i] == rs[i]);
            }
        }
        if r.selected {
            match r.kind {
                TargetKind::Single => {
                    let p = out.push(r.name);
                    assert(p[out.len() as int] == r.name);
                    if out.contains(name) {
                        let i = choose|i: int| 0 <= i < out.len() && out[i] == name;
                        assert(p[i] == name);
                    }
                    if p.contains(name) && name != r.name {
                        let i = choose|i: int| 0 <= i < p.len() && p[i] == name;
                        assert(out[i] == name);
                    }
                },
                TargetKind::Group => {
                    if let Some(g) = config::find_group(groups, r.name) {
                        law_missing_names_are_added(out, g.targets, name);
                    }
                },
            }
        }
    }
}

/// Rows as they are built: targets come first, each name once, and groups follow.
pub open spec fn in_order(rs: Seq<RowView>) -> bool {
    forall|i: int, j: int|
        0 <= i < j < rs.len() && (#[trigger] rs[j]).kind == TargetKind::Single ==> (
        #[trigger] rs[i]).kind == TargetKind::Single && rs[i].name != rs[j].name
}

/// A target is selected once, however many selected rows stand for it.
pub proof fn law_targets_are_selected_once(rs: Seq<RowView>, groups: Seq<GroupView>)
    requires
        in_order(rs),
    ensures
        each_once(sync::selected_names(rs, groups)),
    decreases rs.len(),
{
    if rs.len() > 0 {
        let init = rs.drop_last();
        let r = rs.last();
        assert forall|i: int, j: int|
            0 <= i < j < init.len() && (#[trigger] init[j]).kind == TargetKind::Single implies (
        #[trigger] init[i]).kind == TargetKind::Single && init[i].name != init[j].name by {
            assert(init[i] == rs[i] && init[j] == rs[j]);
        }
        law_targets_are_selected_once(init, groups);
        let out = sync::selected_names(init, groups);
        if r.selected {
            match r.kind {
                TargetKind::Single => {
                    let p = out.push(r.name);
                    if out.contains(r.name) {
                        law_selected_rows_stand_for_their_targets(init, groups, r.name);
                        let i = choose|i: int|
                            0 <= i < init.len() && (#[trigger] init[i]).selected && stands_for(
                                init[i],
                                groups,
                                r.name,
                            );
                        assert(rs[i] == init[i] && rs[rs.len() - 1] == r);
                    }
                    assert forall|i: int, j: int| 0 <= i < j < p.len() implies #[trigger] p[i]
                        != #[trigger] p[j] by {
                        assert(p[i] == out[i]);
                        if j < out.len() {
                            assert(p[j] == out[j]);
                        }
                    }
                },
                TargetKind::Group => {
                    if let Some(g) = config::find_group(groups, r.name) {
                        law_missing_names_are_added(out, g.targets, r.name);
                    }
                },
            }
        }
    }
}

/// A watch sends to exactly the targets that its list names: to those named themselves,
/// and to the members of groups; and to each of them once.
pub proof fn law_a_watch_sends_to_what_it_names(
    cfg: ConfigView,
    names: Seq<Seq<char>>,
    name: Seq<char>,
)
    ensures
        watching::spread(cfg, names).contains(name) <==> exists|i: int|
            0 <= i < names.len() && (if names_a_group(cfg.groups, #[trigger] names[i]) {
                is_member(cfg.groups, names[i], name)
            } else {
                names[i] == name
            }),
        each_once(watching::spread(cfg, names)),
    decreases names.len(),
{
    if names.len() > 0 {
        let init = names.drop_last();
        let last = names.last();
        law_a_watch_sends_to_what_it_names(cfg, init, name);
        let before = watching::spread(cfg, init);
        lemma_member(cfg.groups, last, name);
        assert(names[names.len() - 1] == last);
        let more = match config::find_group(cfg.groups, last) {
            Some(g) => g.targets,
            None => seq![last],
        };
        law_missing_names_are_added(before, more, name);
        assert(seq![last].contains(name) == (name == last)) by {
            assert(seq![last][0] == last);
        }
        if before.contains(name) {
            let i = choose|i: int|
                0 <= i < init.len() && (if names_a_group(cfg.groups, #[trigger] init[i]) {
                    is_member(cfg.groups, init[i], name)
                } else {
                    init[i] == name
                });
            assert(names[i] == init[i]);
        }
        if exists|i: int|
            0 <= i < names.len() && (if names_a_group(cfg.groups, #[trigger] names[i]) {
                is_member(cfg.groups, names[i], name)
            } else {
                names[i] == name
            }) {
            let i = choose|i: int|
                0 <= i < names.len() && (if names_a_group(cfg.groups, #[trigger] names[i]) {
                    is_member(cfg.groups, names[i], name)
                } else {
                    names[i] == name
                });
            if i < init.len() {
                assert(init[i] == names[i]);
            }
        }
    }
}

/// The targets that a watch sends to are those that its configuration names: the first
/// one of its name.
pub proof fn law_a_watch_is_configured_by_its_name(cfg: ConfigView, i: int)
    requires
        0 <= i < cfg.watches.len(),
        forall|k: int| 0 <= k < i ==> (#[trigger] cfg.watches[k]).name != cfg.watches[i].name,
    ensures
        watching::destinations(cfg, cfg.watches[i].name) == watching::spread(
            cfg,
            cfg.watches[i].targets,
        ),
{
    lemma_configured(cfg.watches, i);
}

proof fn lemma_configured(ws: Seq<WatchView>, i: int)
    requires
        0 <= i < ws.len(),
        forall|k: int| 0 <= k < i ==> (#[trigger] ws[k]).name != ws[i].name,
    ensures
        watching::configured(ws, ws[i].name) == Some(ws[i]),
    decreases ws.len(),
{
    if i > 0 {
        assert(ws[0].name != ws[i].name);
        let rest = ws.drop_first();
        assert forall|k: int| 0 <= k < i - 1 implies (#[trigger] rest[k]).name != rest[i - 1].name by {
            assert(rest[k] == ws[k + 1]);
        }
        lemma_configured(rest, i - 1);
    }
}

// ---------------------------------------------------------------------------
// Syncing the queue
// ---------------------------------------------------------------------------
/// The target is known to be out of reach: the first row of its name says so.
pub open spec fn known_out_of_reach(rs: Seq<RowView>, name: Seq<char>) -> bool {
    exists|i: int|
        0 <= i < rs.len() && (#[trigger] rs[i]).name == name && rs[i].status is Unreachable && (
        forall|k: int| 0 <= k < i ==> (#[trigger] rs[k]).name != name)
}

pub proof fn law_reach_is_what_the_row_says(rs: Seq<RowView>, name: Seq<char>)
    ensures
        sync::reachable(rs, name) <==> !known_out_of_reach(rs, name),
{
    rows::lemma_row_index(rs, name);
    let i = rows::row_index(rs, name);
    if known_out_of_reach(rs, name) {
        let j = choose|j: int|
            0 <= j < rs.len() && (#[trigger] rs[j]).name == name && rs[j].status is Unreachable && (
            forall|k: int| 0 <= k < j ==> (#[trigger] rs[k]).name != name);
        if i < j {
            assert(rs[i].name != name);
        }
        assert(i == j);
    }
    if !sync::reachable(rs, name) {
        assert(rs[i].name == name);
    }
}

/// Syncing sends a queued file to a target that some selected row stands for, be it
/// its own or that of a group, unless the target is known to be out of reach.
pub proof fn law_a_selected_row_gets_the_queue(
    a: AppView,
    now: u64,
    f: int,
    r: int,
    t: TargetView,
)
    requires
        0 <= f < a.queue.len(),
        0 <= r < a.target_rows.len(),
        a.target_rows[r].selected,
        stands_for(a.target_rows[r], a.cfg.groups, t.name),
        config::find_target(a.cfg.targets, t.name) == Some(t),
        !known_out_of_reach(a.target_rows, t.name),
    ensures
        laws::under_way(a.queue_synced(now), a.queue[f], t, None),
        a.queue_synced(now).queue.len() == 0,
{
    law_selected_rows_stand_for_their_targets(a.target_rows, a.cfg.groups, t.name);
    law_reach_is_what_the_row_says(a.target_rows, t.name);
    assert(sync::selected_names(a.target_rows, a.cfg.groups).contains(t.name));
    laws::law_queue_goes_to_the_selected_targets(a, now, f, t);
}

/// Syncing starts nothing but transfers, each of them to a target that a selected row
/// stands for and that is not known to be out of reach.
pub proof fn law_others_get_nothing(a: AppView, now: u64, i: int)
    requires
        a.outbox.len() <= i < a.queue_synced(now).outbox.len(),
    ensures
        a.queue_synced(now).outbox[i] is StartTransfer,
        ({
            let name = (a.queue_synced(now).outbox[i]->StartTransfer_target).name;
            &&& !known_out_of_reach(a.target_rows, name)
            &&& exists|r: int|
                0 <= r < a.target_rows.len() && (#[trigger] a.target_rows[r]).selected
                    && stands_for(a.target_rows[r], a.cfg.groups, name)
        }),
{
    laws::law_unreachable_targets_get_nothing(a, now, i);
    let name = (a.queue_synced(now).outbox[i]->StartTransfer_target).name;
    law_selected_rows_stand_for_their_targets(a.target_rows, a.cfg.groups, name);
    law_reach_is_what_the_row_says(a.target_rows, name);
}

/// Where nothing can be sent, the queue stays as it is and nothing is started: no row is
/// selected, or every target that is selected is known to be out of reach.
pub proof fn law_the_queue_stays_without_targets(a: AppView, now: u64)
    requires
        forall|name: Seq<char>| #[trigger]
            sync::selected_names(a.target_rows, a.cfg.groups).contains(name)
                ==> known_out_of_reach(a.target_rows, name),
    ensures
        a.queue_synced(now).queue == a.queue,
        a.queue_synced(now).outbox == a.outbox,
        a.queue_synced(now).transfers == a.transfers,
        a.queue_synced(now).toast is Some,
{
    let names = sync::selected_names(a.target_rows, a.cfg.groups);
    let ok = sync::parted(a.target_rows, names, true);
    if ok.len() > 0 {
        laws::lemma_parted(a.target_rows, names, true, ok[0]);
        assert(ok.contains(ok[0]));
        assert(names.contains(ok[0]));
        law_reach_is_what_the_row_says(a.target_rows, ok[0]);
    }
}

/// Each transfer that is started is shown: what the outbox is asked to do and what the
/// list of transfers shows agree on number, file, target and watch.
pub open spec fn shown(t: TransferView, e: EffectView) -> bool {
    e matches EffectView::StartTransfer { id, target, local, subdir } && t.id == id && t.local
        == local && t.target_name == target.name && t.source_watch == subdir && t.state
        == TransferState::Pending && t.percent == 0
}

/// Sending a file to a configured target starts one transfer, and shows it.
pub proof fn law_a_transfer_is_started_and_shown(
    a: AppView,
    file: Seq<char>,
    t: TargetView,
    watch: Option<Seq<char>>,
)
    requires
        config::find_target(a.cfg.targets, t.name) == Some(t),
    ensures
        ({
            let b = a.sent(file, t.name, watch);
            &&& b.outbox.len() == a.outbox.len() + 1
            &&& b.transfers.len() == a.transfers.len() + 1
            &&& b.outbox.drop_last() == a.outbox
            &&& b.transfers.drop_last() == a.transfers
            &&& laws::starts(b.outbox.last(), file, t, watch)
            &&& shown(b.transfers.last(), b.outbox.last())
        }),
{
    let b = a.sent(file, t.name, watch);
    assert(b.outbox.drop_last() =~= a.outbox);
    assert(b.transfers.drop_last() =~= a.transfers);
}

/// As many transfers are started as there are files and targets to pair: none is left
/// out, and none comes twice.
pub proof fn law_every_pair_is_started_once(
    a: AppView,
    files: Seq<Seq<char>>,
    names: Seq<Seq<char>>,
    watch: Option<Seq<char>>,
)
    requires
        forall|k: int|
            0 <= k < names.len() ==> config::find_target(a.cfg.targets, #[trigger] names[k]) is Some,
    ensures
        a.sent_all(files, names, watch).outbox.len() == a.outbox.len() + files.len() * names.len(),
        a.sent_all(files, names, watch).transfers.len() == a.transfers.len() + files.len()
            * names.len(),
    decreases files.len(),
{
    if files.len() > 0 {
        let before = a.sent_all(files.drop_last(), names, watch);
        law_every_pair_is_started_once(a, files.drop_last(), names, watch);
        laws::lemma_sent_all_only_sends(a, files.drop_last(), names, watch);
        lemma_sent_to_count(before, files.last(), names, watch);
        assert(files.len() * names.len() == (files.len() - 1) * names.len() + names.len())
            by (nonlinear_arith);
    } else {
        assert(files.len() * names.len() == 0) by (nonlinear_arith)
            requires
                files.len() == 0,
        ;
    }
}

proof fn lemma_sent_to_count(
    a: AppView,
    file: Seq<char>,
    names: Seq<Seq<char>>,
    watch: Option<Seq<char>>,
)
    requires
        forall|k: int|
            0 <= k < names.len() ==> config::find_target(a.cfg.targets, #[trigger] names[k]) is Some,
    ensures
        a.sent_to(file, names, watch).outbox.len() == a.outbox.len() + names.len(),
        a.sent_to(file, names, watch).transfers.len() == a.transfers.len() + names.len(),
    decreases names.len(),
{
    if names.len() > 0 {
        let init = names.drop_last();
        assert forall|k: int| 0 <= k < init.len() implies config::find_target(
            a.cfg.targets,
            #[trigger] init[k],
        ) is Some by {
            assert(init[k] == names[k]);
        }
        lemma_sent_to_count(a, file, init, watch);
        laws::lemma_sent_to_only_sends(a, file, init, watch);
        assert(config::find_target(a.cfg.targets, names[names.len() - 1]) is Some);
    }
}

// ---------------------------------------------------------------------------
// Pasting
// ---------------------------------------------------------------------------
/// Of the paths that were pasted, those that exist are queued, and no others are.
pub proof fn law_existing_paths_are_told_apart(
    paths: Seq<Seq<char>>,
    exists: Seq<bool>,
    p: Seq<char>,
)
    requires
        paths.len() <= exists.len(),
    ensures
        sync::existing(paths, exists, true).contains(p) <==> exists|i: int|
            0 <= i < paths.len() && #[trigger] paths[i] == p && exists[i],
        sync::existing(paths, exists, false).contains(p) <==> exists|i: int|
            0 <= i < paths.len() && #[trigger] paths[i] == p && !exists[i],
        sync::existing(paths, exists, true).len() + sync::existing(paths, exists, false).len()
            == paths.len(),
    decreases paths.len(),
{
    if paths.len() > 0 {
        let init = paths.drop_last();
        law_existing_paths_are_told_apart(init, exists, p);
        lemma_existing(paths, exists, p, true);
        lemma_existing(paths, exists, p, false);
    }
}

proof fn lemma_existing(paths: Seq<Seq<char>>, exists: Seq<bool>, p: Seq<char>, yes: bool)
    requires
        paths.len() <= exists.len(),
    ensures
        sync::existing(paths, exists, yes).contains(p) <==> exists|i: int|
            0 <= i < paths.len() && #[trigger] paths[i] == p && exists[i] == yes,
    decreases paths.len(),
{
    if paths.len() > 0 {
        let init = paths.drop_last();
        let last = paths.last();
        let n = paths.len() - 1;
        lemma_existing(init, exists, p, yes);
        let before = sync::existing(init, exists, yes);
        let all = sync::existing(paths, exists, yes);
        assert(paths[n] == last);
        if before.contains(p) {
            let i = choose|i: int|
                0 <= i < init.len() && #[trigger] init[i] == p && exists[i] == yes;
            assert(paths[i] == p);
            let k = choose|k: int| 0 <= k < before.len() && before[k] == p;
            assert(all[k] == p);
        }
        if exists[n] == yes {
            assert(all == before.push(last));
            assert(all[before.len() as int] == last);
            if all.contains(p) && p != last {
                let k = choose|k: int| 0 <= k < all.len() && all[k] == p;
                assert(before[k] == p);
            }
        }
        if exists|i: int| 0 <= i < paths.len() && #[trigger] paths[i] == p && exists[i] == yes {
            let i = choose|i: int|
                0 <= i < paths.len() && #[trigger] paths[i] == p && exists[i] == yes;
            if i < init.len() {
                assert(init[i] == p);
            }
        }
    }
}

/// What was pasted is first looked for: the paths that the paste spells are asked after,
/// and nothing is queued or sent before the answer. A paste without paths is refused.
pub proof fn law_pasted_paths_are_asked_after(a: AppView, paths: Seq<Seq<char>>)
    ensures
        a.offered(paths).queue == a.queue,
        a.offered(paths).transfers == a.transfers,
        paths.len() > 0 ==> a.offered(paths).outbox == a.outbox.push(
            EffectView::CheckPaths { paths },
        ),
        paths.len() == 0 ==> a.offered(paths).outbox == a.outbox && a.offered(
            paths,
        ).last_paste_error is Some,
{
}

/// Where none of the pasted paths exists, nothing is queued or sent, and the user is
/// told which they were.
pub proof fn law_missing_paths_are_reported(
    a: AppView,
    paths: Seq<Seq<char>>,
    exists: Seq<bool>,
    now: u64,
)
    requires
        paths.len() <= exists.len(),
        forall|i: int| 0 <= i < paths.len() ==> !#[trigger] exists[i],
    ensures
        a.paths_checked(paths, exists, now).queue == a.queue,
        a.paths_checked(paths, exists, now).outbox == a.outbox,
        a.paths_checked(paths, exists, now).last_paste_error is Some,
        text::contains(
            a.paths_checked(paths, exists, now).last_paste_error->Some_0,
            text::joined(paths, ", "@),
        ),
{
    lemma_all_missing(paths, exists);
    let none = Seq::<char>::empty();
    let l = text::joined(paths, ", "@);
    text::lemma_contains_within("no valid path: "@, l, none);
    assert("no valid path: "@ + l + none =~= "no valid path: "@ + l);
}

proof fn lemma_all_missing(paths: Seq<Seq<char>>, exists: Seq<bool>)
    requires
        paths.len() <= exists.len(),
        forall|i: int| 0 <= i < paths.len() ==> !#[trigger] exists[i],
    ensures
        sync::existing(paths, exists, true).len() == 0,
        sync::existing(paths, exists, false) == paths,
    decreases paths.len(),
{
    if paths.len() > 0 {
        lemma_all_missing(paths.drop_last(), exists);
        assert(!exists[paths.len() - 1]);
        assert(paths.drop_last().push(paths.last()) =~= paths);
    }
}

// ---------------------------------------------------------------------------
// Watches
// ---------------------------------------------------------------------------
/// What a watch found when it started waits with it, in any mode, each file once, until
/// the user asks for it; what has waited before is not lost, and nothing is started.
pub proof fn law_found_files_wait_for_the_user(
    a: AppView,
    i: int,
    found: Seq<Seq<char>>,
    now: u64,
    path: Seq<char>,
)
    requires
        0 <= i < a.watches.len(),
        forall|k: int| 0 <= k < i ==> (#[trigger] a.watches[k]).name != a.watches[i].name,
    ensures
        ({
            let b = a.watch_heard(
                WatchEventView::CatchupDetected { watch_name: a.watches[i].name, paths: found },
                now,
            );
            &&& b.outbox == a.outbox
            &&& b.transfers == a.transfers
            &&& b.watches.len() == a.watches.len()
            &&& b.watches[i].pending_catchup.contains(path)
                <==> a.watches[i].pending_catchup.contains(path) || found.contains(path)
            &&& each_once(a.watches[i].pending_catchup) ==> each_once(
                b.watches[i].pending_catchup,
            )
        }),
{
    lemma_watch_at(a.watches, i);
    law_missing_names_are_added(a.watches[i].pending_catchup, found, path);
}

proof fn lemma_watch_at(ws: Seq<types::WatchUiView>, i: int)
    requires
        0 <= i < ws.len(),
        forall|k: int| 0 <= k < i ==> (#[trigger] ws[k]).name != ws[i].name,
    ensures
        watching::watch_index(ws, ws[i].name) == i,
    decreases ws.len(),
{
    if i > 0 {
        assert(ws[0].name != ws[i].name);
        let rest = ws.drop_first();
        assert forall|k: int| 0 <= k < i - 1 implies (#[trigger] rest[k]).name != rest[i - 1].name by {
            assert(rest[k] == ws[k + 1]);
        }
        lemma_watch_at(rest, i - 1);
    }
}

/// In auto mode a new file of a watch goes to every target that the watch's
/// configuration names, itself or through a group, into the watch's own folder.
pub proof fn law_a_new_file_goes_where_its_watch_says(
    a: AppView,
    i: int,
    c: int,
    n: int,
    path: Seq<char>,
    size: u64,
    now: u64,
    t: TargetView,
)
    requires
        a.mode == SyncMode::Auto,
        0 <= i < a.watches.len(),
        0 <= c < a.cfg.watches.len(),
        a.watches[i].name == a.cfg.watches[c].name,
        forall|k: int| 0 <= k < i ==> (#[trigger] a.watches[k]).name != a.watches[i].name,
        forall|k: int|
            0 <= k < c ==> (#[trigger] a.cfg.watches[k]).name != a.cfg.watches[c].name,
        0 <= n < a.cfg.watches[c].targets.len(),
        if names_a_group(a.cfg.groups, a.cfg.watches[c].targets[n]) {
            is_member(a.cfg.groups, a.cfg.watches[c].targets[n], t.name)
        } else {
            a.cfg.watches[c].targets[n] == t.name
        },
        config::find_target(a.cfg.targets, t.name) == Some(t),
    ensures
        laws::under_way(
            a.watch_heard(
                WatchEventView::NewFile { watch_name: a.watches[i].name, path, size },
                now,
            ),
            path,
            t,
            Some(a.watches[i].name),
        ),
{
    let w = a.cfg.watches[c];
    lemma_watch_at(a.watches, i);
    law_a_watch_is_configured_by_its_name(a.cfg, c);
    law_a_watch_sends_to_what_it_names(a.cfg, w.targets, t.name);
    let asked = w.targets[n];
    assert(watching::spread(a.cfg, w.targets).contains(t.name));
    laws::law_watched_files_are_sent(a, w.name, path, size, now, t);
}

/// What a watch says of itself shows in its row: a lost lock with the reason, and its
/// end; and a watch that is switched on or off is told so.
pub proof fn law_watches_show_how_they_are(a: AppView, i: int, reason: Seq<char>, now: u64)
    requires
        0 <= i < a.watches.len(),
        forall|k: int| 0 <= k < i ==> (#[trigger] a.watches[k]).name != a.watches[i].name,
    ensures
        ({
            let name = a.watches[i].name;
            let lost = a.watch_heard(WatchEventView::LockLost { watch_name: name, reason }, now);
            let over = a.watch_heard(WatchEventView::Stopped { watch_name: name }, now);
            &&& lost.watches[i].status == types::WatchUiStatusView::Error(reason)
            &&& a.watches[i].status is Running ==> over.watches[i].status
                == types::WatchUiStatusView::Off
        }),
        a.watch_cursor == i ==> ({
            let w = a.watches[i];
            let b = a.watch_toggled();
            let on = w.status is Starting || w.status is Running;
            &&& on ==> b.watches[i].status == types::WatchUiStatusView::Off && b.outbox
                == a.outbox.push(EffectView::StopWatch { name: w.name })
            &&& !on ==> b.watches[i].status == types::WatchUiStatusView::Starting && b.outbox
                == a.outbox.push(EffectView::StartWatch { name: w.name })
        }),
{
    lemma_watch_at(a.watches, i);
}

/// When the program starts, exactly the enabled watches are started.
pub proof fn law_enabled_watches_are_started(a: AppView, n: nat, name: Seq<char>)
    requires
        n <= a.cfg.watches.len(),
        n <= a.watches.len(),
        forall|i: int|
            0 <= i < n ==> (#[trigger] a.watches[i]).name == a.cfg.watches[i].name,
    ensures
        a.watches_launched(n).outbox.contains(EffectView::StartWatch { name }) <==> (
        a.outbox.contains(EffectView::StartWatch { name }) || exists|i: int|
            0 <= i < n && (#[trigger] a.cfg.watches[i]).name == name && a.cfg.watches[i].enabled),
        a.watches_launched(n).watches.len() == a.watches.len(),
        forall|i: int|
            0 <= i < a.watches.len() ==> (#[trigger] a.watches_launched(n).watches[i]).name
                == a.watches[i].name,
    decreases n,
{
    if n > 0 {
        let m = (n - 1) as nat;
        law_enabled_watches_are_started(a, m, name);
        let b = a.watches_launched(m);
        let c = a.watches_launched(n);
        let e = EffectView::StartWatch { name };
        let w = a.cfg.watches[m as int];
        assert(a.watches[m as int].name == w.name);
        assert(b.watches[m as int].name == w.name);
        if w.enabled {
            let last = EffectView::StartWatch { name: w.name };
            assert(c.outbox == b.outbox.push(last));
            assert(c.outbox[b.outbox.len() as int] == last);
            if b.outbox.contains(e) {
                let k = choose|k: int| 0 <= k < b.outbox.len() && b.outbox[k] == e;
                assert(c.outbox[k] == e);
            }
            if c.outbox.contains(e) && w.name != name {
                let k = choose|k: int| 0 <= k < c.outbox.len() && c.outbox[k] == e;
                assert(b.outbox[k] == e);
            }
        }
    }
}

// ---------------------------------------------------------------------------
// How transfers are shown
// ---------------------------------------------------------------------------
/// What is heard of a transfer shows in its row and in no other: that it runs, how far
/// it is, that it has completed and where, or that it failed and why.
pub proof fn law_transfers_show_how_they_are(
    a: AppView,
    i: int,
    percent: u8,
    bytes: u64,
    rate: Seq<char>,
    dir: Seq<char>,
    error: Seq<char>,
    now: u64,
)
    requires
        0 <= i < a.transfers.len(),
        forall|k: int| 0 <= k < i ==> (#[trigger] a.transfers[k]).id != a.transfers[i].id,
    ensures
        ({
            let t = a.transfers[i];
            let id = t.id;
            let started = a.transfer_updated(
                TransferEventView::Started { id, target_name: t.target_name, local: t.local },
                now,
            );
            let moved = a.transfer_updated(
                TransferEventView::Progress { id, bytes, percent, rate },
                now,
            );
            let done = a.transfer_updated(
                TransferEventView::Completed { id, remote_abs_dir: dir },
                now,
            );
            let failed = a.transfer_updated(TransferEventView::Failed { id, error }, now);
            &&& started.transfers == a.transfers.update(
                i,
                TransferView { state: TransferState::Running, ..t },
            )
            &&& moved.transfers == a.transfers.update(i, TransferView { percent, rate, ..t })
            &&& done.transfers[i].state == TransferState::Completed
            &&& done.transfers[i].remote_abs_dir == dir
            &&& done.transfers[i].percent == 100
            &&& failed.transfers[i].state == TransferState::Failed
            &&& failed.transfers[i].last_error == Some(error)
            &&& failed.outbox == a.outbox
            &&& failed.toast is Some
            &&& text::contains(failed.toast->Some_0.0, error)
            &&& done.transfers.len() == a.transfers.len()
            &&& failed.transfers.len() == a.transfers.len()
            &&& forall|k: int|
                0 <= k < a.transfers.len() && k != i ==> (#[trigger] done.transfers[k])
                    == a.transfers[k] && failed.transfers[k] == a.transfers[k]
        }),
{
    sync::lemma_transfer_index(a.transfers, a.transfers[i].id);
    let k = sync::transfer_index(a.transfers, a.transfers[i].id);
    if k < i {
        assert(a.transfers[k].id != a.transfers[i].id);
    }
    let none = Seq::<char>::empty();
    text::lemma_contains_within("transfer failed: "@, error, none);
    assert("transfer failed: "@ + error + none =~= "transfer failed: "@ + error);
}

} // verus!
