//! What is read, forgotten and renamed after files have changed.

use vstd::prelude::*;

use crate::library_watch::{
    analyzed_ids, changed_ids, internal_path, other_paths, path_step, plan_of, removable, rename_of,
    renames_of, root_from, root_of, stale_paths, with_changes, with_paths, BufferModel, ChangeKind,
    ChangeModel, FactModel, PlanModel, RawModel, ReportModel,
};
use crate::path_laws::{ordered_paths_stand_in_order, ordering_paths_loses_none, paths_ascend};
use crate::paths::{
    among_paths, lies_within, ordered_numbers_are_sorted_and_complete, ordered_paths, path_parts,
    same_path,
};

verus! {

/// The root with this number is the first that a path lies in.
pub open spec fn held_by(path: Seq<char>, roots: Seq<(Seq<char>, bool)>, r: int) -> bool {
    &&& 0 <= r < roots.len()
    &&& lies_within(path, roots[r].0)
    &&& forall|k: int| 0 <= k < r ==> !lies_within(path, #[trigger] roots[k].0)
}

/// A part of the path is the name of the folder where the library keeps its own notes.
pub open spec fn has_note_folder(path: Seq<char>) -> bool {
    exists|i: int| 0 <= i < path_parts(path).len() && #[trigger] path_parts(path)[i] == ".kdj"@
}

/// The path is one of those that went on under a new name.
pub open spec fn went_on(path: Seq<char>, handled: Seq<Seq<char>>) -> bool {
    exists|h: int| 0 <= h < handled.len() && path_parts(#[trigger] handled[h]) == path_parts(path)
}

/// The path belongs to the library.
pub open spec fn concerns(path: Seq<char>, roots: Seq<(Seq<char>, bool)>) -> bool {
    &&& !has_note_folder(path)
    &&& exists|r: int| 0 <= r < roots.len() && lies_within(path, #[trigger] roots[r].0)
}

/// This path of this change was removed: it is gone, it is not a root itself, its root can be read,
/// and it did not go on under a new name.
pub open spec fn gone(
    changes: Seq<ChangeModel>,
    roots: Seq<(Seq<char>, bool)>,
    handled: Seq<Seq<char>>,
    k: int,
    p: int,
    r: int,
) -> bool {
    &&& 0 <= k < changes.len()
    &&& 0 <= p < changes[k].paths.len()
    &&& ({
        let kind = changes[k].kind;
        kind == ChangeKind::Remove || kind == ChangeKind::RenameBoth || kind
            == ChangeKind::RenamePart
    })
    &&& ({
        let f = changes[k].paths[p];
        &&& !f.exists
        &&& !f.is_folder
        &&& !(f.is_file && f.is_media)
        &&& !has_note_folder(f.path)
        &&& held_by(f.path, roots, r)
        &&& roots[r].1
        &&& path_parts(f.path) != path_parts(roots[r].0)
        &&& !went_on(f.path, handled)
    })
}

/// This path of this change is one to read: a folder, or a media file, of the library.
pub open spec fn to_read(
    changes: Seq<ChangeModel>,
    roots: Seq<(Seq<char>, bool)>,
    k: int,
    p: int,
) -> bool {
    &&& 0 <= k < changes.len()
    &&& 0 <= p < changes[k].paths.len()
    &&& ({
        let f = changes[k].paths[p];
        (f.is_folder || (f.is_file && f.is_media)) && concerns(f.path, roots)
    })
}

proof fn lemma_root_from(path: Seq<char>, roots: Seq<(Seq<char>, bool)>, from: nat)
    requires
        from <= roots.len(),
        forall|k: int| 0 <= k < from ==> !lies_within(path, #[trigger] roots[k].0),
    ensures
        match root_from(path, roots, from) {
            Some(r) => held_by(path, roots, r),
            None => forall|k: int| 0 <= k < roots.len() ==> !lies_within(path, #[trigger] roots[k].0),
        },
    decreases roots.len() - from,
{
    if from < roots.len() && !lies_within(path, roots[from as int].0) {
        lemma_root_from(path, roots, from + 1);
    }
}

proof fn lemma_held(path: Seq<char>, roots: Seq<(Seq<char>, bool)>)
    ensures
        root_of(path, roots) is Some <==> exists|r: int|
            0 <= r < roots.len() && lies_within(path, #[trigger] roots[r].0),
        forall|r: int| #[trigger]
            held_by(path, roots, r) ==> root_of(path, roots) == Some(roots[r]),
        root_of(path, roots) is Some ==> exists|r: int| #[trigger] held_by(path, roots, r),
        internal_path(path) <==> has_note_folder(path),
{
    lemma_root_from(path, roots, 0);
    assert forall|r: int| #[trigger] held_by(path, roots, r) implies root_of(path, roots) == Some(
        roots[r],
    ) by {
        let q = root_from(path, roots, 0);
        assert(lies_within(path, roots[r].0));
        assert(q is Some);
        assert(held_by(path, roots, q->0));
        if q->0 < r {
            assert(!lies_within(path, roots[q->0].0));
        } else if r < q->0 {
            assert(!lies_within(path, roots[r].0));
        }
    }
}

proof fn lemma_step_keeps(
    plan: PlanModel,
    kind: ChangeKind,
    facts: Seq<FactModel>,
    roots: Seq<(Seq<char>, bool)>,
    handled: Seq<Seq<char>>,
)
    ensures
        plan.forget.is_prefix_of(with_paths(plan, kind, facts, roots, handled).forget),
        plan.scan_paths.is_prefix_of(with_paths(plan, kind, facts, roots, handled).scan_paths),
        plan.folder_changed ==> with_paths(plan, kind, facts, roots, handled).folder_changed,
    decreases facts.len(),
{
    if facts.len() > 0 {
        lemma_step_keeps(plan, kind, facts.drop_last(), roots, handled);
    }
}

proof fn lemma_path_counts(
    plan: PlanModel,
    kind: ChangeKind,
    facts: Seq<FactModel>,
    roots: Seq<(Seq<char>, bool)>,
    handled: Seq<Seq<char>>,
    p: int,
)
    requires
        0 <= p < facts.len(),
    ensures
        ({
            let one = PlanModel {
                folder_changed: false,
                scan_paths: Seq::empty(),
                forget: Seq::empty(),
            }.with(facts[p].path, path_step(kind, facts[p], roots, handled));
            let all = with_paths(plan, kind, facts, roots, handled);
            &&& forall|x: (Seq<char>, bool)| one.forget.contains(x) ==> #[trigger] all.forget.contains(x)
            &&& forall|x: Seq<char>|
                one.scan_paths.contains(x) ==> #[trigger] all.scan_paths.contains(x)
            &&& one.folder_changed ==> all.folder_changed
        }),
    decreases facts.len(),
{
    let front = facts.drop_last();
    let before = with_paths(plan, kind, front, roots, handled);
    let all = with_paths(plan, kind, facts, roots, handled);
    let step = path_step(kind, facts[p], roots, handled);
    let none = PlanModel { folder_changed: false, scan_paths: Seq::empty(), forget: Seq::empty() };
    let one = none.with(facts[p].path, step);
    if p < front.len() {
        assert(front[p] == facts[p]);
        lemma_path_counts(plan, kind, front, roots, handled, p);
        assert forall|x: (Seq<char>, bool)| one.forget.contains(x) implies #[trigger] all.forget.contains(
            x,
        ) by {
            assert(before.forget.contains(x));
            let i = choose|i: int| 0 <= i < before.forget.len() && before.forget[i] == x;
            assert(all.forget[i] == x);
        }
        assert forall|x: Seq<char>| one.scan_paths.contains(x) implies #[trigger] all.scan_paths.contains(
            x,
        ) by {
            assert(before.scan_paths.contains(x));
            let i = choose|i: int| 0 <= i < before.scan_paths.len() && before.scan_paths[i] == x;
            assert(all.scan_paths[i] == x);
        }
    } else {
        assert(all == before.with(facts[p].path, step));
        assert forall|x: (Seq<char>, bool)| one.forget.contains(x) implies #[trigger] all.forget.contains(
            x,
        ) by {
            assert(all.forget[all.forget.len() - 1] == x);
        }
        assert forall|x: Seq<char>| one.scan_paths.contains(x) implies #[trigger] all.scan_paths.contains(
            x,
        ) by {
            assert(all.scan_paths[all.scan_paths.len() - 1] == x);
        }
    }
}

proof fn lemma_change_counts(
    changes: Seq<ChangeModel>,
    roots: Seq<(Seq<char>, bool)>,
    handled: Seq<Seq<char>>,
    k: int,
    p: int,
)
    requires
        0 <= k < changes.len(),
        0 <= p < changes[k].paths.len(),
    ensures
        ({
            let f = changes[k].paths[p];
            let one = PlanModel {
                folder_changed: false,
                scan_paths: Seq::empty(),
                forget: Seq::empty(),
            }.with(f.path, path_step(changes[k].kind, f, roots, handled));
            let all = with_changes(changes, roots, handled);
            &&& forall|x: (Seq<char>, bool)| one.forget.contains(x) ==> #[trigger] all.forget.contains(x)
            &&& forall|x: Seq<char>|
                one.scan_paths.contains(x) ==> #[trigger] all.scan_paths.contains(x)
            &&& one.folder_changed ==> all.folder_changed
        }),
    decreases changes.len(),
{
    let front = changes.drop_last();
    let last = changes.last();
    let before = with_changes(front, roots, handled);
    let all = with_changes(changes, roots, handled);
    if k < front.len() {
        assert(front[k] == changes[k]);
        lemma_change_counts(front, roots, handled, k, p);
        lemma_step_keeps(before, last.kind, last.paths, roots, handled);
        assert forall|x: (Seq<char>, bool)| before.forget.contains(x) implies #[trigger] all.forget.contains(
            x,
        ) by {
            let i = choose|i: int| 0 <= i < before.forget.len() && before.forget[i] == x;
            assert(all.forget[i] == x);
        }
        assert forall|x: Seq<char>| before.scan_paths.contains(x) implies #[trigger] all.scan_paths.contains(
            x,
        ) by {
            let i = choose|i: int| 0 <= i < before.scan_paths.len() && before.scan_paths[i] == x;
            assert(all.scan_paths[i] == x);
        }
    } else {
        lemma_path_counts(before, last.kind, last.paths, roots, handled, p);
    }
}

/// Every path of a remove or rename change that is gone, lies below a root that can be read, is not
/// that root, is none of the library's own notes and did not go on under a new name is forgotten:
/// as a track where its name is that of a media file, with everything below it otherwise.
pub proof fn what_is_gone_is_forgotten(
    changes: Seq<ChangeModel>,
    roots: Seq<(Seq<char>, bool)>,
    handled: Seq<Seq<char>>,
    k: int,
    p: int,
    r: int,
)
    requires
        gone(changes, roots, handled, k, p, r),
    ensures
        plan_of(changes, roots, handled).forget.contains(
            (changes[k].paths[p].path, !changes[k].paths[p].is_media),
        ),
        plan_of(changes, roots, handled).folder_changed,
{
    let f = changes[k].paths[p];
    lemma_held(f.path, roots);
    lemma_change_counts(changes, roots, handled, k, p);
    let none = PlanModel { folder_changed: false, scan_paths: Seq::empty(), forget: Seq::empty() };
    let one = none.with(f.path, path_step(changes[k].kind, f, roots, handled));
    assert(!among_paths(handled, f.path)) by {
        if among_paths(handled, f.path) {
            let h = choose|h: int| 0 <= h < handled.len() && same_path(#[trigger] handled[h], f.path);
            assert(path_parts(handled[h]) == path_parts(f.path));
        }
    }
    assert(removable(f.path, roots));
    assert(one.forget =~= seq![(f.path, !f.is_media)]);
    assert(one.forget[0] == (f.path, !f.is_media));
    assert(one.forget.contains((f.path, !f.is_media)));
}

/// Every folder and every media file of the library that changed is read again.
pub proof fn what_changed_is_read(
    changes: Seq<ChangeModel>,
    roots: Seq<(Seq<char>, bool)>,
    handled: Seq<Seq<char>>,
    k: int,
    p: int,
)
    requires
        to_read(changes, roots, k, p),
    ensures
        exists|i: int|
            0 <= i < plan_of(changes, roots, handled).scan_paths.len() && path_parts(
                #[trigger] plan_of(changes, roots, handled).scan_paths[i],
            ) == path_parts(changes[k].paths[p].path),
{
    let f = changes[k].paths[p];
    let plan = with_changes(changes, roots, handled);
    lemma_held(f.path, roots);
    lemma_change_counts(changes, roots, handled, k, p);
    let none = PlanModel { folder_changed: false, scan_paths: Seq::empty(), forget: Seq::empty() };
    let one = none.with(f.path, path_step(changes[k].kind, f, roots, handled));
    assert(one.scan_paths =~= seq![f.path]);
    assert(one.scan_paths[0] == f.path);
    assert(one.scan_paths.contains(f.path));
    assert(plan.scan_paths.contains(f.path));
    let m = choose|m: int| 0 <= m < plan.scan_paths.len() && plan.scan_paths[m] == f.path;
    ordering_paths_loses_none(plan.scan_paths, m);
    let scans = ordered_paths(plan.scan_paths);
    let i = choose|i: int|
        0 <= i < scans.len() && path_parts(#[trigger] scans[i]) == path_parts(plan.scan_paths[m]);
    assert(path_parts(plan_of(changes, roots, handled).scan_paths[i]) == path_parts(f.path));
}

proof fn lemma_paths_come_from(
    plan: PlanModel,
    kind: ChangeKind,
    facts: Seq<FactModel>,
    roots: Seq<(Seq<char>, bool)>,
    handled: Seq<Seq<char>>,
    i: int,
) -> (p: int)
    requires
        plan.forget.len() <= i < with_paths(plan, kind, facts, roots, handled).forget.len(),
    ensures
        0 <= p < facts.len(),
        with_paths(plan, kind, facts, roots, handled).forget[i] == (
            facts[p].path,
            !facts[p].is_media,
        ),
        path_step(kind, facts[p], roots, handled) is ForgetFile || path_step(
            kind,
            facts[p],
            roots,
            handled,
        ) is ForgetFolder,
    decreases facts.len(),
{
    let front = facts.drop_last();
    let before = with_paths(plan, kind, front, roots, handled);
    if i < before.forget.len() {
        let p = lemma_paths_come_from(plan, kind, front, roots, handled, i);
        assert(front[p] == facts[p]);
        p
    } else {
        facts.len() - 1
    }
}

proof fn lemma_scans_come_from(
    plan: PlanModel,
    kind: ChangeKind,
    facts: Seq<FactModel>,
    roots: Seq<(Seq<char>, bool)>,
    handled: Seq<Seq<char>>,
    i: int,
) -> (p: int)
    requires
        plan.scan_paths.len() <= i < with_paths(plan, kind, facts, roots, handled).scan_paths.len(),
    ensures
        0 <= p < facts.len(),
        with_paths(plan, kind, facts, roots, handled).scan_paths[i] == facts[p].path,
        path_step(kind, facts[p], roots, handled) is Scan,
    decreases facts.len(),
{
    let front = facts.drop_last();
    let before = with_paths(plan, kind, front, roots, handled);
    if i < before.scan_paths.len() {
        let p = lemma_scans_come_from(plan, kind, front, roots, handled, i);
        assert(front[p] == facts[p]);
        p
    } else {
        facts.len() - 1
    }
}

/// Only what is gone is forgotten.
pub proof fn only_what_is_gone_is_forgotten(
    changes: Seq<ChangeModel>,
    roots: Seq<(Seq<char>, bool)>,
    handled: Seq<Seq<char>>,
    i: int,
)
    requires
        0 <= i < plan_of(changes, roots, handled).forget.len(),
    ensures
        exists|k: int, p: int, r: int| #[trigger]
            gone(changes, roots, handled, k, p, r) && plan_of(changes, roots, handled).forget[i] == (
                changes[k].paths[p].path,
                !changes[k].paths[p].is_media,
            ),
    decreases changes.len(),
{
    let front = changes.drop_last();
    let last = changes.last();
    let before = with_changes(front, roots, handled);
    let forget = plan_of(changes, roots, handled).forget;
    lemma_step_keeps(before, last.kind, last.paths, roots, handled);
    if i < before.forget.len() {
        only_what_is_gone_is_forgotten(front, roots, handled, i);
        let (k, p, r) = choose|k: int, p: int, r: int| #[trigger]
            gone(front, roots, handled, k, p, r) && plan_of(front, roots, handled).forget[i] == (
                front[k].paths[p].path,
                !front[k].paths[p].is_media,
            );
        assert(front[k] == changes[k]);
        assert(gone(changes, roots, handled, k, p, r));
        assert(forget[i] == before.forget[i]);
    } else {
        let p = lemma_paths_come_from(before, last.kind, last.paths, roots, handled, i);
        let f = last.paths[p];
        let k = changes.len() - 1;
        lemma_held(f.path, roots);
        let r = choose|r: int| #[trigger] held_by(f.path, roots, r);
        assert(root_of(f.path, roots) == Some(roots[r]));
        if went_on(f.path, handled) {
            let h = choose|h: int|
                0 <= h < handled.len() && path_parts(#[trigger] handled[h]) == path_parts(f.path);
            assert(same_path(handled[h], f.path));
        }
        assert(gone(changes, roots, handled, k, p, r));
    }
}

proof fn lemma_scan_source(
    changes: Seq<ChangeModel>,
    roots: Seq<(Seq<char>, bool)>,
    handled: Seq<Seq<char>>,
    i: int,
) -> (r: (int, int))
    requires
        0 <= i < with_changes(changes, roots, handled).scan_paths.len(),
    ensures
        to_read(changes, roots, r.0, r.1),
        with_changes(changes, roots, handled).scan_paths[i] == changes[r.0].paths[r.1].path,
    decreases changes.len(),
{
    let front = changes.drop_last();
    let last = changes.last();
    let before = with_changes(front, roots, handled);
    lemma_step_keeps(before, last.kind, last.paths, roots, handled);
    if i < before.scan_paths.len() {
        let r = lemma_scan_source(front, roots, handled, i);
        assert(front[r.0] == changes[r.0]);
        r
    } else {
        let p = lemma_scans_come_from(before, last.kind, last.paths, roots, handled, i);
        lemma_held(last.paths[p].path, roots);
        (changes.len() - 1, p)
    }
}

/// Only folders and media files of the library are read, each once and in order.
pub proof fn only_what_changed_is_read(
    changes: Seq<ChangeModel>,
    roots: Seq<(Seq<char>, bool)>,
    handled: Seq<Seq<char>>,
)
    ensures
        paths_ascend(plan_of(changes, roots, handled).scan_paths),
        forall|i: int|
            #![trigger plan_of(changes, roots, handled).scan_paths[i]]
            0 <= i < plan_of(changes, roots, handled).scan_paths.len() ==> exists|k: int, p: int|
                #[trigger]
                to_read(changes, roots, k, p) && changes[k].paths[p].path == plan_of(
                    changes,
                    roots,
                    handled,
                ).scan_paths[i],
{
    let plan = with_changes(changes, roots, handled);
    let scans = plan_of(changes, roots, handled).scan_paths;
    if scans.len() > 0 {
        ordered_paths_stand_in_order(plan.scan_paths, 0);
    }
    assert forall|i: int| #![trigger scans[i]] 0 <= i < scans.len() implies exists|k: int, p: int|
        #[trigger]
        to_read(changes, roots, k, p) && changes[k].paths[p].path == scans[i] by {
        ordered_paths_stand_in_order(plan.scan_paths, i);
        let m = choose|m: int| 0 <= m < plan.scan_paths.len() && plan.scan_paths[m] == scans[i];
        let r = lemma_scan_source(changes, roots, handled, m);
        assert(to_read(changes, roots, r.0, r.1));
    }
}

proof fn lemma_changed_source(
    plan: PlanModel,
    kind: ChangeKind,
    facts: Seq<FactModel>,
    roots: Seq<(Seq<char>, bool)>,
    handled: Seq<Seq<char>>,
) -> (p: int)
    requires
        !plan.folder_changed,
        with_paths(plan, kind, facts, roots, handled).folder_changed,
    ensures
        0 <= p < facts.len(),
        concerns(facts[p].path, roots),
    decreases facts.len(),
{
    if facts.len() == 0 {
        0
    } else {
        let front = facts.drop_last();
        if with_paths(plan, kind, front, roots, handled).folder_changed {
            let p = lemma_changed_source(plan, kind, front, roots, handled);
            assert(front[p] == facts[p]);
            p
        } else {
            lemma_held(facts.last().path, roots);
            facts.len() - 1
        }
    }
}

/// The folders changed exactly where some path of some change belongs to the library.
pub proof fn folders_changed_where_the_library_is_concerned(
    changes: Seq<ChangeModel>,
    roots: Seq<(Seq<char>, bool)>,
    handled: Seq<Seq<char>>,
)
    ensures
        plan_of(changes, roots, handled).folder_changed <==> exists|k: int, p: int|
            #![trigger changes[k].paths[p]]
            0 <= k < changes.len() && 0 <= p < changes[k].paths.len() && concerns(
                changes[k].paths[p].path,
                roots,
            ),
    decreases changes.len(),
{
    if exists|k: int, p: int|
        #![trigger changes[k].paths[p]]
        0 <= k < changes.len() && 0 <= p < changes[k].paths.len() && concerns(
            changes[k].paths[p].path,
            roots,
        ) {
        let (k, p) = choose|k: int, p: int|
            #![trigger changes[k].paths[p]]
            0 <= k < changes.len() && 0 <= p < changes[k].paths.len() && concerns(
                changes[k].paths[p].path,
                roots,
            );
        lemma_held(changes[k].paths[p].path, roots);
        lemma_change_counts(changes, roots, handled, k, p);
    }
    if changes.len() > 0 && plan_of(changes, roots, handled).folder_changed {
        let front = changes.drop_last();
        let last = changes.last();
        folders_changed_where_the_library_is_concerned(front, roots, handled);
        let before = with_changes(front, roots, handled);
        if before.folder_changed {
            let (k, p) = choose|k: int, p: int|
                #![trigger front[k].paths[p]]
                0 <= k < front.len() && 0 <= p < front[k].paths.len() && concerns(
                    front[k].paths[p].path,
                    roots,
                );
            assert(concerns(changes[k].paths[p].path, roots));
        } else {
            let p = lemma_changed_source(before, last.kind, last.paths, roots, handled);
            assert(concerns(changes[changes.len() - 1].paths[p].path, roots));
        }
    }
}

/// A change tells that tracks go on under a new name exactly where both names are known, neither is
/// that of a note of the library, the new one exists and lies in the library, and it is either a
/// media file or a folder that was really moved away from its old place.
pub proof fn a_new_name_is_followed(change: ChangeModel, roots: Seq<(Seq<char>, bool)>)
    ensures
        rename_of(change, roots) is Some <==> {
            &&& change.kind == ChangeKind::RenameBoth
            &&& change.paths.len() >= 2
            &&& !has_note_folder(change.paths[0].path)
            &&& concerns(change.paths[1].path, roots)
            &&& change.paths[1].exists
            &&& change.paths[1].is_media || (change.paths[1].is_folder && exists|r: int| #[trigger]
                held_by(change.paths[0].path, roots, r) && roots[r].1 && path_parts(
                    change.paths[0].path,
                ) != path_parts(roots[r].0))
        },
        rename_of(change, roots) is Some ==> {
            let t = rename_of(change, roots)->0;
            t.old_path == change.paths[0].path && t.new_path == change.paths[1].path && t.folder
                == !change.paths[1].is_media
        },
{
    if change.paths.len() >= 2 {
        lemma_held(change.paths[0].path, roots);
        lemma_held(change.paths[1].path, roots);
    }
}

/// The new names are those of the changes, in their order: every change that has one is among
/// them, and each of them comes from a change.
pub proof fn every_new_name_is_followed(changes: Seq<ChangeModel>, roots: Seq<(Seq<char>, bool)>)
    ensures
        forall|k: int|
            #![trigger changes[k]]
            0 <= k < changes.len() && rename_of(changes[k], roots) is Some ==> renames_of(
                changes,
                roots,
            ).contains(rename_of(changes[k], roots)->0),
        forall|i: int|
            #![trigger renames_of(changes, roots)[i]]
            0 <= i < renames_of(changes, roots).len() ==> exists|k: int|
                0 <= k < changes.len() && rename_of(#[trigger] changes[k], roots) == Some(
                    renames_of(changes, roots)[i],
                ),
        renames_of(changes, roots).len() <= changes.len(),
    decreases changes.len(),
{
    if changes.len() > 0 {
        let front = changes.drop_last();
        let before = renames_of(front, roots);
        let all = renames_of(changes, roots);
        every_new_name_is_followed(front, roots);
        assert forall|k: int|
            #![trigger changes[k]]
            0 <= k < changes.len() && rename_of(changes[k], roots) is Some implies all.contains(
            rename_of(changes[k], roots)->0,
        ) by {
            if k < front.len() {
                assert(front[k] == changes[k]);
                let t = rename_of(changes[k], roots)->0;
                let i = choose|i: int| 0 <= i < before.len() && before[i] == t;
                assert(all[i] == t);
            } else {
                assert(all[all.len() - 1] == rename_of(changes[k], roots)->0);
            }
        }
        assert forall|i: int| #![trigger all[i]] 0 <= i < all.len() implies exists|k: int|
            0 <= k < changes.len() && rename_of(#[trigger] changes[k], roots) == Some(all[i]) by {
            if i < before.len() {
                assert(all[i] == before[i]);
                let k = choose|k: int|
                    0 <= k < front.len() && rename_of(#[trigger] front[k], roots) == Some(before[i]);
                assert(front[k] == changes[k]);
            } else {
                assert(rename_of(changes[changes.len() - 1], roots) == Some(all[i]));
            }
        }
    }
}

/// A folder that is not watched any more leaves the list, and no other does.
pub proof fn forgetting_takes_one_folder(list: Seq<Seq<char>>, path: Seq<char>)
    ensures
        forall|x: Seq<char>| #[trigger]
            other_paths(list, path).contains(x) <==> list.contains(x) && path_parts(x)
                != path_parts(path),
    decreases list.len(),
{
    if list.len() > 0 {
        let front = list.drop_last();
        forgetting_takes_one_folder(front, path);
        assert forall|x: Seq<char>| #[trigger]
            other_paths(list, path).contains(x) <==> list.contains(x) && path_parts(x) != path_parts(
            path,
        ) by {
            lemma_push_contains(front, list.last(), x);
            assert(front.push(list.last()) =~= list);
            lemma_push_contains(other_paths(front, path), list.last(), x);
        }
    }
}

proof fn lemma_push_contains(list: Seq<Seq<char>>, last: Seq<char>, x: Seq<char>)
    ensures
        list.push(last).contains(x) <==> list.contains(x) || x == last,
{
    if list.contains(x) {
        let i = choose|i: int| 0 <= i < list.len() && list[i] == x;
        assert(list.push(last)[i] == x);
    }
    if x == last {
        assert(list.push(last)[list.len() as int] == x);
    }
    if list.push(last).contains(x) && x != last {
        let i = choose|i: int| 0 <= i < list.push(last).len() && list.push(last)[i] == x;
        assert(list[i] == x);
    }
}

/// The watched folders that are no roots any more are all of those, and no others.
pub proof fn stale_folders_are_no_roots(watched: Seq<Seq<char>>, current: Seq<Seq<char>>)
    ensures
        forall|x: Seq<char>| #[trigger]
            stale_paths(watched, current).contains(x) <==> watched.contains(x) && forall|i: int|
                0 <= i < current.len() ==> path_parts(#[trigger] current[i]) != path_parts(x),
    decreases watched.len(),
{
    if watched.len() > 0 {
        let front = watched.drop_last();
        let last = watched.last();
        stale_folders_are_no_roots(front, current);
        assert forall|x: Seq<char>| #[trigger]
            stale_paths(watched, current).contains(x) <==> watched.contains(x) && forall|i: int|
                0 <= i < current.len() ==> path_parts(#[trigger] current[i]) != path_parts(x) by {
            lemma_push_contains(front, last, x);
            assert(front.push(last) =~= watched);
            lemma_push_contains(stale_paths(front, current), last, x);
            assert(among_paths(current, last) <==> exists|i: int|
                0 <= i < current.len() && path_parts(#[trigger] current[i]) == path_parts(last)) by {
                if among_paths(current, last) {
                    let i = choose|i: int|
                        0 <= i < current.len() && same_path(#[trigger] current[i], last);
                    assert(path_parts(current[i]) == path_parts(last));
                }
                if exists|i: int|
                    0 <= i < current.len() && path_parts(#[trigger] current[i]) == path_parts(last) {
                    let i = choose|i: int|
                        0 <= i < current.len() && path_parts(#[trigger] current[i]) == path_parts(
                            last,
                        );
                    assert(same_path(current[i], last));
                }
            }
        }
    }
}

/// A change that only reads a file leaves the buffer as it was. Any other is kept behind the
/// earlier ones and starts the waiting anew: the buffer settles once nine tenths of a second have
/// gone by without a further change, and not before.
pub proof fn changes_settle_after_a_pause(b: BufferModel, change: RawModel, now: u64, later: u64)
    requires
        now <= later,
    ensures
        change.kind == ChangeKind::Access ==> b.after_change(change, now) == b,
        change.kind != ChangeKind::Access ==> {
            let a = b.after_change(change, now);
            &&& a.pending.len() == b.pending.len() + 1
            &&& a.pending.last() == change
            &&& forall|i: int| 0 <= i < b.pending.len() ==> #[trigger] a.pending[i] == b.pending[i]
            &&& a.settled(later) <==> later - now >= 900_000
        },
        b.pending.len() == 0 ==> !b.settled(later),
{
}

/// Every track that changed or went is told of, once and in order; new tracks are analyzed where that
/// is switched on, and no others.
pub proof fn every_change_is_told(report: ReportModel, id: i64)
    ensures
        changed_ids(report).contains(id) <==> report.updated_ids.contains(id)
            || report.removed_ids.contains(id),
        analyzed_ids(report, true).contains(id) <==> report.analysis_ids.contains(id),
        analyzed_ids(report, false).len() == 0,
        forall|i: int, j: int|
            0 <= i < j < changed_ids(report).len() ==> changed_ids(report)[i] < changed_ids(
                report,
            )[j],
{
    let a = report.updated_ids;
    let b = report.removed_ids;
    ordered_numbers_are_sorted_and_complete(a + b);
    ordered_numbers_are_sorted_and_complete(report.analysis_ids);
    if a.contains(id) {
        let i = choose|i: int| 0 <= i < a.len() && a[i] == id;
        assert((a + b)[i] == id);
    }
    if b.contains(id) {
        let i = choose|i: int| 0 <= i < b.len() && b[i] == id;
        assert((a + b)[a.len() + i] == id);
    }
    if (a + b).contains(id) {
        let i = choose|i: int| 0 <= i < (a + b).len() && (a + b)[i] == id;
        if i < a.len() {
            assert(a[i] == id);
        } else {
            assert(b[i - a.len()] == id);
        }
    }
}

} // verus!
