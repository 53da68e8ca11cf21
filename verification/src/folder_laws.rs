//! What moving, copying, deleting, taking back and merging leave behind.

use vstd::prelude::*;

use crate::error::ErrorModel;
use crate::folder_merge::{
    first_refusal, independent, merge_refusal, names_clash, nested_in, sources_of, MergeModel,
    MergeWant,
};
use crate::folder_ops::{
    disposal_of, DeleteEvent, DeleteModel, FileDisposal, FileOp, FileStep, FolderRunModel,
    KnownModel, TransferEvent,
};
use crate::folder_undo::{
    pushed, status_of, undo_of, BatchModel, FactsModel, FolderUndoOp, UndoEvent, UndoItemModel,
    UndoModel, UndoStepModel,
};
use crate::library_roots::{dest_of, merged_roots, named_paths, redirected, scanned, solid_names};
use crate::path_laws::{
    lying_within_is_an_order, ordered_paths_stand_in_order, ordering_paths_loses_none,
};
use crate::paths::{
    among_paths, inside_any, lies_directly_in, lies_within, note_rank, ordered_ids, ordered_paths,
    parent_of, path_parts, same_path, with_note,
};
use crate::text::{all_space, file_name_of, signed_decimal};
use crate::text_laws::trimming_takes_the_white_space_around;

verus! {

/// A path lies directly in a folder where it has one part more than the folder and begins with the
/// folder's parts.
pub proof fn a_file_lies_directly_in_its_folder(path: Seq<char>, folder: Seq<char>)
    ensures
        lies_directly_in(path, folder) <==> {
            &&& path_parts(path).len() == path_parts(folder).len() + 1
            &&& path_parts(path).last() != "/"@
            &&& forall|i: int|
                #![trigger path_parts(folder)[i]]
                0 <= i < path_parts(folder).len() ==> path_parts(path)[i] == path_parts(folder)[i]
        },
{
    let a = path_parts(path);
    let b = path_parts(folder);
    if a.len() == b.len() + 1 && (forall|i: int| #![trigger b[i]] 0 <= i < b.len() ==> a[i] == b[i]) {
        assert(a.drop_last() =~= b);
    }
}

proof fn lemma_note_rank(notes: Seq<(Seq<char>, Seq<char>)>, key: Seq<char>)
    ensures
        0 <= note_rank(notes, key) <= notes.len(),
    decreases notes.len(),
{
    if notes.len() > 0 {
        lemma_note_rank(notes.drop_last(), key);
    }
}

/// A note that is taken down is there under its name, and every note of another name stays.
pub proof fn a_note_is_kept_under_its_name(
    notes: Seq<(Seq<char>, Seq<char>)>,
    key: Seq<char>,
    value: Seq<char>,
)
    ensures
        with_note(notes, key, value).contains((key, value)),
        forall|i: int|
            #![trigger notes[i]]
            0 <= i < notes.len() && notes[i].0 != key ==> with_note(notes, key, value).contains(
                notes[i],
            ),
        forall|n: (Seq<char>, Seq<char>)| #[trigger]
            with_note(notes, key, value).contains(n) ==> n == (key, value) || notes.contains(n),
{
    lemma_note_rank(notes, key);
    let at = note_rank(notes, key);
    let all = with_note(notes, key, value);
    let there = at < notes.len() && notes[at].0 == key;
    assert(all[at] == (key, value));
    assert forall|i: int|
        #![trigger notes[i]]
        0 <= i < notes.len() && notes[i].0 != key implies all.contains(notes[i]) by {
        let m = if there || i < at {
            i
        } else {
            i + 1
        };
        assert(all[m] == notes[i]);
    }
    assert forall|n: (Seq<char>, Seq<char>)| #[trigger] all.contains(n) implies n == (key, value)
        || notes.contains(n) by {
        let i = choose|i: int| 0 <= i < all.len() && all[i] == n;
        if i != at {
            let m = if there || i < at {
                i
            } else {
                i - 1
            };
            assert(notes[m] == n);
        }
    }
}

/// The file of a track is moved or copied exactly where the track is known, its file is there, and
/// the file does not lie in the folder already. Every track that is passed over is done with; one
/// that is unknown, or whose file is gone, is noted under its number.
pub proof fn a_file_is_transferred_where_it_is_needed(run: FolderRunModel, track: Option<KnownModel>)
    requires
        run.next < run.ids.len(),
    ensures
        ({
            let (after, step) = run.after_look(track);
            let id = signed_decimal(run.ids[run.next as int] as int);
            let wanted = track is Some && track->0.is_file;
            &&& step == FileStep::Transfer <==> wanted && !lies_directly_in(track->0.path, run.dest)
            &&& step == FileStep::Transfer ==> after == run
            &&& step != FileStep::Transfer ==> after.next == run.next + 1 && after.track_ids
                == run.track_ids && after.undo_items == run.undo_items && after.done == run.done
            &&& !wanted ==> exists|n: (Seq<char>, Seq<char>)| #[trigger]
                after.errors.contains(n) && n.0 == id
            &&& wanted ==> after.errors == run.errors
        }),
{
    let id = signed_decimal(run.ids[run.next as int] as int);
    a_note_is_kept_under_its_name(run.errors, id, "曲目不存在"@);
    a_note_is_kept_under_its_name(run.errors, id, "文件已丢失"@);
    if track is None {
        assert(run.after_look(track).0.errors.contains((id, "曲目不存在"@)));
    } else if !track->0.is_file {
        assert(run.after_look(track).0.errors.contains((id, "文件已丢失"@)));
    }
}

/// A transfer that was made is told and can be taken back: the reply names the track that was moved
/// or the one that the copy made, and the item says what was done, from where and to where. One
/// that failed is noted under its number.
pub proof fn a_transfer_is_told_and_kept(run: FolderRunModel, track: KnownModel, event: TransferEvent)
    requires
        run.next < run.ids.len(),
    ensures
        ({
            let after = run.after_transfer(track, event);
            let id = run.ids[run.next as int];
            &&& after.next == run.next + 1 && after.ids == run.ids && after.op == run.op
            &&& match event {
                TransferEvent::Done { target, new_id } => {
                    let item = after.undo_items.last();
                    &&& after.done == run.done + 1
                    &&& after.undo_items.len() == run.undo_items.len() + 1
                    &&& after.undo_items.drop_last() == run.undo_items
                    &&& after.errors == run.errors
                    &&& item.track_id == id && item.source == track.path && item.target == target
                    &&& item.source_platform == track.source_platform && item.source_key
                        == track.source_key && item.deleted is None
                    &&& run.op == FileOp::Move ==> item.op == FolderUndoOp::Move
                        && item.created_track_id is None && after.track_ids == run.track_ids.push(id)
                    &&& run.op == FileOp::Copy ==> item.op == FolderUndoOp::Copy
                        && item.created_track_id == new_id
                    &&& run.op == FileOp::Copy && new_id is Some ==> after.track_ids
                        == run.track_ids.push(new_id->0)
                },
                TransferEvent::Failed(reason) => {
                    &&& after.errors.contains((signed_decimal(id as int), reason))
                    &&& after.track_ids == run.track_ids && after.done == run.done
                    &&& after.undo_items == run.undo_items
                },
            }
        }),
{
    let id = run.ids[run.next as int];
    if let TransferEvent::Failed(reason) = event {
        a_note_is_kept_under_its_name(run.errors, signed_decimal(id as int), reason);
    } else {
        assert(run.after_transfer(track, event).undo_items.drop_last() =~= run.undo_items);
    }
}

/// A track that was deleted is told as removed, and so is one that was not there; what was kept of
/// it can be restored. A deletion that failed is noted under the number of its track.
pub proof fn a_deletion_is_told_and_kept(run: DeleteModel, event: DeleteEvent)
    requires
        run.next < run.ids.len(),
    ensures
        ({
            let after = run.after(event);
            let id = run.ids[run.next as int];
            &&& after.next == run.next + 1 && after.ids == run.ids
            &&& match event {
                DeleteEvent::Deleted(d) => {
                    &&& after.removed == run.removed.push(id) && after.changed
                    &&& after.errors == run.errors
                    &&& d is None ==> after.undo_items == run.undo_items
                    &&& d matches Some(d) ==> {
                        let item = after.undo_items.last();
                        &&& after.undo_items.len() == run.undo_items.len() + 1
                        &&& after.undo_items.drop_last() == run.undo_items
                        &&& item.op == FolderUndoOp::Delete && item.track_id == d.id
                        &&& item.source == d.path && item.deleted == Some(d.snapshot)
                        &&& item.source_platform == d.source_platform && item.source_key
                            == d.source_key && item.created_track_id is None
                    }
                },
                DeleteEvent::Unknown => {
                    &&& after.removed == run.removed.push(id) && after.changed == run.changed
                    &&& after.errors == run.errors && after.undo_items == run.undo_items
                },
                DeleteEvent::Failed(reason) => {
                    &&& after.errors.contains((signed_decimal(id as int), reason))
                    &&& after.removed == run.removed && after.undo_items == run.undo_items
                    &&& after.changed == run.changed
                },
            }
        }),
{
    let id = run.ids[run.next as int];
    match event {
        DeleteEvent::Failed(reason) => {
            a_note_is_kept_under_its_name(run.errors, signed_decimal(id as int), reason);
        },
        DeleteEvent::Deleted(d) => {
            if d is None {
                assert(run.after(event).undo_items =~= run.undo_items);
            } else {
                assert(run.after(event).undo_items.drop_last() =~= run.undo_items);
            }
        },
        DeleteEvent::Unknown => {},
    }
}

/// What was done last can be taken back next. A full stack of fifty batches loses its oldest one
/// and keeps the others in order.
pub proof fn the_last_batch_is_taken_back_first(stack: Seq<BatchModel>, batch: BatchModel)
    requires
        stack.len() <= 50,
        batch.items.len() <= usize::MAX,
    ensures
        ({
            let after = pushed(stack, batch);
            let status = status_of(after);
            &&& status.available <==> batch.items.len() > 0
            &&& status.op == Some(batch.op) && status.count == batch.items.len()
            &&& after.last() == batch
            &&& stack.len() < 50 ==> after.len() == stack.len() + 1 && forall|i: int|
                0 <= i < stack.len() ==> #[trigger] after[i] == stack[i]
            &&& stack.len() == 50 ==> after.len() == 50 && forall|i: int|
                0 <= i < 49 ==> #[trigger] after[i] == stack[i + 1]
        }),
        !status_of(Seq::empty()).available && status_of(Seq::empty()).op is None && status_of(
            Seq::empty(),
        ).count == 0,
{
}

/// The items of a batch are taken back from the last to the first. What cannot be taken back stays
/// in the batch, in its old order, with a note; a batch without such an item leaves the stack, and
/// the batches below it stay.
pub proof fn a_batch_keeps_what_is_stuck(run: UndoModel, event: UndoEvent, stack: Seq<BatchModel>)
    requires
        run.ok(),
        run.left > 0,
        stack.len() > 0,
    ensures
        ({
            let after = run.after(event);
            let item = run.items[run.left - 1];
            &&& after.left == run.left - 1
            &&& event matches UndoEvent::Undone(ids) ==> after.undone == run.undone + 1
                && after.changed == run.changed + ids && after.stuck == run.stuck && after.errors
                == run.errors
            &&& event matches UndoEvent::Stuck(reason) ==> after.undone == run.undone
                && after.changed == run.changed && after.stuck == run.stuck.push(item) && exists|
                n: (Seq<char>, Seq<char>),
            | #[trigger] after.errors.contains(n) && n.1 == reason
        }),
        run.stuck.len() == 0 ==> run.closes(stack) == stack.drop_last(),
        run.stuck.len() > 0 ==> {
            let top = run.closes(stack).last();
            &&& run.closes(stack).len() == stack.len()
            &&& run.closes(stack).drop_last() == stack.drop_last()
            &&& top.op == stack.last().op && top.items.len() == run.stuck.len()
            &&& forall|i: int|
                0 <= i < run.stuck.len() ==> #[trigger] top.items[i] == run.stuck[run.stuck.len() - 1
                    - i]
        },
{
    let item = run.items[run.left - 1];
    if let UndoEvent::Stuck(reason) = event {
        let name = crate::folder_undo::item_name(item.track_id, run.left - 1);
        a_note_is_kept_under_its_name(run.errors, name, reason);
        assert(run.after(event).errors.contains((name, reason)));
    }
    if run.stuck.len() > 0 {
        assert(run.closes(stack).drop_last() =~= stack.drop_last());
    }
}

/// How an item is taken back, in full: a deleted track comes back where it was kept; a moved file
/// goes back where it is still there under its track, its old place is free and the folder is there;
/// a copy goes where it is still there under the track that was made for it. Everything else is
/// refused.
pub proof fn an_item_is_taken_back_where_it_can_be(item: UndoItemModel, facts: FactsModel)
    ensures
        ({
            let in_place = facts.target_is_file && facts.track_path is Some && facts.track_path->0
                == facts.target_path;
            let step = undo_of(item, facts);
            &&& step is Restore <==> item.op == FolderUndoOp::Delete && item.deleted is Some
            &&& step matches UndoStepModel::Restore(s) ==> item.deleted == Some(s)
            &&& step is MoveBack <==> item.op == FolderUndoOp::Move && in_place
                && !facts.source_exists && facts.parent_is_folder && parent_of(item.source) is Some
            &&& step matches UndoStepModel::MoveBack { folder } ==> parent_of(item.source) == Some(
                folder,
            )
            &&& step is RemoveCopy <==> item.op == FolderUndoOp::Copy && in_place
                && item.created_track_id is Some
            &&& step matches UndoStepModel::RemoveCopy { track_id } ==> item.created_track_id
                == Some(track_id)
        }),
{
}

proof fn lemma_independent(list: Seq<Seq<char>>, n: nat, x: Seq<char>)
    requires
        n <= list.len(),
    ensures
        independent(list, n).contains(x) <==> exists|k: int|
            0 <= k < n && #[trigger] list[k] == x && !nested_in(list, x),
    decreases n,
{
    if n > 0 {
        let m = (n - 1) as nat;
        let before = independent(list, m);
        let all = independent(list, n);
        lemma_independent(list, m, x);
        if all.contains(x) {
            let i = choose|i: int| 0 <= i < all.len() && all[i] == x;
            if i < before.len() {
                assert(before[i] == x);
            } else {
                assert(list[n - 1] == x);
            }
        }
        if exists|k: int| 0 <= k < n && #[trigger] list[k] == x && !nested_in(list, x) {
            let k = choose|k: int| 0 <= k < n && #[trigger] list[k] == x && !nested_in(list, x);
            if k < m {
                let i = choose|i: int| 0 <= i < before.len() && before[i] == x;
                assert(all[i] == x);
            } else {
                assert(all[all.len() - 1] == x);
            }
        }
    }
}

proof fn lemma_outer(list: Seq<Seq<char>>, k: int, most: nat) -> (r: int)
    requires
        0 <= k < list.len(),
        path_parts(list[k]).len() <= most,
    ensures
        0 <= r < list.len(),
        lies_within(list[k], list[r]),
        !nested_in(list, list[r]),
    decreases most,
{
    lying_within_is_an_order(list[k], list[k], list[k]);
    if nested_in(list, list[k]) {
        let i = choose|i: int|
            0 <= i < list.len() && !same_path(#[trigger] list[i], list[k]) && lies_within(
                list[k],
                list[i],
            );
        let a = path_parts(list[i]);
        let b = path_parts(list[k]);
        if a.len() == b.len() {
            assert(a =~= b);
        }
        let r = lemma_outer(list, i, (most - 1) as nat);
        lying_within_is_an_order(list[k], list[i], list[r]);
        r
    } else {
        k
    }
}

/// The folders of a selection that are moved are folders of it; none of them lies below another
/// one of the selection, and every folder of the selection lies in one that is moved.
pub proof fn a_selection_is_moved_by_its_outermost_folders(paths: Seq<Seq<char>>, x: Seq<char>, k: int)
    requires
        0 <= k < paths.len(),
    ensures
        sources_of(paths).contains(x) ==> paths.contains(x) && forall|i: int|
            0 <= i < paths.len() && lies_within(x, #[trigger] paths[i]) ==> path_parts(paths[i])
                == path_parts(x),
        exists|s: Seq<char>| #[trigger] sources_of(paths).contains(s) && lies_within(paths[k], s),
{
    let list = ordered_paths(paths);
    lemma_independent(list, list.len(), x);
    if sources_of(paths).contains(x) {
        let m = choose|m: int|
            0 <= m < list.len() && #[trigger] list[m] == x && !nested_in(list, x);
        ordered_paths_stand_in_order(paths, m);
        assert forall|i: int| 0 <= i < paths.len() && lies_within(x, #[trigger] paths[i]) implies path_parts(
            paths[i],
        ) == path_parts(x) by {
            ordering_paths_loses_none(paths, i);
            let j = choose|j: int|
                0 <= j < list.len() && path_parts(#[trigger] list[j]) == path_parts(paths[i]);
            if path_parts(paths[i]) != path_parts(x) {
                assert(!same_path(list[j], x) && lies_within(x, list[j]));
                assert(nested_in(list, x));
            }
        }
    }
    ordering_paths_loses_none(paths, k);
    let j = choose|j: int|
        0 <= j < list.len() && path_parts(#[trigger] list[j]) == path_parts(paths[k]);
    let r = lemma_outer(list, j, path_parts(list[j]).len());
    lemma_independent(list, list.len(), list[r]);
    assert(sources_of(paths).contains(list[r]));
    assert(lies_within(paths[k], list[r]));
}

proof fn lemma_first_refusal(sources: Seq<(Seq<char>, bool)>, roots: Seq<Seq<char>>, n: nat)
    requires
        n <= sources.len(),
    ensures
        first_refusal(sources, roots, n) is None <==> forall|i: int|
            0 <= i < n ==> (#[trigger] sources[i]).1 && !among_paths(roots, sources[i].0),
    decreases n,
{
    if n > 0 {
        lemma_first_refusal(sources, roots, (n - 1) as nat);
    }
}

/// Folders are merged exactly where there are two or more, every one is there and none is a root of
/// the library, and no two of them have the same name.
pub proof fn folders_are_merged_where_they_can_be(
    sources: Seq<(Seq<char>, bool)>,
    roots: Seq<Seq<char>>,
)
    ensures
        merge_refusal(sources, roots) is Ok <==> {
            &&& sources.len() >= 2
            &&& forall|i: int|
                0 <= i < sources.len() ==> (#[trigger] sources[i]).1 && !among_paths(
                    roots,
                    sources[i].0,
                )
            &&& forall|i: int, j: int|
                #![trigger sources[i], sources[j]]
                0 <= i < j < sources.len() && file_name_of(sources[i].0).len() > 0 ==> file_name_of(
                    sources[i].0,
                ) != file_name_of(sources[j].0)
        },
{
    lemma_first_refusal(sources, roots, sources.len());
    if names_clash(sources) {
        let (i, j) = choose|i: int, j: int|
            0 <= i < j < sources.len() && file_name_of(#[trigger] sources[i].0).len() > 0
                && file_name_of(sources[i].0) == file_name_of(#[trigger] sources[j].0);
        assert(file_name_of(sources[i].0) == file_name_of(sources[j].0));
    } else {
        assert forall|i: int, j: int|
            #![trigger sources[i], sources[j]]
            0 <= i < j < sources.len() && file_name_of(sources[i].0).len() > 0 implies file_name_of(
            sources[i].0,
        ) != file_name_of(sources[j].0) by {
            let a = sources[i].0;
            let b = sources[j].0;
            if file_name_of(a) == file_name_of(b) {
                assert(names_clash(sources));
            }
        }
    }
}

/// A merge moves the folders in their order; a folder that was moved counts with its tracks. After
/// the last one it tells of all the tracks. A failure, even one in the middle of a move, turns it
/// back, with everything that was moved still to be put back.
pub proof fn a_merge_goes_on_or_turns_back(
    m: MergeModel,
    old_path: Seq<char>,
    new_path: Seq<char>,
    ids: Seq<i64>,
    reason: Seq<char>,
)
    requires
        m.ok(),
        m.failure is None,
        m.next < m.sources.len(),
    ensures
        m.want() == (MergeWant::Move { source: m.sources[m.next as int] }),
        ({
            let a = m.after_move(old_path, new_path, ids);
            &&& a.next == m.next + 1 && a.failure is None && a.sources == m.sources
            &&& a.moved.len() == m.moved.len() + 1 && a.moved.last() == (old_path, new_path)
            &&& a.changed == m.changed + ids
            &&& a.next == a.sources.len() ==> a.want() == MergeWant::Finish(ordered_ids(a.changed))
        }),
        ({
            let f = m.after_failure(reason);
            &&& f.failure == Some(reason) && f.back == m.moved.len() && f.moved == m.moved
            &&& f.want() is PutBack || f.want() is GiveUp
        }),
        ({
            let h = m.after_half_move(old_path, new_path, reason);
            &&& h.failure == Some(reason) && h.moved == m.moved.push((old_path, new_path)) && h.back
                == h.moved.len()
            &&& h.want() == MergeWant::PutBack { from: new_path, to: parent_of(old_path) }
        }),
{
}

/// A target that is not given is none; one that is given has to lie in the library and be a folder.
pub proof fn a_target_is_a_folder_of_the_library(
    raw: Seq<char>,
    inside: Result<Seq<char>, ErrorModel>,
    is_folder: bool,
)
    ensures
        all_space(raw) ==> dest_of(raw, inside, is_folder) == Ok::<Seq<char>, ErrorModel>(""@),
        !all_space(raw) && inside is Err ==> dest_of(raw, inside, is_folder) == inside,
        !all_space(raw) && inside is Ok && is_folder ==> dest_of(raw, inside, is_folder) == inside,
        !all_space(raw) && inside is Ok && !is_folder ==> dest_of(raw, inside, is_folder) is Err,
{
    trimming_takes_the_white_space_around(raw);
}

/// A setting that lies in a folder which is forgotten becomes the first root that is left; any
/// other setting, and a blank one, stays.
pub proof fn a_setting_leaves_a_forgotten_folder(
    setting: (Seq<char>, Seq<char>),
    target: Seq<char>,
    roots: Seq<Seq<char>>,
)
    ensures
        all_space(setting.0) || !lies_within(setting.1, target) || roots.len() == 0 ==> redirected(
            setting,
            target,
            roots,
        ) == setting.0,
        !all_space(setting.0) && lies_within(setting.1, target) && roots.len() > 0 ==> redirected(
            setting,
            target,
            roots,
        ) == roots[0],
{
    trimming_takes_the_white_space_around(setting.0);
}

/// What is not a folder never becomes a root, and no folder does that lies in a root or is
/// configured already; every text that is added is that of a candidate.
pub proof fn only_new_folders_become_roots(
    existing: Seq<Seq<char>>,
    resolved: Seq<Seq<char>>,
    candidates: Seq<(Seq<char>, Seq<char>, bool)>,
    i: int,
)
    requires
        existing.len() <= i < merged_roots(existing, resolved, candidates).0.len(),
    ensures
        exists|k: int|
            0 <= k < candidates.len() && (#[trigger] candidates[k]).2 && candidates[k].0
                == merged_roots(existing, resolved, candidates).0[i] && !inside_any(
                candidates[k].1,
                resolved,
            ) && !existing.contains(candidates[k].0),
    decreases candidates.len(),
{
    let front = candidates.drop_last();
    let before = merged_roots(existing, resolved, front);
    let all = merged_roots(existing, resolved, candidates);
    if i < before.0.len() {
        only_new_folders_become_roots(existing, resolved, front, i);
        let k = choose|k: int|
            0 <= k < front.len() && (#[trigger] front[k]).2 && front[k].0 == before.0[i]
                && !inside_any(front[k].1, resolved) && !existing.contains(front[k].0);
        assert(candidates[k] == front[k]);
    } else {
        let c = candidates[candidates.len() - 1];
        lemma_roots_grow(existing, resolved, front);
        assert(all.0[i] == c.0);
        if inside_any(c.1, resolved) {
            let r = choose|r: int| 0 <= r < resolved.len() && lies_within(c.1, #[trigger] resolved[r]);
            assert(before.1[r] == resolved[r]);
            assert(inside_any(c.1, before.1));
        }
        if existing.contains(c.0) {
            let r = choose|r: int| 0 <= r < existing.len() && existing[r] == c.0;
            assert(before.0[r] == c.0);
        }
    }
}

proof fn lemma_roots_grow(
    existing: Seq<Seq<char>>,
    resolved: Seq<Seq<char>>,
    candidates: Seq<(Seq<char>, Seq<char>, bool)>,
)
    ensures
        existing.is_prefix_of(merged_roots(existing, resolved, candidates).0),
        resolved.is_prefix_of(merged_roots(existing, resolved, candidates).1),
    decreases candidates.len(),
{
    if candidates.len() > 0 {
        lemma_roots_grow(existing, resolved, candidates.drop_last());
    }
}

proof fn lemma_push_has(list: Seq<Seq<char>>, last: Seq<char>, x: Seq<char>)
    ensures
        list.push(last).contains(x) <==> list.contains(x) || x == last,
{
    if list.contains(x) {
        let i = choose|i: int| 0 <= i < list.len() && list[i] == x;
        assert(list.push(last)[i] == x);
    }
    if x == last {
        assert(list.push(last)[list.len() as int] == x);
    }
    if list.push(last).contains(x) && x != last {
        let i = choose|i: int| 0 <= i < list.push(last).len() && list.push(last)[i] == x;
        assert(list[i] == x);
    }
}

/// Blank texts name no path, and every other text does; empty texts are no names.
pub proof fn blank_texts_name_nothing(paths: Seq<Seq<char>>, x: Seq<char>)
    ensures
        named_paths(paths).contains(x) <==> paths.contains(x) && !all_space(x),
        solid_names(paths).contains(x) <==> paths.contains(x) && x.len() > 0,
    decreases paths.len(),
{
    if paths.len() > 0 {
        let front = paths.drop_last();
        blank_texts_name_nothing(front, x);
        trimming_takes_the_white_space_around(paths.last());
        assert(front.push(paths.last()) =~= paths);
        lemma_push_has(front, paths.last(), x);
        lemma_push_has(named_paths(front), paths.last(), x);
        lemma_push_has(solid_names(front), paths.last(), x);
    }
}

/// What is scanned is what was asked for, or every root where nothing was; there has to be one.
pub proof fn a_scan_is_of_what_was_asked(requested: Seq<Seq<char>>, roots: Seq<Seq<char>>)
    ensures
        requested.len() > 0 ==> scanned(requested, roots) == Ok::<Seq<Seq<char>>, ErrorModel>(
            requested,
        ),
        requested.len() == 0 && roots.len() > 0 ==> scanned(requested, roots) == Ok::<
            Seq<Seq<char>>,
            ErrorModel,
        >(roots),
        requested.len() == 0 && roots.len() == 0 ==> scanned(requested, roots) is Err,
{
}

/// What becomes of the file of a deleted track is said by one of three words; nothing said means
/// that it is kept.
pub proof fn a_file_is_kept_unless_said_otherwise(name: Seq<char>)
    ensures
        disposal_of(name) == Ok::<FileDisposal, ErrorModel>(FileDisposal::Keep) <==> name.len() == 0
            || name == "keep"@,
        disposal_of(name) == Ok::<FileDisposal, ErrorModel>(FileDisposal::Trash) <==> name
            == "trash"@,
        disposal_of(name) == Ok::<FileDisposal, ErrorModel>(FileDisposal::Remove) <==> name
            == "remove"@,
        name.len() > 6 ==> disposal_of(name) is Err,
{
    reveal_strlit("");
    reveal_strlit("keep");
    reveal_strlit("trash");
    reveal_strlit("remove");
    assert(""@ =~= Seq::empty());
    assert("keep"@.len() == 4 && "trash"@.len() == 5 && "remove"@.len() == 6);
    if name.len() == 0 {
        assert(name =~= ""@);
    }
}

} // verus!
