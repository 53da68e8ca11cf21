//! What is taken over from external libraries, and which tracks a batch is about.

use vstd::prelude::*;

use crate::folder_laws::a_note_is_kept_under_its_name;
use crate::one_library_sync::{
    after_step, chosen, clamped_rating, next_wanted, requested_ids, sync_plan, with_missing,
    ImportEvent, ImportModel, SnapshotModel, StageModel, StepEvent, StepModel,
};
use crate::rhythm::{
    all_queued, decision_of, ended_phase, idle_of, is_live, only_live, runs, Request, RhythmAction,
    RhythmStage, RunModel, StartDecision, StatusModel,
};
use crate::text::signed_decimal;

verus! {

/// The numbers of tracks that are used are those that are numbers of tracks, each once, in the
/// order in which they first come.
pub proof fn numbers_are_used_once(ids: Seq<i64>)
    ensures
        chosen(ids).no_duplicates(),
        forall|x: i64| #[trigger] chosen(ids).contains(x) <==> ids.contains(x) && x > 0,
    decreases ids.len(),
{
    if ids.len() > 0 {
        let front = ids.drop_last();
        let last = ids.last();
        let before = chosen(front);
        let all = chosen(ids);
        numbers_are_used_once(front);
        assert forall|i: int, j: int| 0 <= i < j < all.len() implies all[i] != all[j] by {
            assert(before[i] == all[i]);
            assert(before.contains(before[i]));
        }
        assert forall|x: i64| #[trigger] all.contains(x) <==> ids.contains(x) && x > 0 by {
            if all.contains(x) {
                let i = choose|i: int| 0 <= i < all.len() && all[i] == x;
                if i < before.len() {
                    assert(before[i] == x);
                    assert(before.contains(x));
                    let k = choose|k: int| 0 <= k < front.len() && front[k] == x;
                    assert(ids[k] == x);
                } else {
                    assert(ids[ids.len() - 1] == x);
                }
            }
            if ids.contains(x) && x > 0 {
                let k = choose|k: int| 0 <= k < ids.len() && ids[k] == x;
                if k < front.len() {
                    assert(front[k] == x);
                }
                if before.contains(x) {
                    let i = choose|i: int| 0 <= i < before.len() && before[i] == x;
                    assert(all[i] == x);
                } else {
                    assert(all[all.len() - 1] == x);
                }
            }
        }
    }
}

/// The same of the numbers of external tracks.
pub proof fn external_numbers_are_used_once(ids: Seq<i32>)
    ensures
        requested_ids(ids).no_duplicates(),
        forall|x: i32| #[trigger] requested_ids(ids).contains(x) <==> ids.contains(x) && x > 0,
    decreases ids.len(),
{
    if ids.len() > 0 {
        let front = ids.drop_last();
        let last = ids.last();
        let before = requested_ids(front);
        let all = requested_ids(ids);
        external_numbers_are_used_once(front);
        assert forall|i: int, j: int| 0 <= i < j < all.len() implies all[i] != all[j] by {
            assert(before[i] == all[i]);
            assert(before.contains(before[i]));
        }
        assert forall|x: i32| #[trigger] all.contains(x) <==> ids.contains(x) && x > 0 by {
            if all.contains(x) {
                let i = choose|i: int| 0 <= i < all.len() && all[i] == x;
                if i < before.len() {
                    assert(before[i] == x);
                    assert(before.contains(x));
                    let k = choose|k: int| 0 <= k < front.len() && front[k] == x;
                    assert(ids[k] == x);
                } else {
                    assert(ids[ids.len() - 1] == x);
                }
            }
            if ids.contains(x) && x > 0 {
                let k = choose|k: int| 0 <= k < ids.len() && ids[k] == x;
                if k < front.len() {
                    assert(front[k] == x);
                }
                if before.contains(x) {
                    let i = choose|i: int| 0 <= i < before.len() && before[i] == x;
                    assert(all[i] == x);
                } else {
                    assert(all[all.len() - 1] == x);
                }
            }
        }
    }
}

/// A rating that another program changed is taken over, between none and five, where it is not the
/// one that is there; a cover where its version or the number of changes differs. What is seen for
/// the first time counts where another program changed it.
pub proof fn changes_of_others_are_taken_over(
    previous: SnapshotModel,
    now: SnapshotModel,
    modified: bool,
    local_rating: i64,
)
    ensures
        ({
            let p = sync_plan(Some(previous), now, modified, local_rating);
            &&& p.rating is Some <==> previous.rating != now.rating && now.rating != local_rating
            &&& p.cover <==> previous.cover_version != now.cover_version || previous.update_count
                != now.update_count
            &&& p.rating is Some && 0 <= now.rating <= 5 ==> p.rating == Some(now.rating)
            &&& p.rating is Some ==> 0 <= p.rating->0 <= 5
        }),
        ({
            let p = sync_plan(None, now, modified, local_rating);
            &&& p.rating is Some <==> modified && now.rating != local_rating
            &&& p.cover <==> modified
        }),
        now.rating > 5 ==> clamped_rating(now.rating) == 5,
        now.rating < 0 ==> clamped_rating(now.rating) == 0,
{
}

proof fn lemma_next_wanted(listed: Seq<i32>, requested: Seq<i32>, from: nat)
    requires
        from <= listed.len(),
    ensures
        from <= next_wanted(listed, requested, from) <= listed.len(),
        next_wanted(listed, requested, from) < listed.len() ==> requested.contains(
            listed[next_wanted(listed, requested, from) as int],
        ),
        forall|k: int|
            from <= k < next_wanted(listed, requested, from) ==> !requested.contains(
                #[trigger] listed[k],
            ),
    decreases listed.len() - from,
{
    if from < listed.len() && !requested.contains(listed[from as int]) {
        lemma_next_wanted(listed, requested, from + 1);
    }
}

/// An import goes from one track that is asked for to the next, and leaves none out; what was made
/// of a track is told, and a failure is noted under its number.
pub proof fn an_import_leaves_no_track_out(run: ImportModel, event: ImportEvent)
    requires
        run.next < run.listed.len(),
    ensures
        ({
            let after = run.after(event);
            let id = run.listed[run.next as int];
            &&& run.next < after.next <= run.listed.len()
            &&& after.next < run.listed.len() ==> run.requested.contains(
                run.listed[after.next as int],
            )
            &&& forall|k: int|
                run.next < k < after.next ==> !run.requested.contains(#[trigger] run.listed[k])
            &&& event matches ImportEvent::Done(made) ==> after.track_ids == run.track_ids.push(made)
                && after.errors == run.errors
            &&& event matches ImportEvent::Failed(reason) ==> after.track_ids == run.track_ids
                && after.errors.contains((signed_decimal(id as int), reason))
        }),
{
    lemma_next_wanted(run.listed, run.requested, run.next + 1);
    if let ImportEvent::Failed(reason) = event {
        a_note_is_kept_under_its_name(
            run.errors,
            signed_decimal(run.listed[run.next as int] as int),
            reason,
        );
    }
}

/// A track that is asked for and not in the list is noted under its number.
pub proof fn a_missing_track_is_noted(
    errors: Seq<(Seq<char>, Seq<char>)>,
    requested: Seq<i32>,
    listed: Seq<i32>,
    n: nat,
    k: int,
)
    requires
        0 <= k < n <= requested.len(),
        !listed.contains(requested[k]),
    ensures
        exists|e: (Seq<char>, Seq<char>)| #[trigger]
            with_missing(errors, requested, listed, n).contains(e) && e.0 == signed_decimal(
                requested[k] as int,
            ),
    decreases n,
{
    let m = (n - 1) as nat;
    let before = with_missing(errors, requested, listed, m);
    let name = signed_decimal(requested[k] as int);
    let text = "曲目不在来源 OneLibrary 列表中"@;
    let last = signed_decimal(requested[n - 1] as int);
    a_note_is_kept_under_its_name(before, last, text);
    if k == n - 1 {
        assert(with_missing(errors, requested, listed, n).contains((name, text)));
    } else {
        a_missing_track_is_noted(errors, requested, listed, m, k);
        let e = choose|e: (Seq<char>, Seq<char>)| #[trigger] before.contains(e) && e.0 == name;
        if listed.contains(requested[n - 1]) {
            assert(with_missing(errors, requested, listed, n).contains(e));
        } else if name == last {
            assert(with_missing(errors, requested, listed, n).contains((name, text)));
        } else {
            let i = choose|i: int| 0 <= i < before.len() && before[i] == e;
            assert(with_missing(errors, requested, listed, n).contains(before[i]));
        }
    }
}

/// A track is copied, then registered under its copy, then described, and only then done.
pub proof fn an_import_goes_step_by_step(target: Seq<char>, id: i64)
    ensures
        after_step(StageModel::Copy, StepEvent::Copied(target)) == (
            StageModel::Register { target },
            StepModel::Register { target },
        ),
        after_step(StageModel::Register { target }, StepEvent::Registered(id)) == (
            StageModel::Describe { target, id },
            StepModel::Describe { id },
        ),
        after_step(StageModel::Describe { target, id }, StepEvent::Described) == (
            StageModel::Ended,
            StepModel::Done(id),
        ),
        !(after_step(StageModel::Copy, StepEvent::Registered(id)).1 is Done),
        !(after_step(StageModel::Register { target }, StepEvent::Described).1 is Done),
{
}

/// The tracks of a request that are entered are those that neither wait nor run; the others go on
/// as they do.
pub proof fn only_idle_tracks_are_entered(m: Map<i64, StatusModel>, ids: Seq<i64>, x: i64)
    ensures
        idle_of(m, ids).contains(x) <==> ids.contains(x) && !(m.contains_key(x) && (m[x].phase
            == "queued"@ || m[x].phase == "analyzing"@)),
    decreases ids.len(),
{
    if ids.len() > 0 {
        let front = ids.drop_last();
        let before = idle_of(m, front);
        let all = idle_of(m, ids);
        only_idle_tracks_are_entered(m, front, x);
        if all.contains(x) {
            let i = choose|i: int| 0 <= i < all.len() && all[i] == x;
            if i < before.len() {
                assert(before[i] == x);
                let k = choose|k: int| 0 <= k < front.len() && front[k] == x;
                assert(ids[k] == x);
            } else {
                assert(ids[ids.len() - 1] == x);
            }
        }
        if ids.contains(x) && !runs(m, x) {
            let k = choose|k: int| 0 <= k < ids.len() && ids[k] == x;
            if k < front.len() {
                assert(front[k] == x);
                let i = choose|i: int| 0 <= i < before.len() && before[i] == x;
                assert(all[i] == x);
            } else {
                assert(all[all.len() - 1] == x);
            }
        }
    }
}

/// Every track that is entered waits in the new job; every other one stays as it was.
pub proof fn entered_tracks_wait_in_the_job(
    m: Map<i64, StatusModel>,
    ids: Seq<i64>,
    job: Seq<char>,
    x: i64,
)
    ensures
        ids.contains(x) ==> all_queued(m, ids, job).contains_key(x) && all_queued(m, ids, job)[x].job_id
            == job && all_queued(m, ids, job)[x].phase == "queued"@ && runs(
            all_queued(m, ids, job),
            x,
        ),
        !ids.contains(x) ==> all_queued(m, ids, job).contains_key(x) == m.contains_key(x) && (
        m.contains_key(x) ==> all_queued(m, ids, job)[x] == m[x]),
    decreases ids.len(),
{
    if ids.len() > 0 {
        let front = ids.drop_last();
        entered_tracks_wait_in_the_job(m, front, job, x);
        if ids.contains(x) && x != ids.last() {
            let k = choose|k: int| 0 <= k < ids.len() && ids[k] == x;
            assert(front[k] == x);
        }
        if front.contains(x) {
            let k = choose|k: int| 0 <= k < front.len() && front[k] == x;
            assert(ids[k] == x);
        }
        if x == ids.last() {
            assert(ids[ids.len() - 1] == x);
        }
    }
}

/// What is listed of all tracks are those that wait or run.
pub proof fn only_what_runs_is_listed(m: Map<i64, StatusModel>, x: i64)
    ensures
        only_live(m).contains_key(x) <==> m.contains_key(x) && (m[x].phase == "queued"@ || m[x].phase
            == "analyzing"@),
        only_live(m).contains_key(x) ==> only_live(m)[x] == m[x],
{
}

/// A batch waits for a place for its next track, analyses it, and goes to the next one; behind the
/// last one it is finished.
pub proof fn a_batch_goes_from_track_to_track(run: RunModel, next: int)
    requires
        0 <= next <= run.ids.len(),
    ensures
        next < run.ids.len() ==> run.before(next).wants() == RhythmAction::Admit(run.ids[next]),
        next == run.ids.len() ==> run.before(next).wants() == RhythmAction::Finish,
        run.before(next).ids == run.ids && run.before(next).job_id == run.job_id && run.before(
            next,
        ).updated == run.updated,
        run.stage == RhythmStage::Analyzing ==> run.wants() == RhythmAction::Analyze(
            run.ids[run.next],
        ),
{
}

/// An analysis that succeeded is complete, even where the batch was cancelled meanwhile; one that
/// did not is cancelled or failed.
pub proof fn an_analysis_ends_as_it_went(ok: bool, cancelled: bool)
    ensures
        ok ==> ended_phase(ok, cancelled) == "complete"@,
        !ok && cancelled ==> ended_phase(ok, cancelled) == "canceled"@,
        !ok && !cancelled ==> ended_phase(ok, cancelled) == "failed"@,
        !is_live(ended_phase(ok, cancelled)),
{
    reveal_strlit("complete");
    reveal_strlit("canceled");
    reveal_strlit("failed");
    reveal_strlit("queued");
    reveal_strlit("analyzing");
    assert("complete"@.len() == 8 && "canceled"@.len() == 8 && "failed"@.len() == 6
        && "queued"@.len() == 6 && "analyzing"@.len() == 9);
    assert("failed"@[0] == 'f' && "queued"@[0] == 'q');
}

/// A track that is not there is unknown. What is known of one is enough where nothing more precise is
/// asked for, unless it is to be made anew.
pub proof fn what_is_known_is_enough(known: Option<bool>, request: Request)
    ensures
        decision_of(false, known, request) == StartDecision::Unknown,
        decision_of(true, None, request) == StartDecision::Begin,
        request.force ==> decision_of(true, known, request) == StartDecision::Begin,
        !request.force && known == Some(true) ==> decision_of(true, known, request)
            == StartDecision::Enough,
        !request.force && known == Some(false) ==> (decision_of(true, known, request)
            == StartDecision::Enough <==> !request.precise),
{
}

} // verus!
