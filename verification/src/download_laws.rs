//! What holds of the download queue whatever is done to it.

use vstd::prelude::*;

use crate::download_orders::retry_step;
use crate::download_queue::{
    added_by_age, after_cancel_all, after_pause_all, by_age, cancel_all_step, executing,
    insert_step, inserted, lemma_oldest_finished, notices, oldest_finished, pause_all_step, paused,
    shortened, sifted, tokens, unfinished,
};
use crate::download_runs::{release, source_of, source_taken};
use crate::downloads::{
    attach_refusal, audio_started, cancel_step, closed_to_workers, failure_counts, finish_step,
    in_order, lemma_place, lemma_place_is, lemma_with_entry, phase_step, place, progress_step,
    settle_step, start_step, terminal, DownloadError, EntryModel, QueueModel, MAX_HISTORY,
};
use crate::models::{Moment, TaskPhase, TaskState};
use crate::text::less;

verus! {

/// Whatever a worker reports late: a task that is paused or finished stays as it is.
pub proof fn late_reports_change_nothing(
    q: QueueModel,
    id: Seq<char>,
    state: TaskState,
    phase: TaskPhase,
    text: Seq<char>,
    size: u64,
    total: u64,
    track_id: Option<i64>,
    attempt: Option<u64>,
    at: Moment,
)
    requires
        q.has(id),
        closed_to_workers(q.entry(id).task.state),
    ensures
        settle_step(q, id, state, text, at) == q,
        phase_step(q, id, phase, at) == q,
        start_step(q, id, phase, at) == q,
        progress_step(q, id, attempt, size, total, at) == q,
        finish_step(q, id, text, size, state, text, track_id, at) == q,
{
}

/// A finished task cannot be cancelled: the state that came first wins.
pub proof fn finished_tasks_cannot_be_cancelled(q: QueueModel, id: Seq<char>, at: Moment)
    requires
        q.has(id),
        terminal(q.entry(id).task.state),
    ensures
        cancel_step(q, id, at) == q,
{
}

/// Cancelling a task a second time changes nothing more, unless it is paused.
pub proof fn cancelling_twice_is_cancelling_once(
    q: QueueModel,
    id: Seq<char>,
    first: Moment,
    second: Moment,
)
    requires
        q.well_formed(),
        !(q.has(id) && q.entry(id).task.state is Paused),
    ensures
        cancel_step(cancel_step(q, id, first), id, second) == cancel_step(q, id, first),
{
    let once = cancel_step(q, id, first);
    if q.has(id) {
        if q.entry(id).task.state is Queued {
            crate::downloads::lemma_without(q, id);
            assert(once.entries == q.without(id).entries);
        } else if !terminal(q.entry(id).task.state) {
            let e = once.entries[place(q.entries, id)];
            lemma_place(q.entries, id);
            lemma_with_entry(q, id, e);
            assert(once.entries == q.with_entry(id, e).entries);
        }
    }
}

/// Cancelling a task that is being worked on marks it, stops its worker, and no late report brings
/// it back.
pub proof fn a_cancelled_task_stays_cancelled(
    q: QueueModel,
    id: Seq<char>,
    at: Moment,
    downloaded: u64,
    total: u64,
    later: Moment,
)
    requires
        q.well_formed(),
        q.has(id),
        executing(q.entry(id).task.state),
    ensures
        ({
            let after = cancel_step(q, id, at);
            &&& after.has(id)
            &&& after.entry(id).task.state is Canceled
            &&& after.fired == q.fired.push(q.entry(id).cancel)
            &&& progress_step(after, id, None, downloaded, total, later) == after
        }),
{
    lemma_place(q.entries, id);
    let after = cancel_step(q, id, at);
    let e = after.entries[place(q.entries, id)];
    lemma_with_entry(q, id, e);
    assert(after.entries == q.with_entry(id, e).entries);
}

proof fn lemma_sifted_closed(
    entries: Seq<EntryModel>,
    f: spec_fn(EntryModel) -> Option<EntryModel>,
)
    requires
        forall|e: EntryModel|
            #![trigger f(e)]
            f(e) matches Some(n) ==> !unfinished(n.task.state),
    ensures
        forall|i: int|
            #![trigger sifted(entries, f)[i]]
            0 <= i < sifted(entries, f).len() ==> !unfinished(sifted(entries, f)[i].task.state),
    decreases entries.len(),
{
    if entries.len() > 0 {
        lemma_sifted_closed(entries.drop_last(), f);
        let sub = sifted(entries.drop_last(), f);
        let w = sifted(entries, f);
        assert forall|i: int| #![trigger w[i]] 0 <= i < w.len() implies !unfinished(
            w[i].task.state,
        ) by {
            if i < sub.len() {
                assert(w[i] == sub[i]);
            } else {
                assert(f(entries.last()) == Some(w[i]));
            }
        }
    }
}

/// After everything was cancelled or paused no task is open to a worker any more.
pub proof fn stopping_all_closes_every_task(q: QueueModel, id: Seq<char>, at: Moment)
    ensures
        !cancel_all_step(q, at).open(id),
        !pause_all_step(q, at).open(id),
{
    lemma_sifted_closed(q.entries, after_cancel_all(at));
    lemma_sifted_closed(q.entries, after_pause_all(at));
    lemma_place(cancel_all_step(q, at).entries, id);
    lemma_place(pause_all_step(q, at).entries, id);
}

proof fn lemma_pause_keeps(entries: Seq<EntryModel>, at: Moment, i: int)
    requires
        0 <= i < entries.len(),
    ensures
        sifted(entries, after_pause_all(at)).len() == entries.len(),
        Some(sifted(entries, after_pause_all(at))[i]) == after_pause_all(at)(entries[i]),
    decreases entries.len(),
{
    let f = after_pause_all(at);
    let rest = entries.drop_last();
    let last = entries.last();
    if i < rest.len() {
        lemma_pause_keeps(rest, at, i);
        assert(rest[i] == entries[i]);
    } else if rest.len() > 0 {
        lemma_pause_keeps(rest, at, 0);
    }
    if rest.len() == 0 {
        assert(sifted(rest, f).len() == 0);
    }
    assert(f(last) is Some);
    assert(sifted(entries, f) == sifted(rest, f).push(f(last)->0));
}

proof fn lemma_nothing_to_stop(entries: Seq<EntryModel>, at: Moment)
    requires
        forall|i: int| 0 <= i < entries.len() ==> !unfinished((#[trigger] entries[i]).task.state),
    ensures
        sifted(entries, after_pause_all(at)) == entries,
        tokens(entries, |e: EntryModel| unfinished(e.task.state)).len() == 0,
        notices(
            entries,
            |e: EntryModel| unfinished(e.task.state),
            |e: EntryModel| paused(e, at),
        ).len() == 0,
    decreases entries.len(),
{
    if entries.len() > 0 {
        let rest = entries.drop_last();
        assert forall|i: int| 0 <= i < rest.len() implies !unfinished(
            (#[trigger] rest[i]).task.state,
        ) by {
            assert(rest[i] == entries[i]);
        }
        lemma_nothing_to_stop(rest, at);
        assert(!unfinished(entries[entries.len() - 1].task.state));
        assert(rest.push(entries.last()) =~= entries);
    } else {
        assert(sifted(entries, after_pause_all(at)) =~= entries);
    }
}

/// Pausing everything pauses exactly what is not finished, in its place; every other task stays as
/// it is. Pausing everything a second time finds nothing to pause and changes nothing.
pub proof fn pausing_all_twice_pauses_once(q: QueueModel, at: Moment, later: Moment)
    ensures
        ({
            let stopped = pause_all_step(q, at);
            &&& stopped.entries.len() == q.entries.len()
            &&& forall|i: int|
                0 <= i < q.entries.len() ==> #[trigger] stopped.entries[i] == if unfinished(
                    q.entries[i].task.state,
                ) {
                    paused(q.entries[i], at)
                } else {
                    q.entries[i]
                }
            &&& tokens(stopped.entries, |e: EntryModel| unfinished(e.task.state)).len() == 0
            &&& pause_all_step(stopped, later) == stopped
        }),
{
    let stopped = pause_all_step(q, at);
    lemma_sifted_closed(q.entries, after_pause_all(at));
    if q.entries.len() > 0 {
        lemma_pause_keeps(q.entries, at, 0);
    }
    assert forall|i: int| 0 <= i < q.entries.len() implies #[trigger] stopped.entries[i]
        == if unfinished(q.entries[i].task.state) {
        paused(q.entries[i], at)
    } else {
        q.entries[i]
    } by {
        lemma_pause_keeps(q.entries, at, i);
    }
    lemma_nothing_to_stop(stopped.entries, later);
    let fired = tokens(stopped.entries, |e: EntryModel| unfinished(e.task.state));
    assert(stopped.fired + fired =~= stopped.fired);
}

/// Pausing loses nothing: every task is still there under its id, with its parameters, and a task
/// that has parameters of its kind can be started again.
pub proof fn paused_tasks_can_be_restarted(
    q: QueueModel,
    id: Seq<char>,
    at: Moment,
    cancel: u64,
    later: Moment,
)
    requires
        q.well_formed(),
        q.has(id),
        unfinished(q.entry(id).task.state),
        q.entry(id).task.kind is Audio ==> q.entry(id).audio_retry is Some,
        q.entry(id).task.kind is Video ==> q.entry(id).video_retry is Some,
    ensures
        ({
            let stopped = pause_all_step(q, at);
            &&& stopped.has(id)
            &&& stopped.entry(id).task.state is Paused
            &&& stopped.entry(id).audio_retry == q.entry(id).audio_retry
            &&& stopped.entry(id).video_retry == q.entry(id).video_retry
            &&& retry_step(stopped, id, cancel, later) is Ok
        }),
{
    let stopped = pause_all_step(q, at);
    let i = place(q.entries, id);
    lemma_place(q.entries, id);
    lemma_pause_keeps(q.entries, at, i);
    assert(stopped.entries[i].task.id == id);
    assert forall|j: int| 0 <= j < i implies (#[trigger] stopped.entries[j]).task.id != id by {
        lemma_pause_keeps(q.entries, at, j);
        assert(q.entries[j].task.id != id);
    }
    lemma_place_is(stopped.entries, id, i);
}

/// Every start that asks for a prepared source gets a number of its own, so that what was prepared
/// for an earlier start is refused and its failure ignored.
pub proof fn a_stale_preparation_is_refused(
    q: QueueModel,
    id: Seq<char>,
    attempt: u64,
    now: Moment,
    url: Seq<char>,
)
    requires
        q.well_formed(),
        q.has(id),
        q.entry(id).audio_retry matches Some(r) && r.external_preparation,
        attempt <= q.entry(id).preparation_attempt < u64::MAX,
    ensures
        ({
            let e = audio_started(q.entry(id), now);
            let after = q.updated(id, e);
            &&& after.has(id)
            &&& after.entry(id).preparation_attempt > attempt
            &&& attach_refusal(after, id, attempt) == Some(DownloadError::PreparationIsStale)
            &&& !failure_counts(after.entry(id), attempt)
            &&& progress_step(after, id, Some(attempt), 1, 2, now) == after
        }),
{
    let e = audio_started(q.entry(id), now);
    lemma_place(q.entries, id);
    lemma_with_entry(q, id, e);
    let after = q.updated(id, e);
    assert(after.entries == q.with_entry(id, e).entries);
}

/// A prepared source is handed out once.
pub proof fn a_prepared_source_is_used_once(q: QueueModel, id: Seq<char>)
    requires
        q.well_formed(),
    ensures
        source_of(source_taken(q, id), id) is None,
{
    if q.has(id) {
        lemma_place(q.entries, id);
        lemma_with_entry(q, id, EntryModel { prepared_source_url: None, ..q.entry(id) });
    }
}

/// An explicit start releases what was queued before it, and not what is queued after it.
pub proof fn a_start_releases_only_what_waits(q: QueueModel, queued_generation: u64)
    requires
        q.start_generation < u64::MAX,
        !q.auto_start,
    ensures
        ({
            let after = QueueModel { start_generation: (q.start_generation + 1) as u64, ..q };
            &&& queued_generation <= q.start_generation ==> release(
                after,
                false,
                queued_generation,
                true,
            ) == Some(true)
            &&& release(after, false, after.start_generation, true) is None
        }),
{
}

/// A held task does not start by itself, whatever the automatic start says.
pub proof fn a_held_task_waits_for_an_explicit_start(q: QueueModel, queued_generation: u64)
    requires
        q.start_generation <= queued_generation,
    ensures
        release(q, false, queued_generation, false) is None,
{
}

/// The queue is cut to its length, unless nothing in it is finished.
pub proof fn the_queue_stays_short(q: QueueModel, e: EntryModel)
    ensures
        ({
            let after = insert_step(q, e);
            after.entries.len() <= MAX_HISTORY || forall|i: int|
                #![trigger after.entries[i]]
                0 <= i < after.entries.len() ==> !terminal(after.entries[i].task.state)
        }),
{
    lemma_shortened_end(inserted(q.entries, e));
}

proof fn lemma_shortened_end(entries: Seq<EntryModel>)
    ensures
        ({
            let w = shortened(entries);
            w.len() <= MAX_HISTORY || forall|i: int|
                #![trigger w[i]]
                0 <= i < w.len() ==> !terminal(w[i].task.state)
        }),
    decreases entries.len(),
{
    lemma_oldest_finished(entries);
    let p = oldest_finished(entries);
    if entries.len() > MAX_HISTORY && 0 <= p < entries.len() {
        lemma_shortened_end(entries.remove(p));
    }
}

/// Keeping the queue short never drops a task that is not finished.
pub proof fn unfinished_tasks_are_never_dropped(entries: Seq<EntryModel>, i: int)
    requires
        0 <= i < entries.len(),
        !terminal(entries[i].task.state),
    ensures
        shortened(entries).contains(entries[i]),
    decreases entries.len(),
{
    lemma_oldest_finished(entries);
    let p = oldest_finished(entries);
    if entries.len() > MAX_HISTORY && 0 <= p < entries.len() {
        let rest = entries.remove(p);
        if i < p {
            assert(rest[i] == entries[i]);
            unfinished_tasks_are_never_dropped(rest, i);
        } else {
            assert(rest[i - 1] == entries[i]);
            unfinished_tasks_are_never_dropped(rest, i - 1);
        }
    } else {
        assert(shortened(entries)[i] == entries[i]);
    }
}

/// Oldest first; those of the same age in the order of their ids.
pub open spec fn sorted_by_age(s: Seq<EntryModel>) -> bool {
    forall|i: int, j: int|
        #![trigger s[i], s[j]]
        0 <= i < j < s.len() ==> s[i].task.created_at < s[j].task.created_at || (
        s[i].task.created_at == s[j].task.created_at && less(s[i].task.id, s[j].task.id))
}

proof fn lemma_added_sorted(aged: Seq<EntryModel>, e: EntryModel)
    requires
        sorted_by_age(aged),
        forall|i: int| 0 <= i < aged.len() ==> less((#[trigger] aged[i]).task.id, e.task.id),
    ensures
        sorted_by_age(added_by_age(aged, e)),
        forall|i: int|
            #![trigger added_by_age(aged, e)[i]]
            0 <= i < added_by_age(aged, e).len() ==> added_by_age(aged, e)[i] == e || aged.contains(
                added_by_age(aged, e)[i],
            ),
    decreases aged.len(),
{
    let w = added_by_age(aged, e);
    if aged.len() > 0 && e.task.created_at < aged.last().task.created_at {
        let rest = aged.drop_last();
        assert forall|i: int, j: int|
            #![trigger rest[i], rest[j]]
            0 <= i < j < rest.len() implies rest[i].task.created_at < rest[j].task.created_at || (
        rest[i].task.created_at == rest[j].task.created_at && less(
            rest[i].task.id,
            rest[j].task.id,
        )) by {
            assert(rest[i] == aged[i] && rest[j] == aged[j]);
        }
        assert forall|i: int| 0 <= i < rest.len() implies less(
            (#[trigger] rest[i]).task.id,
            e.task.id,
        ) by {
            assert(rest[i] == aged[i]);
        }
        lemma_added_sorted(rest, e);
        let sub = added_by_age(rest, e);
        assert(w == sub.push(aged.last()));
        assert forall|i: int| #![trigger w[i]] 0 <= i < w.len() implies w[i] == e || aged.contains(
            w[i],
        ) by {
            if i < sub.len() {
                assert(w[i] == sub[i]);
                if sub[i] != e {
                    let k = choose|k: int| 0 <= k < rest.len() && rest[k] == sub[i];
                    assert(aged[k] == w[i]);
                }
            } else {
                assert(aged[aged.len() - 1] == w[i]);
            }
        }
        assert forall|i: int, j: int|
            #![trigger w[i], w[j]]
            0 <= i < j < w.len() implies w[i].task.created_at < w[j].task.created_at || (
        w[i].task.created_at == w[j].task.created_at && less(w[i].task.id, w[j].task.id)) by {
            if j < sub.len() {
                assert(w[i] == sub[i] && w[j] == sub[j]);
            } else {
                assert(w[i] == sub[i]);
                if sub[i] != e {
                    let k = choose|k: int| 0 <= k < rest.len() && rest[k] == sub[i];
                    assert(aged[k] == w[i]);
                    assert(aged[aged.len() - 1] == w[j]);
                }
            }
        }
    } else {
        assert(w == aged.push(e));
        assert forall|i: int| #![trigger w[i]] 0 <= i < w.len() implies w[i] == e || aged.contains(
            w[i],
        ) by {
            if i < aged.len() {
                assert(aged[i] == w[i]);
            }
        }
        assert forall|i: int, j: int|
            #![trigger w[i], w[j]]
            0 <= i < j < w.len() implies w[i].task.created_at < w[j].task.created_at || (
        w[i].task.created_at == w[j].task.created_at && less(w[i].task.id, w[j].task.id)) by {
            assert(w[i] == aged[i]);
            if j < aged.len() {
                assert(w[j] == aged[j]);
            } else if i < aged.len() - 1 {
                assert(aged[aged.len() - 1].task.created_at <= e.task.created_at);
                assert(aged[i].task.created_at <= aged[aged.len() - 1].task.created_at);
            }
        }
    }
}

/// A list of tasks is sorted by age, and holds exactly the tasks that it is about.
pub proof fn lists_are_sorted_and_complete(
    entries: Seq<EntryModel>,
    keep: spec_fn(EntryModel) -> bool,
)
    requires
        in_order(entries),
    ensures
        sorted_by_age(by_age(entries, keep)),
        forall|e: EntryModel|
            #![trigger by_age(entries, keep).contains(e)]
            by_age(entries, keep).contains(e) <==> entries.contains(e) && keep(e),
{
    crate::download_queue::lemma_by_age_elements(entries, keep);
    lemma_by_age_sorted(entries, keep);
}

proof fn lemma_by_age_sorted(entries: Seq<EntryModel>, keep: spec_fn(EntryModel) -> bool)
    requires
        in_order(entries),
    ensures
        sorted_by_age(by_age(entries, keep)),
    decreases entries.len(),
{
    if entries.len() > 0 {
        let rest = entries.drop_last();
        let last = entries.last();
        assert forall|i: int, j: int|
            #![trigger rest[i], rest[j]]
            0 <= i < j < rest.len() implies less(rest[i].task.id, rest[j].task.id) by {
            assert(rest[i] == entries[i] && rest[j] == entries[j]);
        }
        lemma_by_age_sorted(rest, keep);
        crate::download_queue::lemma_by_age_elements(rest, keep);
        let sub = by_age(rest, keep);
        assert forall|i: int| 0 <= i < sub.len() implies less(
            (#[trigger] sub[i]).task.id,
            last.task.id,
        ) by {
            assert(sub.contains(sub[i]));
            let k = choose|k: int| 0 <= k < rest.len() && rest[k] == sub[i];
            assert(entries[k] == sub[i]);
            assert(entries[entries.len() - 1] == last);
        }
        lemma_added_sorted(sub, last);
    }
}

} // verus!
