//! What an order puts into the queue, and what becomes of a task that is started again, makes
//! progress, ends or is stopped.

use vstd::prelude::*;

use crate::download_laws::unfinished_tasks_are_never_dropped;
use crate::download_orders::{
    audio_entry, hls_ticket, ordered_task, restart_all, retry_step, video_entry, video_quality,
    Order,
};
use crate::download_queue::{
    after_cancel_all, after_clear, after_pause_all, cancel_all_step, clear_step, insert_step,
    inserted, lemma_inserted, lemma_shortened, pause_all_step, paused, pending_of, restartable,
    sifted, tokens, unprepared, PendingModel,
};
use crate::downloads::{
    attach_refusal, audio_started, cancel_step, failure_counts, finished, height_refusal, in_order,
    in_window, lemma_place, lemma_place_is, lemma_with_entry, lemma_without, place,
    preparation_failed, progress_step, progressed, quality_refusal, remove_step, requeued, resolved,
    sampled, settled, share, speed_of, video_started, with_height, with_quality, DownloadError,
    EntryModel, EventModel, QueueModel,
};
use crate::models::{Moment, Quality, SongSource, TaskModel, TaskState, VideoDownloadRequest};
use crate::text::{
    all_digits, all_space, digits_value, extension_of, lemma_decimal_digits, lemma_less_irreflexive,
    less, lower, signed_decimal, trimmed,
};
use crate::text_laws::trimming_takes_the_white_space_around;
use crate::urls::UrlModel;

verus! {

/// A song goes to the folder that was asked for, and to the usual one where none was: the task says
/// so, and so do the parameters with which it is run again.
pub proof fn a_song_goes_where_it_was_asked_to(
    id: Seq<char>,
    source: SongSource,
    artist: Seq<char>,
    quality: Quality,
    analyze: bool,
    dest_dir: Seq<char>,
    usual_dir: Seq<char>,
    external: bool,
    cancel: u64,
    at: Moment,
)
    ensures
        ({
            let e = audio_entry(
                id,
                source,
                artist,
                quality,
                analyze,
                dest_dir,
                usual_dir,
                external,
                cancel,
                at,
            );
            &&& !all_space(dest_dir) ==> e.task.output_dir == dest_dir && e.audio_retry->0.dest_dir
                == dest_dir
            &&& all_space(dest_dir) ==> e.task.output_dir == usual_dir && e.audio_retry->0.dest_dir
                == usual_dir
            &&& e.task.dest_dir == dest_dir
            &&& e.audio_retry is Some && e.video_retry is None
        }),
{
    trimming_takes_the_white_space_around(dest_dir);
}

/// A video goes to the folder that was asked for, and to the usual one where none was.
pub proof fn a_video_goes_where_it_was_asked_to(
    id: Seq<char>,
    req: VideoDownloadRequest,
    usual_dir: Seq<char>,
    external: bool,
    cancel: u64,
    at: Moment,
)
    ensures
        ({
            let e = video_entry(id, req, usual_dir, external, cancel, at);
            &&& !all_space(req.dest_dir@) ==> e.task.output_dir == req.dest_dir@
                && e.video_retry->0.output_dir == req.dest_dir@
            &&& all_space(req.dest_dir@) ==> e.task.output_dir == usual_dir
                && e.video_retry->0.output_dir == usual_dir
            &&& e.task.dest_dir == req.dest_dir@
            &&& e.video_retry is Some && e.audio_retry is None
        }),
{
    trimming_takes_the_white_space_around(req.dest_dir@);
}

/// A song that is ordered waits, with nothing done yet; its task and its parameters are those of
/// the order.
pub proof fn a_song_order_keeps_what_was_asked(
    id: Seq<char>,
    source: SongSource,
    artist: Seq<char>,
    quality: Quality,
    analyze: bool,
    dest_dir: Seq<char>,
    usual_dir: Seq<char>,
    external: bool,
    cancel: u64,
    at: Moment,
)
    ensures
        ({
            let e = audio_entry(
                id,
                source,
                artist,
                quality,
                analyze,
                dest_dir,
                usual_dir,
                external,
                cancel,
                at,
            );
            let t = e.task;
            &&& t.id == id && t.kind is Audio && t.platform == source.platform
            &&& t.source_key == source.key@ && t.artist == artist && t.cover == source.cover@
            &&& source.title@.len() > 0 ==> t.title == source.title@
            &&& t.title.len() > 0 || source.title@.len() == 0
            &&& t.quality == quality.name()
            &&& t.state is Queued && t.phase is Waiting
            &&& t.progress.done == 0 && t.downloaded_bytes == 0 && t.total_bytes == 0
            &&& t.speed_bps.bytes == 0
            &&& t.path.len() == 0 && t.error.len() == 0 && t.track_id is None
            &&& t.created_at == at.wall && t.updated_at == at.wall
            &&& e.cancel == cancel && e.prepared_source_url is None && e.preparation_attempt == 0
            &&& e.audio_retry matches Some(r) && r.source == source@ && r.quality == quality
                && r.analyze == analyze && r.external_preparation == external
        }),
{
}

/// A video that is ordered waits, with nothing done yet. It is called by its title, else by its
/// key, else by its link; white space around any of them does not count.
pub proof fn a_video_order_keeps_what_was_asked(
    id: Seq<char>,
    req: VideoDownloadRequest,
    usual_dir: Seq<char>,
    external: bool,
    cancel: u64,
    at: Moment,
)
    ensures
        ({
            let e = video_entry(id, req, usual_dir, external, cancel, at);
            let t = e.task;
            &&& t.id == id && t.kind is Video && t.platform == req.platform
            &&& t.source_key == trimmed(req.bvid@) && t.artist == trimmed(req.artist@) && t.cover
                == trimmed(req.cover@)
            &&& !all_space(req.title@) ==> t.title == trimmed(req.title@)
            &&& all_space(req.title@) && !all_space(req.bvid@) ==> t.title == trimmed(req.bvid@)
            &&& all_space(req.title@) && all_space(req.bvid@) && !all_space(req.url@) ==> t.title
                == trimmed(req.url@)
            &&& t.state is Queued && t.phase is Waiting
            &&& t.progress.done == 0 && t.downloaded_bytes == 0 && t.total_bytes == 0
            &&& t.path.len() == 0 && t.error.len() == 0 && t.track_id is None
            &&& t.created_at == at.wall && t.updated_at == at.wall
            &&& (t.video_page is Some <==> req.platform is Bilibili)
            &&& req.platform is Bilibili ==> t.video_page->0.index == req.page_index
                && t.video_page->0.count == req.page_count && t.video_page->0.title == trimmed(
                req.page_title@,
            )
            &&& e.cancel == cancel && e.prepared_source_url is None && e.preparation_attempt == 0
            &&& e.video_retry matches Some(r) && r.request == req@ && r.external_preparation
                == external
        }),
{
    trimming_takes_the_white_space_around(req.title@);
    trimming_takes_the_white_space_around(req.bvid@);
    trimming_takes_the_white_space_around(req.url@);
}

/// The label of a video order is its height in digits, and a `p` behind them; an order for the
/// sound alone is labelled so.
pub proof fn a_video_is_labelled_by_its_height(audio_only: bool, height: i64)
    ensures
        audio_only ==> video_quality(audio_only, height) == "audio"@,
        !audio_only && height >= 0 ==> {
            let label = video_quality(audio_only, height);
            &&& label.len() > 1 && label.last() == 'p'
            &&& all_digits(label.drop_last()) && digits_value(label.drop_last()) == height
        },
{
    reveal_strlit("p");
    if height >= 0 {
        lemma_decimal_digits(height as nat);
        let label = signed_decimal(height as int) + "p"@;
        assert(label.drop_last() =~= signed_decimal(height as int));
    }
}

/// What is ordered is in the queue, under its id and as it was ordered; everything unfinished that
/// was there before under another id is there still, and the order is published last.
pub proof fn an_order_is_in_the_queue(q: QueueModel, e: EntryModel)
    requires
        q.well_formed(),
        e.well_formed(),
        e.task.state is Queued,
    ensures
        insert_step(q, e).has(e.task.id),
        insert_step(q, e).entry(e.task.id) == e,
        forall|i: int|
            #![trigger q.entries[i]]
            0 <= i < q.entries.len() && q.entries[i].task.id != e.task.id && !(
            q.entries[i].task.state is Done || q.entries[i].task.state is Failed
                || q.entries[i].task.state is Canceled) ==> insert_step(q, e).entries.contains(
                q.entries[i],
            ),
        insert_step(q, e).events == q.events.push(EventModel::Updated(e.task)),
        insert_step(q, e).fired == q.fired,
{
    let entries = inserted(q.entries, e);
    let after = insert_step(q, e).entries;
    lemma_inserted(q.entries, e);
    let p = place(entries, e.task.id);
    lemma_place(entries, e.task.id);
    unfinished_tasks_are_never_dropped(entries, p);
    lemma_shortened(entries);
    let k = choose|k: int| 0 <= k < after.len() && after[k] == e;
    lemma_unique(after, e.task.id, k);
    assert forall|i: int|
        #![trigger q.entries[i]]
        0 <= i < q.entries.len() && q.entries[i].task.id != e.task.id && !(
        q.entries[i].task.state is Done || q.entries[i].task.state is Failed
            || q.entries[i].task.state is Canceled) implies after.contains(q.entries[i]) by {
        let s = crate::download_queue::slot(q.entries, e.task.id);
        crate::download_queue::lemma_slot(q.entries, e.task.id);
        let m = if s < q.entries.len() && q.entries[s].task.id == e.task.id {
            i
        } else if i < s {
            i
        } else {
            i + 1
        };
        assert(entries[m] == q.entries[i]);
        unfinished_tasks_are_never_dropped(entries, m);
    }
}

proof fn lemma_unique(entries: Seq<EntryModel>, id: Seq<char>, k: int)
    requires
        in_order(entries),
        0 <= k < entries.len(),
        entries[k].task.id == id,
    ensures
        place(entries, id) == k,
{
    assert forall|j: int| 0 <= j < k implies (#[trigger] entries[j]).task.id != id by {
        assert(less(entries[j].task.id, entries[k].task.id));
        lemma_less_irreflexive(id);
    }
    lemma_place_is(entries, id, k);
}

/// A task starts again exactly where it is there, paused or failed, and its parameters are there.
/// It then waits anew, with nothing left of the last run, under its old name, folder and
/// parameters; no other task changes.
pub proof fn a_stopped_task_starts_again(q: QueueModel, id: Seq<char>, cancel: u64, at: Moment)
    requires
        q.well_formed(),
    ensures
        retry_step(q, id, cancel, at) is Ok <==> {
            &&& q.has(id)
            &&& q.entry(id).task.state is Paused || q.entry(id).task.state is Failed
            &&& q.entry(id).task.kind is Audio ==> q.entry(id).audio_retry is Some
            &&& q.entry(id).task.kind is Video ==> q.entry(id).video_retry is Some
        },
        !q.has(id) <==> retry_step(q, id, cancel, at) == Err::<QueueModel, DownloadError>(
            DownloadError::NotFound,
        ),
        q.has(id) && !(q.entry(id).task.state is Paused || q.entry(id).task.state is Failed)
            ==> retry_step(q, id, cancel, at) == Err::<QueueModel, DownloadError>(
            DownloadError::NotRestartable,
        ),
        retry_step(q, id, cancel, at) matches Ok(after) ==> {
            let e = q.entry(id);
            let n = after.entry(id);
            &&& after.has(id) && after.entries.len() == q.entries.len()
            &&& n.task.state is Queued && n.task.phase is Waiting && n.cancel == cancel
            &&& n.task.progress.done == 0 && n.task.downloaded_bytes == 0 && n.task.total_bytes == 0
            &&& n.task.speed_bps.bytes == 0 && n.samples.len() == 0
            &&& n.task.path.len() == 0 && n.task.error.len() == 0 && n.task.track_id is None
            &&& n.prepared_source_url is None && n.preparation_attempt == e.preparation_attempt
            &&& n.audio_retry == e.audio_retry && n.video_retry == e.video_retry
            &&& n.task.id == id && n.task.title == e.task.title && n.task.artist == e.task.artist
            &&& n.task.output_dir == e.task.output_dir && n.task.dest_dir == e.task.dest_dir
            &&& n.task.quality == e.task.quality && n.task.created_at == e.task.created_at
            &&& n.task.updated_at == at.wall
            &&& after.events == q.events.push(EventModel::Updated(n.task))
            &&& forall|i: int|
                #![trigger after.entries[i]]
                0 <= i < q.entries.len() && q.entries[i].task.id != id ==> after.entries[i]
                    == q.entries[i]
        },
{
    if q.has(id) {
        lemma_place(q.entries, id);
        lemma_with_entry(q, id, requeued(q.entry(id), cancel, at));
    }
}

proof fn lemma_retry_keeps(q: QueueModel, id: Seq<char>, cancel: u64, at: Moment, other: Seq<char>)
    requires
        q.well_formed(),
        other != id,
        retry_step(q, id, cancel, at) is Ok,
    ensures
        retry_step(q, id, cancel, at)->Ok_0.well_formed(),
        retry_step(q, id, cancel, at)->Ok_0.has(other) == q.has(other),
        q.has(other) ==> retry_step(q, id, cancel, at)->Ok_0.entry(other) == q.entry(other),
{
    let after = retry_step(q, id, cancel, at)->Ok_0;
    lemma_place(q.entries, id);
    lemma_with_entry(q, id, requeued(q.entry(id), cancel, at));
    lemma_place(q.entries, other);
    lemma_place(after.entries, other);
    let k = place(q.entries, other);
    assert forall|j: int| 0 <= j < k implies (#[trigger] after.entries[j]).task.id != other by {
        assert(q.entries[j].task.id != other);
    }
    lemma_place_is(after.entries, other, k);
}

proof fn lemma_restart_keeps(
    q: QueueModel,
    ids: Seq<Seq<char>>,
    first_token: u64,
    at: Moment,
    other: Seq<char>,
)
    requires
        q.well_formed(),
        !ids.contains(other),
    ensures
        restart_all(q, ids, first_token, at).0.well_formed(),
        restart_all(q, ids, first_token, at).0.has(other) == q.has(other),
        q.has(other) ==> restart_all(q, ids, first_token, at).0.entry(other) == q.entry(other),
    decreases ids.len(),
{
    if ids.len() > 0 {
        let front = ids.drop_last();
        assert(ids[ids.len() - 1] != other);
        assert(!front.contains(other)) by {
            if front.contains(other) {
                let k = choose|k: int| 0 <= k < front.len() && front[k] == other;
                assert(ids[k] == other);
            }
        }
        lemma_restart_keeps(q, front, first_token, at, other);
        let before = restart_all(q, front, first_token, at).0;
        let token = (first_token + ids.len() - 1) as u64;
        if retry_step(before, ids.last(), token, at) is Ok {
            lemma_retry_keeps(before, ids.last(), token, at, other);
        }
    }
}

/// Starting several tasks again starts every one of them that is paused or failed and has its
/// parameters, and no other.
pub proof fn every_stopped_task_is_restarted(
    q: QueueModel,
    ids: Seq<Seq<char>>,
    first_token: u64,
    at: Moment,
    k: int,
)
    requires
        q.well_formed(),
        ids.no_duplicates(),
        0 <= k < ids.len(),
    ensures
        restart_all(q, ids, first_token, at).1.contains(ids[k]) <==> {
            &&& q.has(ids[k])
            &&& q.entry(ids[k]).task.state is Paused || q.entry(ids[k]).task.state is Failed
            &&& q.entry(ids[k]).task.kind is Audio ==> q.entry(ids[k]).audio_retry is Some
            &&& q.entry(ids[k]).task.kind is Video ==> q.entry(ids[k]).video_retry is Some
        },
        forall|x: Seq<char>| #[trigger]
            restart_all(q, ids, first_token, at).1.contains(x) ==> ids.contains(x),
    decreases ids.len(),
{
    let front = ids.drop_last();
    let last = ids.last();
    let before = restart_all(q, front, first_token, at);
    let after = restart_all(q, ids, first_token, at);
    let token = (first_token + ids.len() - 1) as u64;
    assert(!front.contains(last)) by {
        if front.contains(last) {
            let j = choose|j: int| 0 <= j < front.len() && front[j] == last;
            assert(ids[j] == ids[ids.len() - 1]);
        }
    }
    lemma_restart_keeps(q, front, first_token, at, last);
    a_stopped_task_starts_again(before.0, last, token, at);
    assert(front.no_duplicates()) by {
        assert forall|i: int, j: int| 0 <= i < j < front.len() implies front[i] != front[j] by {
            assert(ids[i] != ids[j]);
        }
    }
    if front.len() > 0 {
        every_stopped_task_is_restarted(q, front, first_token, at, if k < front.len() { k } else { 0 });
    }
    assert forall|x: Seq<char>| #[trigger] after.1.contains(x) implies ids.contains(x) by {
        let i = choose|i: int| 0 <= i < after.1.len() && after.1[i] == x;
        if i < before.1.len() {
            assert(before.1[i] == x);
            assert(before.1.contains(x));
            let j = choose|j: int| 0 <= j < front.len() && front[j] == x;
            assert(ids[j] == x);
        } else {
            assert(ids[ids.len() - 1] == x);
        }
    }
    if k < front.len() {
        assert(front[k] == ids[k] && ids[k] != last) by {
            assert(ids[k] != ids[ids.len() - 1]);
        }
        if before.1.contains(ids[k]) {
            let i = choose|i: int| 0 <= i < before.1.len() && before.1[i] == ids[k];
            assert(after.1[i] == ids[k]);
        }
        if after.1.contains(ids[k]) {
            let i = choose|i: int| 0 <= i < after.1.len() && after.1[i] == ids[k];
            assert(before.1[i] == ids[k]);
        }
    } else {
        if after.1.len() > before.1.len() {
            assert(after.1[before.1.len() as int] == last);
        } else if after.1.contains(last) {
            assert(before.1.contains(last));
            assert(front.contains(last));
        }
    }
}

/// What a report of progress says is what the task says: the bytes, the total where it is known,
/// and the share of them. Once everything is there the task is being processed, until then it is
/// downloading.
pub proof fn progress_says_what_arrived(e: EntryModel, downloaded: u64, total: u64, at: Moment)
    ensures
        ({
            let t = progressed(e, downloaded, total, at).task;
            &&& t.downloaded_bytes == downloaded && t.updated_at == at.wall
            &&& total > 0 ==> t.total_bytes == total
            &&& total == 0 ==> t.total_bytes == e.task.total_bytes && t.progress.done == 0
            &&& 0 < downloaded < total ==> t.progress.done * total == downloaded * t.progress.whole
            &&& total > 0 && downloaded >= total ==> t.progress.done == t.progress.whole
            &&& total > 0 && downloaded == 0 ==> t.progress.done == 0
            &&& t.progress.whole > 0
            &&& if total > 0 && downloaded >= total {
                t.state is Processing && t.phase is PostProcessing && t.speed_bps.bytes == 0
            } else {
                t.state is Running && t.phase is Downloading
            }
            &&& t.id == e.task.id && t.title == e.task.title && t.path == e.task.path
            &&& t.error == e.task.error && t.created_at == e.task.created_at
        }),
{
    assert(downloaded * total == total * downloaded) by (nonlinear_arith);
}

/// A step of progress is published where the task was not downloading before, where everything is
/// there, where nothing was published yet or not for a quarter of a second, or where it is ahead by
/// a hundredth of the whole; otherwise it is only noted.
pub proof fn progress_is_published_now_and_then(
    q: QueueModel,
    id: Seq<char>,
    downloaded: u64,
    total: u64,
    at: Moment,
)
    requires
        q.well_formed(),
        q.has(id),
        q.entry(id).task.state is Queued || q.entry(id).task.state is Running
            || q.entry(id).task.state is Processing,
    ensures
        ({
            let e = q.entry(id);
            let after = progress_step(q, id, None, downloaded, total, at);
            let n = after.entry(id);
            let due = {
                ||| !(e.task.state is Running && e.task.phase is Downloading)
                ||| total > 0 && downloaded >= total
                ||| e.last_emit is None
                ||| at.mono - e.last_emit->0 >= 250_000
                ||| e.last_progress is None
                ||| (n.task.progress.done * e.last_progress->0.whole - e.last_progress->0.done
                    * n.task.progress.whole) * 100 >= n.task.progress.whole
                    * e.last_progress->0.whole
            };
            &&& n == progressed(e, downloaded, total, at)
            &&& due ==> after.events == q.events.push(EventModel::Updated(n.task)) && n.last_emit
                == Some(at.mono) && n.last_progress == Some(n.task.progress)
            &&& !due ==> after.events == q.events && n.last_emit == e.last_emit && n.last_progress
                == e.last_progress
        }),
{
    lemma_place(q.entries, id);
    let e = progressed(q.entry(id), downloaded, total, at);
    lemma_with_entry(q, id, e);
    let s = share(downloaded, total);
    if q.entry(id).last_progress is Some {
        let o = q.entry(id).last_progress->0;
        let d = s.done * o.whole - o.done * s.whole;
        assert(100 * d == d * 100);
    }
}

/// A rate is the bytes that arrived between the first and the last sample over the time between
/// them; there is none for less than a twentieth of a second.
pub proof fn a_rate_is_bytes_over_time(samples: Seq<(u64, u64)>)
    ensures
        samples.len() < 2 ==> speed_of(samples).bytes == 0,
        samples.len() >= 2 ==> {
            let time = samples.last().0 - samples[0].0;
            let bytes = samples.last().1 - samples[0].1;
            &&& time > 50_000 && bytes >= 0 ==> speed_of(samples).bytes == bytes && speed_of(
                samples,
            ).micros == time
            &&& time <= 50_000 || bytes < 0 ==> speed_of(samples).bytes == 0
        },
        speed_of(samples).micros > 0,
{
}

proof fn lemma_window(samples: Seq<(u64, u64)>, now: u64) -> (n: int)
    ensures
        0 <= n <= samples.len(),
        in_window(samples, now) == samples.skip(n),
        forall|i: int| 0 <= i < n ==> now - (#[trigger] samples[i]).0 > 3_000_000,
        samples.len() >= 2 ==> samples.len() - n >= 2,
        samples.len() < 2 ==> n == 0,
        samples.len() - n > 2 ==> now - samples[n].0 <= 3_000_000,
    decreases samples.len(),
{
    if samples.len() > 2 && now - samples[0].0 > 3_000_000 {
        let rest = samples.drop_first();
        let m = lemma_window(rest, now);
        assert(rest.skip(m) =~= samples.skip(m + 1));
        assert forall|i: int| 0 <= i < m + 1 implies now - (#[trigger] samples[i]).0 > 3_000_000 by {
            if i > 0 {
                assert(rest[i - 1] == samples[i]);
            }
        }
        m + 1
    } else {
        assert(samples.skip(0) =~= samples);
        0
    }
}

/// The newest sample is always kept. The others are the latest ones, in their order; only those
/// that are older than three seconds leave, or the oldest where there are more than sixty-four, and
/// the last two never.
pub proof fn samples_are_the_latest_ones(samples: Seq<(u64, u64)>, now: u64, downloaded: u64)
    ensures
        exists|n: int|
            #![trigger samples.push((now, downloaded)).skip(n)]
            {
                let all = samples.push((now, downloaded));
                &&& 0 <= n < all.len()
                &&& sampled(samples, now, downloaded) == all.skip(n)
                &&& forall|i: int|
                    (if samples.len() >= 64 {
                        1
                    } else {
                        0int
                    }) <= i < n ==> now - (#[trigger] all[i]).0 > 3_000_000
                &&& samples.len() <= 64 ==> sampled(samples, now, downloaded).len() <= 64
                &&& sampled(samples, now, downloaded).len() > 2 ==> now - sampled(
                    samples,
                    now,
                    downloaded,
                )[0].0 <= 3_000_000
                &&& samples.len() > 0 ==> sampled(samples, now, downloaded).len() >= 2
            },
        sampled(samples, now, downloaded).last() == (now, downloaded),
{
    let all = samples.push((now, downloaded));
    let cut = if all.len() > 64 {
        all.drop_first()
    } else {
        all
    };
    let m = lemma_window(cut, now);
    let d: int = if all.len() > 64 {
        1
    } else {
        0
    };
    assert(cut.skip(m) =~= all.skip(m + d));
    assert forall|i: int| d <= i < m + d implies now - (#[trigger] all[i]).0 > 3_000_000 by {
        assert(cut[i - d] == all[i]);
    }
    assert(all.skip(m + d).last() == all.last());
}

/// A finished task says where its file lies, how large it is and which track it has become; a song
/// says in which format it came.
pub proof fn a_finished_task_says_what_came(
    task: TaskModel,
    path: Seq<char>,
    size: u64,
    state: TaskState,
    error: Seq<char>,
    track_id: Option<i64>,
)
    ensures
        ({
            let t = finished(task, path, size, state, error, track_id);
            let suffix = lower(extension_of(path));
            &&& t.path == path && t.track_id == track_id && t.state == state && t.error == error
            &&& t.speed_bps.bytes == 0
            &&& state is Done ==> t.phase is Completed && t.progress.done == t.progress.whole
                && t.progress.whole > 0
            &&& !(state is Done) ==> t.phase == task.phase && t.progress == task.progress
            &&& size > 0 ==> t.downloaded_bytes == size
            &&& size == 0 ==> t.downloaded_bytes == task.downloaded_bytes && t.total_bytes
                == task.total_bytes
            &&& size > 0 && task.kind is Audio ==> t.total_bytes == size
            &&& size > 0 && task.kind is Video ==> t.total_bytes == (if task.total_bytes < size {
                size
            } else {
                task.total_bytes
            })
            &&& task.kind is Video ==> t.quality == task.quality
            &&& task.kind is Audio && (suffix == "flac"@ || suffix == "mp3"@ || suffix == "m4a"@
                || suffix == "wav"@ || suffix == "aac"@ || suffix == "ogg"@ || suffix == "opus"@
                || suffix == "mp4"@) ==> t.quality == suffix
            &&& task.kind is Audio && suffix.len() == 0 ==> t.quality == task.quality
            &&& t.id == task.id && t.title == task.title && t.output_dir == task.output_dir
                && t.created_at == task.created_at
        }),
{
    reveal_strlit("flac");
    reveal_strlit("mp3");
    reveal_strlit("m4a");
    reveal_strlit("wav");
    reveal_strlit("aac");
    reveal_strlit("ogg");
    reveal_strlit("opus");
    reveal_strlit("mp4");
}

/// Cancelling fires the token of the task. A task that waits leaves the queue, one that is worked
/// on is marked as cancelled, one that is paused stays as it is.
pub proof fn cancelling_stops_the_task(q: QueueModel, id: Seq<char>, at: Moment)
    requires
        q.well_formed(),
        q.has(id),
        !(q.entry(id).task.state is Done || q.entry(id).task.state is Failed || q.entry(
            id,
        ).task.state is Canceled),
    ensures
        ({
            let e = q.entry(id);
            let after = cancel_step(q, id, at);
            &&& after.fired == q.fired.push(e.cancel)
            &&& e.task.state is Queued ==> !after.has(id) && after.entries.len() + 1
                == q.entries.len()
            &&& e.task.state is Paused ==> after.entries == q.entries && after.events == q.events
            &&& e.task.state is Running || e.task.state is Processing ==> {
                let n = after.entry(id);
                &&& after.has(id) && after.entries.len() == q.entries.len()
                &&& n.task.state is Canceled && n.task.speed_bps.bytes == 0
                &&& n.task.updated_at == at.wall && n.task.error == "已取消"@
                &&& n.audio_retry == e.audio_retry && n.video_retry == e.video_retry
                &&& n.task.downloaded_bytes == e.task.downloaded_bytes && n.task.path == e.task.path
                &&& after.events == q.events.push(EventModel::Updated(n.task))
            }
            &&& forall|i: int|
                #![trigger q.entries[i]]
                0 <= i < q.entries.len() && q.entries[i].task.id != id ==> after.entries.contains(
                    q.entries[i],
                )
        }),
{
    let e = q.entry(id);
    let after = cancel_step(q, id, at);
    let p = place(q.entries, id);
    lemma_place(q.entries, id);
    if e.task.state is Queued {
        lemma_without(q, id);
    } else if e.task.state is Running || e.task.state is Processing {
        lemma_with_entry(
            q,
            id,
            e.with_task(settled(e.task, TaskState::Canceled, "已取消"@)).touched(at),
        );
    }
    assert forall|i: int|
        #![trigger q.entries[i]]
        0 <= i < q.entries.len() && q.entries[i].task.id != id implies after.entries.contains(
        q.entries[i],
    ) by {
        let m = if e.task.state is Queued && i > p {
            i - 1
        } else {
            i
        };
        assert(after.entries[m] == q.entries[i]);
    }
}

proof fn lemma_sifted_holds(
    entries: Seq<EntryModel>,
    f: spec_fn(EntryModel) -> Option<EntryModel>,
    k: int,
)
    requires
        0 <= k < entries.len(),
        f(entries[k]) is Some,
    ensures
        sifted(entries, f).contains(f(entries[k])->0),
    decreases entries.len(),
{
    let front = entries.drop_last();
    let all = sifted(entries, f);
    if k < front.len() {
        lemma_sifted_holds(front, f, k);
        let x = f(entries[k])->0;
        let i = choose|i: int| 0 <= i < sifted(front, f).len() && sifted(front, f)[i] == x;
        assert(all[i] == x);
    } else {
        assert(all[all.len() - 1] == f(entries[k])->0);
    }
}

proof fn lemma_sifted_from(
    entries: Seq<EntryModel>,
    f: spec_fn(EntryModel) -> Option<EntryModel>,
    i: int,
) -> (k: int)
    requires
        0 <= i < sifted(entries, f).len(),
    ensures
        0 <= k < entries.len(),
        f(entries[k]) == Some(sifted(entries, f)[i]),
    decreases entries.len(),
{
    let front = entries.drop_last();
    if i < sifted(front, f).len() {
        let k = lemma_sifted_from(front, f, i);
        assert(front[k] == entries[k]);
        k
    } else {
        entries.len() - 1
    }
}

proof fn lemma_tokens(entries: Seq<EntryModel>, pick: spec_fn(EntryModel) -> bool, token: u64)
    ensures
        tokens(entries, pick).contains(token) <==> exists|k: int|
            0 <= k < entries.len() && pick(#[trigger] entries[k]) && entries[k].cancel == token,
    decreases entries.len(),
{
    if entries.len() > 0 {
        let front = entries.drop_last();
        let before = tokens(front, pick);
        let all = tokens(entries, pick);
        lemma_tokens(front, pick, token);
        if all.contains(token) {
            let i = choose|i: int| 0 <= i < all.len() && all[i] == token;
            if i < before.len() {
                assert(before[i] == token);
                let k = choose|k: int|
                    0 <= k < front.len() && pick(#[trigger] front[k]) && front[k].cancel == token;
                assert(front[k] == entries[k]);
            } else {
                assert(pick(entries[entries.len() - 1]));
            }
        }
        if exists|k: int|
            0 <= k < entries.len() && pick(#[trigger] entries[k]) && entries[k].cancel == token {
            let k = choose|k: int|
                0 <= k < entries.len() && pick(#[trigger] entries[k]) && entries[k].cancel == token;
            if k < front.len() {
                assert(front[k] == entries[k]);
                let i = choose|i: int| 0 <= i < before.len() && before[i] == token;
                assert(all[i] == token);
            } else {
                assert(all[before.len() as int] == token);
            }
        }
    }
}

proof fn lemma_fired(old: Seq<u64>, new: Seq<u64>, token: u64)
    ensures
        (old + new).contains(token) <==> old.contains(token) || new.contains(token),
{
    if old.contains(token) {
        let i = choose|i: int| 0 <= i < old.len() && old[i] == token;
        assert((old + new)[i] == token);
    }
    if new.contains(token) {
        let i = choose|i: int| 0 <= i < new.len() && new[i] == token;
        assert((old + new)[old.len() + i] == token);
    }
    if (old + new).contains(token) {
        let i = choose|i: int| 0 <= i < (old + new).len() && (old + new)[i] == token;
        if i < old.len() {
            assert(old[i] == token);
        } else {
            assert(new[i - old.len()] == token);
        }
    }
}

/// Pausing everything: what waits or is worked on is paused, with its parameters and what it has
/// got so far; every other task stays as it is. The tokens of those that are paused are fired.
pub proof fn pausing_all_pauses_the_unfinished(q: QueueModel, at: Moment, k: int)
    requires
        0 <= k < q.entries.len(),
    ensures
        ({
            let e = q.entries[k];
            let after = pause_all_step(q, at);
            let works = e.task.state is Queued || e.task.state is Running
                || e.task.state is Processing;
            &&& !works ==> after.entries.contains(e)
            &&& works ==> after.fired.contains(e.cancel) && exists|i: int|
                0 <= i < after.entries.len() && {
                    let n = #[trigger] after.entries[i];
                    &&& n.task.id == e.task.id && n.task.state is Paused && n.task.phase is Waiting
                    &&& n.task.speed_bps.bytes == 0 && n.task.error.len() == 0
                    &&& n.task.downloaded_bytes == e.task.downloaded_bytes && n.task.progress
                        == e.task.progress && n.task.updated_at == at.wall
                    &&& n.audio_retry == e.audio_retry && n.video_retry == e.video_retry
                    &&& n.prepared_source_url is None
                }
        }),
{
    let e = q.entries[k];
    let f = after_pause_all(at);
    let after = pause_all_step(q, at);
    lemma_sifted_holds(q.entries, f, k);
    let i = choose|i: int| 0 <= i < after.entries.len() && after.entries[i] == f(e)->0;
    assert(after.entries[i] == f(e)->0);
    let pick = |e: EntryModel| crate::download_queue::unfinished(e.task.state);
    lemma_tokens(q.entries, pick, e.cancel);
    assert(pick(q.entries[k]) == crate::download_queue::unfinished(e.task.state));
    lemma_fired(q.fired, tokens(q.entries, pick), e.cancel);
}

/// Clearing leaves exactly what is worked on.
pub proof fn clearing_leaves_what_is_worked_on(q: QueueModel, e: EntryModel)
    ensures
        clear_step(q).entries.contains(e) <==> q.entries.contains(e) && (e.task.state is Running
            || e.task.state is Processing),
{
    let f = after_clear();
    let after = clear_step(q).entries;
    if after.contains(e) {
        let i = choose|i: int| 0 <= i < after.len() && after[i] == e;
        let k = lemma_sifted_from(q.entries, f, i);
        assert(q.entries[k] == e);
    }
    if q.entries.contains(e) && (e.task.state is Running || e.task.state is Processing) {
        let k = choose|k: int| 0 <= k < q.entries.len() && q.entries[k] == e;
        lemma_sifted_holds(q.entries, f, k);
    }
}

/// Cancelling everything: what waits leaves, what is worked on is marked as cancelled, the rest
/// stays. The tokens of all that waited or was worked on are fired.
pub proof fn cancelling_all_stops_the_unfinished(q: QueueModel, at: Moment, k: int)
    requires
        q.well_formed(),
        0 <= k < q.entries.len(),
    ensures
        ({
            let e = q.entries[k];
            let after = cancel_all_step(q, at);
            &&& e.task.state is Queued ==> after.fired.contains(e.cancel) && forall|i: int|
                0 <= i < after.entries.len() ==> (#[trigger] after.entries[i]).task.id != e.task.id
            &&& e.task.state is Running || e.task.state is Processing ==> after.fired.contains(
                e.cancel,
            ) && exists|i: int|
                0 <= i < after.entries.len() && {
                    let n = #[trigger] after.entries[i];
                    n.task.id == e.task.id && n.task.state is Canceled && n.task.speed_bps.bytes == 0
                        && n.task.updated_at == at.wall
                }
            &&& e.task.state is Paused || e.task.state is Done || e.task.state is Failed
                || e.task.state is Canceled ==> after.entries.contains(e)
        }),
{
    let e = q.entries[k];
    let f = after_cancel_all(at);
    let after = cancel_all_step(q, at);
    let pick = |e: EntryModel| crate::download_queue::unfinished(e.task.state);
    lemma_tokens(q.entries, pick, e.cancel);
    assert(pick(q.entries[k]) == crate::download_queue::unfinished(e.task.state));
    lemma_fired(q.fired, tokens(q.entries, pick), e.cancel);
    if e.task.state is Queued {
        assert forall|i: int| 0 <= i < after.entries.len() implies (#[trigger] after.entries[i]).task.id
            != e.task.id by {
            let m = lemma_sifted_from(q.entries, f, i);
            if after.entries[i].task.id == e.task.id {
                assert(q.entries[m].task.id == e.task.id);
                lemma_less_irreflexive(e.task.id);
                if m < k {
                    assert(less(q.entries[m].task.id, q.entries[k].task.id));
                } else if k < m {
                    assert(less(q.entries[k].task.id, q.entries[m].task.id));
                }
            }
        }
    } else {
        lemma_sifted_holds(q.entries, f, k);
        let i = choose|i: int| 0 <= i < after.entries.len() && after.entries[i] == f(e)->0;
        assert(after.entries[i] == f(e)->0);
    }
}

/// A song that begins asks for its source where it is prepared outside, which is a new attempt, and
/// looks for it itself otherwise. A video is looked up first in either case. The time is counted
/// from the start.
pub proof fn a_start_is_a_new_attempt(e: EntryModel, at: Moment)
    requires
        e.preparation_attempt < u64::MAX,
    ensures
        ({
            let n = audio_started(e, at);
            &&& n.task.state is Running && n.samples == e.samples.push((at.mono, 0))
            &&& e.audio_retry->0.external_preparation ==> n.task.phase is Authorizing
                && n.preparation_attempt == e.preparation_attempt + 1
            &&& !e.audio_retry->0.external_preparation ==> n.task.phase is Resolving
                && n.preparation_attempt == e.preparation_attempt
            &&& n.task.id == e.task.id && n.cancel == e.cancel && n.audio_retry == e.audio_retry
        }),
        ({
            let n = video_started(e, at);
            &&& n.task.state is Running && n.samples == e.samples.push((at.mono, 0))
            &&& n.task.phase is Resolving
            &&& e.video_retry->0.external_preparation ==> n.preparation_attempt
                == e.preparation_attempt + 1
            &&& !e.video_retry->0.external_preparation ==> n.preparation_attempt
                == e.preparation_attempt
            &&& n.task.id == e.task.id && n.cancel == e.cancel && n.video_retry == e.video_retry
        }),
{
}

/// Another quality or height is what the task shows and what it is run with; nothing else of it
/// changes, but that a source which was prepared for the old one is dropped.
pub proof fn another_quality_is_what_is_run(e: EntryModel, quality: Quality, height: i64, at: Moment)
    requires
        e.audio_retry is Some,
        e.video_retry is Some,
        height >= 0,
    ensures
        ({
            let n = with_quality(e, quality, at);
            &&& n.task.quality == quality.name() && n.audio_retry->0.quality == quality
            &&& n.audio_retry->0.source == e.audio_retry->0.source && n.audio_retry->0.dest_dir
                == e.audio_retry->0.dest_dir && n.audio_retry->0.analyze == e.audio_retry->0.analyze
            &&& n.prepared_source_url is None && n.task.state == e.task.state && n.task.id
                == e.task.id && n.video_retry == e.video_retry && n.cancel == e.cancel
        }),
        ({
            let n = with_height(e, height, at);
            &&& n.task.quality.last() == 'p' && digits_value(n.task.quality.drop_last()) == height
            &&& n.video_retry->0.request.max_height == height
            &&& n.video_retry->0.request.url == e.video_retry->0.request.url
                && n.video_retry->0.request.bvid == e.video_retry->0.request.bvid
                && n.video_retry->0.output_dir == e.video_retry->0.output_dir
            &&& n.prepared_source_url is None && n.task.state == e.task.state && n.task.id
                == e.task.id && n.audio_retry == e.audio_retry && n.cancel == e.cancel
        }),
{
    a_video_is_labelled_by_its_height(false, height);
}

/// The quality of a song may be changed exactly while the song waits, is paused or has failed; the
/// height of a video likewise, between 144 and 4320, and not where only its sound is wanted.
pub proof fn parameters_change_before_the_start(q: QueueModel, id: Seq<char>, height: i64)
    ensures
        quality_refusal(q, id) is None <==> {
            &&& q.has(id) && q.entry(id).task.kind is Audio && q.entry(id).audio_retry is Some
            &&& q.entry(id).task.state is Queued || q.entry(id).task.state is Paused || q.entry(
                id,
            ).task.state is Failed
        },
        height_refusal(q, id, height) is None <==> {
            &&& 144 <= height <= 4320
            &&& q.has(id) && q.entry(id).task.kind is Video && q.entry(id).video_retry is Some
            &&& q.entry(id).task.state is Queued || q.entry(id).task.state is Paused || q.entry(
                id,
            ).task.state is Failed
            &&& !q.entry(id).video_retry->0.request.audio_only
        },
        !(144 <= height <= 4320) <==> height_refusal(q, id, height) == Some(
            DownloadError::HeightOutOfRange,
        ),
        quality_refusal(q, id) == Some(DownloadError::NotFound) <==> !q.has(id),
{
}

/// A prepared source is taken exactly for the current attempt of a task that is worked on, asked
/// for one, and has none yet; a failed preparation likewise counts for the current attempt alone.
pub proof fn a_source_is_taken_for_its_attempt(q: QueueModel, id: Seq<char>, attempt: u64)
    requires
        q.has(id),
        q.entry(id).audio_retry is Some && q.entry(id).audio_retry->0.external_preparation,
    ensures
        attach_refusal(q, id, attempt) is None <==> {
            &&& attempt >= 1 && q.entry(id).preparation_attempt == attempt
            &&& q.entry(id).task.state is Running || q.entry(id).task.state is Processing
            &&& q.entry(id).prepared_source_url is None
        },
        failure_counts(q.entry(id), attempt) <==> {
            &&& attempt >= 1 && q.entry(id).preparation_attempt == attempt
            &&& q.entry(id).task.state is Queued || q.entry(id).task.state is Running || q.entry(
                id,
            ).task.state is Processing
        },
{
}

/// A preparation that failed leaves the task failed, with the message, and with the parameters to
/// try again.
pub proof fn a_failed_preparation_can_be_tried_again(e: EntryModel, error: Seq<char>, at: Moment)
    ensures
        ({
            let n = preparation_failed(e, error, at);
            &&& n.task.state is Failed && n.task.phase is Authorizing && n.task.error == error
            &&& n.task.speed_bps.bytes == 0 && n.task.updated_at == at.wall
            &&& n.audio_retry == e.audio_retry && n.video_retry == e.video_retry
            &&& n.task.id == e.task.id && n.preparation_attempt == e.preparation_attempt
        }),
{
}

/// Looking up a video fills in what is missing: the key always, the artist and the cover where they
/// are blank, the title where it only stood in for one, and which part of how many it is. What was
/// known stays.
pub proof fn a_lookup_fills_in_what_is_missing(
    e: EntryModel,
    bvid: Seq<char>,
    title: Seq<char>,
    author: Seq<char>,
    cover: Seq<char>,
    pages: Seq<Seq<char>>,
    at: Moment,
)
    requires
        e.video_retry is Some,
        pages.len() <= usize::MAX,
    ensures
        ({
            let n = resolved(e, bvid, title, author, cover, pages, at);
            let r = e.video_retry->0.request;
            let blank = e.task.title.len() == 0 || e.task.title == "未命名"@ || "BV"@.is_prefix_of(
                e.task.title,
            );
            &&& !all_space(bvid) ==> n.task.source_key == trimmed(bvid)
                && n.video_retry->0.request.bvid == trimmed(bvid)
            &&& all_space(bvid) ==> n.task.source_key == e.task.source_key
                && n.video_retry->0.request.bvid == r.bvid
            &&& blank && title.len() > 0 ==> n.task.title == title
            &&& title.len() == 0 ==> n.task.title == e.task.title
            &&& all_space(e.task.artist) ==> n.task.artist == author
            &&& !all_space(e.task.artist) ==> n.task.artist == e.task.artist
            &&& all_space(e.task.cover) && !all_space(cover) ==> n.task.cover == cover
            &&& !all_space(e.task.cover) || all_space(cover) ==> n.task.cover == e.task.cover
            &&& e.task.platform is Bilibili ==> {
                &&& n.task.video_page matches Some(page) && page.index == r.page_index && page.count
                    == pages.len() && (r.page_index < pages.len() ==> page.title
                    == pages[r.page_index as int])
                &&& n.video_retry->0.request.page_count == pages.len()
            }
            &&& !(e.task.platform is Bilibili) ==> n.task.video_page == e.task.video_page
            &&& n.video_retry->0.request.url == r.url && n.video_retry->0.request.max_height
                == r.max_height && n.video_retry->0.output_dir == e.video_retry->0.output_dir
            &&& n.task.id == e.task.id && n.task.state == e.task.state && n.task.phase
                == e.task.phase && n.task.updated_at == at.wall
        }),
{
    trimming_takes_the_white_space_around(bvid);
    trimming_takes_the_white_space_around(e.task.artist);
    trimming_takes_the_white_space_around(e.task.cover);
    trimming_takes_the_white_space_around(cover);
}

/// A local stream is told by its ticket: sixty-four hexadecimal digits behind the path, on this
/// machine.
pub proof fn a_local_stream_has_a_ticket(url: UrlModel, ticket: Seq<char>)
    requires
        url.path == "/api/video/youtube/hls/"@ + ticket,
    ensures
        hls_ticket(url) is Some <==> {
            &&& url.host == Some("127.0.0.1"@) || url.host == Some("localhost"@) || url.host == Some(
                "::1"@,
            )
            &&& ticket.len() == 64
            &&& forall|i: int|
                0 <= i < 64 ==> (('0' <= #[trigger] ticket[i] && ticket[i] <= '9') || ('a'
                    <= ticket[i] && ticket[i] <= 'f') || ('A' <= ticket[i] && ticket[i] <= 'F'))
        },
        hls_ticket(url) is Some ==> hls_ticket(url) == Some(ticket),
{
    let prefix = "/api/video/youtube/hls/"@;
    assert(url.path.take(prefix.len() as int) =~= prefix);
    assert(url.path.skip(prefix.len() as int) =~= ticket);
}

/// A task of an order waits, with nothing done, as it was ordered.
pub proof fn an_order_becomes_a_waiting_task(id: Seq<char>, o: Order, at: Moment)
    ensures
        ({
            let t = ordered_task(id, o, at);
            &&& t.id == id && t.kind == o.kind && t.platform == o.platform && t.source_key
                == o.source_key@ && t.artist == o.artist@ && t.quality == o.quality@ && t.dest_dir
                == o.dest_dir@ && t.output_dir == o.output_dir@ && t.cover == o.cover@
            &&& o.title@.len() > 0 ==> t.title == o.title@
            &&& o.title@.len() == 0 ==> t.title == "未命名"@
            &&& t.state is Queued && t.phase is Waiting && t.progress.done == 0
            &&& t.downloaded_bytes == 0 && t.total_bytes == 0 && t.path.len() == 0 && t.error.len()
                == 0 && t.track_id is None && t.created_at == at.wall && t.updated_at == at.wall
        }),
{
}

/// A source is wanted for a task that runs, asks for it, and has none yet, where it is prepared
/// outside; what is handed out names the task, its attempt, and what it is about.
pub proof fn a_source_is_wanted_once(e: EntryModel)
    ensures
        unprepared(e) <==> {
            &&& e.task.state is Running && e.task.phase is Authorizing && e.prepared_source_url
                is None
            &&& e.task.kind is Audio ==> e.audio_retry is Some
                && e.audio_retry->0.external_preparation
            &&& e.task.kind is Video ==> e.video_retry is Some
                && e.video_retry->0.external_preparation
        },
        e.task.kind is Audio ==> (pending_of(e) matches PendingModel::Audio {
            id,
            attempt,
            platform,
            source,
            quality,
        } && id == e.task.id && attempt == e.preparation_attempt && platform == e.task.platform
            && source == e.audio_retry->0.source && quality == e.audio_retry->0.quality),
        e.task.kind is Video ==> (pending_of(e) matches PendingModel::Video {
            id,
            attempt,
            platform,
            request,
        } && id == e.task.id && attempt == e.preparation_attempt && platform == e.task.platform
            && request == e.video_retry->0.request),
        restartable(e) <==> (e.task.state is Paused || e.task.state is Failed) && (e.audio_retry
            is Some || e.video_retry is Some),
{
}

/// A task leaves the list exactly where nobody works on it and it does not wait: one that is paused or
/// has ended. Every other task stays.
pub proof fn only_idle_tasks_leave_the_list(q: QueueModel, id: Seq<char>)
    requires
        q.well_formed(),
        q.has(id),
    ensures
        ({
            let after = remove_step(q, id);
            let idle = q.entry(id).task.state is Paused || q.entry(id).task.state is Done || q.entry(
                id,
            ).task.state is Failed || q.entry(id).task.state is Canceled;
            &&& idle <==> !after.has(id)
            &&& !idle ==> after == q
            &&& forall|i: int|
                #![trigger q.entries[i]]
                0 <= i < q.entries.len() && q.entries[i].task.id != id ==> after.entries.contains(
                    q.entries[i],
                )
        }),
{
    lemma_place(q.entries, id);
    lemma_without(q, id);
    let after = remove_step(q, id);
    let p = place(q.entries, id);
    assert forall|i: int|
        #![trigger q.entries[i]]
        0 <= i < q.entries.len() && q.entries[i].task.id != id implies after.entries.contains(
        q.entries[i],
    ) by {
        let m = if after.entries.len() == q.entries.len() || i < p {
            i
        } else {
            i - 1
        };
        assert(after.entries[m] == q.entries[i]);
    }
}

} // verus!
