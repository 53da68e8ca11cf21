//! What batches of work do, what a lookup hands out, and what a journal brings back.

use vstd::prelude::*;

use crate::analysis::{
    chunk_size, distinct_jobs, has_job, job_at, left_in, left_of, lemma_job_at_is, registered,
    stopped, tokens_of, unregistered, AnalysisWriteTarget, JobModel, RegistryModel, WorkerAction,
    WorkerEvent, WorkerModel, WorkerStage,
};
use crate::anlz::{cue_key, first_with_key, kept_piece};
use crate::download_journal::{clamped, PersistedModel};
use crate::lyric_lookup::{lookup_of, LookupModel, LookupStage, LyricModel, LyricsWant};
use crate::lyrics::{by_match, engines_of, preferred, qualified, CandidateModel, LyricsRequestModel};
use crate::media_files::{
    extract_next, extract_start, mtime_of, stem_track, video_next, video_start, ConvertWant,
};
use crate::models::{Fraction, Platform};
use crate::text::{all_space, trimmed};
use crate::text_laws::trimming_takes_the_white_space_around;

verus! {

/// A worker takes a track from the library, analyses it, keeps the result and reports it. Where the
/// results are kept in the first form, the waveform is made before the report, and before that the
/// tags are written, if that is wanted; a file whose tags were written is noted.
pub proof fn a_track_is_analysed_and_kept(worker: WorkerModel)
    requires
        worker.well_formed(),
        worker.next < worker.ids.len(),
    ensures
        ({
            let id = worker.ids[worker.next];
            &&& worker.stage == WorkerStage::Loading ==> worker.wants() == WorkerAction::Load(id)
                && worker.after(WorkerEvent::Loaded(true)).wants() == WorkerAction::Analyze(id)
            &&& worker.stage == WorkerStage::Analyzing ==> worker.after(
                WorkerEvent::Analyzed,
            ).wants() == WorkerAction::Save(id, worker.target)
            &&& worker.stage == WorkerStage::Saving ==> {
                let kept = worker.after(WorkerEvent::Saved(true));
                &&& worker.target == AnalysisWriteTarget::BpmKeyV2 ==> kept.wants()
                    == WorkerAction::Report(id)
                &&& worker.target == AnalysisWriteTarget::V1 && worker.write_tags ==> kept.wants()
                    == WorkerAction::WriteTags(id)
                &&& worker.target == AnalysisWriteTarget::V1 && !worker.write_tags ==> kept.wants()
                    == WorkerAction::WarmWaveform(id)
            }
            &&& worker.stage == WorkerStage::Tagging ==> worker.after(
                WorkerEvent::Tagged(true),
            ).wants() == WorkerAction::SyncFile(id) && worker.after(
                WorkerEvent::Tagged(false),
            ).wants() == WorkerAction::WarmWaveform(id)
            &&& worker.stage == WorkerStage::Syncing ==> worker.after(WorkerEvent::Synced).wants()
                == WorkerAction::WarmWaveform(id)
            &&& worker.stage == WorkerStage::Warming ==> worker.after(WorkerEvent::Warmed).wants()
                == WorkerAction::Report(id)
        }),
{
}

/// A worker goes to the next track after a report, and also where the track is not in the library
/// or its result could not be kept; behind the last track it is finished.
pub proof fn a_worker_goes_to_the_next_track(worker: WorkerModel, event: WorkerEvent)
    requires
        worker.well_formed(),
        worker.next < worker.ids.len(),
        worker.stage == WorkerStage::Reporting && event == WorkerEvent::Reported || worker.stage
            == WorkerStage::Loading && event == WorkerEvent::Loaded(false) || worker.stage
            == WorkerStage::Saving && event == WorkerEvent::Saved(false),
    ensures
        ({
            let after = worker.after(event);
            &&& after.next == worker.next + 1 && after.ids == worker.ids
            &&& after.next < worker.ids.len() ==> after.wants() == WorkerAction::CheckStopped
            &&& after.next == worker.ids.len() ==> after.wants() == WorkerAction::Finish
        }),
{
}

/// A worker that was not stopped gives way before its track, unless that is the one that plays, and
/// then takes a permit; the one that plays takes none.
pub proof fn a_worker_waits_its_turn(worker: WorkerModel)
    requires
        worker.well_formed(),
        worker.next < worker.ids.len(),
    ensures
        worker.stage == WorkerStage::Top && !worker.priority ==> worker.after(
            WorkerEvent::Stopped(false),
        ).wants() == WorkerAction::GiveWay,
        worker.stage == WorkerStage::Yielding ==> worker.after(WorkerEvent::Claims(0, false)).wants()
            == WorkerAction::TakePermit,
        worker.stage == WorkerStage::Top && worker.priority ==> worker.after(
            WorkerEvent::Stopped(false),
        ).stage == WorkerStage::Gate,
        worker.stage == WorkerStage::Gate ==> worker.after(WorkerEvent::Stopped(false)).wants()
            == WorkerAction::Load(worker.ids[worker.next]),
{
}

/// The workers of a batch get equal shares: none gets more than its share, and the shares of all
/// hold every track.
pub proof fn shares_hold_every_track(count: nat, workers: nat)
    requires
        workers > 0,
        count > 0,
    ensures
        chunk_size(count, workers) >= 1,
        chunk_size(count, workers) * workers >= count,
        (chunk_size(count, workers) - 1) * workers < count,
{
    let c = count as int;
    let w = workers as int;
    vstd::arithmetic::div_mod::lemma_fundamental_div_mod(c, w);
    vstd::arithmetic::div_mod::lemma_mod_bound(c, w);
    let d = c / w;
    let m = c % w;
    assert(c == w * d + m);
    assert(d >= 0) by (nonlinear_arith)
        requires
            c == w * d + m,
            c > 0,
            0 <= m < w,
    ;
    assert((d + 1) * w == w * d + w) by (nonlinear_arith);
    assert(d * w == w * d) by (nonlinear_arith);
    assert((d - 1) * w == w * d - w) by (nonlinear_arith);
    if d == 0 {
        assert(w * d == 0) by (nonlinear_arith)
            requires
                d == 0,
        ;
        assert(m > 0);
    }
}

proof fn lemma_at(jobs: Seq<JobModel>, k: int)
    requires
        distinct_jobs(jobs),
        0 <= k < jobs.len(),
    ensures
        job_at(jobs, jobs[k].id) == k,
        has_job(jobs, jobs[k].id),
{
    assert forall|j: int| 0 <= j < k implies (#[trigger] jobs[j]).id != jobs[k].id by {}
    lemma_job_at_is(jobs, jobs[k].id, k);
}

/// A batch that is entered is there under its name, in the place of an older one of that name;
/// every batch of another name stays. A batch that has ended leaves, and no other does.
pub proof fn batches_are_kept_by_their_names(jobs: Seq<JobModel>, job: JobModel, id: Seq<char>)
    requires
        distinct_jobs(jobs),
    ensures
        registered(jobs, job).contains(job),
        forall|k: int|
            #![trigger jobs[k]]
            0 <= k < jobs.len() && jobs[k].id != job.id ==> registered(jobs, job).contains(jobs[k]),
        forall|k: int|
            #![trigger jobs[k]]
            0 <= k < jobs.len() && jobs[k].id != id ==> unregistered(jobs, id).contains(jobs[k]),
        !has_job(jobs, id) ==> unregistered(jobs, id) == jobs,
        has_job(jobs, id) ==> unregistered(jobs, id).len() == jobs.len() - 1,
{
    if has_job(jobs, job.id) {
        let k = choose|k: int| 0 <= k < jobs.len() && (#[trigger] jobs[k]).id == job.id;
        lemma_at(jobs, k);
        assert(registered(jobs, job)[k] == job);
        assert forall|j: int|
            #![trigger jobs[j]]
            0 <= j < jobs.len() && jobs[j].id != job.id implies registered(jobs, job).contains(
            jobs[j],
        ) by {
            assert(registered(jobs, job)[j] == jobs[j]);
        }
    } else {
        assert(registered(jobs, job)[jobs.len() as int] == job);
        assert forall|j: int|
            #![trigger jobs[j]]
            0 <= j < jobs.len() && jobs[j].id != job.id implies registered(jobs, job).contains(
            jobs[j],
        ) by {
            assert(registered(jobs, job)[j] == jobs[j]);
        }
    }
    if has_job(jobs, id) {
        let k = choose|k: int| 0 <= k < jobs.len() && (#[trigger] jobs[k]).id == id;
        lemma_at(jobs, k);
        assert forall|j: int|
            #![trigger jobs[j]]
            0 <= j < jobs.len() && jobs[j].id != id implies unregistered(jobs, id).contains(jobs[j]) by {
            let m = if j < k {
                j
            } else {
                j - 1
            };
            assert(unregistered(jobs, id)[m] == jobs[j]);
        }
    }
}

/// Stopping a batch by its name fires its token and no other; what it had left is told.
pub proof fn stopping_is_by_name(r: RegistryModel, k: int)
    requires
        r.well_formed(),
        0 <= k < r.jobs.len(),
    ensures
        r.after_cancel(r.jobs[k].id).fired == r.fired.push(r.jobs[k].cancel),
        left_in(stopped(r.jobs, r.jobs[k].id)) == (if r.jobs[k].total > r.jobs[k].done {
            r.jobs[k].total - r.jobs[k].done
        } else {
            0
        }),
        stopped(r.jobs, r.jobs[k].id).len() == 1,
{
    lemma_at(r.jobs, k);
    let one = stopped(r.jobs, r.jobs[k].id);
    assert(one =~= seq![r.jobs[k]]);
    assert(tokens_of(one) =~= seq![r.jobs[k].cancel]);
    assert(r.fired + seq![r.jobs[k].cancel] =~= r.fired.push(r.jobs[k].cancel));
    assert(one.drop_last() =~= Seq::empty());
    assert(left_in(one) == left_in(Seq::<JobModel>::empty()) + left_of(r.jobs[k]));
}

/// The progress that is noted of a batch is its own, and no other batch changes.
pub proof fn progress_is_noted_by_name(r: RegistryModel, k: int, done: usize)
    requires
        r.well_formed(),
        0 <= k < r.jobs.len(),
    ensures
        ({
            let after = r.after_progress(r.jobs[k].id, done);
            &&& after.jobs.len() == r.jobs.len() && after.jobs[k].done == done
            &&& after.jobs[k].total == r.jobs[k].total && after.jobs[k].cancel == r.jobs[k].cancel
                && after.jobs[k].id == r.jobs[k].id
            &&& forall|j: int| 0 <= j < r.jobs.len() && j != k ==> #[trigger] after.jobs[j]
                == r.jobs[j]
        }),
{
    lemma_at(r.jobs, k);
}

/// A cue list is told by the four letters of its section and by the kind that stands behind its
/// header; a section of another name is none.
pub proof fn a_cue_list_is_told_by_name_and_kind(body: Seq<u8>, at: int, end: int)
    requires
        0 <= at,
        at + 16 <= end <= body.len(),
    ensures
        body[at] == 0x50 && body[at + 1] == 0x43 && body[at + 2] == 0x4f && (body[at + 3] == 0x42
            || body[at + 3] == 0x32) <==> cue_key(body, (at, end)) is Some,
        cue_key(body, (at, end)) matches Some(key) ==> key.1 == body[at + 12] * 0x100_0000 + body[at
            + 13] * 0x1_0000 + body[at + 14] * 0x100 + body[at + 15] && key.0 == body.subrange(
            at,
            at + 4,
        ),
{
    let name = body.subrange(at, at + 4);
    assert(name[0] == body[at] && name[1] == body[at + 1] && name[2] == body[at + 2] && name[3]
        == body[at + 3]);
    if body[at] == 0x50 && body[at + 1] == 0x43 && body[at + 2] == 0x4f {
        if body[at + 3] == 0x42 {
            assert(name =~= seq![0x50u8, 0x43, 0x4f, 0x42]);
        }
        if body[at + 3] == 0x32 {
            assert(name =~= seq![0x50u8, 0x43, 0x4f, 0x32]);
        }
    }
}

/// Of several cue lists of one kind the first one is kept; a section that is no cue list, and one
/// whose kind the old file does not have, stays as it was generated.
pub proof fn the_first_cue_list_is_kept(
    generated: Seq<u8>,
    existing: Seq<u8>,
    ranges: Seq<(int, int)>,
    r: (int, int),
    k: int,
)
    requires
        0 <= k < ranges.len(),
        cue_key(generated, r) is Some,
        cue_key(existing, ranges[k]) == cue_key(generated, r),
        forall|j: int|
            0 <= j < k ==> cue_key(existing, #[trigger] ranges[j]) != cue_key(generated, r),
    ensures
        kept_piece(generated, existing, ranges, r) == existing.subrange(ranges[k].0, ranges[k].1),
{
    lemma_first_key(existing, ranges, cue_key(generated, r)->0, k);
}

proof fn lemma_first_key(
    body: Seq<u8>,
    ranges: Seq<(int, int)>,
    key: (Seq<u8>, int),
    k: int,
)
    requires
        0 <= k < ranges.len(),
        cue_key(body, ranges[k]) == Some(key),
        forall|j: int| 0 <= j < k ==> cue_key(body, #[trigger] ranges[j]) != Some(key),
    ensures
        first_with_key(body, ranges, key) == Some(ranges[k]),
    decreases ranges.len(),
{
    if k > 0 {
        let rest = ranges.drop_first();
        assert(rest[k - 1] == ranges[k]);
        assert forall|j: int| 0 <= j < k - 1 implies cue_key(body, #[trigger] rest[j]) != Some(key) by {
            assert(rest[j] == ranges[j + 1]);
        }
        assert(cue_key(body, ranges[0]) != Some(key));
        lemma_first_key(body, rest, key, k - 1);
    }
}

/// A section that is no cue list stays as it was generated.
pub proof fn other_sections_are_generated_anew(
    generated: Seq<u8>,
    existing: Seq<u8>,
    ranges: Seq<(int, int)>,
    r: (int, int),
)
    requires
        cue_key(generated, r) is None || forall|j: int|
            0 <= j < ranges.len() ==> cue_key(existing, #[trigger] ranges[j]) != cue_key(
                generated,
                r,
            ),
    ensures
        kept_piece(generated, existing, ranges, r) == generated.subrange(r.0, r.1),
{
    if let Some(key) = cue_key(generated, r) {
        lemma_no_key(existing, ranges, key);
    }
}

proof fn lemma_no_key(body: Seq<u8>, ranges: Seq<(int, int)>, key: (Seq<u8>, int))
    requires
        forall|j: int| 0 <= j < ranges.len() ==> cue_key(body, #[trigger] ranges[j]) != Some(key),
    ensures
        first_with_key(body, ranges, key) is None,
    decreases ranges.len(),
{
    if ranges.len() > 0 {
        let rest = ranges.drop_first();
        assert forall|j: int| 0 <= j < rest.len() implies cue_key(body, #[trigger] rest[j]) != Some(
            key,
        ) by {
            assert(rest[j] == ranges[j + 1]);
        }
        assert(cue_key(body, ranges[0]) != Some(key));
        lemma_no_key(body, rest, key);
    }
}

/// A track that names its song is asked for it first: on the platform that is asked for, or, where
/// none is, on its own; every other track is searched.
pub proof fn a_named_song_is_asked_first(req: LyricsRequestModel)
    ensures
        ({
            let run = lookup_of(req);
            let engines = engines_of(req.engines);
            let named = !all_space(req.key) && req.platform is Some && engines.contains(
                req.platform->0,
            );
            &&& run.title == trimmed(req.title) && run.key == trimmed(req.key) && run.duration_ms
                == req.duration_ms
            &&& named && preferred(req.prefer) is None && (req.platform == Some(Platform::Wyy)
                || req.platform == Some(Platform::Qqm) || req.platform == Some(Platform::Ytm))
                ==> run.want() == (LyricsWant::Fetch { platform: req.platform->0, key: run.key })
            &&& named && preferred(req.prefer) == req.platform ==> run.want() == (
            LyricsWant::Fetch { platform: req.platform->0, key: run.key })
            &&& preferred(req.prefer) is Some && preferred(req.prefer) != req.platform
                ==> run.want() is Search
            &&& !named ==> run.want() is Search
        }),
{
    trimming_takes_the_white_space_around(req.key);
}

/// Songs are tried in their order. The lyrics of the first that fit are handed out, under that song;
/// lyrics that are not there, or that go on far behind the end of the track, are passed over.
pub proof fn the_first_lyrics_that_fit_are_handed_out(run: LookupModel, text: Option<LyricModel>)
    requires
        run.ok(),
        run.stage == LookupStage::Candidates,
        run.next < run.candidates.len(),
    ensures
        ({
            let c = run.candidates[run.next as int];
            let (after, reply) = run.after_fetch(text);
            let fits = text is Some && (run.duration_ms is None || run.duration_ms->0 == 0
                || text->0.latest_ms is None || text->0.latest_ms->0 <= run.duration_ms->0 + 8_000);
            &&& run.want() == (LyricsWant::Fetch { platform: c.platform, key: c.key })
            &&& fits <==> reply is Some
            &&& reply matches Some(r) ==> r.lrc == text->0.lrc && r.word_lrc == text->0.word_lrc
                && r.translated_lrc == text->0.translated_lrc && r.romaji_lrc == text->0.romaji_lrc
                && r.platform == c.platform && r.key == c.key && r.title == c.title && r.artist
                == c.artist_text && r.score_bits == c.score_bits
            &&& !fits ==> after.next == run.next + 1 && after.candidates == run.candidates
            &&& !fits && run.next + 1 == run.candidates.len() ==> after.want() is Fail
        }),
{
}

/// The song that a track names is handed out as a full match; where its lyrics do not fit, the
/// platforms are searched.
pub proof fn a_named_song_is_a_full_match(run: LookupModel, text: Option<LyricModel>)
    requires
        run.ok(),
        run.stage == LookupStage::Direct,
    ensures
        ({
            let (after, reply) = run.after_fetch(text);
            let fits = text is Some && (run.duration_ms is None || run.duration_ms->0 == 0
                || text->0.latest_ms is None || text->0.latest_ms->0 <= run.duration_ms->0 + 8_000);
            &&& fits <==> reply is Some
            &&& reply matches Some(r) ==> r.lrc == text->0.lrc && r.platform == run.direct->0 && r.key
                == run.key && r.score_bits == 0x3FF0_0000_0000_0000
            &&& !fits ==> after.want() is Search
        }),
{
}

/// What a search found is tried from the best match on, and only what counts.
pub proof fn a_search_is_tried_from_the_best(
    run: LookupModel,
    found: Seq<CandidateModel>,
    artists: Seq<Seq<char>>,
)
    ensures
        ({
            let after = run.after_search(found, artists);
            &&& after.stage == LookupStage::Candidates && after.next == 0
            &&& after.candidates == by_match(
                run.engines,
                qualified(run.engines, run.prefer, artists, run.duration_ms, found),
            )
            &&& after.duration_ms == run.duration_ms && after.title == run.title
        }),
        run.prefer is Some && run.engines.contains(run.prefer->0) ==> run.platforms() == seq![
            run.prefer->0,
        ],
        run.prefer is None ==> run.platforms() == run.engines,
{
}

/// The sound of a video is taken from what is kept; else it is copied out, and where that gives
/// nothing it is encoded anew, once.
pub proof fn sound_is_copied_or_encoded(has_tool: bool)
    ensures
        extract_start(true, has_tool) is UseKept,
        extract_start(false, true) == (ConvertWant::Run { copy: true }),
        extract_start(false, false) is Fail,
        extract_next(true, true) is Publish && extract_next(false, true) is Publish,
        extract_next(true, false) == (ConvertWant::Run { copy: false }),
        extract_next(false, false) is Fail,
        video_start(true, has_tool) is UseKept,
        video_start(false, true) == (ConvertWant::Run { copy: false }),
        video_start(false, false) is Fail,
        video_next(None, true) is Publish && video_next(None, false) is Fail,
{
}

/// A failed conversion is told with its reason, even where a file was made.
pub proof fn a_failed_conversion_is_told(reason: Seq<char>, made: bool)
    ensures
        video_next(Some(reason), made) is Fail,
{
}

/// A track is taken apart where it is known and its file is there.
pub proof fn a_track_is_taken_apart_where_it_is(known: bool, path: Seq<char>, is_file: bool)
    ensures
        stem_track(known, path, is_file) is Ok <==> known && is_file && !all_space(path),
{
    trimming_takes_the_white_space_around(path);
}

/// The moment of a file counts in nanoseconds: later files have larger numbers.
pub proof fn moments_count_in_nanoseconds(a: (u64, u32), b: (u64, u32))
    requires
        a.1 < 1_000_000_000,
        b.1 < 1_000_000_000,
        a.0 < b.0 || (a.0 == b.0 && a.1 < b.1),
        b.0 < 9_000_000_000,
    ensures
        mtime_of(None) is Err,
        mtime_of(Some(a)) is Ok,
        mtime_of(Some(a))->Ok_0 < mtime_of(Some(b))->Ok_0,
        mtime_of(Some(a))->Ok_0 / 1_000_000_000 == a.0,
        mtime_of(Some(a))->Ok_0 % 1_000_000_000 == a.1,
{
}

/// What a journal holds of a task comes back: its names, its folders, its parameters of its own
/// kind. A number that is none counts as nothing done or as now; a share beyond the whole is the
/// whole.
pub proof fn the_journal_brings_a_task_back(p: PersistedModel, cancel: u64, now: i64)
    ensures
        ({
            let e = p.restored_entry(cancel, now);
            let t = e.task;
            let worked = p.task.state is Queued || p.task.state is Running || p.task.state
                is Processing;
            &&& t.id == p.task.id && t.kind == p.task.kind && t.platform == p.task.platform
                && t.title == p.task.title && t.artist == p.task.artist && t.output_dir
                == p.task.output_dir && t.dest_dir == p.task.dest_dir && t.path == p.task.path
                && t.track_id == p.task.track_id && t.quality == p.task.quality
            &&& e.cancel == cancel && t.speed_bps.bytes == 0 && e.samples.len() == 0
            &&& !worked ==> t.state == p.task.state && t.error == p.task.error
            &&& worked && p.task.kind is Audio ==> (t.state is Paused <==> p.audio_retry is Some)
            &&& worked && p.task.kind is Video ==> (t.state is Paused <==> p.video_retry is Some)
            &&& worked ==> t.state is Paused || t.state is Failed
            &&& worked ==> t.updated_at == now && t.phase is Waiting
            &&& p.task.kind is Audio ==> e.audio_retry == p.audio_retry && e.video_retry is None
            &&& p.task.kind is Video ==> e.audio_retry is None && (e.video_retry is Some
                <==> p.video_retry is Some)
            &&& !all_space(p.task.source_key) ==> t.source_key == p.task.source_key
            &&& p.not_finite.progress ==> t.progress.done == 0
            &&& !p.not_finite.progress && p.task.progress.whole > 0 && p.task.progress.done
                <= p.task.progress.whole ==> t.progress == p.task.progress
            &&& p.not_finite.created_at ==> t.created_at == now
            &&& !p.not_finite.created_at ==> t.created_at == p.task.created_at
        }),
        p.is_usable() <==> !all_space(p.task.id),
{
    trimming_takes_the_white_space_around(p.task.source_key);
    trimming_takes_the_white_space_around(p.task.id);
}

/// A share is one between nothing and the whole.
pub proof fn a_share_is_clamped(f: Fraction)
    ensures
        clamped(f).whole > 0 && clamped(f).done <= clamped(f).whole,
        f.whole > 0 && f.done > f.whole ==> clamped(f).done == clamped(f).whole,
        f.whole > 0 && f.done <= f.whole ==> clamped(f) == f,
        f.whole == 0 ==> clamped(f).done == 0,
{
}

} // verus!
