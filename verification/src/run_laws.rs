//! How a worker goes from one stage to the next, and where it ends.

use vstd::prelude::*;

use crate::download_runs::{
    audio_step, probe_of, release, seen_activity, target_refusal, video_step, wait_step,
    AudioRunModel, PreparedWait, RunAction, RunEvent, Stage, VideoRunModel,
};
use crate::downloads::{
    audio_started, finish_step, finished, lemma_place, lemma_with_entry, phase_step, settle_step,
    settled, video_started, EntryModel, QueueModel,
};
use crate::models::{Moment, TaskModel, TaskPhase, TaskState};
use crate::text::all_space;
use crate::text_laws::trimming_takes_the_white_space_around;

verus! {

/// The task is there, and its worker may write to it.
pub open spec fn is_open(q: QueueModel, id: Seq<char>) -> bool {
    q.has(id) && (q.entry(id).task.state is Queued || q.entry(id).task.state is Running || q.entry(
        id,
    ).task.state is Processing)
}

proof fn lemma_updated(q: QueueModel, id: Seq<char>, e: EntryModel)
    requires
        q.well_formed(),
        q.has(id),
        e.task.id == id,
        e.well_formed(),
    ensures
        q.updated(id, e).has(id),
        q.updated(id, e).entry(id) == e,
        q.updated(id, e).well_formed(),
{
    lemma_with_entry(q, id, e);
}

proof fn lemma_settled(q: QueueModel, id: Seq<char>, state: TaskState, error: Seq<char>, at: Moment)
    requires
        q.well_formed(),
        is_open(q, id),
    ensures
        ({
            let n = settle_step(q, id, state, error, at).entry(id);
            &&& settle_step(q, id, state, error, at).has(id)
            &&& n.task.state == state && n.task.error == error && n.task.speed_bps.bytes == 0
            &&& n.audio_retry == q.entry(id).audio_retry && n.video_retry == q.entry(id).video_retry
        }),
{
    lemma_place(q.entries, id);
    let e = q.entry(id);
    lemma_updated(q, id, e.with_task(settled(e.task, state, error)).touched(at));
}

proof fn lemma_phase(q: QueueModel, id: Seq<char>, phase: TaskPhase, at: Moment)
    requires
        q.well_formed(),
        is_open(q, id),
    ensures
        ({
            let n = phase_step(q, id, phase, at).entry(id);
            &&& phase_step(q, id, phase, at).has(id)
            &&& n.task.phase == phase && n.task.state == q.entry(id).task.state
            &&& n.prepared_source_url == q.entry(id).prepared_source_url
        }),
{
    lemma_place(q.entries, id);
    let e = q.entry(id);
    lemma_updated(q, id, e.with_task(TaskModel { phase, ..e.task }).touched(at));
}

proof fn lemma_finished(
    q: QueueModel,
    id: Seq<char>,
    path: Seq<char>,
    size: u64,
    state: TaskState,
    error: Seq<char>,
    track_id: Option<i64>,
    at: Moment,
)
    requires
        q.well_formed(),
        is_open(q, id),
    ensures
        ({
            let n = finish_step(q, id, path, size, state, error, track_id, at).entry(id);
            &&& finish_step(q, id, path, size, state, error, track_id, at).has(id)
            &&& n.task.state == state && n.task.error == error && n.task.path == path
            &&& n.task.track_id == track_id
        }),
{
    lemma_place(q.entries, id);
    let e = q.entry(id);
    lemma_updated(q, id, e.with_task(finished(e.task, path, size, state, error, track_id)).touched(at));
}

/// A song goes from the start over the permit, the folder, its source and the platform to the
/// download.
#[verifier::spinoff_prover]
pub proof fn a_song_goes_from_stage_to_stage(
    q: QueueModel,
    run: AudioRunModel,
    size: u64,
    at: Moment,
)
    requires
        q.well_formed(),
        is_open(q, run.id),
    ensures
        run.stage == Stage::Release ==> {
            let (after, next, action) = audio_step(q, run, RunEvent::Released(true), false, size, at);
            after == q && next.stage == Stage::Permit && action == RunAction::AcquirePermit
        },
        run.stage == Stage::Permit && q.entry(run.id).task.state is Queued && q.entry(
            run.id,
        ).audio_retry is Some ==> {
            let (after, next, action) = audio_step(q, run, RunEvent::Permit(true), false, size, at);
            &&& after.entry(run.id).task.state is Running
            &&& next.stage == Stage::Target && next.retry == q.entry(run.id).audio_retry
            &&& action == RunAction::CheckTarget
        },
        run.stage == Stage::Target ==> {
            let (after, next, action) = audio_step(q, run, RunEvent::Target(None), false, size, at);
            let external = run.retry is Some && run.retry->0.external_preparation;
            &&& external ==> next.stage == Stage::Source && action == RunAction::AwaitSource
            &&& !external ==> next.stage == Stage::Provider && action == RunAction::FindProvider
        },
        run.stage == Stage::Source ==> {
            let (after, next, action) = audio_step(q, run, RunEvent::Source(true), false, size, at);
            next.stage == Stage::Provider && action == RunAction::FindProvider
        },
        run.stage == Stage::Provider ==> {
            let (after, next, action) = audio_step(q, run, RunEvent::Provider(true), false, size, at);
            &&& next.stage == Stage::Download && action == RunAction::Download
            &&& next.source_url == q.entry(run.id).prepared_source_url
            &&& after.entry(run.id).prepared_source_url is None
        },
{
    lemma_place(q.entries, run.id);
    let e = q.entry(run.id);
    lemma_updated(q, run.id, audio_started(e, at));
    lemma_with_entry(q, run.id, EntryModel { prepared_source_url: None, ..e });
}

/// A song that was fetched goes to its folder, its lyrics and the library; at the end it is done, under
/// its track and at its path.
#[verifier::spinoff_prover]
pub proof fn a_song_goes_on_to_the_library(
    q: QueueModel,
    run: AudioRunModel,
    path: String,
    track_id: i64,
    size: u64,
    at: Moment,
)
    requires
        q.well_formed(),
        is_open(q, run.id),
    ensures
        run.stage == Stage::Download ==> {
            let (after, next, action) = audio_step(
                q,
                run,
                RunEvent::Downloaded(Ok(path)),
                false,
                size,
                at,
            );
            next.stage == Stage::Relocation && next.path == path@ && action == RunAction::Relocate
        },
        run.stage == Stage::Relocation ==> {
            let (after, next, action) = audio_step(
                q,
                run,
                RunEvent::Relocated(Ok(path)),
                false,
                size,
                at,
            );
            next.stage == Stage::Lyrics && next.path == path@ && action == RunAction::FetchLyrics
        },
        run.stage == Stage::Lyrics ==> {
            let (after, next, action) = audio_step(q, run, RunEvent::Lyrics, false, size, at);
            next.stage == Stage::Import && next.path == run.path && action == RunAction::Import
        },
        run.stage == Stage::Import ==> {
            let (after, next, action) = audio_step(
                q,
                run,
                RunEvent::Imported(Ok(track_id)),
                false,
                size,
                at,
            );
            let t = after.entry(run.id).task;
            &&& next.stage == Stage::Ended && action == RunAction::Finished
            &&& t.state is Done && t.path == run.path && t.track_id == Some(track_id)
            &&& t.error.len() == 0
        },
{
    lemma_finished(
        q,
        run.id,
        run.path,
        size,
        TaskState::Done,
        Seq::empty(),
        Some(track_id),
        at,
    );
}

/// A failure ends the work on a song: the task has failed, with a message that ends in the reason,
/// and it keeps its parameters.
pub proof fn a_failure_ends_the_work_on_a_song(
    q: QueueModel,
    run: AudioRunModel,
    reason: String,
    size: u64,
    at: Moment,
)
    requires
        q.well_formed(),
        is_open(q, run.id),
    ensures
        run.stage == Stage::Target ==> song_failed(
            q,
            run,
            RunEvent::Target(Some(reason)),
            reason@,
            size,
            at,
        ),
        run.stage == Stage::Download ==> song_failed(
            q,
            run,
            RunEvent::Downloaded(Err(reason)),
            reason@,
            size,
            at,
        ),
        run.stage == Stage::Relocation ==> song_failed(
            q,
            run,
            RunEvent::Relocated(Err(reason)),
            reason@,
            size,
            at,
        ),
        run.stage == Stage::Import ==> song_failed(
            q,
            run,
            RunEvent::Imported(Err(reason)),
            reason@,
            size,
            at,
        ),
        run.stage == Stage::Source ==> song_failed(
            q,
            run,
            RunEvent::Source(false),
            Seq::empty(),
            size,
            at,
        ),
        run.stage == Stage::Provider ==> song_failed(
            q,
            run,
            RunEvent::Provider(false),
            Seq::empty(),
            size,
            at,
        ),
{
    let r = reason@;
    let a = "已下载但移入目标文件夹失败："@;
    let b = "文件已下载，但加入曲库失败："@;
    let c = "下载来源未及时就绪，请重试"@;
    let d = "平台 "@ + run.platform_name + " 不可用（provider 未加载）"@;
    lemma_ends(Seq::empty(), r);
    lemma_ends(a, r);
    lemma_ends(b, r);
    lemma_ends(c, Seq::empty());
    lemma_ends(d, Seq::empty());
    assert(Seq::<char>::empty() + r =~= r);
    assert(c + Seq::<char>::empty() =~= c);
    assert(d + Seq::<char>::empty() =~= d);
    lemma_settled(q, run.id, TaskState::Failed, r, at);
    lemma_settled(q, run.id, TaskState::Failed, a + r, at);
    lemma_settled(q, run.id, TaskState::Failed, c, at);
    lemma_settled(q, run.id, TaskState::Failed, d, at);
    lemma_finished(q, run.id, run.path, size, TaskState::Failed, b + r, None, at);
}

pub open spec fn song_failed(
    q: QueueModel,
    run: AudioRunModel,
    event: RunEvent,
    reason: Seq<char>,
    size: u64,
    at: Moment,
) -> bool {
    let (after, next, action) = audio_step(q, run, event, false, size, at);
    &&& next.stage == Stage::Ended && action == RunAction::Stop
    &&& after.has(run.id) && after.entry(run.id).task.state is Failed
    &&& reason.is_suffix_of(after.entry(run.id).task.error)
}

proof fn lemma_ends(front: Seq<char>, back: Seq<char>)
    ensures
        back.is_suffix_of(front + back),
{
    let t = front + back;
    assert(t.subrange(t.len() - back.len(), t.len() as int) =~= back);
}

/// A song that is cancelled while it is fetched, moved or given its lyrics ends there, marked as
/// cancelled; one that is cancelled before its start, or interrupted, begins nothing.
pub proof fn a_cancelled_song_ends(
    q: QueueModel,
    run: AudioRunModel,
    event: RunEvent,
    size: u64,
    at: Moment,
)
    requires
        q.well_formed(),
        is_open(q, run.id),
        run.stage == Stage::Download && (event is Downloaded || event is Interrupted) || run.stage
            == Stage::Relocation && (event matches RunEvent::Relocated(r) && r is Ok) || run.stage
            == Stage::Lyrics && (event is Lyrics || event is Interrupted) || run.stage
            == Stage::Source && (event matches RunEvent::Source(ready) && !ready),
    ensures
        ({
            let (after, next, action) = audio_step(q, run, event, true, size, at);
            &&& next.stage == Stage::Ended && action == RunAction::Stop
            &&& after.has(run.id) && after.entry(run.id).task.state is Canceled
        }),
{
    lemma_settled(q, run.id, TaskState::Canceled, "已取消"@, at);
}

/// A worker that is not let go, gets no permit, or finds its task not waiting does nothing.
pub proof fn a_song_that_does_not_start_is_left_alone(
    q: QueueModel,
    run: AudioRunModel,
    size: u64,
    at: Moment,
)
    ensures
        run.stage == Stage::Release ==> left_alone(
            q,
            audio_step(q, run, RunEvent::Released(false), false, size, at),
        ),
        run.stage == Stage::Permit ==> left_alone(
            q,
            audio_step(q, run, RunEvent::Permit(false), false, size, at),
        ) && left_alone(q, audio_step(q, run, RunEvent::Permit(true), true, size, at)),
        run.stage == Stage::Permit && !(q.has(run.id) && q.entry(run.id).task.state is Queued)
            ==> left_alone(q, audio_step(q, run, RunEvent::Permit(true), false, size, at)),
{
}

pub open spec fn left_alone(q: QueueModel, step: (QueueModel, AudioRunModel, RunAction)) -> bool {
    step.0 == q && step.1.stage == Stage::Ended && step.2 == RunAction::Stop
}

/// A video goes from the start over the permit, the folder and the platform to its description, its
/// source where that is prepared outside, and the download.
#[verifier::spinoff_prover]
pub proof fn a_video_goes_from_stage_to_stage(
    q: QueueModel,
    run: VideoRunModel,
    size: u64,
    at: Moment,
)
    requires
        q.well_formed(),
        is_open(q, run.id),
    ensures
        run.stage == Stage::Release ==> {
            let (after, next, action) = video_step(q, run, RunEvent::Released(true), false, size, at);
            after == q && next.stage == Stage::Permit && action == RunAction::AcquirePermit
        },
        run.stage == Stage::Permit && q.entry(run.id).task.state is Queued && q.entry(
            run.id,
        ).video_retry is Some ==> {
            let (after, next, action) = video_step(q, run, RunEvent::Permit(true), false, size, at);
            &&& after.entry(run.id).task.state is Running
            &&& next.stage == Stage::Target && next.retry == q.entry(run.id).video_retry
            &&& action == RunAction::CheckTarget
        },
        run.stage == Stage::Target ==> {
            let (after, next, action) = video_step(q, run, RunEvent::Target(None), false, size, at);
            after == q && next.stage == Stage::Provider && action == RunAction::FindProvider
        },
        run.stage == Stage::Provider ==> {
            let (after, next, action) = video_step(q, run, RunEvent::Provider(true), false, size, at);
            after == q && next.stage == Stage::Resolution && action == RunAction::ResolveVideo
        },
        run.stage == Stage::Resolution ==> {
            let (after, next, action) = video_step(q, run, RunEvent::Resolved(None), false, size, at);
            let external = run.retry is Some && run.retry->0.external_preparation;
            &&& external ==> next.stage == Stage::Source && action == RunAction::AwaitSource
                && after.entry(run.id).task.phase is Authorizing
            &&& !external ==> next.stage == Stage::Download && action == RunAction::Download
                && next.source_url == q.entry(run.id).prepared_source_url
        },
        run.stage == Stage::Source ==> {
            let (after, next, action) = video_step(q, run, RunEvent::Source(true), false, size, at);
            &&& next.stage == Stage::Download && action == RunAction::Download
            &&& next.source_url == q.entry(run.id).prepared_source_url
            &&& after.entry(run.id).prepared_source_url is None
        },
{
    lemma_place(q.entries, run.id);
    let e = q.entry(run.id);
    lemma_updated(q, run.id, video_started(e, at));
    lemma_with_entry(q, run.id, EntryModel { prepared_source_url: None, ..e });
    lemma_phase(q, run.id, TaskPhase::Authorizing, at);
}

/// A video that was fetched goes to its folder. Sound, and what goes into a chosen folder, then goes
/// into the library; any other video is done with that.
#[verifier::spinoff_prover]
pub proof fn a_video_goes_on_to_its_place(
    q: QueueModel,
    run: VideoRunModel,
    path: String,
    track_id: i64,
    size: u64,
    at: Moment,
)
    requires
        q.well_formed(),
        is_open(q, run.id),
    ensures
        run.stage == Stage::Download ==> {
            let (after, next, action) = video_step(
                q,
                run,
                RunEvent::Downloaded(Ok(path)),
                false,
                size,
                at,
            );
            next.stage == Stage::Relocation && next.path == path@ && action == RunAction::Relocate
        },
        run.stage == Stage::Relocation && run.retry is Some ==> {
            let (after, next, action) = video_step(
                q,
                run,
                RunEvent::Relocated(Ok(path)),
                false,
                size,
                at,
            );
            let r = run.retry->0.request;
            let imports = r.audio_only || !all_space(r.dest_dir);
            let t = after.entry(run.id).task;
            &&& next.path == path@
            &&& imports ==> next.stage == Stage::Import && action == RunAction::Import
            &&& !imports ==> next.stage == Stage::Ended && action == RunAction::Finished
                && t.state is Done && t.path == path@ && t.track_id is None
        },
        run.stage == Stage::Import ==> {
            let (after, next, action) = video_step(
                q,
                run,
                RunEvent::Imported(Ok(track_id)),
                false,
                size,
                at,
            );
            let t = after.entry(run.id).task;
            &&& next.stage == Stage::Ended && action == RunAction::Finished
            &&& t.state is Done && t.path == run.path && t.track_id == Some(track_id)
        },
{
    if run.retry is Some {
        trimming_takes_the_white_space_around(run.retry->0.request.dest_dir);
    }
    lemma_finished(q, run.id, path@, size, TaskState::Done, Seq::empty(), None, at);
    lemma_finished(
        q,
        run.id,
        run.path,
        size,
        TaskState::Done,
        Seq::empty(),
        Some(track_id),
        at,
    );
}

pub open spec fn video_failed(
    q: QueueModel,
    run: VideoRunModel,
    event: RunEvent,
    reason: Seq<char>,
    size: u64,
    at: Moment,
) -> bool {
    let (after, next, action) = video_step(q, run, event, false, size, at);
    &&& next.stage == Stage::Ended && action == RunAction::Stop
    &&& after.has(run.id) && after.entry(run.id).task.state is Failed
    &&& reason.is_suffix_of(after.entry(run.id).task.error)
}

/// A failure ends the work on a video: the task has failed, with a message that ends in the reason.
pub proof fn a_failure_ends_the_work_on_a_video(
    q: QueueModel,
    run: VideoRunModel,
    reason: String,
    size: u64,
    at: Moment,
)
    requires
        q.well_formed(),
        is_open(q, run.id),
    ensures
        run.stage == Stage::Target ==> video_failed(
            q,
            run,
            RunEvent::Target(Some(reason)),
            reason@,
            size,
            at,
        ),
        run.stage == Stage::Download ==> video_failed(
            q,
            run,
            RunEvent::Downloaded(Err(reason)),
            reason@,
            size,
            at,
        ),
        run.stage == Stage::Relocation ==> video_failed(
            q,
            run,
            RunEvent::Relocated(Err(reason)),
            reason@,
            size,
            at,
        ),
        run.stage == Stage::Import ==> video_failed(
            q,
            run,
            RunEvent::Imported(Err(reason)),
            reason@,
            size,
            at,
        ),
{
    let r = reason@;
    let a = "已下载但移入目标文件夹失败："@;
    let b = "视频已下载，但加入曲库失败："@;
    lemma_ends(Seq::empty(), r);
    lemma_ends(a, r);
    lemma_ends(b, r);
    assert(Seq::<char>::empty() + r =~= r);
    lemma_settled(q, run.id, TaskState::Failed, r, at);
    lemma_settled(q, run.id, TaskState::Failed, a + r, at);
    lemma_finished(q, run.id, run.path, size, TaskState::Failed, b + r, None, at);
}

/// A video that is cancelled while it is looked up, fetched or moved ends there, marked as
/// cancelled.
pub proof fn a_cancelled_video_ends(
    q: QueueModel,
    run: VideoRunModel,
    event: RunEvent,
    size: u64,
    at: Moment,
)
    requires
        q.well_formed(),
        is_open(q, run.id),
        run.stage == Stage::Resolution && event is Interrupted || run.stage == Stage::Download && (
        event is Downloaded || event is Interrupted) || run.stage == Stage::Relocation && (
        event matches RunEvent::Relocated(r) && r is Ok) || run.stage == Stage::Source && (
        event matches RunEvent::Source(ready) && !ready),
    ensures
        ({
            let (after, next, action) = video_step(q, run, event, true, size, at);
            &&& next.stage == Stage::Ended && action == RunAction::Stop
            &&& after.has(run.id) && after.entry(run.id).task.state is Canceled
        }),
{
    lemma_settled(q, run.id, TaskState::Canceled, "已取消"@, at);
}

/// A task that waits is let go once it is cancelled (to end), once tasks start by themselves and it
/// may, or once a start came after it was queued.
pub proof fn a_waiting_task_is_let_go(
    q: QueueModel,
    queued_generation: u64,
    allow_auto_start: bool,
)
    ensures
        release(q, true, queued_generation, allow_auto_start) == Some(false),
        release(q, false, queued_generation, allow_auto_start) is None <==> !(allow_auto_start
            && q.auto_start) && q.start_generation <= queued_generation,
        release(q, false, queued_generation, allow_auto_start) is Some ==> release(
            q,
            false,
            queued_generation,
            allow_auto_start,
        ) == Some(true),
{
}

/// Waiting for a source counts from its last sign of life: more bytes than before.
pub proof fn bytes_are_a_sign_of_life(w: PreparedWait, q: QueueModel, id: Seq<char>, now: u64)
    requires
        q.has(id),
    ensures
        q.entry(id).task.downloaded_bytes > w.last_downloaded ==> seen_activity(w, q, id, now).last_activity
            == now && seen_activity(w, q, id, now).last_downloaded == q.entry(
            id,
        ).task.downloaded_bytes,
        q.entry(id).task.downloaded_bytes <= w.last_downloaded ==> seen_activity(w, q, id, now) == w,
{
}

/// A folder takes a download where it is there and can be written to.
pub proof fn a_folder_takes_a_download(dest: Seq<char>, failure: Option<Seq<char>>)
    ensures
        target_refusal(dest, false, failure) is Some,
        target_refusal(dest, true, failure) is None <==> failure is None,
{
}

/// A wait ends at once where the task is cancelled or its source is there, and after ten minutes
/// without a sign of life.
pub proof fn a_wait_ends_in_time(w: PreparedWait, q: QueueModel, id: Seq<char>, now: u64)
    requires
        q.has(id),
        w.last_activity <= now,
    ensures
        wait_step(w, q, id, true, now).1 == Some(false),
        q.entry(id).prepared_source_url is Some ==> wait_step(w, q, id, false, now).1 == Some(true),
        q.entry(id).prepared_source_url is None ==> {
            let (after, r) = wait_step(w, q, id, false, now);
            let quiet = q.entry(id).task.downloaded_bytes <= w.last_downloaded && now
                - w.last_activity >= 10 * 60 * 1_000_000;
            &&& quiet <==> r == Some(false)
            &&& !quiet <==> r is None
        },
{
}

/// A video is looked up by its link, or by its key where there is none.
pub proof fn a_video_is_looked_up_by_its_link(r: crate::models::VideoRetryModel)
    ensures
        !all_space(r.request.url) ==> probe_of(r) == r.request.url,
        all_space(r.request.url) ==> probe_of(r) == r.request.bvid,
{
    trimming_takes_the_white_space_around(r.request.url);
}

} // verus!
