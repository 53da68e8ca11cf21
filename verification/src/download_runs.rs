//! What the worker of a download does next: from where it stands and what it just learnt to the
//! change of the queue and the next thing to do outside.

use vstd::prelude::*;

use crate::downloads::{
    audio_started, finish_step, phase_step, resolved, settle_step, video_started, DownloadManager,
    EntryModel, QueueModel,
};
use crate::models::{audio_of, page_titles, text_of, video_of, AudioRetry, AudioRetryModel, Moment,
    TaskPhase, TaskState, VideoInfo, VideoRetry, VideoRetryModel};
use crate::paths::{is_directly_in, lies_directly_in};
use crate::text::{concat, trim, trimmed};

verus! {

/// Ten minutes, in microseconds.
pub const PREPARATION_TIMEOUT: u64 = 600_000_000;

/// Whether a queued task may start: `None` while it has to wait on.
pub open spec fn release(
    q: QueueModel,
    cancelled: bool,
    queued_generation: u64,
    allow_auto_start: bool,
) -> Option<bool> {
    if cancelled {
        Some(false)
    } else if allow_auto_start && q.auto_start {
        Some(true)
    } else if q.start_generation > queued_generation {
        Some(true)
    } else {
        None
    }
}

/// Decides for a task that was queued at `queued_generation`.
pub fn start_decision(
    manager: &DownloadManager,
    cancelled: bool,
    queued_generation: u64,
    allow_auto_start: bool,
) -> (r: Option<bool>)
    ensures
        r == release(manager@, cancelled, queued_generation, allow_auto_start),
{
    if cancelled {
        return Some(false);
    }
    if allow_auto_start && manager.auto_start {
        return Some(true);
    }
    if manager.start_generation > queued_generation {
        return Some(true);
    }
    None
}

/// The wait for a source that is prepared outside.
#[derive(Debug, Clone, Copy, PartialEq, Eq, Structural)]
pub struct PreparedWait {
    pub last_activity: u64,
    pub last_downloaded: u64,
}

pub open spec fn seen_activity(w: PreparedWait, q: QueueModel, id: Seq<char>, now: u64) -> PreparedWait {
    if q.has(id) && q.entry(id).task.downloaded_bytes > w.last_downloaded {
        PreparedWait { last_activity: now, last_downloaded: q.entry(id).task.downloaded_bytes }
    } else {
        w
    }
}

impl PreparedWait {
    pub fn begin(now: u64) -> (w: Self)
        ensures
            w == (PreparedWait { last_activity: now, last_downloaded: 0 }),
    {
        PreparedWait { last_activity: now, last_downloaded: 0 }
    }

    /// Whether the source is there; `None` while it is worth waiting: it is not there yet, and
    /// bytes have arrived within the last ten minutes.
    pub fn poll(&mut self, manager: &DownloadManager, id: &str, cancelled: bool, now: u64) -> (r:
        Option<bool>)
        ensures
            (*final(self), r) == wait_step(*old(self), manager@, id@, cancelled, now),
            if cancelled {
                r == Some(false) && *final(self) == *old(self)
            } else if manager@.has(id@) && manager@.entry(id@).prepared_source_url is Some {
                r == Some(true) && *final(self) == *old(self)
            } else {
                &&& *final(self) == seen_activity(*old(self), manager@, id@, now)
                &&& r == if now - final(self).last_activity >= PREPARATION_TIMEOUT {
                    Some(false)
                } else {
                    None
                }
            },
    {
        if cancelled {
            return Some(false);
        }
        if manager.peek_prepared_source_url(id).is_some() {
            return Some(true);
        }
        if let Some(task) = manager.get(id) {
            if task.downloaded_bytes > self.last_downloaded {
                self.last_downloaded = task.downloaded_bytes;
                self.last_activity = now;
            }
        }
        if now >= self.last_activity && now - self.last_activity >= PREPARATION_TIMEOUT {
            return Some(false);
        }
        None
    }
}

/// One look at a source that is prepared outside: whether it came, and how long it may still take.
pub open spec fn wait_step(
    w: PreparedWait,
    q: QueueModel,
    id: Seq<char>,
    cancelled: bool,
    now: u64,
) -> (PreparedWait, Option<bool>) {
    if cancelled {
        (w, Some(false))
    } else if q.has(id) && q.entry(id).prepared_source_url is Some {
        (w, Some(true))
    } else {
        let seen = seen_activity(w, q, id, now);
        (
            seen,
            if now - seen.last_activity >= PREPARATION_TIMEOUT {
                Some(false)
            } else {
                None
            },
        )
    }
}

/// Where a worker stands: what it waits for.
#[derive(Debug, Clone, Copy, PartialEq, Eq, Structural)]
pub enum Stage {
    Release,
    Permit,
    Target,
    Source,
    Provider,
    Resolution,
    Download,
    Relocation,
    Lyrics,
    Import,
    Ended,
}

/// What a worker learns.
pub enum RunEvent {
    /// The wait for a start is over; `false` where the task was cancelled meanwhile.
    Released(bool),
    Permit(bool),
    /// Why the target directory cannot be used, if it cannot.
    Target(Option<String>),
    /// Whether the prepared source came in time.
    Source(bool),
    Provider(bool),
    /// What the platform says of the video, if it could be asked.
    Resolved(Option<VideoInfo>),
    Downloaded(Result<String, String>),
    Relocated(Result<String, String>),
    /// Lyrics were fetched and stored, or not: both are fine.
    Lyrics,
    Imported(Result<i64, String>),
    /// The token fired during a wait.
    Interrupted,
}

/// What is to be done next outside.
#[derive(Debug, Clone, Copy, PartialEq, Eq, Structural)]
pub enum RunAction {
    Stop,
    AcquirePermit,
    CheckTarget,
    AwaitSource,
    FindProvider,
    ResolveVideo,
    Download,
    Relocate,
    /// The file is in place: the permit goes back, then lyrics are fetched.
    FetchLyrics,
    Import,
    Finished,
}

pub open spec fn stop_canceled(q: QueueModel, id: Seq<char>, at: Moment) -> QueueModel {
    settle_step(q, id, TaskState::Canceled, "已取消"@, at)
}

pub open spec fn stop_failed(q: QueueModel, id: Seq<char>, error: Seq<char>, at: Moment) -> QueueModel {
    settle_step(q, id, TaskState::Failed, error, at)
}

pub open spec fn source_taken(q: QueueModel, id: Seq<char>) -> QueueModel {
    if q.has(id) {
        q.with_entry(id, EntryModel { prepared_source_url: None, ..q.entry(id) })
    } else {
        q
    }
}

pub open spec fn source_of(q: QueueModel, id: Seq<char>) -> Option<Seq<char>> {
    if q.has(id) {
        q.entry(id).prepared_source_url
    } else {
        None
    }
}

/// A worker that downloads a song.
pub struct AudioRun {
    pub id: String,
    /// How the platform is called in messages.
    pub platform_name: String,
    pub stage: Stage,
    pub retry: Option<AudioRetry>,
    pub source_url: Option<String>,
    pub path: String,
    pub track_id: Option<i64>,
}

#[verifier::ext_equal]
pub struct AudioRunModel {
    pub id: Seq<char>,
    pub platform_name: Seq<char>,
    pub stage: Stage,
    pub retry: Option<AudioRetryModel>,
    pub source_url: Option<Seq<char>>,
    pub path: Seq<char>,
    pub track_id: Option<i64>,
}

impl View for AudioRun {
    type V = AudioRunModel;

    open spec fn view(&self) -> AudioRunModel {
        AudioRunModel {
            id: self.id@,
            platform_name: self.platform_name@,
            stage: self.stage,
            retry: audio_of(self.retry),
            source_url: text_of(self.source_url),
            path: self.path@,
            track_id: self.track_id,
        }
    }
}

impl AudioRunModel {
    pub open spec fn at_stage(self, stage: Stage) -> AudioRunModel {
        AudioRunModel { stage, ..self }
    }

    pub open spec fn external(self) -> bool {
        self.retry matches Some(r) && r.external_preparation
    }
}

pub open spec fn audio_start(q: QueueModel, id: Seq<char>) -> Option<AudioRetryModel> {
    if q.has(id) && q.entry(id).task.state is Queued {
        q.entry(id).audio_retry
    } else {
        None
    }
}

/// One step of a worker that downloads a song.
pub open spec fn audio_step(
    q: QueueModel,
    run: AudioRunModel,
    event: RunEvent,
    cancelled: bool,
    size: u64,
    at: Moment,
) -> (QueueModel, AudioRunModel, RunAction) {
    let id = run.id;
    let over = run.at_stage(Stage::Ended);
    match (run.stage, event) {
        (Stage::Release, RunEvent::Released(true)) => (
            q,
            run.at_stage(Stage::Permit),
            RunAction::AcquirePermit,
        ),
        (Stage::Permit, RunEvent::Permit(true)) => if cancelled {
            (q, over, RunAction::Stop)
        } else {
            match audio_start(q, id) {
                Some(retry) => (
                    q.updated(id, audio_started(q.entry(id), at)),
                    AudioRunModel { stage: Stage::Target, retry: Some(retry), ..run },
                    RunAction::CheckTarget,
                ),
                None => (q, over, RunAction::Stop),
            }
        },
        (Stage::Target, RunEvent::Target(None)) => if run.external() {
            (q, run.at_stage(Stage::Source), RunAction::AwaitSource)
        } else {
            (
                phase_step(q, id, TaskPhase::Resolving, at),
                run.at_stage(Stage::Provider),
                RunAction::FindProvider,
            )
        },
        (Stage::Target, RunEvent::Target(Some(message))) => (
            stop_failed(q, id, message@, at),
            over,
            RunAction::Stop,
        ),
        (Stage::Source, RunEvent::Source(true)) => (
            phase_step(q, id, TaskPhase::PostProcessing, at),
            run.at_stage(Stage::Provider),
            RunAction::FindProvider,
        ),
        (Stage::Source, RunEvent::Source(false)) => if cancelled {
            (stop_canceled(q, id, at), over, RunAction::Stop)
        } else {
            (stop_failed(q, id, "下载来源未及时就绪，请重试"@, at), over, RunAction::Stop)
        },
        (Stage::Provider, RunEvent::Provider(true)) => (
            source_taken(q, id),
            AudioRunModel { stage: Stage::Download, source_url: source_of(q, id), ..run },
            RunAction::Download,
        ),
        (Stage::Provider, RunEvent::Provider(false)) => (
            stop_failed(
                q,
                id,
                "平台 "@ + run.platform_name + " 不可用（provider 未加载）"@,
                at,
            ),
            over,
            RunAction::Stop,
        ),
        (Stage::Download, RunEvent::Interrupted) => (
            stop_canceled(q, id, at),
            over,
            RunAction::Stop,
        ),
        (Stage::Download, RunEvent::Downloaded(Ok(path))) => if cancelled {
            (stop_canceled(q, id, at), over, RunAction::Stop)
        } else {
            (
                phase_step(q, id, TaskPhase::Relocating, at),
                AudioRunModel { stage: Stage::Relocation, path: path@, ..run },
                RunAction::Relocate,
            )
        },
        (Stage::Download, RunEvent::Downloaded(Err(message))) => if cancelled {
            (stop_canceled(q, id, at), over, RunAction::Stop)
        } else {
            (stop_failed(q, id, message@, at), over, RunAction::Stop)
        },
        (Stage::Relocation, RunEvent::Relocated(Err(message))) => (
            stop_failed(q, id, "已下载但移入目标文件夹失败："@ + message@, at),
            over,
            RunAction::Stop,
        ),
        (Stage::Relocation, RunEvent::Relocated(Ok(path))) => if cancelled {
            (
                stop_canceled(q, id, at),
                AudioRunModel { path: path@, ..over },
                RunAction::Stop,
            )
        } else {
            (
                phase_step(q, id, TaskPhase::PostProcessing, at),
                AudioRunModel { stage: Stage::Lyrics, path: path@, ..run },
                RunAction::FetchLyrics,
            )
        },
        (Stage::Lyrics, RunEvent::Interrupted) => (stop_canceled(q, id, at), over, RunAction::Stop),
        (Stage::Lyrics, RunEvent::Lyrics) => if cancelled {
            (stop_canceled(q, id, at), over, RunAction::Stop)
        } else {
            (
                phase_step(q, id, TaskPhase::Importing, at),
                run.at_stage(Stage::Import),
                RunAction::Import,
            )
        },
        (Stage::Import, RunEvent::Imported(Ok(track_id))) => (
            finish_step(
                q,
                id,
                run.path,
                size,
                TaskState::Done,
                Seq::empty(),
                Some(track_id),
                at,
            ),
            AudioRunModel { track_id: Some(track_id), ..over },
            RunAction::Finished,
        ),
        (Stage::Import, RunEvent::Imported(Err(message))) => (
            finish_step(
                q,
                id,
                run.path,
                size,
                TaskState::Failed,
                "文件已下载，但加入曲库失败："@ + message@,
                None,
                at,
            ),
            over,
            RunAction::Stop,
        ),
        _ => (q, over, RunAction::Stop),
    }
}

fn cancel_and_stop(manager: &mut DownloadManager, id: &str, at: Moment)
    requires
        old(manager)@.well_formed(),
    ensures
        final(manager)@.well_formed(),
        final(manager)@ == stop_canceled(old(manager)@, id@, at),
{
    let _ = manager.settle(id, TaskState::Canceled, "已取消", at);
}

fn fail_and_stop(manager: &mut DownloadManager, id: &str, message: &str, at: Moment)
    requires
        old(manager)@.well_formed(),
    ensures
        final(manager)@.well_formed(),
        final(manager)@ == stop_failed(old(manager)@, id@, message@, at),
{
    let _ = manager.settle(id, TaskState::Failed, message, at);
}

impl AudioRun {
    /// A worker for the queued task `id`; a retry does not wait for a start.
    pub fn begin(id: String, platform_name: String, start_immediately: bool) -> (r: Self)
        ensures
            r@ == (AudioRunModel {
                id: id@,
                platform_name: platform_name@,
                stage: if start_immediately {
                    Stage::Permit
                } else {
                    Stage::Release
                },
                retry: None,
                source_url: None,
                path: Seq::empty(),
                track_id: None,
            }),
    {
        let r = AudioRun {
            id,
            platform_name,
            stage: if start_immediately {
                Stage::Permit
            } else {
                Stage::Release
            },
            retry: None,
            source_url: None,
            path: String::new(),
            track_id: None,
        };
        assert(r.path@ =~= Seq::<char>::empty());
        r
    }

    /// Takes one event. `cancelled` says whether the token has fired by now, `size` how large the
    /// file at the current path is.
    pub fn step(
        &mut self,
        manager: &mut DownloadManager,
        event: RunEvent,
        cancelled: bool,
        size: u64,
        at: Moment,
    ) -> (action: RunAction)
        requires
            old(manager)@.well_formed(),
        ensures
            final(manager)@.well_formed(),
            (final(manager)@, final(self)@, action) == audio_step(
                old(manager)@,
                old(self)@,
                event,
                cancelled,
                size,
                at,
            ),
    {
        match (self.stage, event) {
            (Stage::Release, RunEvent::Released(true)) => {
                self.stage = Stage::Permit;
                return RunAction::AcquirePermit;
            },
            (Stage::Permit, RunEvent::Permit(true)) => {
                if !cancelled {
                    if let Some(retry) = manager.start_audio(self.id.as_str(), at) {
                        self.retry = Some(retry);
                        self.stage = Stage::Target;
                        return RunAction::CheckTarget;
                    }
                }
            },
            (Stage::Target, RunEvent::Target(None)) => {
                let external: bool = match &self.retry {
                    Some(retry) => retry.external_preparation,
                    None => false,
                };
                if external {
                    self.stage = Stage::Source;
                    return RunAction::AwaitSource;
                }
                manager.phase(self.id.as_str(), TaskPhase::Resolving, at);
                self.stage = Stage::Provider;
                return RunAction::FindProvider;
            },
            (Stage::Target, RunEvent::Target(Some(message))) => {
                fail_and_stop(manager, self.id.as_str(), message.as_str(), at);
            },
            (Stage::Source, RunEvent::Source(true)) => {
                manager.phase(self.id.as_str(), TaskPhase::PostProcessing, at);
                self.stage = Stage::Provider;
                return RunAction::FindProvider;
            },
            (Stage::Source, RunEvent::Source(false)) => {
                if cancelled {
                    cancel_and_stop(manager, self.id.as_str(), at);
                } else {
                    fail_and_stop(
                        manager,
                        self.id.as_str(),
                        "下载来源未及时就绪，请重试",
                        at,
                    );
                }
            },
            (Stage::Provider, RunEvent::Provider(true)) => {
                self.source_url = manager.take_prepared_source_url(self.id.as_str());
                self.stage = Stage::Download;
                return RunAction::Download;
            },
            (Stage::Provider, RunEvent::Provider(false)) => {
                let mut message = concat("平台 ", self.platform_name.as_str());
                message.append(" 不可用（provider 未加载）");
                fail_and_stop(manager, self.id.as_str(), message.as_str(), at);
            },
            (Stage::Download, RunEvent::Interrupted) => {
                cancel_and_stop(manager, self.id.as_str(), at);
            },
            (Stage::Download, RunEvent::Downloaded(Ok(path))) => {
                if !cancelled {
                    manager.phase(self.id.as_str(), TaskPhase::Relocating, at);
                    self.path = path;
                    self.stage = Stage::Relocation;
                    return RunAction::Relocate;
                }
                cancel_and_stop(manager, self.id.as_str(), at);
            },
            (Stage::Download, RunEvent::Downloaded(Err(message))) => {
                if cancelled {
                    cancel_and_stop(manager, self.id.as_str(), at);
                } else {
                    fail_and_stop(manager, self.id.as_str(), message.as_str(), at);
                }
            },
            (Stage::Relocation, RunEvent::Relocated(Err(message))) => {
                let text = concat("已下载但移入目标文件夹失败：", message.as_str());
                fail_and_stop(manager, self.id.as_str(), text.as_str(), at);
            },
            (Stage::Relocation, RunEvent::Relocated(Ok(path))) => {
                self.path = path;
                if !cancelled {
                    manager.phase(self.id.as_str(), TaskPhase::PostProcessing, at);
                    self.stage = Stage::Lyrics;
                    return RunAction::FetchLyrics;
                }
                cancel_and_stop(manager, self.id.as_str(), at);
            },
            (Stage::Lyrics, RunEvent::Interrupted) => {
                cancel_and_stop(manager, self.id.as_str(), at);
            },
            (Stage::Lyrics, RunEvent::Lyrics) => {
                if !cancelled {
                    manager.phase(self.id.as_str(), TaskPhase::Importing, at);
                    self.stage = Stage::Import;
                    return RunAction::Import;
                }
                cancel_and_stop(manager, self.id.as_str(), at);
            },
            (Stage::Import, RunEvent::Imported(Ok(track_id))) => {
                manager.finish(self.id.as_str(), self.path.as_str(), size, Some(track_id), at);
                self.track_id = Some(track_id);
                self.stage = Stage::Ended;
                return RunAction::Finished;
            },
            (Stage::Import, RunEvent::Imported(Err(message))) => {
                let text = concat("文件已下载，但加入曲库失败：", message.as_str());
                manager.fail_after_download(
                    self.id.as_str(),
                    self.path.as_str(),
                    size,
                    text.as_str(),
                    at,
                );
            },
            _ => {},
        }
        self.stage = Stage::Ended;
        RunAction::Stop
    }
}

/// A worker that downloads a video.
pub struct VideoRun {
    pub id: String,
    pub stage: Stage,
    pub retry: Option<VideoRetry>,
    /// What the imported file is known by: the key of the video.
    pub source_key: String,
    pub source_url: Option<String>,
    pub path: String,
    pub track_id: Option<i64>,
}

#[verifier::ext_equal]
pub struct VideoRunModel {
    pub id: Seq<char>,
    pub stage: Stage,
    pub retry: Option<VideoRetryModel>,
    pub source_key: Seq<char>,
    pub source_url: Option<Seq<char>>,
    pub path: Seq<char>,
    pub track_id: Option<i64>,
}

impl View for VideoRun {
    type V = VideoRunModel;

    open spec fn view(&self) -> VideoRunModel {
        VideoRunModel {
            id: self.id@,
            stage: self.stage,
            retry: video_of(self.retry),
            source_key: self.source_key@,
            source_url: text_of(self.source_url),
            path: self.path@,
            track_id: self.track_id,
        }
    }
}

impl VideoRunModel {
    pub open spec fn at_stage(self, stage: Stage) -> VideoRunModel {
        VideoRunModel { stage, ..self }
    }

    pub open spec fn external(self) -> bool {
        self.retry matches Some(r) && r.external_preparation
    }

    /// The finished file goes into the library: it is audio, or it was put into a chosen folder.
    pub open spec fn imports(self) -> bool {
        self.retry matches Some(r) && (r.request.audio_only || trimmed(r.request.dest_dir).len()
            > 0)
    }

    pub open spec fn with_source(self, q: QueueModel) -> VideoRunModel {
        VideoRunModel { stage: Stage::Download, source_url: source_of(q, self.id), ..self }
    }
}

pub open spec fn video_start(q: QueueModel, id: Seq<char>) -> Option<VideoRetryModel> {
    if q.has(id) && q.entry(id).task.state is Queued {
        q.entry(id).video_retry
    } else {
        None
    }
}

pub open spec fn resolution_applied(
    q: QueueModel,
    id: Seq<char>,
    info: VideoInfo,
    at: Moment,
) -> QueueModel {
    if q.has(id) {
        q.updated(
            id,
            resolved(
                q.entry(id),
                info.bvid@,
                info.title@,
                info.author@,
                info.cover@,
                page_titles(info.pages@),
                at,
            ),
        )
    } else {
        q
    }
}

/// What is asked of the platform: the given link, or else the id.
pub open spec fn probe_of(r: VideoRetryModel) -> Seq<char> {
    if trimmed(r.request.url).len() == 0 {
        r.request.bvid
    } else {
        r.request.url
    }
}

pub fn resolution_probe(retry: &VideoRetry) -> (s: String)
    ensures
        s@ == probe_of(retry@),
{
    if trim(retry.request.url.as_str()).as_str().is_empty() {
        retry.request.bvid.clone()
    } else {
        retry.request.url.clone()
    }
}

/// One step of a worker that downloads a video.
pub open spec fn video_step(
    q: QueueModel,
    run: VideoRunModel,
    event: RunEvent,
    cancelled: bool,
    size: u64,
    at: Moment,
) -> (QueueModel, VideoRunModel, RunAction) {
    let id = run.id;
    let over = run.at_stage(Stage::Ended);
    match (run.stage, event) {
        (Stage::Release, RunEvent::Released(true)) => (
            q,
            run.at_stage(Stage::Permit),
            RunAction::AcquirePermit,
        ),
        (Stage::Permit, RunEvent::Permit(true)) => if cancelled {
            (q, over, RunAction::Stop)
        } else {
            match video_start(q, id) {
                Some(retry) => (
                    q.updated(id, video_started(q.entry(id), at)),
                    VideoRunModel {
                        stage: Stage::Target,
                        source_key: trimmed(retry.request.bvid),
                        retry: Some(retry),
                        ..run
                    },
                    RunAction::CheckTarget,
                ),
                None => (q, over, RunAction::Stop),
            }
        },
        (Stage::Target, RunEvent::Target(None)) => (
            q,
            run.at_stage(Stage::Provider),
            RunAction::FindProvider,
        ),
        (Stage::Target, RunEvent::Target(Some(message))) => (
            stop_failed(q, id, message@, at),
            over,
            RunAction::Stop,
        ),
        (Stage::Provider, RunEvent::Provider(true)) => (
            q,
            run.at_stage(Stage::Resolution),
            RunAction::ResolveVideo,
        ),
        (Stage::Provider, RunEvent::Provider(false)) => (
            stop_failed(q, id, "视频 Provider 不可用"@, at),
            over,
            RunAction::Stop,
        ),
        (Stage::Resolution, RunEvent::Interrupted) => (
            stop_canceled(q, id, at),
            over,
            RunAction::Stop,
        ),
        (Stage::Resolution, RunEvent::Resolved(found)) => {
            let known = match found {
                Some(info) => resolution_applied(q, id, info, at),
                None => q,
            };
            let named = match found {
                Some(info) if trimmed(info.bvid@).len() > 0 => VideoRunModel {
                    source_key: trimmed(info.bvid@),
                    ..run
                },
                _ => run,
            };
            if run.external() {
                (
                    phase_step(known, id, TaskPhase::Authorizing, at),
                    named.at_stage(Stage::Source),
                    RunAction::AwaitSource,
                )
            } else {
                (source_taken(known, id), named.with_source(known), RunAction::Download)
            }
        },
        (Stage::Source, RunEvent::Source(true)) => (
            source_taken(q, id),
            run.with_source(q),
            RunAction::Download,
        ),
        (Stage::Source, RunEvent::Source(false)) => if cancelled {
            (stop_canceled(q, id, at), over, RunAction::Stop)
        } else {
            (stop_failed(q, id, "下载来源未及时就绪，请重试"@, at), over, RunAction::Stop)
        },
        (Stage::Download, RunEvent::Interrupted) => (
            stop_canceled(q, id, at),
            over,
            RunAction::Stop,
        ),
        (Stage::Download, RunEvent::Downloaded(Ok(path))) => if cancelled {
            (stop_canceled(q, id, at), over, RunAction::Stop)
        } else {
            (
                phase_step(q, id, TaskPhase::Relocating, at),
                VideoRunModel { stage: Stage::Relocation, path: path@, ..run },
                RunAction::Relocate,
            )
        },
        (Stage::Download, RunEvent::Downloaded(Err(message))) => if cancelled {
            (stop_canceled(q, id, at), over, RunAction::Stop)
        } else {
            (stop_failed(q, id, message@, at), over, RunAction::Stop)
        },
        (Stage::Relocation, RunEvent::Relocated(Err(message))) => (
            stop_failed(q, id, "已下载但移入目标文件夹失败："@ + message@, at),
            over,
            RunAction::Stop,
        ),
        (Stage::Relocation, RunEvent::Relocated(Ok(path))) => {
            let placed = VideoRunModel { path: path@, ..run };
            if cancelled {
                (stop_canceled(q, id, at), placed.at_stage(Stage::Ended), RunAction::Stop)
            } else if run.imports() {
                (
                    phase_step(q, id, TaskPhase::Importing, at),
                    placed.at_stage(Stage::Import),
                    RunAction::Import,
                )
            } else {
                (
                    finish_step(
                        q,
                        id,
                        path@,
                        size,
                        TaskState::Done,
                        Seq::empty(),
                        None,
                        at,
                    ),
                    placed.at_stage(Stage::Ended),
                    RunAction::Finished,
                )
            }
        },
        (Stage::Import, RunEvent::Imported(Ok(track_id))) => (
            finish_step(
                q,
                id,
                run.path,
                size,
                TaskState::Done,
                Seq::empty(),
                Some(track_id),
                at,
            ),
            VideoRunModel { track_id: Some(track_id), ..over },
            RunAction::Finished,
        ),
        (Stage::Import, RunEvent::Imported(Err(message))) => (
            finish_step(
                q,
                id,
                run.path,
                size,
                TaskState::Failed,
                "视频已下载，但加入曲库失败："@ + message@,
                None,
                at,
            ),
            over,
            RunAction::Stop,
        ),
        _ => (q, over, RunAction::Stop),
    }
}

impl VideoRun {
    /// A worker for the queued task `id`; a retry does not wait for a start.
    pub fn begin(id: String, start_immediately: bool) -> (r: Self)
        ensures
            r@ == (VideoRunModel {
                id: id@,
                stage: if start_immediately {
                    Stage::Permit
                } else {
                    Stage::Release
                },
                retry: None,
                source_key: Seq::empty(),
                source_url: None,
                path: Seq::empty(),
                track_id: None,
            }),
    {
        let r = VideoRun {
            id,
            stage: if start_immediately {
                Stage::Permit
            } else {
                Stage::Release
            },
            retry: None,
            source_key: String::new(),
            source_url: None,
            path: String::new(),
            track_id: None,
        };
        assert(r.path@ =~= Seq::<char>::empty());
        assert(r.source_key@ =~= Seq::<char>::empty());
        r
    }

    fn take_source(&mut self, manager: &mut DownloadManager)
        requires
            old(manager)@.well_formed(),
        ensures
            final(manager)@.well_formed(),
            final(manager)@ == source_taken(old(manager)@, old(self)@.id),
            final(self)@ == old(self)@.with_source(old(manager)@),
    {
        self.source_url = manager.take_prepared_source_url(self.id.as_str());
        self.stage = Stage::Download;
    }

    fn resolved(&mut self, manager: &mut DownloadManager, found: Option<VideoInfo>, at: Moment) -> (action:
        RunAction)
        requires
            old(manager)@.well_formed(),
            old(self)@.stage is Resolution,
        ensures
            final(manager)@.well_formed(),
            (final(manager)@, final(self)@, action) == video_step(
                old(manager)@,
                old(self)@,
                RunEvent::Resolved(found),
                false,
                0,
                at,
            ),
    {
        if let Some(info) = &found {
            manager.apply_video_resolution(self.id.as_str(), info, at);
            let key = trim(info.bvid.as_str());
            if !key.as_str().is_empty() {
                self.source_key = key;
            }
        }
        let external: bool = match &self.retry {
            Some(retry) => retry.external_preparation,
            None => false,
        };
        if external {
            manager.phase(self.id.as_str(), TaskPhase::Authorizing, at);
            self.stage = Stage::Source;
            return RunAction::AwaitSource;
        }
        self.take_source(manager);
        RunAction::Download
    }

    /// Takes one event. `cancelled` says whether the token has fired by now, `size` how large the
    /// file at the current path is.
    pub fn step(
        &mut self,
        manager: &mut DownloadManager,
        event: RunEvent,
        cancelled: bool,
        size: u64,
        at: Moment,
    ) -> (action: RunAction)
        requires
            old(manager)@.well_formed(),
        ensures
            final(manager)@.well_formed(),
            (final(manager)@, final(self)@, action) == video_step(
                old(manager)@,
                old(self)@,
                event,
                cancelled,
                size,
                at,
            ),
    {
        match (self.stage, event) {
            (Stage::Release, RunEvent::Released(true)) => {
                self.stage = Stage::Permit;
                return RunAction::AcquirePermit;
            },
            (Stage::Permit, RunEvent::Permit(true)) => {
                if !cancelled {
                    if let Some(retry) = manager.start_video(self.id.as_str(), at) {
                        self.source_key = trim(retry.request.bvid.as_str());
                        self.retry = Some(retry);
                        self.stage = Stage::Target;
                        return RunAction::CheckTarget;
                    }
                }
            },
            (Stage::Target, RunEvent::Target(None)) => {
                self.stage = Stage::Provider;
                return RunAction::FindProvider;
            },
            (Stage::Target, RunEvent::Target(Some(message))) => {
                fail_and_stop(manager, self.id.as_str(), message.as_str(), at);
            },
            (Stage::Provider, RunEvent::Provider(true)) => {
                self.stage = Stage::Resolution;
                return RunAction::ResolveVideo;
            },
            (Stage::Provider, RunEvent::Provider(false)) => {
                fail_and_stop(manager, self.id.as_str(), "视频 Provider 不可用", at);
            },
            (Stage::Resolution, RunEvent::Interrupted) => {
                cancel_and_stop(manager, self.id.as_str(), at);
            },
            (Stage::Resolution, RunEvent::Resolved(found)) => {
                return self.resolved(manager, found, at);
            },
            (Stage::Source, RunEvent::Source(true)) => {
                self.take_source(manager);
                return RunAction::Download;
            },
            (Stage::Source, RunEvent::Source(false)) => {
                if cancelled {
                    cancel_and_stop(manager, self.id.as_str(), at);
                } else {
                    fail_and_stop(
                        manager,
                        self.id.as_str(),
                        "下载来源未及时就绪，请重试",
                        at,
                    );
                }
            },
            (Stage::Download, RunEvent::Interrupted) => {
                cancel_and_stop(manager, self.id.as_str(), at);
            },
            (Stage::Download, RunEvent::Downloaded(Ok(path))) => {
                if !cancelled {
                    manager.phase(self.id.as_str(), TaskPhase::Relocating, at);
                    self.path = path;
                    self.stage = Stage::Relocation;
                    return RunAction::Relocate;
                }
                cancel_and_stop(manager, self.id.as_str(), at);
            },
            (Stage::Download, RunEvent::Downloaded(Err(message))) => {
                if cancelled {
                    cancel_and_stop(manager, self.id.as_str(), at);
                } else {
                    fail_and_stop(manager, self.id.as_str(), message.as_str(), at);
                }
            },
            (Stage::Relocation, RunEvent::Relocated(Err(message))) => {
                let text = concat("已下载但移入目标文件夹失败：", message.as_str());
                fail_and_stop(manager, self.id.as_str(), text.as_str(), at);
            },
            (Stage::Relocation, RunEvent::Relocated(Ok(path))) => {
                self.path = path;
                if !cancelled {
                    let imports: bool = match &self.retry {
                        Some(retry) => retry.request.audio_only || !trim(
                            retry.request.dest_dir.as_str(),
                        ).as_str().is_empty(),
                        None => false,
                    };
                    if imports {
                        manager.phase(self.id.as_str(), TaskPhase::Importing, at);
                        self.stage = Stage::Import;
                        return RunAction::Import;
                    }
                    manager.finish(self.id.as_str(), self.path.as_str(), size, None, at);
                    self.stage = Stage::Ended;
                    return RunAction::Finished;
                }
                cancel_and_stop(manager, self.id.as_str(), at);
            },
            (Stage::Import, RunEvent::Imported(Ok(track_id))) => {
                manager.finish(self.id.as_str(), self.path.as_str(), size, Some(track_id), at);
                self.track_id = Some(track_id);
                self.stage = Stage::Ended;
                return RunAction::Finished;
            },
            (Stage::Import, RunEvent::Imported(Err(message))) => {
                let text = concat("视频已下载，但加入曲库失败：", message.as_str());
                manager.fail_after_download(
                    self.id.as_str(),
                    self.path.as_str(),
                    size,
                    text.as_str(),
                    at,
                );
            },
            _ => {},
        }
        self.stage = Stage::Ended;
        RunAction::Stop
    }
}

// ---------------------------------------------------------------- the target folder

/// Why a folder cannot take a download: it is not there, or nothing can be written to it.
pub open spec fn target_refusal(dest: Seq<char>, is_folder: bool, failure: Option<Seq<char>>) -> Option<
    Seq<char>,
> {
    if !is_folder {
        Some("下载文件夹不存在或设备未连接："@ + dest)
    } else {
        match failure {
            Some(reason) => Some("下载文件夹不可写："@ + dest + "（"@ + reason + "）"@),
            None => None,
        }
    }
}

pub open spec fn refusal_of(r: Result<(), String>) -> Option<Seq<char>> {
    match r {
        Ok(_) => None,
        Err(e) => Some(e@),
    }
}

/// Judges the folder of a download. It is never created here: where a drive was unplugged, its
/// mount point would come back on another disk.
pub fn validate_download_target(dest: &str, is_folder: bool, failure: &Option<String>) -> (r: Result<
    (),
    String,
>)
    ensures
        refusal_of(r) == target_refusal(dest@, is_folder, text_of(*failure)),
{
    if !is_folder {
        return Err(concat("下载文件夹不存在或设备未连接：", dest));
    }
    match failure {
        Some(reason) => {
            let mut e = concat("下载文件夹不可写：", dest);
            e.append("（");
            e.append(reason.as_str());
            e.append("）");
            Err(e)
        },
        None => Ok(()),
    }
}

/// What becomes of a downloaded file.
pub enum Relocation {
    /// It lies in its folder already.
    Stay,
    /// It is moved into this folder.
    MoveTo(String),
}

/// Decides where a downloaded file goes, when `target` is the judgement of its trimmed folder.
pub fn relocate_download(path: &str, dest_dir: &str, target: Result<(), String>) -> (r: Result<
    Relocation,
    String,
>)
    ensures
        match r {
            Err(e) => refusal_of(target) == Some(e@),
            Ok(Relocation::Stay) => target is Ok && lies_directly_in(path@, trimmed(dest_dir@)),
            Ok(Relocation::MoveTo(folder)) => target is Ok && folder@ == trimmed(dest_dir@)
                && !lies_directly_in(path@, trimmed(dest_dir@)),
        },
{
    match target {
        Err(e) => Err(e),
        Ok(()) => {
            let dest = trim(dest_dir);
            if is_directly_in(path, dest.as_str()) {
                Ok(Relocation::Stay)
            } else {
                Ok(Relocation::MoveTo(dest))
            }
        },
    }
}

} // verus!
