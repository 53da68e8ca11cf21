//! Plain values that the server's rules speak of, and what each of them views as.

use vstd::prelude::*;

verus! {

#[derive(Debug, Clone, Copy, PartialEq, Eq, Structural)]
pub enum Platform {
    Wyy,
    Qqm,
    Soundcloud,
    Bilibili,
    Ytm,
    Youtube,
}

#[derive(Debug, Clone, Copy, PartialEq, Eq, Structural)]
pub enum Quality {
    Flac,
    Q320,
    Q128,
}

impl Quality {
    pub open spec fn name(self) -> Seq<char> {
        match self {
            Quality::Flac => "flac"@,
            Quality::Q320 => "320"@,
            Quality::Q128 => "128"@,
        }
    }

    pub fn as_str(self) -> (s: &'static str)
        ensures
            s@ == self.name(),
    {
        match self {
            Quality::Flac => "flac",
            Quality::Q320 => "320",
            Quality::Q128 => "128",
        }
    }
}

#[derive(Debug, Clone, Copy, PartialEq, Eq, Structural)]
pub enum TaskKind {
    Audio,
    Video,
}

#[derive(Debug, Clone, Copy, PartialEq, Eq, Structural)]
pub enum TaskState {
    Queued,
    Running,
    Processing,
    Paused,
    Done,
    Failed,
    Canceled,
}

#[derive(Debug, Clone, Copy, PartialEq, Eq, Structural)]
pub enum TaskPhase {
    Waiting,
    Resolving,
    Authorizing,
    Downloading,
    PostProcessing,
    Relocating,
    Importing,
    Completed,
}

/// A moment: microseconds since the epoch, and microseconds of a clock that never goes back.
#[derive(Debug, Clone, Copy, PartialEq, Eq, Structural)]
pub struct Moment {
    pub wall: i64,
    pub mono: u64,
}

/// How much of something is done: a fraction between nothing and all.
#[derive(Debug, Clone, Copy, PartialEq, Eq, Structural)]
pub struct Fraction {
    pub done: u64,
    pub whole: u64,
}

impl Fraction {
    pub open spec fn well_formed(self) -> bool {
        0 < self.whole && self.done <= self.whole
    }

    pub open spec fn none() -> Fraction {
        Fraction { done: 0, whole: 1 }
    }

    pub open spec fn all() -> Fraction {
        Fraction { done: 1, whole: 1 }
    }
}

/// A transfer rate: bytes in a span of microseconds.
#[derive(Debug, Clone, Copy, PartialEq, Eq, Structural)]
pub struct Speed {
    pub bytes: u64,
    pub micros: u64,
}

impl Speed {
    pub open spec fn zero() -> Speed {
        Speed { bytes: 0, micros: 1 }
    }
}

pub fn no_speed() -> (s: Speed)
    ensures
        s == Speed::zero(),
{
    Speed { bytes: 0, micros: 1 }
}

pub open spec fn texts(v: Seq<String>) -> Seq<Seq<char>> {
    v.map_values(|s: String| s@)
}

pub fn clone_texts(v: &Vec<String>) -> (r: Vec<String>)
    ensures
        texts(r@) == texts(v@),
{
    let mut r: Vec<String> = Vec::new();
    let mut i: usize = 0;
    while i < v.len()
        invariant
            i <= v.len(),
            texts(r@) == texts(v@).take(i as int),
        decreases v.len() - i,
    {
        let ghost before = r@;
        r.push(v[i].clone());
        i += 1;
        assert(texts(r@) =~= texts(before).push(v@[i - 1]@));
        assert(texts(v@).take(i as int) =~= texts(v@).take(i - 1).push(v@[i - 1]@));
    }
    assert(texts(v@).take(i as int) =~= texts(v@));
    r
}

pub open spec fn text_of(s: Option<String>) -> Option<Seq<char>> {
    match s {
        Some(s) => Some(s@),
        None => None,
    }
}

pub fn clone_text(s: &Option<String>) -> (r: Option<String>)
    ensures
        text_of(r) == text_of(*s),
{
    match s {
        Some(s) => Some(s.clone()),
        None => None,
    }
}

/// A song as one platform offers it.
pub struct SongSource {
    pub platform: Platform,
    pub key: String,
    pub title: String,
    pub artists: Vec<String>,
    pub album: String,
    /// The length in milliseconds, where the platform gives one.
    pub duration_ms: Option<u64>,
    pub cover: String,
    pub max_quality: Option<Quality>,
    pub vip: bool,
    /// What the platform adds, as JSON text.
    pub payload: String,
}

#[verifier::ext_equal]
pub struct SongSourceModel {
    pub platform: Platform,
    pub key: Seq<char>,
    pub title: Seq<char>,
    pub artists: Seq<Seq<char>>,
    pub album: Seq<char>,
    pub duration_ms: Option<u64>,
    pub cover: Seq<char>,
    pub max_quality: Option<Quality>,
    pub vip: bool,
    pub payload: Seq<char>,
}

impl View for SongSource {
    type V = SongSourceModel;

    open spec fn view(&self) -> SongSourceModel {
        SongSourceModel {
            platform: self.platform,
            key: self.key@,
            title: self.title@,
            artists: texts(self.artists@),
            album: self.album@,
            duration_ms: self.duration_ms,
            cover: self.cover@,
            max_quality: self.max_quality,
            vip: self.vip,
            payload: self.payload@,
        }
    }
}

impl Clone for SongSource {
    fn clone(&self) -> (r: Self)
        ensures
            r@ == self@,
    {
        SongSource {
            platform: self.platform,
            key: self.key.clone(),
            title: self.title.clone(),
            artists: clone_texts(&self.artists),
            album: self.album.clone(),
            duration_ms: self.duration_ms,
            cover: self.cover.clone(),
            max_quality: self.max_quality,
            vip: self.vip,
            payload: self.payload.clone(),
        }
    }
}

/// What a caller asks for when a video is to be downloaded.
pub struct VideoDownloadRequest {
    pub platform: Platform,
    pub url: String,
    pub bvid: String,
    pub page_index: usize,
    pub page_count: usize,
    pub page_title: String,
    pub max_height: i64,
    pub audio_only: bool,
    pub transcode: bool,
    pub offset_ms: i64,
    pub dest_dir: String,
    pub title: String,
    pub artist: String,
    pub cover: String,
}

#[verifier::ext_equal]
pub struct VideoRequestModel {
    pub platform: Platform,
    pub url: Seq<char>,
    pub bvid: Seq<char>,
    pub page_index: usize,
    pub page_count: usize,
    pub page_title: Seq<char>,
    pub max_height: i64,
    pub audio_only: bool,
    pub transcode: bool,
    pub offset_ms: i64,
    pub dest_dir: Seq<char>,
    pub title: Seq<char>,
    pub artist: Seq<char>,
    pub cover: Seq<char>,
}

impl View for VideoDownloadRequest {
    type V = VideoRequestModel;

    open spec fn view(&self) -> VideoRequestModel {
        VideoRequestModel {
            platform: self.platform,
            url: self.url@,
            bvid: self.bvid@,
            page_index: self.page_index,
            page_count: self.page_count,
            page_title: self.page_title@,
            max_height: self.max_height,
            audio_only: self.audio_only,
            transcode: self.transcode,
            offset_ms: self.offset_ms,
            dest_dir: self.dest_dir@,
            title: self.title@,
            artist: self.artist@,
            cover: self.cover@,
        }
    }
}

impl Clone for VideoDownloadRequest {
    fn clone(&self) -> (r: Self)
        ensures
            r@ == self@,
    {
        VideoDownloadRequest {
            platform: self.platform,
            url: self.url.clone(),
            bvid: self.bvid.clone(),
            page_index: self.page_index,
            page_count: self.page_count,
            page_title: self.page_title.clone(),
            max_height: self.max_height,
            audio_only: self.audio_only,
            transcode: self.transcode,
            offset_ms: self.offset_ms,
            dest_dir: self.dest_dir.clone(),
            title: self.title.clone(),
            artist: self.artist.clone(),
            cover: self.cover.clone(),
        }
    }
}

/// One part of a video that comes in parts.
pub struct VideoPage {
    pub index: usize,
    pub title: String,
}

/// What a platform says of a video.
pub struct VideoInfo {
    pub bvid: String,
    pub title: String,
    pub author: String,
    pub cover: String,
    pub pages: Vec<VideoPage>,
}

pub open spec fn page_titles(pages: Seq<VideoPage>) -> Seq<Seq<char>> {
    pages.map_values(|p: VideoPage| p.title@)
}

/// The part of a video that a task is about.
pub struct DownloadVideoPage {
    pub index: usize,
    pub count: usize,
    pub title: String,
}

#[verifier::ext_equal]
pub struct PageModel {
    pub index: usize,
    pub count: usize,
    pub title: Seq<char>,
}

impl View for DownloadVideoPage {
    type V = PageModel;

    open spec fn view(&self) -> PageModel {
        PageModel { index: self.index, count: self.count, title: self.title@ }
    }
}

pub open spec fn page_of(p: Option<DownloadVideoPage>) -> Option<PageModel> {
    match p {
        Some(p) => Some(p@),
        None => None,
    }
}

pub fn clone_page(p: &Option<DownloadVideoPage>) -> (r: Option<DownloadVideoPage>)
    ensures
        page_of(r) == page_of(*p),
{
    match p {
        Some(p) => Some(
            DownloadVideoPage { index: p.index, count: p.count, title: p.title.clone() },
        ),
        None => None,
    }
}

/// One line of the download queue, as a client sees it.
pub struct DownloadTask {
    pub id: String,
    pub kind: TaskKind,
    pub platform: Platform,
    pub source_key: String,
    pub title: String,
    pub artist: String,
    pub quality: String,
    pub state: TaskState,
    pub phase: TaskPhase,
    pub progress: Fraction,
    pub downloaded_bytes: u64,
    pub total_bytes: u64,
    pub speed_bps: Speed,
    pub path: String,
    pub error: String,
    pub track_id: Option<i64>,
    pub dest_dir: String,
    pub output_dir: String,
    pub cover: String,
    pub video_page: Option<DownloadVideoPage>,
    /// Microseconds since the epoch.
    pub created_at: i64,
    pub updated_at: i64,
}

#[verifier::ext_equal]
pub struct TaskModel {
    pub id: Seq<char>,
    pub kind: TaskKind,
    pub platform: Platform,
    pub source_key: Seq<char>,
    pub title: Seq<char>,
    pub artist: Seq<char>,
    pub quality: Seq<char>,
    pub state: TaskState,
    pub phase: TaskPhase,
    pub progress: Fraction,
    pub downloaded_bytes: u64,
    pub total_bytes: u64,
    pub speed_bps: Speed,
    pub path: Seq<char>,
    pub error: Seq<char>,
    pub track_id: Option<i64>,
    pub dest_dir: Seq<char>,
    pub output_dir: Seq<char>,
    pub cover: Seq<char>,
    pub video_page: Option<PageModel>,
    pub created_at: i64,
    pub updated_at: i64,
}

impl View for DownloadTask {
    type V = TaskModel;

    open spec fn view(&self) -> TaskModel {
        TaskModel {
            id: self.id@,
            kind: self.kind,
            platform: self.platform,
            source_key: self.source_key@,
            title: self.title@,
            artist: self.artist@,
            quality: self.quality@,
            state: self.state,
            phase: self.phase,
            progress: self.progress,
            downloaded_bytes: self.downloaded_bytes,
            total_bytes: self.total_bytes,
            speed_bps: self.speed_bps,
            path: self.path@,
            error: self.error@,
            track_id: self.track_id,
            dest_dir: self.dest_dir@,
            output_dir: self.output_dir@,
            cover: self.cover@,
            video_page: page_of(self.video_page),
            created_at: self.created_at,
            updated_at: self.updated_at,
        }
    }
}

impl Clone for DownloadTask {
    fn clone(&self) -> (r: Self)
        ensures
            r@ == self@,
    {
        DownloadTask {
            id: self.id.clone(),
            kind: self.kind,
            platform: self.platform,
            source_key: self.source_key.clone(),
            title: self.title.clone(),
            artist: self.artist.clone(),
            quality: self.quality.clone(),
            state: self.state,
            phase: self.phase,
            progress: self.progress,
            downloaded_bytes: self.downloaded_bytes,
            total_bytes: self.total_bytes,
            speed_bps: self.speed_bps,
            path: self.path.clone(),
            error: self.error.clone(),
            track_id: self.track_id,
            dest_dir: self.dest_dir.clone(),
            output_dir: self.output_dir.clone(),
            cover: self.cover.clone(),
            video_page: clone_page(&self.video_page),
            created_at: self.created_at,
            updated_at: self.updated_at,
        }
    }
}

/// What is needed to run an audio download again.
pub struct AudioRetry {
    pub source: SongSource,
    pub quality: Quality,
    pub analyze: bool,
    pub dest_dir: String,
    pub external_preparation: bool,
}

#[verifier::ext_equal]
pub struct AudioRetryModel {
    pub source: SongSourceModel,
    pub quality: Quality,
    pub analyze: bool,
    pub dest_dir: Seq<char>,
    pub external_preparation: bool,
}

impl View for AudioRetry {
    type V = AudioRetryModel;

    open spec fn view(&self) -> AudioRetryModel {
        AudioRetryModel {
            source: self.source@,
            quality: self.quality,
            analyze: self.analyze,
            dest_dir: self.dest_dir@,
            external_preparation: self.external_preparation,
        }
    }
}

impl Clone for AudioRetry {
    fn clone(&self) -> (r: Self)
        ensures
            r@ == self@,
    {
        AudioRetry {
            source: self.source.clone(),
            quality: self.quality,
            analyze: self.analyze,
            dest_dir: self.dest_dir.clone(),
            external_preparation: self.external_preparation,
        }
    }
}

pub open spec fn audio_of(r: Option<AudioRetry>) -> Option<AudioRetryModel> {
    match r {
        Some(r) => Some(r@),
        None => None,
    }
}

/// What is needed to run a video download again.
pub struct VideoRetry {
    pub request: VideoDownloadRequest,
    /// Where the finished file belongs, as it was when the task was queued.
    pub output_dir: String,
    pub external_preparation: bool,
}

#[verifier::ext_equal]
pub struct VideoRetryModel {
    pub request: VideoRequestModel,
    pub output_dir: Seq<char>,
    pub external_preparation: bool,
}

impl View for VideoRetry {
    type V = VideoRetryModel;

    open spec fn view(&self) -> VideoRetryModel {
        VideoRetryModel {
            request: self.request@,
            output_dir: self.output_dir@,
            external_preparation: self.external_preparation,
        }
    }
}

impl Clone for VideoRetry {
    fn clone(&self) -> (r: Self)
        ensures
            r@ == self@,
    {
        VideoRetry {
            request: self.request.clone(),
            output_dir: self.output_dir.clone(),
            external_preparation: self.external_preparation,
        }
    }
}

pub open spec fn video_of(r: Option<VideoRetry>) -> Option<VideoRetryModel> {
    match r {
        Some(r) => Some(r@),
        None => None,
    }
}

} // verus!
