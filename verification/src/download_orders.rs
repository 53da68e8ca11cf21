//! Putting downloads into the queue, and starting stopped ones again.

use vstd::prelude::*;

use crate::download_queue::{by_age, insert_step, selected, Selection};
use crate::downloads::{audio_retry_refusal, placeholder_title, requeued, video_placeholder_title,
    video_retry_refusal, DownloadError, DownloadManager, EntryModel, QueueModel};
use crate::ids::{id_text, new_id};
use crate::models::{no_speed, texts, AudioRetry, AudioRetryModel, DownloadTask, DownloadVideoPage,
    Fraction, Moment, PageModel, Platform, Quality, SongSource, Speed, TaskKind, TaskModel,
    TaskPhase, TaskState, VideoDownloadRequest, VideoRetry, VideoRetryModel};
use crate::text::{append_signed, same, signed_decimal, trim, trimmed};
use crate::urls::{parse_url, url_of, ParsedUrl, UrlModel};

verus! {

/// What is known of a task when it is ordered.
pub struct Order {
    pub kind: TaskKind,
    pub platform: Platform,
    pub source_key: String,
    pub title: String,
    pub artist: String,
    pub quality: String,
    pub dest_dir: String,
    pub output_dir: String,
    pub cover: String,
}

/// A queued task for an order; without a title it is called "未命名".
pub open spec fn ordered_task(id: Seq<char>, o: Order, at: Moment) -> TaskModel {
    TaskModel {
        id,
        kind: o.kind,
        platform: o.platform,
        source_key: o.source_key@,
        title: if o.title@.len() == 0 {
            "未命名"@
        } else {
            o.title@
        },
        artist: o.artist@,
        quality: o.quality@,
        state: TaskState::Queued,
        phase: TaskPhase::Waiting,
        progress: Fraction::none(),
        downloaded_bytes: 0,
        total_bytes: 0,
        speed_bps: Speed::zero(),
        path: Seq::empty(),
        error: Seq::empty(),
        track_id: None,
        dest_dir: o.dest_dir@,
        output_dir: o.output_dir@,
        cover: o.cover@,
        video_page: None,
        created_at: at.wall,
        updated_at: at.wall,
    }
}

pub fn task_for(id: String, o: Order, at: Moment) -> (t: DownloadTask)
    ensures
        t@ == ordered_task(id@, o, at),
{
    let title: String = if o.title.as_str().is_empty() {
        "未命名".to_owned()
    } else {
        o.title
    };
    let t = DownloadTask {
        id,
        kind: o.kind,
        platform: o.platform,
        source_key: o.source_key,
        title,
        artist: o.artist,
        quality: o.quality,
        state: TaskState::Queued,
        phase: TaskPhase::Waiting,
        progress: Fraction { done: 0, whole: 1 },
        downloaded_bytes: 0,
        total_bytes: 0,
        speed_bps: no_speed(),
        path: String::new(),
        error: String::new(),
        track_id: None,
        dest_dir: o.dest_dir,
        output_dir: o.output_dir,
        cover: o.cover,
        video_page: None,
        created_at: at.wall,
        updated_at: at.wall,
    };
    assert(t.path@ =~= Seq::<char>::empty());
    assert(t.error@ =~= Seq::<char>::empty());
    t
}

/// A queued task under a fresh id.
pub fn new_task(o: Order, at: Moment) -> (t: DownloadTask)
    ensures
        exists|n: u64| t@ == ordered_task(id_text(n), o, at),
{
    let id = new_id();
    let ghost n = choose|n: u64| id@ == id_text(n);
    let t = task_for(id, o, at);
    assert(t@ == ordered_task(id_text(n), o, at));
    t
}

/// Where a download goes: to the directory that was asked for, or else to the usual one.
pub open spec fn target_dir(asked: Seq<char>, usual: Seq<char>) -> Seq<char> {
    if trimmed(asked).len() == 0 {
        usual
    } else {
        asked
    }
}

fn choose_dir(asked: &str, usual: &str) -> (r: String)
    ensures
        r@ == target_dir(asked@, usual@),
{
    if trim(asked).as_str().is_empty() {
        usual.to_owned()
    } else {
        asked.to_owned()
    }
}

/// The entry for a song that was ordered.
pub open spec fn audio_entry(
    id: Seq<char>,
    source: SongSource,
    artist: Seq<char>,
    quality: Quality,
    analyze: bool,
    dest_dir: Seq<char>,
    usual_dir: Seq<char>,
    external: bool,
    cancel: u64,
    at: Moment,
) -> EntryModel {
    let output = target_dir(dest_dir, usual_dir);
    EntryModel {
        audio_retry: Some(
            AudioRetryModel {
                source: source@,
                quality,
                analyze,
                dest_dir: output,
                external_preparation: external,
            },
        ),
        ..EntryModel::fresh(
            TaskModel {
                id,
                kind: TaskKind::Audio,
                platform: source.platform,
                source_key: source.key@,
                title: if source.title@.len() == 0 {
                    "未命名"@
                } else {
                    source.title@
                },
                artist,
                quality: quality.name(),
                state: TaskState::Queued,
                phase: TaskPhase::Waiting,
                progress: Fraction::none(),
                downloaded_bytes: 0,
                total_bytes: 0,
                speed_bps: Speed::zero(),
                path: Seq::empty(),
                error: Seq::empty(),
                track_id: None,
                dest_dir,
                output_dir: output,
                cover: source.cover@,
                video_page: None,
                created_at: at.wall,
                updated_at: at.wall,
            },
            cancel,
        )
    }
}

/// How a video order is labelled: by its height, or as audio.
pub open spec fn video_quality(audio_only: bool, max_height: i64) -> Seq<char> {
    if audio_only {
        "audio"@
    } else {
        signed_decimal(max_height as int) + "p"@
    }
}

/// The title of a video order: the one given, or else a placeholder.
pub open spec fn video_title(req: VideoDownloadRequest) -> Seq<char> {
    if trimmed(req.title@).len() == 0 {
        placeholder_title(req.bvid@, req.url@)
    } else {
        trimmed(req.title@)
    }
}

/// The entry for a video that was ordered.
pub open spec fn video_entry(
    id: Seq<char>,
    req: VideoDownloadRequest,
    usual_dir: Seq<char>,
    external: bool,
    cancel: u64,
    at: Moment,
) -> EntryModel {
    let output = target_dir(req.dest_dir@, usual_dir);
    EntryModel {
        video_retry: Some(
            VideoRetryModel {
                request: req@,
                output_dir: output,
                external_preparation: external,
            },
        ),
        ..EntryModel::fresh(
            TaskModel {
                id,
                kind: TaskKind::Video,
                platform: req.platform,
                source_key: trimmed(req.bvid@),
                title: if video_title(req).len() == 0 {
                    "未命名"@
                } else {
                    video_title(req)
                },
                artist: trimmed(req.artist@),
                quality: video_quality(req.audio_only, req.max_height),
                state: TaskState::Queued,
                phase: TaskPhase::Waiting,
                progress: Fraction::none(),
                downloaded_bytes: 0,
                total_bytes: 0,
                speed_bps: Speed::zero(),
                path: Seq::empty(),
                error: Seq::empty(),
                track_id: None,
                dest_dir: req.dest_dir@,
                output_dir: output,
                cover: trimmed(req.cover@),
                video_page: if req.platform is Bilibili {
                    Some(
                        PageModel {
                            index: req.page_index,
                            count: req.page_count,
                            title: trimmed(req.page_title@),
                        },
                    )
                } else {
                    None
                },
                created_at: at.wall,
                updated_at: at.wall,
            },
            cancel,
        )
    }
}

/// Starting one stopped task again.
pub open spec fn retry_step(q: QueueModel, id: Seq<char>, cancel: u64, at: Moment) -> Result<
    QueueModel,
    DownloadError,
> {
    let refusal = if !q.has(id) {
        Some(DownloadError::NotFound)
    } else if q.entry(id).task.kind is Audio {
        audio_retry_refusal(q, id)
    } else {
        video_retry_refusal(q, id)
    };
    match refusal {
        Some(e) => Err(e),
        None => Ok(q.updated(id, requeued(q.entry(id), cancel, at))),
    }
}

/// Starting the tasks with these ids again, one after the other: the queue afterwards, and which
/// of them were started.
pub open spec fn restart_all(
    q: QueueModel,
    ids: Seq<Seq<char>>,
    first_token: u64,
    at: Moment,
) -> (QueueModel, Seq<Seq<char>>)
    decreases ids.len(),
{
    if ids.len() == 0 {
        (q, Seq::empty())
    } else {
        let before = restart_all(q, ids.drop_last(), first_token, at);
        match retry_step(
            before.0,
            ids.last(),
            (first_token + ids.len() - 1) as u64,
            at,
        ) {
            Ok(after) => (after, before.1.push(ids.last())),
            Err(_) => before,
        }
    }
}

impl DownloadManager {
    /// Queues a song under the given id.
    pub fn enqueue_audio_as(
        &mut self,
        id: String,
        source: SongSource,
        artist: &str,
        quality: Quality,
        analyze: bool,
        dest_dir: &str,
        usual_dir: &str,
        external: bool,
        cancel: u64,
        at: Moment,
    ) -> (t: DownloadTask)
        requires
            old(self)@.well_formed(),
        ensures
            final(self)@.well_formed(),
            ({
                let e = audio_entry(
                    id@,
                    source,
                    artist@,
                    quality,
                    analyze,
                    dest_dir@,
                    usual_dir@,
                    external,
                    cancel,
                    at,
                );
                final(self)@ == insert_step(old(self)@, e) && t@ == e.task
            }),
    {
        let output = choose_dir(dest_dir, usual_dir);
        let order = Order {
            kind: TaskKind::Audio,
            platform: source.platform,
            source_key: source.key.clone(),
            title: source.title.clone(),
            artist: artist.to_owned(),
            quality: quality.as_str().to_owned(),
            dest_dir: dest_dir.to_owned(),
            output_dir: output.clone(),
            cover: source.cover.clone(),
        };
        let task = task_for(id, order, at);
        let retry = AudioRetry {
            source,
            quality,
            analyze,
            dest_dir: output,
            external_preparation: external,
        };
        let shown = task.clone();
        self.insert_with_retry(task, cancel, Some(retry), None);
        shown
    }

    /// Queues a song under a fresh id.
    pub fn enqueue_audio(
        &mut self,
        source: SongSource,
        artist: &str,
        quality: Quality,
        analyze: bool,
        dest_dir: &str,
        usual_dir: &str,
        external: bool,
        cancel: u64,
        at: Moment,
    ) -> (t: DownloadTask)
        requires
            old(self)@.well_formed(),
        ensures
            final(self)@.well_formed(),
            exists|n: u64|
                ({
                    let e = audio_entry(
                        #[trigger] id_text(n),
                        source,
                        artist@,
                        quality,
                        analyze,
                        dest_dir@,
                        usual_dir@,
                        external,
                        cancel,
                        at,
                    );
                    final(self)@ == insert_step(old(self)@, e) && t@ == e.task
                }),
    {
        let id = new_id();
        let ghost n = choose|n: u64| id@ == id_text(n);
        assert(id@ == id_text(n));
        self.enqueue_audio_as(
            id,
            source,
            artist,
            quality,
            analyze,
            dest_dir,
            usual_dir,
            external,
            cancel,
            at,
        )
    }

    /// Queues a video under the given id.
    pub fn enqueue_video_as(
        &mut self,
        id: String,
        req: VideoDownloadRequest,
        usual_dir: &str,
        external: bool,
        cancel: u64,
        at: Moment,
    ) -> (t: DownloadTask)
        requires
            old(self)@.well_formed(),
        ensures
            final(self)@.well_formed(),
            ({
                let e = video_entry(id@, req, usual_dir@, external, cancel, at);
                final(self)@ == insert_step(old(self)@, e) && t@ == e.task
            }),
    {
        let mut quality = String::new();
        if req.audio_only {
            quality.append("audio");
        } else {
            append_signed(&mut quality, req.max_height);
            quality.append("p");
        }
        assert(quality@ =~= video_quality(req.audio_only, req.max_height));
        let output = choose_dir(req.dest_dir.as_str(), usual_dir);
        let hint = trim(req.title.as_str());
        let title: String = if hint.as_str().is_empty() {
            video_placeholder_title(&req)
        } else {
            hint
        };
        let order = Order {
            kind: TaskKind::Video,
            platform: req.platform,
            source_key: trim(req.bvid.as_str()),
            title,
            artist: trim(req.artist.as_str()),
            quality,
            dest_dir: req.dest_dir.clone(),
            output_dir: output.clone(),
            cover: trim(req.cover.as_str()),
        };
        let mut task = task_for(id, order, at);
        if let Platform::Bilibili = req.platform {
            task.video_page = Some(
                DownloadVideoPage {
                    index: req.page_index,
                    count: req.page_count,
                    title: trim(req.page_title.as_str()),
                },
            );
        }
        let retry = VideoRetry { request: req, output_dir: output, external_preparation: external };
        let shown = task.clone();
        self.insert_with_retry(task, cancel, None, Some(retry));
        shown
    }

    /// Queues a video under a fresh id.
    pub fn enqueue_video(
        &mut self,
        req: VideoDownloadRequest,
        usual_dir: &str,
        external: bool,
        cancel: u64,
        at: Moment,
    ) -> (t: DownloadTask)
        requires
            old(self)@.well_formed(),
        ensures
            final(self)@.well_formed(),
            exists|n: u64|
                ({
                    let e = video_entry(
                        #[trigger] id_text(n),
                        req,
                        usual_dir@,
                        external,
                        cancel,
                        at,
                    );
                    final(self)@ == insert_step(old(self)@, e) && t@ == e.task
                }),
    {
        let id = new_id();
        let ghost n = choose|n: u64| id@ == id_text(n);
        assert(id@ == id_text(n));
        self.enqueue_video_as(id, req, usual_dir, external, cancel, at)
    }

    /// Starts one stopped task again, under its id and with its parameters.
    pub fn retry_task(&mut self, id: &str, cancel: u64, at: Moment) -> (r: Result<
        DownloadTask,
        DownloadError,
    >)
        requires
            old(self)@.well_formed(),
        ensures
            final(self)@.well_formed(),
            match retry_step(old(self)@, id@, cancel, at) {
                Ok(q) => final(self)@ == q && (r matches Ok(t) && t@ == requeued(
                    old(self)@.entry(id@),
                    cancel,
                    at,
                ).task),
                Err(e) => final(self)@ == old(self)@ && r == Err::<DownloadTask, DownloadError>(e),
            },
    {
        let kind: TaskKind = match self.get(id) {
            Some(task) => task.kind,
            None => return Err(DownloadError::NotFound),
        };
        match kind {
            TaskKind::Audio => match self.prepare_audio_retry(id, cancel, at) {
                Ok((task, _)) => Ok(task),
                Err(e) => Err(e),
            },
            TaskKind::Video => match self.prepare_video_retry(id, cancel, at) {
                Ok((task, _)) => Ok(task),
                Err(e) => Err(e),
            },
        }
    }

    /// Starts every stopped task again that can be, oldest first. The result holds the ids of
    /// those that were started; their tokens count up from `first_token` with the place in the
    /// list of candidates.
    pub fn restart_inactive_tasks(&mut self, first_token: u64, at: Moment) -> (started: Vec<String>)
        requires
            old(self)@.well_formed(),
            first_token + old(self)@.entries.len() <= u64::MAX,
        ensures
            final(self)@.well_formed(),
            (final(self)@, texts(started@)) == restart_all(
                old(self)@,
                by_age(old(self)@.entries, selected(Selection::Restartable)).map_values(
                    |e: EntryModel| e.task.id,
                ),
                first_token,
                at,
            ),
    {
        let ids = self.restartable_ids();
        let ghost all = texts(ids@);
        let ghost q = self@;
        proof {
            crate::download_queue::lemma_by_age_len(
                q.entries,
                selected(Selection::Restartable),
            );
        }
        let mut started: Vec<String> = Vec::new();
        let mut i: usize = 0;
        assert(texts(started@) =~= restart_all(q, all.take(0), first_token, at).1);
        while i < ids.len()
            invariant
                i <= ids.len(),
                all == texts(ids@),
                all.len() <= q.entries.len(),
                first_token + q.entries.len() <= u64::MAX,
                self@.well_formed(),
                (self@, texts(started@)) == restart_all(q, all.take(i as int), first_token, at),
            decreases ids.len() - i,
        {
            let ghost before = started@;
            assert(all.take(i + 1).drop_last() =~= all.take(i as int));
            assert(all.take(i + 1).last() == ids@[i as int]@);
            if self.retry_task(ids[i].as_str(), first_token + i as u64, at).is_ok() {
                started.push(ids[i].clone());
                assert(texts(started@) =~= texts(before).push(ids@[i as int]@));
            }
            i += 1;
        }
        assert(all.take(i as int) =~= all);
        started
    }
}

pub open spec fn is_hex_char(c: char) -> bool {
    ('0' <= c && c <= '9') || ('a' <= c && c <= 'f') || ('A' <= c && c <= 'F')
}

pub open spec fn is_local_host(host: Option<Seq<char>>) -> bool {
    host == Some("127.0.0.1"@) || host == Some("localhost"@) || host == Some("::1"@)
}

/// The ticket in the path of a local stream URL: sixty-four hexadecimal digits.
pub open spec fn hls_ticket(url: UrlModel) -> Option<Seq<char>> {
    let prefix = "/api/video/youtube/hls/"@;
    let ticket = url.path.skip(prefix.len() as int);
    if prefix.is_prefix_of(url.path) && is_local_host(url.host) && ticket.len() == 64 && (forall|
        i: int,
    | 0 <= i < ticket.len() ==> is_hex_char(#[trigger] ticket[i])) {
        Some(ticket)
    } else {
        None
    }
}

pub fn hls_ticket_of(url: &ParsedUrl) -> (r: Option<String>)
    ensures
        crate::models::text_of(r) == hls_ticket(url@),
{
    let path = crate::text::chars_of(url.path.as_str());
    let prefix = crate::text::chars_of("/api/video/youtube/hls/");
    if !crate::text::starts_with(path.as_slice(), prefix.as_slice()) {
        return None;
    }
    let local: bool = match &url.host {
        Some(host) => same(host.as_str(), "127.0.0.1") || same(host.as_str(), "localhost") || same(
            host.as_str(),
            "::1",
        ),
        None => false,
    };
    let ticket = crate::text::copy_chars(path.as_slice(), prefix.len(), path.len());
    assert(ticket@ =~= url.path@.skip(prefix.len() as int));
    if !local || ticket.len() != 64 {
        return None;
    }
    let mut i: usize = 0;
    while i < ticket.len()
        invariant
            i <= ticket.len(),
            prefix@ == "/api/video/youtube/hls/"@,
            ticket@ == url@.path.skip(prefix.len() as int),
            forall|j: int| 0 <= j < i ==> is_hex_char(#[trigger] ticket@[j]),
        decreases ticket.len() - i,
    {
        let c = ticket[i];
        if !(('0' <= c && c <= '9') || ('a' <= c && c <= 'f') || ('A' <= c && c <= 'F')) {
            assert(!is_hex_char(ticket@[i as int]));
            return None;
        }
        i += 1;
    }
    Some(crate::text::string_of(ticket.as_slice()))
}

/// The ticket of a local stream URL.
pub fn local_youtube_hls_ticket(value: &str) -> (r: Option<String>)
    ensures
        crate::models::text_of(r) == match url_of(value@) {
            Some(url) => hls_ticket(url),
            None => None,
        },
{
    match parse_url(value) {
        Some(url) => hls_ticket_of(&url),
        None => None,
    }
}

} // verus!
