use std::collections::VecDeque;

use kdj_server::download_journal::{
    journal_is_readable, journal_version_is_supported, NotFinite, PersistedEntry,
    DOWNLOAD_JOURNAL_MAX_BYTES, DOWNLOAD_JOURNAL_VERSION,
};
use kdj_server::download_orders::{local_youtube_hls_ticket, new_task, Order};
use kdj_server::download_queue::PendingDownloadPreparation;
use kdj_server::download_runs::{
    relocate_download, start_decision, validate_download_target, PreparedWait, Relocation,
    PREPARATION_TIMEOUT,
};
use kdj_server::downloads::{
    video_placeholder_title, window_speed, DownloadError, DownloadManager, Event, MAX_HISTORY,
};
use kdj_server::models::{
    AudioRetry, DownloadTask, Fraction, Moment, Platform, Quality, SongSource, Speed, TaskKind,
    TaskPhase, TaskState, VideoDownloadRequest, VideoInfo, VideoPage, VideoRetry,
};

fn manager() -> DownloadManager {
    DownloadManager::new(3, true)
}

fn at(seconds: i64) -> Moment {
    Moment { wall: seconds * 1_000_000, mono: seconds as u64 * 1_000_000 }
}

fn share(f: Fraction) -> f64 {
    f.done as f64 / f.whole as f64
}

fn rate(s: Speed) -> f64 {
    s.bytes as f64 * 1_000_000.0 / s.micros as f64
}

fn sample_task(id: &str, state: TaskState, created_at: f64) -> DownloadTask {
    let created_at = (created_at * 1_000_000.0) as i64;
    DownloadTask {
        id: id.into(),
        kind: TaskKind::Audio,
        platform: Platform::Wyy,
        source_key: String::new(),
        title: "t".into(),
        artist: String::new(),
        quality: "flac".into(),
        state,
        phase: if state == TaskState::Done { TaskPhase::Completed } else { TaskPhase::Waiting },
        progress: Fraction { done: 0, whole: 1 },
        downloaded_bytes: 0,
        total_bytes: 0,
        speed_bps: Speed { bytes: 0, micros: 1 },
        path: String::new(),
        error: String::new(),
        track_id: None,
        dest_dir: String::new(),
        output_dir: String::new(),
        cover: String::new(),
        video_page: None,
        created_at,
        updated_at: created_at,
    }
}

fn song(platform: Platform, key: &str, title: &str, artists: Vec<String>) -> SongSource {
    SongSource {
        platform,
        key: key.into(),
        title: title.into(),
        artists,
        album: String::new(),
        duration_ms: None,
        cover: String::new(),
        max_quality: None,
        vip: false,
        payload: "{}".into(),
    }
}

fn sample_audio_retry(external_preparation: bool) -> AudioRetry {
    let mut source = song(Platform::Ytm, "source-key", "song", vec!["artist".into()]);
    source.max_quality = Some(Quality::Flac);
    AudioRetry {
        source,
        quality: Quality::Flac,
        analyze: true,
        dest_dir: "/tmp/music".into(),
        external_preparation,
    }
}

fn plain_audio_retry() -> AudioRetry {
    AudioRetry {
        source: song(Platform::Wyy, "123", "song", vec!["artist".into()]),
        quality: Quality::Flac,
        analyze: true,
        dest_dir: "/music".into(),
        external_preparation: false,
    }
}

fn video_request(platform: Platform, url: &str, bvid: &str) -> VideoDownloadRequest {
    VideoDownloadRequest {
        platform,
        url: url.into(),
        bvid: bvid.into(),
        page_index: 0,
        page_count: 0,
        page_title: String::new(),
        max_height: 0,
        audio_only: false,
        transcode: false,
        offset_ms: 0,
        dest_dir: String::new(),
        title: String::new(),
        artist: String::new(),
        cover: String::new(),
    }
}

fn ids(manager: &DownloadManager) -> Vec<String> {
    manager.list().into_iter().map(|task| task.id).collect()
}

#[test]
fn unfinished_downloads_restore_paused_with_retry_parameters() {
    let mut manager = DownloadManager::open(2, false, Vec::new(), 1, 0);
    let mut task = sample_task("resume", TaskState::Queued, 1.0);
    task.platform = Platform::Ytm;
    manager.insert_with_retry(task, 7, Some(sample_audio_retry(true)), None);
    manager.start_audio("resume", at(2)).unwrap();
    manager.progress("resume", 62, 100, at(3));
    assert!(manager
        .attach_prepared_source("resume", 1, "https://temporary.invalid/media".into())
        .is_ok());
    let journal = manager.journal();

    let mut reopened = DownloadManager::open(2, false, journal, 100, 4_000_000);
    let task = reopened.get("resume").unwrap();
    assert_eq!(task.state, TaskState::Paused);
    assert_eq!(task.phase, TaskPhase::Waiting);
    assert_eq!(reopened.restartable_ids(), vec!["resume"]);
    assert!(reopened.pending_download_preparations().is_empty());
    assert!(reopened.prepare_audio_retry("resume", 8, at(5)).is_ok());
    assert!(reopened.start_audio("resume", at(6)).is_some());
    assert_eq!(
        reopened.pending_download_preparations()[0].id(),
        "resume",
        "短期媒体 URL 不能跨重启复用，必须重新准备"
    );
}

#[test]
fn terminal_history_and_removal_survive_reopen() {
    let mut manager = DownloadManager::open(2, false, Vec::new(), 1, 0);
    manager.insert(sample_task("done", TaskState::Done, 1.0), 1);
    let mut manager = DownloadManager::open(2, false, manager.journal(), 1, 0);
    assert_eq!(manager.get("done").unwrap().state, TaskState::Done);
    assert!(manager.remove_finished("done").is_some());
    let reopened = DownloadManager::open(2, false, manager.journal(), 1, 0);
    assert!(reopened.get("done").is_none());
}

#[test]
fn legacy_video_history_recovers_the_bilibili_share_key() {
    let mut task = sample_task("bili-share", TaskState::Done, 1.0);
    task.kind = TaskKind::Video;
    task.platform = Platform::Bilibili;
    let mut request = video_request(Platform::Bilibili, "", "BV1eiXRYHEzL");
    request.page_index = 2;
    let persisted = PersistedEntry {
        task,
        audio_retry: None,
        video_retry: Some(VideoRetry {
            request,
            output_dir: "/video".into(),
            external_preparation: false,
        }),
        not_finite: NotFinite { progress: false, created_at: false, updated_at: false },
    };

    let restored = persisted.restore(1, 0).expect("队列记录应可恢复");
    assert_eq!(restored.task.source_key, "BV1eiXRYHEzL");
    assert_eq!(restored.task.video_page.as_ref().map(|page| page.index), Some(2));
}

#[test]
fn bilibili_resolution_writes_the_real_page_label_into_the_task() {
    let mut manager = manager();
    let mut task = sample_task("bili-p3", TaskState::Queued, 1.0);
    task.kind = TaskKind::Video;
    task.platform = Platform::Bilibili;
    let mut request = video_request(Platform::Bilibili, "", "BV1L94y1H7CV");
    request.page_index = 2;
    manager.insert_with_retry(
        task,
        1,
        None,
        Some(VideoRetry {
            request,
            output_dir: "/video".into(),
            external_preparation: false,
        }),
    );

    manager.apply_video_resolution(
        "bili-p3",
        &VideoInfo {
            bvid: "BV1L94y1H7CV".into(),
            title: "合集".into(),
            author: "UP主".into(),
            cover: String::new(),
            pages: vec![
                VideoPage { index: 0, title: "第一段".into() },
                VideoPage { index: 1, title: "第二段".into() },
                VideoPage { index: 2, title: "第三段".into() },
            ],
        },
        at(2),
    );

    let task = manager.get("bili-p3").expect("任务仍在队列中");
    let page = task.video_page.expect("B 站任务应公开分 P");
    assert_eq!(page.index, 2);
    assert_eq!(page.count, 3);
    assert_eq!(page.title, "第三段");
}

#[test]
fn oversized_download_journal_is_quarantined_before_it_is_read() {
    assert!(journal_is_readable(true, DOWNLOAD_JOURNAL_MAX_BYTES));
    assert!(!journal_is_readable(true, DOWNLOAD_JOURNAL_MAX_BYTES + 1));
    assert!(!journal_is_readable(false, 10));
}

#[test]
fn a_journal_of_another_version_is_not_read() {
    assert!(journal_version_is_supported(DOWNLOAD_JOURNAL_VERSION));
    assert!(!journal_version_is_supported(DOWNLOAD_JOURNAL_VERSION + 1));
}

#[test]
fn failed_audio_can_be_reset_with_its_original_retry_parameters() {
    let mut manager = manager();
    let mut task = sample_task("retry", TaskState::Failed, 1.0);
    task.progress = Fraction { done: 8, whole: 10 };
    task.downloaded_bytes = 800;
    task.total_bytes = 1000;
    task.error = "网络失败".into();
    manager.insert_with_retry(task, 1, Some(plain_audio_retry()), None);

    assert_eq!(manager.restartable_ids(), vec!["retry"]);
    let (task, retry) = manager.prepare_audio_retry("retry", 2, at(2)).ok().unwrap();
    assert_eq!(task.state, TaskState::Queued);
    assert_eq!(share(task.progress), 0.0);
    assert_eq!(task.downloaded_bytes, 0);
    assert_eq!(task.total_bytes, 0);
    assert!(task.error.is_empty());
    assert_eq!(retry.source.key, "123");
    assert_eq!(retry.dest_dir, "/music");
    assert!(!manager.take_fired().contains(&2));
    assert!(manager.restartable_ids().is_empty());
    assert!(manager.prepare_audio_retry("retry", 3, at(3)).is_err());
}

#[test]
fn queued_audio_quality_updates_the_task_and_worker_parameters_together() {
    let mut manager = manager();
    manager.insert_with_retry(
        sample_task("quality", TaskState::Queued, 1.0),
        1,
        Some(plain_audio_retry()),
        None,
    );

    let task = manager.set_queued_audio_quality("quality", Quality::Q128, at(2)).ok().unwrap();
    assert_eq!(task.quality, "128");
    let retry = manager.start_audio("quality", at(3)).unwrap();
    assert_eq!(retry.quality, Quality::Q128);
    assert!(manager.set_queued_audio_quality("quality", Quality::Q320, at(4)).is_err());
}

#[test]
fn failed_video_can_be_reset_with_its_original_request() {
    let mut manager = manager();
    let mut task = sample_task("video-retry", TaskState::Failed, 1.0);
    task.kind = TaskKind::Video;
    task.platform = Platform::Bilibili;
    task.error = "网络失败".into();
    let mut request = video_request(Platform::Bilibili, "", "BV1example");
    request.max_height = 1440;
    manager.insert_with_retry(
        task,
        1,
        None,
        Some(VideoRetry {
            request,
            output_dir: "/video".into(),
            external_preparation: false,
        }),
    );

    assert_eq!(manager.restartable_ids(), vec!["video-retry"]);
    let updated = manager.set_pending_video_height("video-retry", 720, at(2)).ok().unwrap();
    assert_eq!(updated.quality, "720p");
    let (task, retry) = manager.prepare_video_retry("video-retry", 2, at(3)).ok().unwrap();
    assert_eq!(task.state, TaskState::Queued);
    assert!(task.error.is_empty());
    assert_eq!(retry.request.max_height, 720);
    assert_eq!(retry.output_dir, "/video");
    assert!(!manager.take_fired().contains(&2));
    let retry = manager.start_video("video-retry", at(4)).unwrap();
    assert_eq!(retry.request.max_height, 720);
    assert_eq!(manager.get("video-retry").unwrap().phase, TaskPhase::Resolving);
}

#[test]
fn url_only_youtube_video_is_resolved_before_external_preparation() {
    let mut manager = manager();
    let mut task = sample_task("youtube-url", TaskState::Queued, 1.0);
    task.kind = TaskKind::Video;
    task.platform = Platform::Youtube;
    task.title = "https://youtu.be/dQw4w9WgXcQ".into();
    let mut request = video_request(Platform::Youtube, "https://youtu.be/dQw4w9WgXcQ", "");
    request.max_height = 1080;
    manager.insert_with_retry(
        task,
        1,
        None,
        Some(VideoRetry {
            request,
            output_dir: "/video".into(),
            external_preparation: true,
        }),
    );

    assert!(manager.start_video("youtube-url", at(2)).is_some());
    assert!(manager.pending_download_preparations().is_empty());
    manager.apply_video_resolution(
        "youtube-url",
        &VideoInfo {
            bvid: "dQw4w9WgXcQ".into(),
            title: "resolved title".into(),
            author: "resolved author".into(),
            cover: "https://i.ytimg.com/cover.jpg".into(),
            pages: Vec::new(),
        },
        at(3),
    );
    manager.phase("youtube-url", TaskPhase::Authorizing, at(4));

    let pending = manager.pending_download_preparations();
    let PendingDownloadPreparation::Video { request, .. } = &pending[0] else {
        panic!("YouTube 视频应返回视频准备请求");
    };
    assert_eq!(request.bvid, "dQw4w9WgXcQ");
    let task = manager.get("youtube-url").unwrap();
    assert_eq!(task.source_key, request.bvid);
    assert_eq!(task.title, "resolved title");
}

#[test]
fn task_phase_exposes_one_platform_neutral_lifecycle() {
    let mut manager = manager();
    manager.insert(sample_task("phase", TaskState::Queued, 1.0), 1);
    manager.start("phase", TaskPhase::Resolving, at(2));
    let resolving = manager.get("phase").unwrap();
    assert_eq!(resolving.state, TaskState::Running);
    assert_eq!(resolving.phase, TaskPhase::Resolving);

    manager.progress("phase", 128, 1_024, at(3));
    assert_eq!(manager.get("phase").unwrap().phase, TaskPhase::Downloading);

    manager.progress("phase", 1_024, 1_024, at(4));
    let processing = manager.get("phase").unwrap();
    assert_eq!(processing.state, TaskState::Processing);
    assert_eq!(processing.phase, TaskPhase::PostProcessing);

    manager.settle("phase", TaskState::Done, "", at(5));
    assert_eq!(manager.get("phase").unwrap().phase, TaskPhase::Completed);
}

#[test]
fn entering_download_bypasses_byte_progress_throttling() {
    let mut manager = DownloadManager::new(1, true);
    manager.insert(sample_task("phase-event", TaskState::Queued, 1.0), 1);
    manager.start("phase-event", TaskPhase::Resolving, at(2));
    manager.take_events();

    manager.progress("phase-event", 0, 0, at(2));
    let events = manager.take_events();
    let Event::Updated(task) = events.first().expect("下载阶段切换应立即广播") else {
        panic!("expected the task itself");
    };
    assert_eq!(task.phase, TaskPhase::Downloading);
}

#[test]
fn externally_prepared_sources_cover_task_lifecycle_and_are_consumed_once() {
    let mut manager = manager();
    for (token, (id, created_at)) in [("later", 2.0), ("first", 1.0)].into_iter().enumerate() {
        let mut task = sample_task(id, TaskState::Queued, created_at);
        task.platform = Platform::Ytm;
        manager.insert_with_retry(
            task,
            token as u64,
            Some(AudioRetry {
                source: song(Platform::Ytm, &format!("key-{id}"), id, vec!["artist".into()]),
                quality: Quality::Q320,
                analyze: false,
                dest_dir: String::new(),
                external_preparation: true,
            }),
            None,
        );
        manager.start_audio(id, at(3)).unwrap();
    }

    let pending = manager.pending_download_preparations();
    assert_eq!(
        pending.iter().map(PendingDownloadPreparation::id).collect::<Vec<_>>(),
        vec!["first", "later"]
    );
    let failed = manager.fail_preparation("later", 1, "浏览器挑战失败", at(4)).ok().unwrap();
    assert_eq!(failed.state, TaskState::Failed);
    assert_eq!(failed.phase, TaskPhase::Authorizing);
    assert_eq!(failed.error, "浏览器挑战失败");
    assert!(manager
        .attach_prepared_source("first", 1, "https://googlevideo.test/audio".into())
        .is_ok());
    assert_eq!(
        manager.take_prepared_source_url("first").as_deref(),
        Some("https://googlevideo.test/audio")
    );
    assert!(manager.take_prepared_source_url("first").is_none());

    let mut running = sample_task("running", TaskState::Queued, 3.0);
    running.platform = Platform::Ytm;
    manager.insert_with_retry(
        running,
        9,
        Some(AudioRetry {
            source: song(Platform::Ytm, "key-running", "running", vec![]),
            quality: Quality::Q128,
            analyze: false,
            dest_dir: String::new(),
            external_preparation: true,
        }),
        None,
    );
    manager.start_audio("running", at(5)).unwrap();
    assert!(manager
        .attach_prepared_source("running", 1, "https://googlevideo.test/audio".into())
        .is_ok());
    assert!(manager
        .attach_prepared_source("running", 1, "https://googlevideo.test/other".into())
        .is_err());
}

#[test]
fn stale_preparation_cannot_overwrite_a_retried_task() {
    let mut manager = manager();
    let mut task = sample_task("attempt", TaskState::Queued, 1.0);
    task.platform = Platform::Ytm;
    manager.insert_with_retry(task, 1, Some(sample_audio_retry(true)), None);
    manager.start_audio("attempt", at(2)).unwrap();
    assert_eq!(manager.pause_all(at(3)), 1);
    assert!(manager.prepare_audio_retry("attempt", 2, at(4)).is_ok());
    manager.start_audio("attempt", at(5)).unwrap();

    assert!(!manager.preparation_is_current("attempt", 1));
    assert!(manager.preparation_is_current("attempt", 2));
    assert!(manager
        .attach_prepared_source("attempt", 1, "https://stale.invalid/audio".into())
        .is_err());
    let still_running = manager.fail_preparation("attempt", 1, "旧请求迟到", at(6)).ok().unwrap();
    assert_eq!(still_running.state, TaskState::Running);
    assert!(still_running.error.is_empty());
    assert!(manager
        .attach_prepared_source("attempt", 2, "https://current.invalid/audio".into())
        .is_ok());
}

#[test]
fn tasks_are_listed_in_creation_order() {
    let mut manager = manager();
    manager.insert(sample_task("b", TaskState::Queued, 200.0), 1);
    manager.insert(sample_task("a", TaskState::Queued, 100.0), 2);
    assert_eq!(ids(&manager), vec!["a", "b"], "队列面板按入队时间排，不是按 id");
}

#[test]
fn removing_one_finished_task_keeps_other_queue_history() {
    let mut manager = manager();
    manager.insert(sample_task("done", TaskState::Done, 1.0), 1);
    manager.insert(sample_task("running", TaskState::Running, 2.0), 2);
    assert!(manager.remove_finished("done").is_some());
    assert!(manager.get("done").is_none());
    assert!(manager.get("running").is_some());
    assert!(manager.remove_finished("running").is_none());
}

#[test]
fn cancelling_a_finished_task_does_not_rewrite_it() {
    let mut manager = manager();
    manager.insert(sample_task("x", TaskState::Done, 1.0), 1);
    let task = manager.cancel("x", at(2)).unwrap();
    assert_eq!(task.state, TaskState::Done, "完成的任务不该被点成已取消");
}

#[test]
fn cancelling_a_queued_task_removes_it_without_cancelled_history() {
    let mut manager = manager();
    manager.insert(sample_task("x", TaskState::Queued, 1.0), 41);
    let returned = manager.cancel("x", at(2)).unwrap();
    assert_eq!(returned.state, TaskState::Queued);
    assert!(manager.get("x").is_none(), "尚未开始的任务应直接离开队列");
    assert_eq!(manager.take_fired(), vec![41], "等待下载闸门的 worker 也必须被唤醒退出");
}

#[test]
fn cancelling_an_already_cancelled_task_is_idempotent() {
    let mut manager = manager();
    manager.insert(sample_task("x", TaskState::Canceled, 1.0), 1);
    let task = manager.cancel("x", at(2)).unwrap();
    assert_eq!(task.state, TaskState::Canceled);
    assert_eq!(task.updated_at, 1_000_000, "终态任务不该被再写一遍");
}

#[test]
fn cancelling_a_running_task_marks_it_and_fires_the_token() {
    let mut manager = manager();
    manager.insert(sample_task("x", TaskState::Running, 1.0), 42);
    let task = manager.cancel("x", at(2)).unwrap();
    assert_eq!(task.state, TaskState::Canceled);
    assert_eq!(task.error, "已取消");
    assert_eq!(manager.take_fired(), vec![42], "下载循环要靠这个 token 停下来");
}

#[test]
fn late_worker_updates_cannot_resurrect_a_cancelled_task() {
    let mut manager = manager();
    manager.insert(sample_task("x", TaskState::Running, 1.0), 1);
    manager.cancel("x", at(2)).unwrap();

    manager.start("x", TaskPhase::Resolving, at(3));
    manager.phase("x", TaskPhase::Importing, at(3));
    manager.progress("x", 50, 100, at(3));

    let task = manager.get("x").unwrap();
    assert_eq!(task.state, TaskState::Canceled);
    assert_eq!(task.phase, TaskPhase::Waiting);
    assert_eq!(task.downloaded_bytes, 0);
    assert_eq!(share(task.progress), 0.0);
}

#[test]
fn cancel_all_removes_queued_and_stops_every_active_task() {
    let mut manager = manager();
    manager.insert(sample_task("queued", TaskState::Queued, 1.0), 1);
    manager.insert(sample_task("running", TaskState::Running, 2.0), 2);
    manager.insert(sample_task("processing", TaskState::Processing, 3.0), 3);
    manager.insert(sample_task("done", TaskState::Done, 4.0), 4);

    assert_eq!(manager.cancel_all(at(5)), 3);
    assert!(manager.get("queued").is_none());
    assert_eq!(manager.get("running").unwrap().state, TaskState::Canceled);
    assert_eq!(manager.get("processing").unwrap().state, TaskState::Canceled);
    assert_eq!(manager.get("done").unwrap().state, TaskState::Done);
    let fired = manager.take_fired();
    assert!(fired.contains(&1));
    assert!(fired.contains(&2));
    assert!(fired.contains(&3));
    assert!(!fired.contains(&4));
}

#[test]
fn pause_all_keeps_tasks_restartable_and_blocks_late_worker_updates() {
    let mut manager = manager();
    manager.insert(sample_task("queued", TaskState::Queued, 1.0), 1);
    manager.insert_with_retry(
        sample_task("running", TaskState::Running, 2.0),
        2,
        Some(plain_audio_retry()),
        None,
    );

    assert_eq!(manager.pause_all(at(3)), 2);
    let fired = manager.take_fired();
    assert!(fired.contains(&1));
    assert!(fired.contains(&2));
    assert_eq!(manager.get("queued").unwrap().state, TaskState::Paused);
    assert_eq!(manager.get("running").unwrap().state, TaskState::Paused);

    manager.phase("running", TaskPhase::Importing, at(4));
    manager.progress("running", 100, 100, at(4));
    manager.settle("running", TaskState::Canceled, "已取消", at(4));
    assert_eq!(manager.get("running").unwrap().state, TaskState::Paused);

    assert_eq!(manager.restartable_ids(), vec!["running"]);
    let (task, retry) = manager.prepare_audio_retry("running", 5, at(5)).ok().unwrap();
    assert_eq!(task.state, TaskState::Queued);
    assert_eq!(retry.source.key, "123");
    assert!(!manager.take_fired().contains(&5));
}

#[test]
fn clear_removes_every_inactive_task() {
    let mut manager = manager();
    manager.insert(sample_task("done", TaskState::Done, 1.0), 1);
    manager.insert(sample_task("failed", TaskState::Failed, 2.0), 2);
    manager.insert(sample_task("canceled", TaskState::Canceled, 3.0), 3);
    manager.insert(sample_task("running", TaskState::Running, 4.0), 4);
    manager.insert(sample_task("queued", TaskState::Queued, 5.0), 5);
    manager.insert(sample_task("paused", TaskState::Paused, 6.0), 6);

    assert_eq!(manager.clear_inactive(), 5);
    assert_eq!(ids(&manager), vec!["running"], "只有正在执行的任务不能被清掉");
}

#[test]
fn progress_updates_compute_a_fraction() {
    let mut manager = manager();
    manager.insert(sample_task("x", TaskState::Running, 1.0), 1);
    manager.progress("x", 50, 200, at(2));
    let task = manager.get("x").unwrap();
    assert!((share(task.progress) - 0.25).abs() < 1e-9);
    assert_eq!(task.downloaded_bytes, 50);
    assert_eq!(task.total_bytes, 200);
}

#[test]
fn reaching_known_total_enters_processing_before_the_post_download_work() {
    let mut manager = manager();
    manager.insert(sample_task("x", TaskState::Running, 1.0), 1);
    manager.progress("x", 100, 100, at(2));
    let task = manager.get("x").unwrap();
    assert_eq!(task.state, TaskState::Processing);
    assert_eq!(share(task.progress), 1.0);
    assert_eq!(rate(task.speed_bps), 0.0, "处理阶段不应留着旧下载速度");
}

#[test]
fn processing_leaves_no_speed_behind_however_fast_the_download_was() {
    let mut manager = manager();
    manager.insert(sample_task("x", TaskState::Running, 1.0), 1);
    manager.progress("x", 10, 1_000_000, at(2));
    manager.progress("x", 500_000, 1_000_000, at(3));
    assert!(rate(manager.get("x").unwrap().speed_bps) > 0.0);
    manager.progress("x", 1_000_000, 1_000_000, at(4));
    assert_eq!(rate(manager.get("x").unwrap().speed_bps), 0.0);
}

#[test]
fn progress_without_a_known_total_stays_at_zero() {
    let mut manager = manager();
    manager.insert(sample_task("x", TaskState::Running, 1.0), 1);
    manager.progress("x", 4096, 0, at(2));
    let task = manager.get("x").unwrap();
    assert_eq!(share(task.progress), 0.0);
    assert_eq!(task.downloaded_bytes, 4096);
}

#[test]
fn progress_broadcasts_are_throttled() {
    let mut manager = manager();
    manager.insert(sample_task("x", TaskState::Running, 1.0), 1);
    manager.take_events();
    for step in 0..200u64 {
        manager.progress("x", step, 1_000_000, at(2));
    }
    let seen = manager.take_events().len();
    assert!(seen <= 2, "200 次回调只该广播出个位数，实际 {seen}");
    assert_eq!(
        manager.get("x").unwrap().downloaded_bytes,
        199,
        "被节流掉的只是广播，任务本身要一直是最新的"
    );
}

#[test]
fn a_one_percent_jump_is_broadcast_immediately() {
    let mut manager = manager();
    manager.insert(sample_task("x", TaskState::Running, 1.0), 1);
    manager.take_events();
    manager.progress("x", 1, 100, at(2));
    manager.progress("x", 2, 100, at(2));
    assert_eq!(manager.take_events().len(), 2, "进度前进 1% 不该等满 250ms");
}

#[test]
fn speed_uses_a_sliding_window_not_the_whole_download() {
    let mut samples: VecDeque<(u64, u64)> = VecDeque::new();
    samples.push_back((0, 0));
    samples.push_back((10_000_000, 10));
    samples.push_back((11_000_000, 1010));
    assert_eq!(rate(window_speed(&mut samples, 11_000_000)), 1000.0);
    assert_eq!(samples.len(), 2, "超出 3 秒窗口的采样要被丢掉");
}

#[test]
fn speed_is_zero_until_there_are_two_usable_samples() {
    let mut samples: VecDeque<(u64, u64)> = VecDeque::new();
    assert_eq!(rate(window_speed(&mut samples, 0)), 0.0);
    samples.push_back((0, 0));
    assert_eq!(rate(window_speed(&mut samples, 0)), 0.0, "只有一个点算不出速度");
    samples.push_back((1_000, 8_000_000));
    assert_eq!(rate(window_speed(&mut samples, 1_000)), 0.0);
}

#[test]
fn finishing_zeroes_the_speed_and_pins_progress() {
    let mut manager = manager();
    manager.insert(sample_task("x", TaskState::Running, 1.0), 1);
    manager.progress("x", 500, 1000, at(2));
    manager.finish("x", "/tmp/不存在的文件.mp3", 0, Some(7), at(3));
    let task = manager.get("x").unwrap();
    assert_eq!(task.state, TaskState::Done);
    assert_eq!(share(task.progress), 1.0);
    assert_eq!(rate(task.speed_bps), 0.0, "完成的条目不能一直挂着最后的瞬时速度");
    assert_eq!(task.track_id, Some(7));
}

#[test]
fn the_final_suffix_corrects_the_displayed_quality() {
    let mut manager = manager();
    manager.insert(sample_task("x", TaskState::Running, 1.0), 1);
    manager.finish("x", "/tmp/kdj-dl/song.mp3", 10, None, at(2));
    let task = manager.get("x").unwrap();
    assert_eq!(task.quality, "mp3");
    assert_eq!(task.downloaded_bytes, 10, "体积以最终文件为准");
    assert_eq!(task.total_bytes, 10);
}

#[test]
fn remuxed_opus_reports_the_final_format_and_size() {
    let mut manager = manager();
    let mut task = sample_task("x", TaskState::Running, 1.0);
    task.total_bytes = 100;
    manager.insert(task, 1);
    manager.finish("x", "/tmp/kdj-opus-task/song.opus", 7, None, at(2));
    let task = manager.get("x").unwrap();
    assert_eq!(task.quality, "opus");
    assert_eq!(task.downloaded_bytes, 7);
    assert_eq!(task.total_bytes, 7, "完成后分母应改成重封装成品体积");
}

#[test]
fn video_quality_never_gets_overwritten_by_the_container() {
    let mut manager = manager();
    let mut task = sample_task("v", TaskState::Running, 1.0);
    task.kind = TaskKind::Video;
    task.quality = "1080p".into();
    manager.insert(task, 1);
    manager.finish("v", "/tmp/x.mp4", 0, None, at(2));
    assert_eq!(manager.get("v").unwrap().quality, "1080p");
}

#[test]
fn the_queue_is_capped_and_drops_the_oldest_finished_first() {
    let mut manager = manager();
    manager.insert(sample_task("running", TaskState::Running, 0.0), 0);
    for i in 0..MAX_HISTORY + 10 {
        manager.insert(
            sample_task(&format!("done-{i:04}"), TaskState::Done, 1.0 + i as f64),
            i as u64,
        );
    }
    let tasks = manager.list();
    assert_eq!(tasks.len(), MAX_HISTORY);
    assert!(
        tasks.iter().any(|task| task.id == "running"),
        "正在跑的任务不能因为超限被丢掉"
    );
    assert!(
        !tasks.iter().any(|task| task.id == "done-0000"),
        "该从最老的终态任务开始丢"
    );
}

#[test]
fn a_full_queue_of_running_tasks_is_not_trimmed() {
    let mut manager = manager();
    for i in 0..MAX_HISTORY + 5 {
        manager.insert(
            sample_task(&format!("run-{i:04}"), TaskState::Running, i as f64),
            i as u64,
        );
    }
    assert_eq!(
        manager.list().len(),
        MAX_HISTORY + 5,
        "没有终态任务可丢时宁可超限，也不能掐掉正在下的"
    );
}

#[test]
fn empty_titles_get_a_placeholder() {
    let order = Order {
        kind: TaskKind::Audio,
        platform: Platform::Wyy,
        source_key: String::new(),
        title: String::new(),
        artist: String::new(),
        quality: "flac".into(),
        dest_dir: String::new(),
        output_dir: String::new(),
        cover: String::new(),
    };
    let task = new_task(order, at(1));
    assert_eq!(task.title, "未命名");
    assert!(!task.id.is_empty());
}

#[test]
fn a_downloaded_file_that_failed_to_enter_the_library_is_not_reported_done() {
    let mut manager = manager();
    manager.insert(sample_task("x", TaskState::Running, 1.0), 1);
    manager.fail_after_download("x", "/tmp/kdj-import-failed/kept.mp4", 13, "加入曲库失败", at(2));

    let task = manager.get("x").unwrap();
    assert_eq!(task.state, TaskState::Failed, "入库失败不能对用户谎报完成");
    assert_eq!(
        task.path, "/tmp/kdj-import-failed/kept.mp4",
        "成品路径必须保住，方便定位和补救"
    );
    assert_eq!(task.error, "加入曲库失败");
    assert!(task.downloaded_bytes > 0, "已经下完的体积不能清零");
}

#[test]
fn finishing_a_cancelled_task_does_not_bring_it_back() {
    let mut manager = manager();
    manager.insert(sample_task("x", TaskState::Canceled, 1.0), 1);
    manager.finish("x", "/tmp/x.mp3", 0, Some(9), at(2));
    let task = manager.get("x").unwrap();
    assert_eq!(task.state, TaskState::Canceled);
    assert_eq!(task.track_id, None, "取消掉的不该入库");
    assert_eq!(task.updated_at, 1_000_000, "终态任务不该被再写一遍");
}

#[test]
fn setting_the_same_concurrency_keeps_the_current_gate() {
    let mut manager = manager();
    assert!(!manager.set_concurrency(3), "值没变就不能换闸门");

    assert!(manager.set_concurrency(5), "值变了才重建");
    assert_eq!(manager.concurrency, 5);

    manager.set_concurrency(0);
    assert_eq!(manager.concurrency, 1);
}

#[test]
fn video_tasks_start_out_labelled_with_the_bv_number() {
    let req = |url: &str, bvid: &str| video_request(Platform::Bilibili, url, bvid);
    assert_eq!(video_placeholder_title(&req("https://b23.tv/x", "BV1")), "BV1");
    assert_eq!(
        video_placeholder_title(&req("https://b23.tv/x", "")),
        "https://b23.tv/x"
    );
    assert_eq!(video_placeholder_title(&req("", "")), "视频");
}

#[test]
fn unknown_ids_are_reported_rather_than_panicking() {
    let mut manager = manager();
    assert!(manager.cancel("nope", at(1)).is_none());
    assert!(manager.get("nope").is_none());
    manager.progress("nope", 1, 2, at(1));
    manager.finish("nope", "/tmp/x", 0, None, at(1));
    assert!(manager.list().is_empty());
}

#[test]
fn tasks_are_held_while_auto_start_is_off() {
    let mut manager = DownloadManager::new(3, false);
    let generation = manager.start_generation();
    assert_eq!(
        start_decision(&manager, false, generation, true),
        None,
        "自动下载关着时任务必须停在队列里"
    );

    manager.set_auto_start(true);
    assert_eq!(
        start_decision(&manager, false, generation, true),
        Some(true),
        "拨开开关就要放行"
    );
}

#[test]
fn a_held_task_that_gets_cancelled_never_starts() {
    let manager = DownloadManager::new(3, false);
    assert_eq!(
        start_decision(&manager, true, manager.start_generation(), true),
        Some(false)
    );
}

#[test]
fn task_level_hold_ignores_global_auto_start_until_explicit_release() {
    let mut manager = DownloadManager::new(3, true);
    let queued_generation = manager.start_generation();
    assert_eq!(
        start_decision(&manager, false, queued_generation, false),
        None,
        "任务级 hold 必须覆盖全局自动下载"
    );

    manager.release_queued();
    assert_eq!(
        start_decision(&manager, false, queued_generation, false),
        Some(true),
        "显式开始必须仍能放行 held 任务"
    );
}

#[test]
fn one_shot_start_does_not_release_future_tasks() {
    let mut manager = DownloadManager::new(3, false);
    let old_generation = manager.start_generation();
    manager.release_queued();
    assert_eq!(
        start_decision(&manager, false, old_generation, true),
        Some(true),
        "点击开始应放行点击前已经排队的任务"
    );

    let future_generation = manager.start_generation();
    assert_eq!(
        start_decision(&manager, false, future_generation, true),
        None,
        "点击后新加入的任务必须继续排队"
    );
    assert_eq!(start_decision(&manager, true, future_generation, true), Some(false));
}

#[test]
fn every_refusal_has_its_own_words() {
    let mut manager = manager();
    let refusal = manager.prepare_audio_retry("nope", 1, at(1)).err().unwrap();
    assert!(matches!(refusal, DownloadError::NotFound));
    assert_eq!(refusal.message(), DownloadError::NotFound.message());

    manager.insert(sample_task("queued", TaskState::Queued, 1.0), 1);
    let refusal = manager.prepare_audio_retry("queued", 2, at(2)).err().unwrap();
    assert!(!refusal.message().is_empty());
    let refusal = manager.set_pending_video_height("queued", 720, at(2)).err().unwrap();
    assert!(matches!(refusal, DownloadError::NotAVideo));
    let refusal = manager
        .attach_prepared_source("queued", 1, "https://x.invalid/".into())
        .err()
        .unwrap();
    assert!(matches!(refusal, DownloadError::TakesNoPreparedSource));
}

#[test]
fn waiting_for_a_prepared_source_ends_when_nothing_moves() {
    let mut manager = manager();
    let mut task = sample_task("x", TaskState::Queued, 1.0);
    task.platform = Platform::Ytm;
    manager.insert_with_retry(task, 1, Some(sample_audio_retry(true)), None);
    manager.start_audio("x", at(2)).unwrap();
    let mut wait = PreparedWait::begin(0);
    assert_eq!(wait.poll(&manager, "x", false, 1_000_000), None);
    assert_eq!(wait.poll(&manager, "x", true, 1_000_000), Some(false));
    assert_eq!(wait.poll(&manager, "x", false, PREPARATION_TIMEOUT + 1), Some(false));
    assert!(manager
        .attach_prepared_source("x", 1, "https://ready.invalid/".into())
        .is_ok());
    assert_eq!(wait.poll(&manager, "x", false, PREPARATION_TIMEOUT + 2), Some(true));
}

#[test]
fn only_local_playlists_carry_a_ticket() {
    assert_eq!(local_youtube_hls_ticket("https://example.test/a.m3u8"), None);
    assert_eq!(local_youtube_hls_ticket("not a url"), None);
    let ticket = "0a".repeat(32);
    let local = format!("http://127.0.0.1:8765/api/video/youtube/hls/{ticket}");
    assert_eq!(local_youtube_hls_ticket(&local), Some(ticket.clone()));
    let other = format!("http://example.test/api/video/youtube/hls/{ticket}");
    assert_eq!(local_youtube_hls_ticket(&other), None);
}

#[test]
fn download_target_must_exist_and_be_writable() {
    assert!(validate_download_target("/media/usb", false, &None).is_err());
    validate_download_target("/media/usb", true, &None).unwrap();
    assert_eq!(
        validate_download_target("/media/usb", true, &Some("read-only".into())),
        Err("下载文件夹不可写：/media/usb（read-only）".to_string())
    );
}

#[test]
fn a_file_moves_into_the_folder_of_its_task() {
    assert!(matches!(
        relocate_download("/music/a.mp3", " /music ", Ok(())),
        Ok(Relocation::Stay)
    ));
    assert!(matches!(
        relocate_download("/tmp/a.mp3", " /music ", Ok(())),
        Ok(Relocation::MoveTo(folder)) if folder == "/music"
    ));
    assert!(matches!(
        relocate_download("/tmp/a.mp3", "/music", Err("gone".into())),
        Err(reason) if reason == "gone"
    ));
}

#[test]
fn stopped_tasks_start_again_together() {
    let mut manager = manager();
    for (id, created) in [("b", 2.0), ("a", 1.0)] {
        manager.insert_with_retry(
            sample_task(id, TaskState::Failed, created),
            1,
            Some(sample_audio_retry(false)),
            None,
        );
    }
    manager.insert(sample_task("c", TaskState::Failed, 3.0), 1);
    assert_eq!(manager.restart_inactive_tasks(10, at(9)), vec!["a", "b"]);
    assert_eq!(manager.get("a").unwrap().state, TaskState::Queued);
    assert_eq!(manager.get("c").unwrap().state, TaskState::Failed);
}

#[test]
fn a_video_is_prepared_for_its_own_attempt_only() {
    let mut manager = manager();
    let mut task = sample_task("v", TaskState::Queued, 1.0);
    task.kind = TaskKind::Video;
    let retry = VideoRetry {
        request: video_request(Platform::Youtube, "", "id"),
        output_dir: String::new(),
        external_preparation: true,
    };
    manager.insert_with_retry(task, 1, None, Some(retry));
    assert!(manager.start_video("v", at(2)).is_some());
    let request = manager.video_preparation_request("v", 1).unwrap();
    assert_eq!(request.bvid, "id");
    assert!(manager.video_preparation_request("v", 2).is_none());
}

#[test]
fn pausing_everything_twice_pauses_nothing_more() {
    let mut manager = manager();
    manager.insert(sample_task("queued", TaskState::Queued, 1.0), 1);
    manager.insert(sample_task("running", TaskState::Running, 2.0), 2);
    manager.insert(sample_task("done", TaskState::Done, 3.0), 3);
    assert_eq!(manager.pause_all(at(3)), 2);
    manager.take_fired();
    assert_eq!(manager.pause_all(at(4)), 0);
    assert!(manager.take_fired().is_empty());
    assert_eq!(manager.get("running").unwrap().state, TaskState::Paused);
    assert_eq!(manager.get("running").unwrap().updated_at, at(3).wall);
    assert_eq!(manager.get("done").unwrap().state, TaskState::Done);
}
