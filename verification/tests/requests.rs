use kdj_server::models::{
    Platform, Quality, SongSource, TaskState, VideoDownloadRequest,
};
use kdj_server::one_library_sync::{
    check_playback_id, chosen_tracks, import_key, rating_in_range, require_track,
    waveform_columns, ExternalTrack, ImportResult, ImportRun, ImportStep, OneLibrarySync,
    StepResult, TrackImport,
};
use kdj_server::preview_cache::{
    refresh_background_preview_url, CacheFetch, FetchAction, FetchEvent, FetchSchedule,
    InlineCapture, ScheduleAction, ScheduleEvent,
};
use kdj_server::preview_requests::{
    kept_serves_session, next_copy, preparation_goes_on, prepared_address, prepared_file,
    PreviewAction, PreviewEvent, SongPreview, SongPreviewBody, SERVER_PATH_LIMIT,
};
use kdj_server::preview_stream::{
    ticket_gone, CacheSchedule, StreamAction, StreamEvent, StreamRun, StreamSettings,
    SONG_PREVIEW_SESSION_WAVEFORM_ENABLED,
};
use kdj_server::protected_media::MediaHead;
use kdj_server::requests::{
    browser_login, build_visible_settings, cache_effects, check_collection, check_intake,
    check_playlist, check_playlist_key, check_playlists, check_prepared_platform, check_removal, check_track,
    exclude_music_playlists_from_youtube, harmonic_limit, intake_link, intake_search,
    link_request, oauth_callback, parse_platform, track_folder, track_window, unresolved_detail,
    IntakeKind, LabSettings, LinkAnswer, LinkSearch, SearchKind, StreamPlaylist, TrackOrder,
};
use kdj_server::tickets::SongPreviewTicket;
use kdj_server::video_requests::{
    apply_video_defaults, calibration_headers, check_video_download, check_vj_tracks,
    enqueue_request, folder_label, is_video_source, normalize_vj_quality, settle_vj_export,
    source_video_request, video_resolve_request, youtube_request, EnqueueSettings, SourceOptions, VideoSettings,
    VjExportRequest,
};

fn stream_playlist(platform: Platform, key: &str, title: &str) -> StreamPlaylist {
    StreamPlaylist {
        platform,
        key: key.into(),
        title: title.into(),
        cover: String::new(),
        count: 0,
        is_favorite: false,
        origin: String::new(),
    }
}

#[test]
fn youtube_sidebar_excludes_playlists_claimed_by_youtube_music() {
    let video = vec![
        stream_playlist(Platform::Youtube, "shared", "音乐歌单"),
        stream_playlist(Platform::Youtube, "WL", "稍后观看"),
    ];
    let music = vec![stream_playlist(Platform::Ytm, "shared", "音乐歌单")];

    let filtered = exclude_music_playlists_from_youtube(&video, &music);
    assert_eq!(
        filtered.iter().map(|playlist| playlist.key.as_str()).collect::<Vec<_>>(),
        vec!["WL"]
    );
}

#[test]
fn session_waveform_polling_is_not_gated_by_persistent_cache_settings() {
    assert!(SONG_PREVIEW_SESSION_WAVEFORM_ENABLED);
}

#[test]
fn unresolved_links_report_the_last_provider_error() {
    assert_eq!(unresolved_detail(""), "无法识别的链接");
    assert_eq!(unresolved_detail("分享链接已过期"), "无法识别的链接：分享链接已过期");
}

fn video_request(max_height: i64) -> VideoDownloadRequest {
    VideoDownloadRequest {
        platform: Platform::Bilibili,
        url: String::new(),
        bvid: "BV1".into(),
        page_index: 0,
        page_count: 0,
        page_title: String::new(),
        max_height,
        audio_only: false,
        transcode: false,
        offset_ms: 0,
        dest_dir: String::new(),
        title: String::new(),
        artist: String::new(),
        cover: String::new(),
    }
}

#[test]
fn video_requests_fall_back_to_the_configured_quality() {
    let settings = VideoSettings { max_height: 720, transcode: true };
    let mut req = video_request(0);
    apply_video_defaults(&mut req, &settings);
    assert_eq!(req.max_height, 720, "0 = 没指定，跟随设置");
    assert!(req.transcode, "没显式要求转码时跟随设置");

    let mut req = video_request(1080);
    apply_video_defaults(&mut req, &settings);
    assert_eq!(req.max_height, 1080);
}

fn source(platform: Platform) -> SongSource {
    SongSource {
        platform,
        key: "key".into(),
        title: "title".into(),
        artists: vec!["artist".to_string()],
        album: String::new(),
        duration_ms: Some(180_000),
        cover: String::new(),
        max_quality: Some(Quality::Q320),
        vip: false,
        payload: "{}".into(),
    }
}

#[test]
fn videos_are_looked_up_on_their_platform() {
    assert!(matches!(
        video_resolve_request(" https://www.bilibili.com/video/BV1 ", None),
        Ok((url, Platform::Bilibili)) if url == "https://www.bilibili.com/video/BV1"
    ));
    assert!(matches!(
        video_resolve_request("https://www.youtube.com/watch?v=x", None),
        Ok((_, Platform::Youtube))
    ));
    assert!(matches!(video_resolve_request("  ", None), Err(error) if error.status == 400));
    assert!(check_video_download(&video_request(720)).is_ok());
    let mut nothing = video_request(720);
    nothing.bvid = String::new();
    assert!(check_video_download(&nothing).is_err());
    assert!(is_video_source(&source(Platform::Youtube)));
    assert!(!is_video_source(&source(Platform::Wyy)));
}

#[test]
fn a_song_of_the_video_platform_becomes_a_video() {
    let options = SourceOptions { max_height: None, audio_only: Some(true), transcode: None };
    let settings = VideoSettings { max_height: 720, transcode: true };
    let request =
        youtube_request(&source(Platform::Youtube), "artist", &options, &settings, "/music");
    assert_eq!(request.platform, Platform::Youtube);
    assert_eq!((request.max_height, request.audio_only, request.transcode), (720, true, true));
    assert_eq!((request.title.as_str(), request.dest_dir.as_str()), ("title", "/music"));
}

#[test]
fn the_payload_of_a_song_says_how_its_video_is_wanted() {
    let settings = VideoSettings { max_height: 720, transcode: false };
    let mut song = source(Platform::Youtube);
    song.payload = r#"{"max_height": 480, "audio_only": true, "transcode": "yes"}"#.into();
    let request = source_video_request(&song, "artist", &settings, "");
    assert_eq!((request.max_height, request.audio_only, request.transcode), (480, true, false));
    song.payload = "no json".into();
    let request = source_video_request(&song, "artist", &settings, "");
    assert_eq!((request.max_height, request.audio_only, request.transcode), (720, false, false));
}

#[test]
fn a_complete_file_gets_an_address() {
    assert!(matches!(
        prepared_file("/data/spool/ytm-1.m4a", "audio/mp4"),
        Ok(url) if url == "file:///data/spool/ytm-1.m4a?mime=audio%2Fmp4"
    ));
    assert!(matches!(
        prepared_file("/data/a/../b?#.m4a", "audio/x y&z"),
        Ok(url) if url == "file:///data/a/../b%3F%23.m4a?mime=audio%2Fx+y%26z"
    ));
    assert!(matches!(prepared_file("not/absolute", "audio/mp4"), Err(error) if error.status == 500));
    let long = "a".repeat(SERVER_PATH_LIMIT);
    let address = prepared_file(&format!("/{long}"), "audio/mp4").ok().unwrap();
    assert_eq!(address.len(), "file:///".len() + long.len() + "?mime=audio%2Fmp4".len());
    assert!(matches!(
        prepared_file(&format!("//{long}"), "audio/mp4"),
        Err(error) if error.status == 500
    ));
    assert!(matches!(
        prepared_address(Some("file:///a".into()), "audio/webm"),
        Ok(url) if url == "file:///a?mime=audio%2Fwebm"
    ));
    assert!(matches!(
        prepared_address(None, "audio/mp4"),
        Err(error) if error.status == 500 && error.detail == "媒体会话路径无效"
    ));
}

#[test]
fn an_order_needs_songs() {
    let settings = EnqueueSettings { quality: Quality::Flac, analyze: true };
    assert!(enqueue_request(0, None, None, &settings).is_err());
    assert!(matches!(
        enqueue_request(1, Some(Quality::Q128), Some(false), &settings),
        Ok(EnqueueSettings { quality: Quality::Q128, analyze: false })
    ));
    assert!(matches!(
        enqueue_request(1, None, None, &settings),
        Ok(EnqueueSettings { quality: Quality::Flac, analyze: true })
    ));
}

#[test]
fn a_mix_is_exported_in_a_known_quality() {
    assert!(matches!(normalize_vj_quality(" 720p "), Ok(q) if q == "720p"));
    assert!(matches!(normalize_vj_quality(""), Ok(q) if q == "1080p"));
    assert!(matches!(
        normalize_vj_quality("4k"),
        Err(error) if error.detail == "不支持的导出质量：4k"
    ));
    assert!(check_vj_tracks(0).is_err());
    let request = |fade_bars: u32| VjExportRequest {
        track_ids: vec![1, 2],
        folder: "/music/set".into(),
        quality: String::new(),
        fade_us: Some(5),
        fade_bars,
        snap_whole_bar: true,
        snap_nearest_beat: false,
    };
    let settled = match settle_vj_export(request(8)) {
        Ok(settled) => settled,
        Err(error) => panic!("{}", error.detail),
    };
    assert_eq!(settled.fade_us, Some(0));
    assert!(settled.snap_nearest_beat);
    assert!(settle_vj_export(request(33)).is_err());
    assert_eq!(folder_label("/music/set"), "set");
    assert_eq!(
        calibration_headers("a=b"),
        "Referer: https://www.bilibili.com/\r\nUser-Agent: Mozilla/5.0\r\nCookie: a=b\r\n"
    );
}

#[test]
fn a_link_is_offered_to_one_platform_after_another() {
    assert!(link_request("  ").is_err());
    assert!(matches!(link_request(" x "), Ok(link) if link == "x"));
    let mut search = LinkSearch::begin(vec![Platform::Wyy, Platform::Qqm, Platform::Ytm]);
    assert_eq!(search.next_platform(), Some(Platform::Wyy));
    search.answer(LinkAnswer::Failed("first".into()));
    assert_eq!(search.next_platform(), Some(Platform::Qqm));
    search.answer(LinkAnswer::Opened);
    assert_eq!(search.next_platform(), None);
    assert!(search.opened);
    assert_eq!(search.last_error, "first");
}

#[test]
fn what_is_taken_in_is_named_by_its_kind() {
    assert!(check_intake(0).is_err());
    assert!(check_intake(1).is_ok());
    let head = intake_link("x", &None, "gone");
    assert_eq!(head.kind, IntakeKind::Error);
    assert_eq!(head.error, "无法识别的链接：gone");
    let head = intake_search("hello", SearchKind::Song);
    assert_eq!(head.entry, "hello");
    assert!(head.error.is_empty());
}

#[test]
fn requests_to_a_platform_are_checked() {
    assert!(matches!(parse_platform("wyy", Some(Platform::Wyy)), Ok(Platform::Wyy)));
    assert!(parse_platform("nope", None).is_err());
    assert!(oauth_callback("", "code").is_err());
    assert!(matches!(
        oauth_callback(" state ", " code "),
        Ok((state, code)) if state == "state" && code == "code"
    ));
    assert!(browser_login(" ", &None).is_err());
    assert!(check_collection("", SearchKind::Playlist, true, true).is_err());
    assert!(check_collection("key", SearchKind::Playlist, true, true).is_ok());
    assert!(check_playlists(&vec![Platform::Wyy], Platform::Wyy).is_ok());
    assert!(check_playlists(&vec![Platform::Qqm], Platform::Wyy).is_err());
    let songs = vec![Platform::Wyy, Platform::Wyy];
    assert!(check_playlist(Platform::Wyy, &songs, Platform::Wyy).is_ok());
    assert!(matches!(
        check_playlist(Platform::Qqm, &songs, Platform::Wyy),
        Err(error) if error.status == 500
    ));
    assert!(check_playlist(Platform::Wyy, &vec![Platform::Qqm], Platform::Wyy).is_err());
    assert!(matches!(
        check_playlist_key(" "),
        Err(error) if error.detail == "歌单来源缺少 key"
    ));
    assert!(check_playlist_key("1").is_ok());
    assert!(check_prepared_platform(Platform::Ytm).is_ok());
    assert!(check_prepared_platform(Platform::Wyy).is_err());
    assert!(check_removal(Some(TaskState::Done)).is_ok());
    assert!(matches!(check_removal(None), Err(error) if error.status == 404));
    assert!(check_removal(Some(TaskState::Running)).is_err());
    assert!(check_track(true).is_ok());
    assert!(check_track(false).is_err());
}

#[test]
fn a_list_of_tracks_has_its_defaults() {
    let window = track_window(&TrackOrder {
        sort: None,
        order: None,
        sort2: None,
        order2: None,
        limit: None,
        offset: Some(-5),
    });
    assert_eq!((window.sort.as_str(), window.order.as_str()), ("added_at", "desc"));
    assert_eq!((window.sort2.as_str(), window.order2.as_str()), ("", "asc"));
    assert_eq!(window.offset, 0);
    let roots = vec!["/music".to_string()];
    assert_eq!(track_folder("__out__", "__out__", &roots), (String::new(), roots.clone()));
    assert_eq!(track_folder("/music", "__out__", &roots), ("/music".to_string(), Vec::new()));
    assert!(harmonic_limit(0) >= 1);
    let hidden = build_visible_settings(
        LabSettings { experimental_dj_mode: true, experimental_one_library: true },
        false,
    );
    assert!(!hidden.experimental_dj_mode && !hidden.experimental_one_library);
    assert!(cache_effects(true, true).cancel_writes);
}

#[test]
fn ratings_and_covers_are_taken_over_once() {
    let mut sync = OneLibrarySync::new();
    let track = |rating: i64, update_count: i32| ExternalTrack {
        content_id: 7,
        rating,
        cover_version: "v1".into(),
        update_count,
        modified: true,
    };
    let first = sync.observe("usb", &track(4, 1), 2);
    assert_eq!(first.rating, Some(4));
    let second = sync.observe("usb", &track(4, 1), 2);
    assert_eq!(second.rating, None);
    assert!(!second.cover);
    assert_eq!(rating_in_range(9), 5);
    assert_eq!(rating_in_range(-1), 0);
    assert_eq!(chosen_tracks(&vec![3, 1, 3, 0]), chosen_tracks(&vec![3, 1]));
    assert!(require_track(1, false).is_err());
    assert!(check_playback_id(0).is_err());
    assert_eq!(import_key("usb", -3), "usb:-3");
    assert_eq!(waveform_columns(1, 4096), 64);
    assert_eq!(waveform_columns(100_000, 4096), 4096);
    assert_eq!(waveform_columns(500, 4096), 500);
}

#[test]
fn a_failed_import_is_taken_back() {
    let (import, step) = TrackImport::begin(true);
    assert!(matches!(step, ImportStep::Copy));
    let (import, step) = import.step(StepResult::Copied("/music/a.mp3".into()));
    assert!(matches!(step, ImportStep::Register { target } if target == "/music/a.mp3"));
    let (import, step) = import.step(StepResult::Registered(9));
    assert!(matches!(step, ImportStep::Describe { id: 9 }));
    let (_, step) = import.step(StepResult::Failed("full".into()));
    assert!(matches!(
        step,
        ImportStep::Fail { reason, delete: Some(9), remove: Some(path) }
            if reason == "full" && path == "/music/a.mp3"
    ));
    let (_, step) = TrackImport::begin(false);
    assert!(matches!(step, ImportStep::Fail { delete: None, remove: None, .. }));
}

#[test]
fn an_import_notes_every_track() {
    assert!(ImportRun::begin(&Vec::new(), vec![1]).is_err());
    let mut run = match ImportRun::begin(&vec![2, 3, 9], vec![1, 2, 3]) {
        Ok(run) => run,
        Err(error) => panic!("{}", error.detail),
    };
    assert_eq!(run.next_track(), Some(1));
    run.record(ImportResult::Done(20));
    assert_eq!(run.next_track(), Some(2));
    run.record(ImportResult::Failed("broken".into()));
    assert_eq!(run.next_track(), None);
    run.finish();
    assert_eq!(run.track_ids, vec![20]);
    assert_eq!(run.errors.len(), 2);
}

fn body(platform: Platform) -> SongPreviewBody {
    SongPreviewBody {
        source: source(platform),
        quality: None,
        bypass_cache: false,
        po_token: None,
        po_tokens: Vec::new(),
        resolved_url: None,
        resolved_urls: Vec::new(),
    }
}

#[test]
fn a_preview_is_looked_up_before_the_platform_is_asked() {
    let begun = SongPreview::begin(body(Platform::Wyy), Quality::Q320, true, "key".into(), true);
    let (mut run, action) = match begun {
        Ok(begun) => begun,
        Err(error) => panic!("{}", error.detail),
    };
    assert!(matches!(action, PreviewAction::Lookup));
    let action = run.step(PreviewEvent::Found(None), 5);
    assert!(matches!(action, PreviewAction::AskProvider));
    let action = run.step(PreviewEvent::Offered(Ok(Some("https://cdn.test/a".into()))), 5);
    match action {
        PreviewAction::Issue(ticket) => {
            assert_eq!(ticket.url, "https://cdn.test/a");
            assert_eq!(ticket.quality, Quality::Q320);
            assert!(!ticket.cached);
            assert_eq!(ticket.last_used_at, 5);
        }
        _ => panic!("an address gives a ticket"),
    }
    assert!(matches!(
        SongPreview::begin(body(Platform::Wyy), Quality::Q320, false, "key".into(), true),
        Err(error) if error.status >= 400
    ));
}

fn head(status: u16, content_type: &str, length: u64) -> MediaHead {
    MediaHead {
        status,
        status_text: status.to_string(),
        content_range: None,
        content_length: Some(length.to_string()),
        content_type: Some(content_type.into()),
    }
}

fn ticket() -> SongPreviewTicket {
    SongPreviewTicket {
        source: source(Platform::Wyy),
        quality: Quality::Q320,
        cache_key: None,
        cached: false,
        url: "https://cdn.test/a.mp3".into(),
        browser_resolved: false,
        protected_spool: None,
        last_used_at: 0,
    }
}

#[test]
fn an_address_that_has_run_out_is_renewed_once() {
    let settings = StreamSettings { cache_enabled: false, mobile: false, platform_known: true };
    let (mut run, action) = StreamRun::begin(ticket(), None, None, settings);
    assert!(matches!(action, StreamAction::Request(url, None) if url == "https://cdn.test/a.mp3"));
    let action = run.step(StreamEvent::Replied(Ok(head(403, "text/plain", 3))));
    assert!(matches!(action, StreamAction::AskProvider));
    let action = run.step(StreamEvent::Offered(Ok(Some("https://cdn.test/b.mp3".into())), 9));
    assert!(matches!(action, StreamAction::Request(url, None) if url == "https://cdn.test/b.mp3"));
    let action = run.step(StreamEvent::Replied(Ok(head(200, "audio/mpeg", 100))));
    assert!(matches!(
        action,
        StreamAction::PassOn(reply) if reply.status == 200 && reply.content_type == "audio/mpeg"
    ));
    assert!(ticket_gone().status >= 400);
}

#[test]
fn a_track_is_kept_when_all_of_it_came() {
    let (mut fetch, action) =
        CacheFetch::begin("https://cdn.test/a".into(), "audio/mpeg".into(), true);
    assert!(matches!(action, FetchAction::Request(url, 0) if url == "https://cdn.test/a"));
    let action = fetch.step(FetchEvent::Replied(head(200, "audio/mpeg", 4)), true);
    assert!(matches!(action, FetchAction::OpenWriter(kind, 4) if kind == "audio/mpeg"));
    assert!(matches!(fetch.step(FetchEvent::WriterOpened(true), true), FetchAction::Read));
    let piece = FetchEvent::Piece(vec![0xFF, 0xFB, 0x90, 0x00]);
    assert!(matches!(fetch.step(piece, true), FetchAction::Write));
    let mut action = fetch.step(FetchEvent::Written(true, 4), true);
    if matches!(action, FetchAction::Publish) {
        action = fetch.step(FetchEvent::Published(true), true);
    }
    assert!(matches!(action, FetchAction::Read));
    assert!(matches!(fetch.step(FetchEvent::PartEnded, true), FetchAction::Commit));
    let (_, action) = CacheFetch::begin("https://cdn.test/a".into(), "audio/mpeg".into(), false);
    assert!(matches!(action, FetchAction::Stop));
}

#[test]
fn a_stream_is_captured_while_it_passes() {
    assert!(InlineCapture::begin(0).is_none());
    let mut capture = InlineCapture::begin(3).unwrap();
    assert!(capture.accept(&vec![0xFF, 0xFB, 0x90], 0).is_ok());
    capture.written(3, 3);
    capture.published(3);
    assert!(capture.is_complete(true));
    assert!(InlineCapture::begin(100).unwrap().accept(&b"<!doctype html>".to_vec(), 0).is_err());
    assert!(matches!(
        refresh_background_preview_url(&ticket(), true, Ok(Some("https://cdn.test/b.mp3".into()))),
        Ok(url) if url == "https://cdn.test/b.mp3"
    ));
    assert_eq!(
        refresh_background_preview_url(&ticket(), true, Ok(None)),
        Err("缓存来源地址无法刷新".into())
    );
    assert_eq!(
        refresh_background_preview_url(&ticket(), true, Err("超时".into())),
        Err("超时".into())
    );
    assert_eq!(
        refresh_background_preview_url(&ticket(), false, Ok(None)),
        Err("缓存来源平台不可用".into())
    );
    assert!(kept_serves_session("audio/mp4; codecs=x", "Audio/MP4"));
    assert!(!kept_serves_session("audio/mp4", "audio/webm"));
    assert_eq!(next_copy(10, 10), None);
    assert!(matches!(next_copy(0, 10), Some((0, 9))));
    assert!(preparation_goes_on(Some(TaskState::Queued)));
    assert!(!preparation_goes_on(None));
}

#[test]
fn an_unknown_platform_renews_no_address() {
    let settings = StreamSettings { cache_enabled: false, mobile: false, platform_known: false };
    let (mut run, _) = StreamRun::begin(ticket(), None, None, settings);
    let action = run.step(StreamEvent::Replied(Ok(head(403, "text/plain", 3))));
    assert!(matches!(
        action,
        StreamAction::Fail(error) if error.status == 400 && error.detail == "不认识的平台"
    ));
}

fn looked(valid: bool, idle: bool) -> ScheduleEvent {
    ScheduleEvent::Looked { valid, idle, still_valid: valid }
}

#[test]
fn a_track_is_fetched_once_nobody_plays_it() {
    let (mut plan, action) = FetchSchedule::begin(CacheSchedule::WhenIdle, true);
    assert_eq!(action, ScheduleAction::Defer);
    assert_eq!(plan.step(ScheduleEvent::Answer(true)), ScheduleAction::Look(6_000));
    assert_eq!(plan.step(looked(true, false)), ScheduleAction::Look(2_000));
    assert_eq!(plan.step(looked(true, true)), ScheduleAction::Reserve);
    assert_eq!(plan.step(ScheduleEvent::Answer(true)), ScheduleAction::Look(400));
    let mut played_again = plan;
    assert_eq!(played_again.step(looked(true, false)), ScheduleAction::Stop);
    assert_eq!(plan.step(looked(true, true)), ScheduleAction::TakeSlot);
    assert_eq!(plan.step(ScheduleEvent::Answer(true)), ScheduleAction::Lookup);
    let mut kept = plan;
    assert_eq!(kept.step(ScheduleEvent::Answer(true)), ScheduleAction::Observe);
    assert_eq!(plan.step(ScheduleEvent::Answer(false)), ScheduleAction::Fetch);
    assert_eq!(plan.step(ScheduleEvent::Answer(true)), ScheduleAction::Stop);
}

#[test]
fn what_is_no_longer_wanted_is_given_up() {
    let (mut plan, action) = FetchSchedule::begin(CacheSchedule::Soon, false);
    assert_eq!(action, ScheduleAction::Reserve);
    let mut taken = plan;
    assert_eq!(taken.step(ScheduleEvent::Answer(false)), ScheduleAction::Stop);
    assert_eq!(plan.step(ScheduleEvent::Answer(true)), ScheduleAction::Look(400));
    let mut playing = plan;
    assert_eq!(playing.step(looked(true, false)), ScheduleAction::TakeSlot);
    assert_eq!(plan.step(looked(false, true)), ScheduleAction::Stop);
    let (mut plan, _) = FetchSchedule::begin(CacheSchedule::WhenIdle, false);
    plan.step(ScheduleEvent::Answer(true));
    assert_eq!(plan.step(looked(false, false)), ScheduleAction::Stop);
}
