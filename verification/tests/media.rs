use kdj_server::covers::{
    check_cover_reply, check_cover_url, check_picture, cover_cache_file, cover_headers,
    cover_host_allowed, kept_file_name, sniff_remote_cover, CoverData, Frame, FrameSearch,
};
use kdj_server::media_files::{
    after_compatible_video, after_extract, begin_compatible_video, begin_extract,
    check_audio_track, check_stem_track, check_video_track, source_mtime, ConvertStep,
};
use kdj_server::models::Platform;
use kdj_server::protected_media::MediaHead;
use kdj_server::ranges::{
    audio_response, gvs_upstream_range, looks_like_text_error_payload, mime_for, parse_range,
    preview_audio_mime, preview_audio_mime_for_url, preview_cache_segment,
    preview_response_segment, session_preview_capture_plan, song_preview_url_needs_refresh,
    usable_range, video_mime_for,
};
use kdj_server::urls::{is_googlevideo_url, ParsedUrl};
use kdj_server::ytm::{
    botguard_request, check_botguard, check_player_request, check_spool_request, sabr_proxy_target, spool_extension,
    stream_extension, valid_web_po_token, validate_ytm_preflight_response,
    validated_fresh_ytm_download_url, validated_ytm_browser_stream_url, validated_ytm_sabr_url,
    PlayerRequest, TokenBinding,
};

fn head(status: u16, content_range: Option<&str>, content_length: Option<&str>) -> MediaHead {
    MediaHead {
        status,
        status_text: status.to_string(),
        content_range: content_range.map(str::to_string),
        content_length: content_length.map(str::to_string),
        content_type: None,
    }
}

fn parsed(raw: &str) -> ParsedUrl {
    let url = reqwest::Url::parse(raw).unwrap();
    ParsedUrl {
        text: url.as_str().to_string(),
        scheme: url.scheme().to_string(),
        host: url.host_str().map(str::to_string),
        port: url.port_or_known_default(),
        path: url.path().to_string(),
        username: url.username().to_string(),
        has_password: url.password().is_some(),
        has_fragment: url.fragment().is_some(),
        query: url.query_pairs().into_owned().collect(),
    }
}

#[test]
fn googlevideo_detection_only_accepts_the_media_host() {
    assert!(is_googlevideo_url("https://rr1---sn.example.googlevideo.com/videoplayback?id=x"));
    assert!(!is_googlevideo_url("https://cdn.example.test/audio"));
    assert_eq!(
        gvs_upstream_range(
            "https://rr1---sn.example.googlevideo.com/videoplayback?id=x",
            "bytes=65536-"
        ),
        "bytes=65536-1114111"
    );
    assert_eq!(gvs_upstream_range("https://cdn.example.test/audio", "bytes=10-"), "bytes=10-");
}

#[test]
fn ytm_preflight_turns_gvs_rejection_into_a_refreshable_authorization_error() {
    let kind = |text: &str| Some(text.to_string());
    let rejected = validate_ytm_preflight_response(403, "403 Forbidden", &kind("text/plain"));
    assert_eq!(rejected.err().map(|error| error.status), Some(401));
    assert!(validate_ytm_preflight_response(
        206,
        "206 Partial Content",
        &kind("application/octet-stream")
    )
    .is_ok());
    assert!(validate_ytm_preflight_response(200, "200 OK", &kind("audio/mp4")).is_ok());
    assert_eq!(
        validate_ytm_preflight_response(200, "200 OK", &kind("text/html"))
            .err()
            .map(|error| error.status),
        Some(502)
    );
}

#[test]
fn web_po_tokens_accept_only_bounded_base64url_text() {
    let token = "A".repeat(120);
    assert!(valid_web_po_token(&token));
    assert!(valid_web_po_token(&format!("{}-_", "A".repeat(100))));
    assert!(!valid_web_po_token("short"));
    assert!(!valid_web_po_token(&format!("{}+", "A".repeat(100))));
    let url = format!(
        "https://rr1---sn.example.googlevideo.com/videoplayback?mime=audio%2Fmp4&pot={token}"
    );
    assert!(validated_ytm_browser_stream_url(&url, &token).is_ok());
    assert!(validated_ytm_browser_stream_url(
        &format!("https://example.test/videoplayback?mime=audio%2Fmp4&pot={token}"),
        &token
    )
    .is_err());
}

#[test]
fn ytm_download_urls_must_still_be_fresh_when_the_queue_starts() {
    let token = "A".repeat(120);
    let now = std::time::SystemTime::now()
        .duration_since(std::time::UNIX_EPOCH)
        .unwrap()
        .as_secs();
    let future = now + 3600;
    let fresh = format!(
        "https://rr1---sn.example.googlevideo.com/videoplayback?mime=audio%2Fwebm&pot={token}&expire={future}"
    );
    assert!(validated_fresh_ytm_download_url(&fresh, &token, now).is_ok());

    let expired = format!(
        "https://rr1---sn.example.googlevideo.com/videoplayback?mime=audio%2Fwebm&pot={token}&expire=1"
    );
    assert!(validated_fresh_ytm_download_url(&expired, &token, now).is_err());
    let no_expiry = format!(
        "https://rr1---sn.example.googlevideo.com/videoplayback?mime=audio%2Fwebm&pot={token}"
    );
    assert!(validated_fresh_ytm_download_url(&no_expiry, &token, now).is_err());
}

#[test]
fn preview_refreshes_only_expired_or_denied_upstream_urls() {
    for status in [401, 403, 404, 410] {
        assert!(song_preview_url_needs_refresh(status));
    }
    for status in [200, 206, 429, 500] {
        assert!(!song_preview_url_needs_refresh(status));
    }
}

#[test]
fn preview_cache_accepts_whole_and_resumable_ranges() {
    let whole = head(200, None, Some("100"));
    assert_eq!(
        preview_cache_segment(&whole, 0).map(|s| (s.start, s.end, s.total)),
        Some((0, 99, 100))
    );

    let first = head(206, Some("bytes 0-39/100"), Some("40"));
    assert_eq!(
        preview_cache_segment(&first, 0).map(|s| (s.start, s.end, s.total)),
        Some((0, 39, 100))
    );

    let rest = head(206, Some("bytes 40-99/100"), Some("60"));
    assert_eq!(
        preview_cache_segment(&rest, 40).map(|s| (s.start, s.end, s.total)),
        Some((40, 99, 100))
    );
    assert!(preview_cache_segment(&rest, 0).is_none());
    assert_eq!(
        preview_response_segment(&rest).map(|s| s.start),
        Some(40),
        "session tee trusts the actual CDN response offset"
    );
}

#[test]
fn preview_cache_rejects_explicit_non_audio_content() {
    let kind = |text: &str| Some(text.to_string());
    assert!(preview_audio_mime(&kind("text/html; charset=utf-8"), "audio/mpeg").is_none());
    assert!(preview_audio_mime(&kind("application/json"), "audio/mpeg").is_none());
    let stream = kind("application/octet-stream");
    assert_eq!(preview_audio_mime(&stream, "audio/mpeg").as_deref(), Some("audio/mpeg"));
    assert_eq!(
        preview_audio_mime_for_url(
            &stream,
            "https://rr1---sn.example.googlevideo.com/videoplayback?mime=audio%2Fwebm%3Bcodecs%3Dopus"
        )
        .as_deref(),
        Some("audio/webm;codecs=opus"),
        "GVS octet-stream must retain the playback API's real container"
    );
    assert_eq!(
        preview_audio_mime_for_url(
            &None,
            "https://rr1---sn.example.googlevideo.com/videoplayback?mime=audio%2Fmp4"
        )
        .as_deref(),
        Some("audio/mp4")
    );
    assert!(looks_like_text_error_payload(&b"  <!doctype html><html>".to_vec()));
    assert!(!looks_like_text_error_payload(&b"ID3\x04\0\0\0".to_vec()));
}

#[test]
fn range_parsing_covers_the_three_forms() {
    assert_eq!(parse_range("bytes=0-1023", 4096), Some((0, 1023)));
    assert_eq!(parse_range("bytes=1024-", 4096), Some((1024, 4095)));
    assert_eq!(parse_range("bytes=-500", 4096), Some((3596, 4095)));
}

#[test]
fn the_range_unit_is_case_insensitive_and_may_be_padded() {
    assert_eq!(parse_range("Bytes=0-9", 100), Some((0, 9)));
    assert_eq!(parse_range("BYTES=0-9", 100), Some((0, 9)));
    assert_eq!(parse_range("  bytes=0-9  ", 100), Some((0, 9)));
    assert_eq!(parse_range("Items=0-9", 100), None);
}

#[test]
fn range_end_is_clamped_to_the_file_length() {
    assert_eq!(parse_range("bytes=0-99999", 4096), Some((0, 4095)));
}

#[test]
fn malformed_or_unsatisfiable_ranges_are_rejected() {
    assert_eq!(parse_range("bytes=5000-6000", 4096), None);
    assert_eq!(parse_range("items=0-10", 4096), None);
    assert_eq!(parse_range("bytes=abc", 4096), None);
    assert_eq!(parse_range("bytes=100-50", 4096), None, "start > end");
    assert_eq!(parse_range("bytes=0-10", 0), None, "空文件没有可用范围");
}

fn sample_audio(size: usize) -> Vec<u8> {
    (0..size).map(|index| (index % 251) as u8).collect()
}

#[test]
fn a_request_without_range_gets_the_whole_file() {
    let plan = audio_response(100, &None);
    assert_eq!(plan.status, 200);
    assert_eq!(plan.content_length.as_deref(), Some("100"));
    assert_eq!((plan.start, plan.length), (0, 100));
}

#[test]
fn a_satisfiable_range_gets_206_with_exactly_those_bytes() {
    let data = sample_audio(100);
    let plan = audio_response(100, &Some("bytes=10-19".into()));
    assert_eq!(plan.status, 206);
    assert_eq!(plan.content_range.as_deref(), Some("bytes 10-19/100"));
    assert_eq!(plan.content_length.as_deref(), Some("10"));
    let sent = &data[plan.start as usize..(plan.start + plan.length) as usize];
    assert_eq!(sent, (10u8..20).collect::<Vec<u8>>());
}

#[test]
fn an_open_ended_range_runs_to_the_end_of_the_file() {
    let data = sample_audio(100);
    let plan = audio_response(100, &Some("bytes=90-".into()));
    assert_eq!(plan.content_range.as_deref(), Some("bytes 90-99/100"));
    let sent = &data[plan.start as usize..(plan.start + plan.length) as usize];
    assert_eq!(sent, (90u8..100).collect::<Vec<u8>>());
}

#[test]
fn an_unsatisfiable_range_gets_416_not_the_whole_file() {
    let plan = audio_response(100, &Some("bytes=500-600".into()));
    assert_eq!(plan.status, 416);
    assert_eq!(plan.content_range.as_deref(), Some("bytes */100"));
    assert_eq!(plan.length, 0, "416 不该带数据");
}

#[test]
fn a_large_file_is_streamed_not_slurped() {
    let size = 4 * 1024 * 1024 + 7;
    let data = sample_audio(size);
    let start = (size - 10) as u64;
    let plan = audio_response(size as u64, &Some(format!("bytes={start}-")));
    assert_eq!(plan.content_length.as_deref(), Some("10"));
    let expected: Vec<u8> = ((size - 10)..size).map(|i| (i % 251) as u8).collect();
    assert_eq!(data[plan.start as usize..(plan.start + plan.length) as usize], expected);
}

#[test]
fn covers_are_cached_for_an_hour_not_a_day() {
    let headers = cover_headers("image/jpeg".into());
    assert_eq!(headers[0].1, "image/jpeg");
    assert_eq!(headers[1].1, "private, max-age=3600");
}

#[test]
fn online_cover_proxy_accepts_only_the_two_search_platforms() {
    let wyy = parsed("https://p1.music.126.net/a.jpg");
    let qqm = parsed("https://y.qq.com/music/photo/a.jpg");
    let other = parsed("https://example.com/a.jpg");
    assert!(cover_host_allowed(Platform::Wyy, &wyy));
    assert!(cover_host_allowed(Platform::Qqm, &qqm));
    assert!(!cover_host_allowed(Platform::Wyy, &qqm));
    assert!(!cover_host_allowed(Platform::Qqm, &other));
    assert!(!cover_host_allowed(Platform::Soundcloud, &other));
}

#[test]
fn online_cover_proxy_checks_image_magic_bytes() {
    assert_eq!(sniff_remote_cover(&b"\x89PNG\r\n\x1a\nrest".to_vec()), Some("image/png"));
    assert_eq!(sniff_remote_cover(&b"\xff\xd8\xffrest".to_vec()), Some("image/jpeg"));
    assert_eq!(sniff_remote_cover(&b"not an image".to_vec()), None);
}

#[test]
fn a_replaced_file_gets_a_different_cover_cache_name() {
    let before = cover_cache_file("/tmp/covers", 42, 1_700_000_000);
    let after = cover_cache_file("/tmp/covers", 42, 1_700_000_999);
    assert_ne!(before, after);
    assert_eq!(before, "/tmp/covers/42-1700000000.jpg");
    assert_ne!(before, cover_cache_file("/tmp/covers", 43, 1_700_000_000));
}

#[test]
fn a_file_that_cannot_be_read_as_video_degrades_to_no_cover() {
    let mut search = FrameSearch::new();
    for index in 0..3 {
        let step = search.offer(index, Frame::Missing);
        assert!(!step.stop);
        assert!(step.remove.is_none() || step.remove == Some(index));
    }
    assert_eq!(search.best, None);
}

#[test]
fn an_all_black_opening_makes_it_try_a_later_position() {
    let mut search = FrameSearch::new();
    let first = search.offer(0, Frame::Black);
    assert!(!first.stop);
    let second = search.offer(1, Frame::Black);
    assert!(!second.stop);
    let third = search.offer(2, Frame::Good);
    assert!(third.stop);
    assert_eq!(search.best, Some(2));
}

#[test]
fn audio_mime_types_match_the_container() {
    assert_eq!(mime_for("a.mp3"), "audio/mpeg");
    assert_eq!(mime_for("a.FLAC"), "audio/flac");
    assert_eq!(mime_for("a.m4a"), "audio/mp4");
    assert_eq!(mime_for("a.xyz"), "application/octet-stream");
}

#[test]
fn video_mime_types_do_not_disguise_quicktime_as_mp4() {
    assert_eq!(video_mime_for("a.mp4"), "video/mp4");
    assert_eq!(video_mime_for("a.MOV"), "video/quicktime");
    assert_eq!(video_mime_for("a.webm"), "video/webm");
}

#[test]
fn a_cover_comes_from_its_platform_only() {
    assert!(check_cover_url(Platform::Wyy, "https://p1.music.126.net/a.jpg").is_ok());
    for raw in ["https://example.com/a.jpg", "not a url", "ftp://p1.music.126.net/a.jpg"] {
        assert!(check_cover_url(Platform::Wyy, raw).is_err());
    }
    let moved = Some(parsed("https://example.com/a.jpg"));
    assert!(check_cover_reply(Platform::Wyy, 200, "200 OK", &moved).is_err());
    let kept = Some(parsed("https://p1.music.126.net/a.jpg"));
    assert!(check_cover_reply(Platform::Wyy, 200, "200 OK", &kept).is_ok());
    assert!(check_cover_reply(Platform::Wyy, 404, "404 Not Found", &kept).is_err());
}

#[test]
fn a_cover_is_taken_in_by_pieces() {
    let mut data = CoverData::new();
    assert!(data.finish().is_err());
    assert!(data.append(&b"\xff\xd8".to_vec()).is_ok());
    assert!(data.append(&b"\xffrest".to_vec()).is_ok());
    assert!(matches!(data.finish(), Ok("image/jpeg")));
    assert!(data.append(&vec![0; 16 * 1024 * 1024]).is_err());
    assert!(check_picture(1).is_ok());
    assert!(check_picture(0).is_err());
    assert_eq!(kept_file_name(42, 7, ".m4a"), "42-7.m4a");
}

#[test]
fn media_is_converted_once() {
    assert!(matches!(begin_extract(true, false), ConvertStep::UseKept));
    assert!(matches!(begin_extract(false, true), ConvertStep::Run { copy: true }));
    assert!(matches!(begin_extract(false, false), ConvertStep::Fail(_)));
    assert!(matches!(after_extract(true, true), ConvertStep::Publish));
    assert!(matches!(after_extract(true, false), ConvertStep::Run { copy: false }));
    assert!(matches!(after_extract(false, false), ConvertStep::Fail(_)));
    assert!(matches!(begin_compatible_video(true, true), ConvertStep::UseKept));
    assert!(matches!(after_compatible_video(&None, true), ConvertStep::Publish));
    assert!(matches!(after_compatible_video(&Some("x".into()), true), ConvertStep::Fail(_)));
}

#[test]
fn a_track_must_be_there_to_be_played() {
    assert!(check_audio_track(true, true).is_ok());
    assert!(matches!(check_audio_track(false, true), Err(error) if error.status == 404));
    assert!(matches!(check_audio_track(true, false), Err(error) if error.status == 404));
    assert!(check_video_track(true, true, true).is_ok());
    assert!(check_video_track(true, true, false).is_err());
    assert!(check_stem_track(true, "/a.mp3", true).is_ok());
    assert!(check_stem_track(true, "/a.mp3", false).is_err());
    assert!(matches!(source_mtime(Some((1, 500))), Ok(1_000_000_500)));
    assert!(source_mtime(None).is_err());
}

#[test]
fn a_part_that_reaches_the_end_is_captured_as_such() {
    let rest = preview_response_segment(&head(206, Some("bytes 40-99/100"), Some("60")));
    let plan = session_preview_capture_plan(rest).unwrap();
    assert_eq!((plan.start, plan.expected, plan.total), (40, 60, 100));
    assert!(plan.reaches_end);
    assert!(session_preview_capture_plan(None).is_none());
    assert_eq!(usable_range(Some("bytes=0-".into())).as_deref(), Some("bytes=0-"));
    assert_eq!(usable_range(None), None);
}

fn player_request(platform: Platform) -> PlayerRequest {
    PlayerRequest {
        platform,
        po_token: None,
        visitor_data: "visitor".into(),
        data_sync_id: String::new(),
        player_url: String::new(),
        signature_timestamp: 0,
    }
}

#[test]
fn requests_of_the_player_are_checked() {
    assert!(check_player_request(&player_request(Platform::Wyy)).is_err());
    assert!(check_botguard("nonsense", 10).is_err());
    assert!(check_botguard("Create", 524_288).is_ok());
    assert!(check_botguard("Create", 524_289).is_err());
    let spaced = format!("[{}1]", " ".repeat(600_000));
    assert!(botguard_request("GenerateIT", &spaced).is_ok());
    assert!(botguard_request("GenerateIT", &format!("\"{}\"", "a".repeat(600_000))).is_err());
    assert!(botguard_request("Create", "no json").is_err());
    assert!(sabr_proxy_target(0, &None).is_err());
    assert!(validated_ytm_sabr_url("https://example.test/x").is_err());
    assert!(check_spool_request(Platform::Ytm, 10, "audio/mp4").is_ok());
    assert!(check_spool_request(Platform::Ytm, 0, "audio/mp4").is_err());
    assert!(check_spool_request(Platform::Wyy, 10, "audio/mp4").is_err());
    assert_eq!(spool_extension("audio/webm"), "webm");
    assert_eq!(spool_extension("audio/mp4"), "m4a");
    assert_eq!(stream_extension("https://x.test/a?mime=audio%2Fwebm"), "webm");
    assert_eq!(TokenBinding::VideoId.as_str(), "video_id");
}
