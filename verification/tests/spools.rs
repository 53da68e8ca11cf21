use kdj_server::activity::ActivityLevel;
use kdj_server::diagnostics::{
    allowed_code, entry, field, new_report_name, report_name_of, ActivityLogEntry,
};
use kdj_server::media_spool::{
    is_stale_spool, spool_path, CompletePoll, OpeningStep, ProtectedMediaSpool, PumpAction,
    PumpEvent, PumpRun, RangePoll, SpoolOpening,
};
use kdj_server::protected_media::{
    content_length_hint, ensure_media_chunk, gvs_range, media_response_metadata,
    read_declared_type, validate_continuation, MediaHead,
};

fn head(status: u16, content_range: Option<&str>, content_length: Option<u64>) -> MediaHead {
    MediaHead {
        status,
        status_text: status.to_string(),
        content_range: content_range.map(str::to_string),
        content_length: content_length.map(|length| length.to_string()),
        content_type: Some("audio/mp4".into()),
    }
}

fn payload(length: usize) -> Vec<u8> {
    (0..=255_u8).cycle().take(length).collect()
}

#[test]
fn one_upstream_request_supports_playback_seeks_and_complete_download() {
    let payload = payload(2 * 1024 * 1024);
    let url = format!(
        "http://127.0.0.1:9/audio?mime=audio%2Fmp4&clen={}",
        payload.len()
    );
    let mut opening = match SpoolOpening::begin(&url, &Vec::new()) {
        Ok(opening) => opening,
        Err(error) => panic!("{error}"),
    };
    assert_eq!(opening.request(), (url.as_str(), "bytes=0-1048575"));
    let (total, content_type) = match opening.judge(&head(200, None, Some(payload.len() as u64))) {
        OpeningStep::Opened(total, content_type) => (total, content_type),
        _ => panic!("a whole reply opens the spool"),
    };
    assert_eq!((total, content_type.as_str()), (payload.len() as u64, "audio/mp4"));

    let first = payload[..65_536].to_vec();
    let mut spool = match ProtectedMediaSpool::opened(total, content_type, &first) {
        Ok(spool) => spool,
        Err(error) => panic!("{error}"),
    };
    let window = spool.window(0, Some(65_535)).unwrap_or_else(|error| panic!("{error}"));
    let end = match spool.poll_range(window) {
        RangePoll::Ready(end) => end,
        _ => panic!("the first bytes are there"),
    };
    assert_eq!(payload[..=end as usize], payload[..65_536]);

    let (mut run, action) = PumpRun::begin(vec![url.clone()], &spool);
    assert!(matches!(action, PumpAction::Read));
    let seek = spool
        .window(1024 * 1024 + 123, Some(1024 * 1024 + 999))
        .unwrap_or_else(|error| panic!("{error}"));
    assert!(matches!(spool.poll_range(seek), RangePoll::Wait));
    let rest = total - 65_536;
    assert!(matches!(run.step(&mut spool, PumpEvent::Piece(rest - 1)), PumpAction::Read));
    let seek = spool
        .window(1024 * 1024 + 123, Some(1024 * 1024 + 999))
        .unwrap_or_else(|error| panic!("{error}"));
    assert!(matches!(spool.poll_range(seek), RangePoll::Ready(end) if end == 1024 * 1024 + 999));
    assert!(matches!(spool.poll_complete(), CompletePoll::Wait));
    assert!(matches!(run.step(&mut spool, PumpEvent::Piece(1)), PumpAction::Read));
    assert!(matches!(run.step(&mut spool, PumpEvent::Ended), PumpAction::Flush));
    spool.end_pump(Ok(()));
    assert!(matches!(spool.poll_complete(), CompletePoll::Done));
    assert_eq!(spool.progress(), (total, total));
}

#[test]
fn capped_gvs_response_recovers_from_transient_continuation_403() {
    let payload = payload(768 * 1024);
    let split = 256 * 1024u64;
    let total = payload.len() as u64;
    let url = format!("http://127.0.0.1:9/audio?mime=audio%2Fmp4&clen={total}");
    let mut opening = match SpoolOpening::begin(&url, &Vec::new()) {
        Ok(opening) => opening,
        Err(error) => panic!("{error}"),
    };
    assert_eq!(opening.request().1, format!("bytes=0-{}", total - 1));
    let range = format!("bytes 0-{}/{total}", split - 1);
    let content_type = match opening.judge(&head(206, Some(&range), None)) {
        OpeningStep::Opened(found, content_type) => {
            assert_eq!(found, total);
            content_type
        }
        _ => panic!("a part opens the spool"),
    };
    let first = payload[..split as usize].to_vec();
    let mut spool = match ProtectedMediaSpool::opened(total, content_type, &first) {
        Ok(spool) => spool,
        Err(error) => panic!("{error}"),
    };
    let mut requests = 1;
    let (mut run, action) = PumpRun::begin(opening.urls, &spool);
    assert!(matches!(action, PumpAction::Read));
    let expected = format!("bytes={split}-{}", total - 1);
    match run.step(&mut spool, PumpEvent::Ended) {
        PumpAction::Connect(_, asked, range) => {
            assert_eq!((asked, range), (url.clone(), expected.clone()));
            requests += 1;
        }
        _ => panic!("the rest is asked for"),
    }
    assert!(matches!(
        run.step(&mut spool, PumpEvent::Connected(head(403, None, None))),
        PumpAction::Read
    ));
    match run.step(&mut spool, PumpEvent::Ended) {
        PumpAction::Connect(_, asked, range) => {
            assert_eq!((asked, range), (url.clone(), expected));
            requests += 1;
        }
        _ => panic!("a refusal is tried again"),
    }
    let rest = format!("bytes {split}-{}/{total}", total - 1);
    assert!(matches!(
        run.step(&mut spool, PumpEvent::Connected(head(206, Some(&rest), None))),
        PumpAction::Read
    ));
    assert!(matches!(
        run.step(&mut spool, PumpEvent::Piece(total - split)),
        PumpAction::Read
    ));
    assert!(matches!(run.step(&mut spool, PumpEvent::Ended), PumpAction::Flush));
    spool.end_pump(Ok(()));
    assert!(matches!(spool.poll_complete(), CompletePoll::Done));
    assert_eq!(requests, 3);
}

#[test]
fn an_upload_fills_its_spool() {
    let mut spool = match ProtectedMediaSpool::start_upload(10, "audio/mp4".into()) {
        Ok(spool) => spool,
        Err(error) => panic!("{error}"),
    };
    assert_eq!(spool.admit_upload(4), Ok(0));
    assert_eq!(spool.append_upload(0, 4), (4, 10));
    assert!(spool.admit_upload(7).is_err());
    assert!(spool.finish_upload().is_err());
    assert_eq!(spool.admit_upload(6), Ok(4));
    assert_eq!(spool.append_upload(4, 6), (10, 10));
    assert!(spool.finish_upload().is_ok());
    assert!(matches!(spool.poll_complete(), CompletePoll::Done));
    assert!(ProtectedMediaSpool::start_upload(0, "audio/mp4".into()).is_err());
}

#[test]
fn replies_are_read_as_their_headers_say() {
    assert_eq!(content_length_hint("https://x.googlevideo.com/v?clen=42"), Some(42));
    assert_eq!(content_length_hint("https://x.googlevideo.com/v?clen=no"), None);
    assert_eq!(content_length_hint("not a url"), None);
    assert_eq!(gvs_range(0, 3_000_000), "bytes=0-1048575");
    assert_eq!(gvs_range(2_999_999, 3_000_000), "bytes=2999999-2999999");
    assert_eq!(read_declared_type(&Some("Audio/MP4; codecs=x".into())), "audio/mp4");
    assert_eq!(
        media_response_metadata("https://x.test/a", &head(206, Some("bytes 0-9/100"), None)),
        Ok((100, "audio/mp4".to_string()))
    );
    assert!(validate_continuation(&head(206, Some("bytes 5-9/10"), None), 5, 10).is_ok());
    assert!(validate_continuation(&head(206, Some("bytes 6-9/10"), None), 5, 10).is_err());
    assert!(validate_continuation(&head(200, None, Some(10)), 5, 10).is_err());
    assert!(ensure_media_chunk(&b"<!DOCTYPE html><html>".to_vec()).is_err());
    assert!(ensure_media_chunk(&vec![0, 0, 0, 24, b'f', b't', b'y', b'p', 0xFF]).is_ok());
}

#[test]
fn spool_files_can_be_told_apart() {
    let name = spool_path("m4a");
    assert!(name.ends_with(".m4a"));
    assert!(is_stale_spool(&name));
    assert!(!is_stale_spool("other.m4a"));
}

#[test]
fn export_drops_free_text_urls_cookies_account_and_capability_fields() {
    let log = ActivityLogEntry {
        timestamp: "2026-09-21T00:00:00Z".into(),
        level: ActivityLevel::Error,
        action: "在线音频读取中断".into(),
        detail: "stage=media_read attempt=0123456789abcdef code=UPSTREAM_TRANSPORT https://audio.test/a?vkey=SECRET Cookie=HIDDEN musickey=PRIVATE requested=flac actual=320".into(),
        target: "/private/account-token".into(),
        status: Some(502),
        duration_ms: Some(10),
        count: 1,
    };
    let safe = entry(&log).unwrap();
    let text = format!(
        "{} {} {:?} {:?} {:?} {} {:?} {:?} {:?} {:?} {:?}",
        safe.time,
        safe.action,
        safe.level,
        safe.status,
        safe.duration_ms,
        safe.count,
        safe.attempt_id,
        safe.code,
        safe.stage,
        safe.requested,
        safe.actual
    );
    for secret in ["SECRET", "HIDDEN", "PRIVATE", "account-token", "https://"] {
        assert!(!text.contains(secret));
    }
    assert_eq!(safe.attempt_id.as_deref(), Some("0123456789abcdef"));
    assert_eq!(safe.code.as_deref(), Some("UPSTREAM_TRANSPORT"));
    assert_eq!(safe.actual.as_deref(), Some("320"));
}

#[test]
fn only_listed_codes_and_fields_are_known() {
    assert!(allowed_code("UPSTREAM_TRANSPORT"));
    assert!(!allowed_code("SECRET"));
    assert_eq!(field("a=1 b=2", "b").as_deref(), Some("2"));
    assert_eq!(field("a=1 b=2", "c"), None);
    assert_eq!(
        report_name_of("20260921-000000", 255),
        "KDJ-playback-20260921-000000-000000ff.json"
    );
    let name = new_report_name();
    assert_eq!(name.len(), "KDJ-playback-20260921-000000-000000ff.json".len());
    let stamp = &name["KDJ-playback-".len().."KDJ-playback-20260921-000000".len()];
    let (date, time) = stamp.split_once('-').unwrap();
    assert_eq!((date.len(), time.len()), (8, 6));
    assert!(date.bytes().chain(time.bytes()).all(|byte| byte.is_ascii_digit()));
    assert_ne!(name, new_report_name());
}
