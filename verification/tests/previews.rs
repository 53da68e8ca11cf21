use kdj_server::models::{Platform, Quality, SongSource};
use kdj_server::preview_policy::{ForegroundTransfers, MediaEntity, PreviewContext, PreviewMedia};
use kdj_server::tickets::{ticket_name_of, ticket_url, SongPreviewTicket, SongPreviewTickets};

fn source(key: &str) -> SongSource {
    SongSource {
        platform: Platform::Wyy,
        key: key.to_string(),
        title: key.to_string(),
        artists: vec!["artist".to_string()],
        album: String::new(),
        duration_ms: Some(180_000),
        cover: String::new(),
        max_quality: Some(Quality::Q320),
        vip: false,
        payload: "{}".into(),
    }
}

fn ticket(key: &str, at: u64) -> SongPreviewTicket {
    SongPreviewTicket {
        source: source(key),
        quality: Quality::Q320,
        cache_key: None,
        cached: false,
        url: format!("https://cdn.example/{key}"),
        browser_resolved: false,
        protected_spool: None,
        last_used_at: at,
    }
}

const SECOND: u64 = 1_000_000;

#[test]
fn preview_ticket_get_renews_the_lease() {
    let base = 1_000 * SECOND;
    let mut tickets = SongPreviewTickets::with_limits(4, 10 * SECOND);
    tickets.insert("a".into(), ticket("a", base));

    let renewed = tickets
        .get_and_touch("a", base + 8 * SECOND)
        .expect("ticket should still be alive");
    assert_eq!(renewed.last_used_at, base + 8 * SECOND);
    assert!(tickets.get_and_touch("a", base + 17 * SECOND).is_some());
}

#[test]
fn expired_preview_ticket_is_removed() {
    let base = 1_000 * SECOND;
    let mut tickets = SongPreviewTickets::with_limits(4, 10 * SECOND);
    tickets.insert("a".into(), ticket("a", base));

    assert!(tickets.get_and_touch("a", base + 10 * SECOND).is_none());
    assert!(!tickets.contains("a"));
}

#[test]
fn preview_ticket_cache_evicts_the_least_recently_used() {
    let base = 1_000 * SECOND;
    let mut tickets = SongPreviewTickets::with_limits(2, 60 * SECOND);
    tickets.insert("a".into(), ticket("a", base));
    tickets.insert("b".into(), ticket("b", base + SECOND));
    assert!(tickets.get_and_touch("a", base + 2 * SECOND).is_some());
    tickets.insert("c".into(), ticket("c", base + 3 * SECOND));

    assert!(tickets.contains("a"));
    assert!(!tickets.contains("b"));
    assert!(tickets.contains("c"));
}

#[test]
fn refreshed_url_keeps_source_and_quality() {
    let base = 1_000 * SECOND;
    let mut tickets = SongPreviewTickets::with_limits(2, 60 * SECOND);
    tickets.insert("a".into(), ticket("a", base));

    assert!(tickets.update_url("a", "https://cdn.example/refreshed".into(), base + SECOND));
    let refreshed = tickets.get_and_touch("a", base + SECOND).unwrap();
    assert_eq!(refreshed.source.key, "a");
    assert_eq!(refreshed.quality, Quality::Q320);
    assert_eq!(refreshed.url, "https://cdn.example/refreshed");
    assert!(!refreshed.cached);
    assert!(!tickets.update_url("nope", "https://cdn.example/".into(), base + SECOND));
}

#[test]
fn ticket_names_are_long_and_fit_their_address() {
    let name = ticket_name_of(1, 2);
    assert_eq!(name, "00000000000000010000000000000002");
    assert!(ticket_url(&name).contains(&name));
}

#[test]
fn foreground_guards_cover_overlapping_tickets_and_release_on_drop() {
    let mut transfers = ForegroundTransfers::new();
    let key = "fixture-0123456789abcdef";
    assert!(!transfers.foreground_active(key));
    let first = transfers.begin_foreground(key);
    let second = transfers.begin_foreground(key);
    assert!(transfers.foreground_active(key));
    transfers.end(first);
    assert!(transfers.foreground_active(key));
    transfers.end(second);
    assert!(!transfers.foreground_active(key));
}

fn media(url: &str, actual_quality: Quality, mime: &str) -> PreviewMedia {
    PreviewMedia {
        url: url.into(),
        actual_quality: Some(actual_quality),
        mime: Some(mime.into()),
        alternatives: Vec::new(),
    }
}

#[test]
fn background_refresh_cannot_relabel_quality_format_or_path() {
    let mut context = PreviewContext::default();
    context.actual_quality = Some(Quality::Flac);
    context.mime = Some("audio/flac".into());
    let url = "https://a.stream.qqmusic.qq.com/F000song.flac?vkey=fixture";
    let same = media(url, Quality::Flac, "audio/flac");
    assert!(context.cache_refresh_matches(Quality::Flac, &same));
    let lower = media(url, Quality::Q128, "audio/flac");
    assert!(!context.cache_refresh_matches(Quality::Flac, &lower));
    let wrong_mime = media(url, Quality::Flac, "audio/mpeg");
    assert!(!context.cache_refresh_matches(Quality::Flac, &wrong_mime));
    assert!(context.observe_entity(MediaEntity {
        path: "/F000song.flac".into(),
        mime: "audio/flac".into(),
        total: 1000,
        validator: None,
    }));
    assert!(context.cache_refresh_matches(Quality::Flac, &same));
    let new_path =
        media("https://a.stream.qqmusic.qq.com/other.flac", Quality::Flac, "audio/flac");
    assert!(!context.cache_refresh_matches(Quality::Flac, &new_path));
}

#[test]
fn clones_share_a_finite_retry_budget() {
    let mut context = PreviewContext::default();
    assert!(context.claim_retry());
    assert!(context.claim_retry());
    assert!(!context.claim_retry());
    context.mark_rate_limited();
    assert!(context.is_rate_limited());
    let mut recovery = PreviewContext::default();
    recovery.disable_retries();
    assert!(!recovery.claim_retry());
}

#[test]
fn degraded_audio_is_not_cached_as_the_requested_lossless_quality() {
    let mut context = PreviewContext::default();
    context.actual_quality = Some(Quality::Q128);
    assert!(!context.cacheable_as(Quality::Flac));
    assert!(context.cacheable_as(Quality::Q128));
}

#[test]
fn range_entity_fence_rejects_format_length_path_and_validator_changes() {
    let mut context = PreviewContext::default();
    let entity = |path: &str, mime: &str, total: u64, validator: &str| MediaEntity {
        path: path.into(),
        mime: mime.into(),
        total,
        validator: Some(validator.into()),
    };
    assert!(context.observe_entity(entity("/M500song.mp3", "audio/mpeg", 1000, "etag-v1")));
    assert!(context.observe_entity(entity("/M500song.mp3", "audio/mpeg", 1000, "etag-v1")));
    for changed in [
        entity("/M500song.mp3", "audio/mpeg", 1001, "etag-v1"),
        entity("/M500song.mp3", "audio/flac", 1000, "etag-v1"),
        entity("/M800song.mp3", "audio/mpeg", 1000, "etag-v1"),
        entity("/M500song.mp3", "audio/mpeg", 1000, "etag-v2"),
    ] {
        assert!(!context.observe_entity(changed));
    }
}

#[test]
fn a_degraded_preview_offers_no_better_quality() {
    let mut context = PreviewContext::default();
    context.set_media(&media("https://x.test/a", Quality::Q320, "audio/mpeg"));
    assert_eq!(context.lower_quality(), Some(Quality::Q128));
}
