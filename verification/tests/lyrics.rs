use kdj_server::lyric_lookup::{downloaded_lyrics, LyricText, LyricsAction, LyricsLookup};
use kdj_server::lyrics::{
    artist_names, artists_compatible, cache_key, durations_compatible, engine_label,
    lrc_marks, lyric_timeline_compatible, normalize_engines, normalized_identity, parse_prefer,
    pick_qualified, query_of, rank_matches, result_ttl, whole_seconds, yrc_spans, CachedLyrics,
    LyricCandidate, LyricsCacheKey, LyricsLookupCache, LyricsRequest, LyricsResponse,
    LYRIC_MATCH_THRESHOLD_BITS, LYRIC_SUCCESS_TTL, MAX_LYRIC_CACHE_ENTRIES,
};
use kdj_server::models::{Platform, SongSource};

fn names(list: &[&str]) -> Vec<String> {
    list.iter().map(|name| normalized_identity(name)).collect()
}

fn candidate(title: &str, artist: &str, duration_ms: Option<u64>, score: f64) -> LyricCandidate {
    LyricCandidate {
        platform: Platform::Wyy,
        key: "123".into(),
        title: title.into(),
        artist_text: artist.into(),
        artists: if artist.is_empty() { Vec::new() } else { names(&[artist]) },
        duration_ms,
        score_bits: score.to_bits(),
    }
}

#[test]
fn lyric_search_rejects_same_title_from_a_different_artist() {
    let requested = names(&["EXIT TRANCE"]);
    let original = candidate("only my railgun", "fripSide", Some(257_000), 1.0);
    assert!(!artists_compatible(&requested, &original.artists));
    let picked =
        pick_qualified(&vec![Platform::Wyy], None, &requested, Some(270_000), &vec![original]);
    assert!(picked.is_empty());
}

#[test]
fn lyric_search_allows_exact_remix_and_missing_artist_metadata() {
    let requested = names(&["EXIT TRANCE"]);
    let remix = candidate("only my railgun", "EXIT TRANCE", Some(270_000), 0.65);
    assert!(artists_compatible(&requested, &remix.artists));
    let picked =
        pick_qualified(&vec![Platform::Wyy], None, &requested, Some(270_000), &vec![remix]);
    assert_eq!(picked.len(), 1);

    let unknown = names(&["Unknown"]);
    let candidate_without_artist = candidate("only my railgun", "", Some(270_000), 1.0);
    assert!(artists_compatible(&unknown, &candidate_without_artist.artists));
}

#[test]
fn lyric_search_rejects_a_long_original_for_a_short_edit() {
    let requested = names(&["下川みくに"]);
    let original = candidate("もう一度君に会いたい", "下川みくに", Some(256_000), 0.9);
    assert!(original.score_bits >= LYRIC_MATCH_THRESHOLD_BITS, "标题和艺人已经足够相似");
    assert!(!durations_compatible(Some(124_700), original.duration_ms));
    let picked =
        pick_qualified(&vec![Platform::Wyy], None, &requested, Some(124_700), &vec![original]);
    assert!(picked.is_empty());
}

fn latest(lrc: &str, yrc: &str) -> Option<u64> {
    let mut latest: Option<u64> = None;
    for (minutes, seconds) in lrc_marks(lrc) {
        let at = minutes.parse::<f64>().unwrap() * 60.0 + seconds.parse::<f64>().unwrap();
        latest = latest.max(Some((at * 1000.0) as u64));
    }
    for (start, length) in yrc_spans(yrc) {
        let at = start.parse::<u64>().unwrap() + length.parse::<u64>().unwrap();
        latest = latest.max(Some(at));
    }
    latest
}

#[test]
fn lyric_timeline_rejects_lines_beyond_the_audio_duration() {
    let original = "[01:58.00]还在短版内\n[04:16.67]原版末句";
    assert!(!lyric_timeline_compatible(Some(124_700), latest(original, "")));
    assert!(lyric_timeline_compatible(Some(124_700), latest("[01:58.00]短版末句", "")));
    assert!(!lyric_timeline_compatible(
        Some(124_700),
        latest("", "[240000,16670](240000,16670,0)原版末句")
    ));
}

fn request(title: &str, duration_ms: u64) -> LyricsRequest {
    LyricsRequest {
        title: title.into(),
        artist: "  ReoNa  ".into(),
        duration_ms: Some(duration_ms),
        platform: Some(Platform::Wyy),
        key: "12345".into(),
        engines: vec![Platform::Wyy, Platform::Wyy, Platform::Qqm],
        prefer: "FOLLOW".into(),
    }
}

fn assert_same_key(a: &LyricsCacheKey, b: &LyricsCacheKey) {
    assert_eq!(a.title, b.title);
    assert_eq!(a.artist, b.artist);
    assert_eq!(a.duration_seconds, b.duration_seconds);
    assert_eq!(a.platform, b.platform);
    assert_eq!(a.source_key, b.source_key);
    assert_eq!(a.engines, b.engines);
    assert_eq!(a.prefer, b.prefer);
}

#[test]
fn lyric_cache_key_is_stable_across_window_metadata_noise() {
    let a = cache_key(&request("  TearJerker ", 178_100));
    let b = cache_key(&request("tearjerker", 178_400));
    assert_same_key(&a, &b);
    assert_eq!(a.title, "tearjerker");
    assert_eq!(a.artist, "reona");
    assert_eq!(a.engines, vec![Platform::Wyy, Platform::Qqm]);
}

#[test]
fn lyric_missing_result_reuses_the_same_cache_cell() {
    let mut cache = LyricsLookupCache::new();
    let first = cache.entry(cache_key(&request("missing", 180_000)), 0);
    assert!(first.is_new);
    cache.settle(first.search, &CachedLyrics::Failed { status: 404, detail: "没找到".into() });
    let second = cache.entry(cache_key(&request("missing", 180_000)), 1);
    assert_eq!(first.search, second.search);
    assert!(!second.is_new);
    assert!(matches!(
        second.result,
        Some(CachedLyrics::Failed { status: 404, detail }) if detail == "没找到"
    ));
}

#[test]
fn a_passing_failure_is_not_kept() {
    let mut cache = LyricsLookupCache::new();
    let first = cache.entry(cache_key(&request("busy", 180_000)), 0);
    let failed = CachedLyrics::Failed { status: 502, detail: "x".into() };
    assert_eq!(result_ttl(&failed), None);
    cache.settle(first.search, &failed);
    assert!(cache.entry(cache_key(&request("busy", 180_000)), 1).is_new);
}

#[test]
fn the_lyric_cache_stays_within_its_limit() {
    let mut cache = LyricsLookupCache::new();
    for i in 0..MAX_LYRIC_CACHE_ENTRIES as u64 + 3 {
        let ticket = cache.entry(cache_key(&request(&format!("song {i}"), 180_000)), i);
        cache.settle(ticket.search, &CachedLyrics::Failed { status: 404, detail: String::new() });
    }
    assert!(cache.entries.len() <= MAX_LYRIC_CACHE_ENTRIES);
}

#[test]
fn names_and_queries_are_put_in_one_form() {
    assert_eq!(query_of(" A ", " B "), "A B");
    assert_eq!(query_of("A", ""), "A");
    assert_eq!(normalized_identity("  HELLO   World "), "hello world");
    assert_eq!(artist_names("A / B"), vec!["A", "B"]);
    assert_eq!(whole_seconds(Some(178_400)), Some(178));
    assert_eq!(whole_seconds(Some(178_500)), Some(179));
    assert_eq!(parse_prefer("QQM"), Some(Platform::Qqm));
    assert_eq!(parse_prefer("follow"), None);
    assert_eq!(
        normalize_engines(&vec![Platform::Qqm, Platform::Qqm]),
        vec![Platform::Qqm]
    );
    assert_ne!(engine_label(Platform::Wyy), engine_label(Platform::Qqm));
}

#[test]
fn better_matches_come_first() {
    let engines = vec![Platform::Wyy, Platform::Qqm];
    let mut low = candidate("a", "x", None, 0.7);
    low.key = "low".into();
    let mut high = candidate("a", "x", None, 0.9);
    high.key = "high".into();
    let ranked = rank_matches(&engines, &vec![low, high]);
    assert_eq!(ranked[0].key, "high");
    assert_eq!(ranked[1].key, "low");
}

fn text(lrc: &str, latest_ms: Option<u64>) -> LyricText {
    LyricText {
        lrc: lrc.into(),
        word_lrc: String::new(),
        translated_lrc: String::new(),
        romaji_lrc: String::new(),
        latest_ms,
    }
}

#[test]
fn a_lookup_goes_to_the_source_and_then_searches() {
    let mut lookup = match LyricsLookup::begin(&request("song", 180_000)) {
        Ok(lookup) => lookup,
        Err(_) => panic!("a title is enough"),
    };
    assert!(matches!(
        lookup.action(),
        LyricsAction::Fetch { platform: Platform::Wyy, key } if key == "12345"
    ));
    assert!(lookup.fetched(None).is_none());
    assert!(matches!(lookup.action(), LyricsAction::Search { .. }));
    lookup.searched(&vec![candidate("song", "reona", Some(180_000), 0.9)], &names(&["ReoNa"]));
    assert!(matches!(
        lookup.action(),
        LyricsAction::Fetch { platform: Platform::Wyy, key } if key == "123"
    ));
    let found = lookup.fetched(Some(text("[00:01.00]la", Some(1_000)))).unwrap();
    assert_eq!(found.lrc, "[00:01.00]la");
    assert_eq!(found.score_bits, 0.9f64.to_bits());
}

#[test]
fn lyrics_that_run_on_are_passed_over() {
    let mut lookup = match LyricsLookup::begin(&request("song", 100_000)) {
        Ok(lookup) => lookup,
        Err(_) => panic!("a title is enough"),
    };
    assert!(lookup.fetched(Some(text("[09:00.00]la", Some(540_000)))).is_none());
    lookup.searched(&Vec::new(), &names(&["ReoNa"]));
    assert!(matches!(lookup.action(), LyricsAction::Fail(error) if error.status == 404));
    let mut nameless = request(" ", 100_000);
    nameless.key = String::new();
    nameless.artist = String::new();
    assert!(matches!(LyricsLookup::begin(&nameless), Err(error) if error.status == 400));
}

#[test]
fn equal_requests_share_what_runs_and_what_was_found() {
    let mut cache = LyricsLookupCache::new();
    let first = cache.entry(cache_key(&request("song", 180_000)), 0);
    let waiting = cache.entry(cache_key(&request("  SONG ", 180_400)), 5);
    assert!(first.is_new && !waiting.is_new);
    assert_eq!(first.search, waiting.search);
    assert!(waiting.result.is_none());
    let found = LyricsResponse {
        lrc: "[00:01.00]a".into(),
        word_lrc: String::new(),
        translated_lrc: String::new(),
        romaji_lrc: String::new(),
        platform: Platform::Wyy,
        key: "1".into(),
        title: "song".into(),
        artist: "a".into(),
        score_bits: 0,
    };
    cache.settle(first.search, &CachedLyrics::Found(found));
    let later = cache.entry(cache_key(&request("song", 180_000)), LYRIC_SUCCESS_TTL - 1);
    assert_eq!(first.search, later.search);
    assert!(matches!(later.result, Some(CachedLyrics::Found(r)) if r.lrc == "[00:01.00]a"));
    let next_day = cache.entry(cache_key(&request("song", 180_000)), LYRIC_SUCCESS_TTL);
    assert!(next_day.is_new && next_day.search != first.search);
}

#[test]
fn white_space_does_not_tell_texts_apart() {
    for noisy in ["hello world", "\thello\u{3000} world\n", "  Hello   World"] {
        assert_eq!(normalized_identity(noisy), "hello world");
    }
    assert_eq!(normalized_identity(&normalized_identity(" A  B ")), "a b");
    assert_eq!(normalized_identity(" \t "), "");
}

#[test]
fn a_downloaded_song_keeps_lyrics_that_fit_it() {
    let source = SongSource {
        platform: Platform::Qqm,
        key: "k".into(),
        title: "t".into(),
        artists: vec!["x".into(), "y".into()],
        album: String::new(),
        duration_ms: Some(180_000),
        cover: String::new(),
        max_quality: None,
        vip: false,
        payload: "{}".into(),
    };
    let text = |latest_ms: u64| {
        Some(LyricText {
            lrc: "a".into(),
            word_lrc: "b".into(),
            translated_lrc: "c".into(),
            romaji_lrc: "d".into(),
            latest_ms: Some(latest_ms),
        })
    };
    let kept = downloaded_lyrics(&source, "x / y", text(170_000)).unwrap();
    assert_eq!((kept.lrc.as_str(), kept.word_lrc.as_str()), ("a", "b"));
    assert_eq!((kept.translated_lrc.as_str(), kept.romaji_lrc.as_str()), ("c", "d"));
    assert_eq!((kept.key.as_str(), kept.title.as_str(), kept.artist.as_str()), ("k", "t", "x / y"));
    assert!(matches!(kept.platform, Platform::Qqm));
    assert_eq!(kept.score_bits, 1.0f64.to_bits());
    assert!(downloaded_lyrics(&source, "x / y", text(400_000)).is_none());
    assert!(downloaded_lyrics(&source, "x / y", None).is_none());
}
