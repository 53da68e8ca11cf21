//! Which lyrics are asked for, which songs count, and which of them comes first.

use vstd::prelude::*;

use crate::duplicates::{order_of, ordering_is_a_stable_permutation};
use crate::lyrics::{
    artists_agree, by_match, engines_of, fresh_entries, has_lyrics, is_fresh, key_with,
    lyric_engines, marks_in, marks_of, match_keys, names_in, preferred, qualified, qualifies,
    rank_from, rounded_seconds, search_text, span_in, spans_of, timeline_agrees, trimmed_parts,
    with_room, with_slashes, CachedModel, CandidateModel, EntryModel, LyricsRequestModel,
};
use crate::models::Platform;
use crate::text::{all_space, lower, split_all, split_at_char, trimmed};
use crate::text_laws::{a_text_splits_at_the_first_separator, trimming_takes_the_white_space_around};

verus! {

/// The platform stands at this place of the order, and at none before it.
pub open spec fn first_at(engines: Seq<Platform>, platform: Platform, n: int) -> bool {
    &&& 0 <= n < engines.len()
    &&& engines[n] == platform
    &&& forall|k: int| 0 <= k < n ==> #[trigger] engines[k] != platform
}

proof fn lemma_rank(engines: Seq<Platform>, platform: Platform, from: nat, n: int)
    requires
        first_at(engines, platform, n),
        from <= n,
    ensures
        rank_from(engines, platform, from) == n,
    decreases engines.len() - from,
{
    if from < n {
        lemma_rank(engines, platform, from + 1, n);
    }
}

proof fn lemma_no_rank(engines: Seq<Platform>, platform: Platform, from: nat)
    requires
        !engines.contains(platform),
    ensures
        rank_from(engines, platform, from) == i64::MAX,
    decreases engines.len() - from,
{
    if from < engines.len() {
        assert(engines[from as int] != platform);
        lemma_no_rank(engines, platform, from + 1);
    }
}

proof fn lemma_first(engines: Seq<Platform>, platform: Platform, from: nat) -> (n: int)
    requires
        exists|k: int| from <= k < engines.len() && #[trigger] engines[k] == platform,
        forall|k: int| 0 <= k < from ==> #[trigger] engines[k] != platform,
    ensures
        first_at(engines, platform, n),
    decreases engines.len() - from,
{
    if engines[from as int] == platform {
        from as int
    } else {
        lemma_first(engines, platform, from + 1)
    }
}

/// In the ranked list the better match comes first. Where two match equally well, the one whose
/// platform comes first in the given order comes first, and one whose platform is not in that order
/// comes last; where that is equal too, they stay as they were found.
pub proof fn the_best_match_comes_first(
    engines: Seq<Platform>,
    list: Seq<CandidateModel>,
    i: int,
    j: int,
)
    requires
        engines.len() < i64::MAX,
        0 <= i < j < list.len(),
    ensures
        by_match(engines, list)[i].score_bits >= by_match(engines, list)[j].score_bits,
        by_match(engines, list)[i].score_bits == by_match(engines, list)[j].score_bits ==> {
            let a = by_match(engines, list)[i].platform;
            let b = by_match(engines, list)[j].platform;
            &&& forall|m: int, n: int| #[trigger]
                first_at(engines, a, m) && #[trigger] first_at(engines, b, n) ==> m <= n
            &&& engines.contains(b) ==> engines.contains(a)
        },
{
    let keys = match_keys(engines, list);
    let order = order_of(keys, list.len());
    let ranked = by_match(engines, list);
    ordering_is_a_stable_permutation(keys, list.len());
    let x = list[order[i]];
    let y = list[order[j]];
    assert(ranked[i] == x && ranked[j] == y);
    assert(keys[order[i]] == (
        (-(x.score_bits as int)) as i128,
        rank_from(engines, x.platform, 0) as i64,
    ));
    assert(keys[order[j]] == (
        (-(y.score_bits as int)) as i128,
        rank_from(engines, y.platform, 0) as i64,
    ));
    if x.score_bits == y.score_bits {
        let a = x.platform;
        let b = y.platform;
        assert forall|m: int, n: int| #[trigger]
            first_at(engines, a, m) && #[trigger] first_at(engines, b, n) implies m <= n by {
            lemma_rank(engines, a, 0, m);
            lemma_rank(engines, b, 0, n);
        }
        if engines.contains(b) && !engines.contains(a) {
            let k = choose|k: int| 0 <= k < engines.len() && engines[k] == b;
            assert(engines[k] == b);
            let n = lemma_first(engines, b, 0);
            lemma_rank(engines, b, 0, n);
            lemma_no_rank(engines, a, 0);
        }
    }
}

/// The ranked list holds every song once: it is the list in another order.
pub proof fn ranking_loses_no_song(engines: Seq<Platform>, list: Seq<CandidateModel>)
    ensures
        by_match(engines, list).len() == list.len(),
        by_match(engines, list).to_multiset() == list.to_multiset(),
        forall|i: int|
            #![trigger by_match(engines, list)[i]]
            0 <= i < list.len() ==> list.contains(by_match(engines, list)[i]),
        forall|k: int|
            #![trigger list[k]]
            0 <= k < list.len() ==> by_match(engines, list).contains(list[k]),
{
    let keys = match_keys(engines, list);
    let order = order_of(keys, list.len());
    let ranked = by_match(engines, list);
    ordering_is_a_stable_permutation(keys, list.len());
    assert forall|i: int| #![trigger ranked[i]] 0 <= i < list.len() implies list.contains(ranked[i]) by {
        assert(ranked[i] == list[order[i]]);
    }
    assert forall|k: int| #![trigger list[k]] 0 <= k < list.len() implies ranked.contains(list[k]) by {
        assert(order.contains(k));
        let i = choose|i: int| 0 <= i < order.len() && order[i] == k;
        assert(ranked[i] == list[k]);
    }
    lemma_permutation(list, order);
}

proof fn lemma_permutation(list: Seq<CandidateModel>, order: Seq<int>)
    requires
        order.len() == list.len(),
        order.no_duplicates(),
        forall|k: int| 0 <= k < list.len() ==> order.contains(k),
        forall|i: int| 0 <= i < order.len() ==> 0 <= #[trigger] order[i] < list.len(),
    ensures
        order.map_values(|i: int| list[i]).to_multiset() == list.to_multiset(),
    decreases list.len(),
{
    let ranked = order.map_values(|i: int| list[i]);
    list.to_multiset_ensures();
    ranked.to_multiset_ensures();
    if list.len() == 0 {
        assert(ranked =~= list);
    } else {
        let n = list.len() - 1;
        let front = list.drop_last();
        assert(order.contains(n));
        let p = choose|p: int| 0 <= p < order.len() && order[p] == n;
        let rest = order.remove(p);
        assert forall|i: int, j: int| 0 <= i < j < rest.len() implies rest[i] != rest[j] by {
            let a = if i < p { i } else { i + 1 };
            let b = if j < p { j } else { j + 1 };
            assert(rest[i] == order[a] && rest[j] == order[b]);
        }
        assert forall|i: int| 0 <= i < rest.len() implies 0 <= #[trigger] rest[i] < front.len() by {
            let a = if i < p { i } else { i + 1 };
            assert(rest[i] == order[a]);
            assert(order[a] != order[p]);
        }
        assert forall|k: int| 0 <= k < front.len() implies rest.contains(k) by {
            assert(order.contains(k));
            let a = choose|a: int| 0 <= a < order.len() && order[a] == k;
            assert(rest[if a < p { a } else { a - 1 }] == k);
        }
        lemma_permutation(front, rest);
        let small = rest.map_values(|i: int| front[i]);
        assert(small =~= ranked.remove(p));
        assert(front.push(list.last()) =~= list);
        front.to_multiset_ensures();
        assert(list.to_multiset() =~= front.to_multiset().insert(list.last()));
        assert(ranked[p] == list.last());
        assert(ranked.remove(p).to_multiset() =~= ranked.to_multiset().remove(ranked[p]));
        assert(ranked.to_multiset().count(ranked[p]) > 0);
        assert(ranked.to_multiset() =~= small.to_multiset().insert(list.last()));
    }
}

/// The songs that count are exactly those of a platform that is asked (of the preferred one, where
/// there is one), with an artist in common or unknown, within eight seconds of the length or
/// unknown, and with a score of at least 0.65; they stay in the order in which they were found.
pub proof fn the_songs_that_count(
    engines: Seq<Platform>,
    prefer: Option<Platform>,
    artists: Seq<Seq<char>>,
    duration_ms: Option<u64>,
    found: Seq<CandidateModel>,
    c: CandidateModel,
)
    ensures
        qualified(engines, prefer, artists, duration_ms, found).contains(c) <==> {
            &&& found.contains(c)
            &&& engines.contains(c.platform)
            &&& prefer is None || prefer->0 == c.platform
            &&& artists.len() == 0 || c.artists.len() == 0 || exists|i: int, j: int|
                0 <= i < artists.len() && 0 <= j < c.artists.len() && #[trigger] artists[i]
                    == #[trigger] c.artists[j]
            &&& duration_ms is None || c.duration_ms is None || duration_ms->0 == 0
                || c.duration_ms->0 == 0 || (c.duration_ms->0 <= duration_ms->0 + 8_000
                && duration_ms->0 <= c.duration_ms->0 + 8_000)
            &&& c.score_bits >= 0x3FE4_CCCC_CCCC_CCCD
        },
    decreases found.len(),
{
    assert(artists_agree(artists, c.artists) <==> (artists.len() == 0 || c.artists.len() == 0
        || exists|i: int, j: int|
        0 <= i < artists.len() && 0 <= j < c.artists.len() && #[trigger] artists[i]
            == #[trigger] c.artists[j])) by {
        if artists.len() > 0 && c.artists.len() > 0 && artists_agree(artists, c.artists) {
            let i = choose|i: int|
                0 <= i < artists.len() && c.artists.contains(#[trigger] artists[i]);
            let j = choose|j: int| 0 <= j < c.artists.len() && c.artists[j] == artists[i];
            assert(artists[i] == c.artists[j]);
        }
        if exists|i: int, j: int|
            0 <= i < artists.len() && 0 <= j < c.artists.len() && #[trigger] artists[i]
                == #[trigger] c.artists[j] {
            let (i, j) = choose|i: int, j: int|
                0 <= i < artists.len() && 0 <= j < c.artists.len() && #[trigger] artists[i]
                    == #[trigger] c.artists[j];
            assert(c.artists.contains(artists[i]));
        }
    }
    if found.len() > 0 {
        let front = found.drop_last();
        let before = qualified(engines, prefer, artists, duration_ms, front);
        let all = qualified(engines, prefer, artists, duration_ms, found);
        the_songs_that_count(engines, prefer, artists, duration_ms, front, c);
        if all.contains(c) {
            let i = choose|i: int| 0 <= i < all.len() && all[i] == c;
            if i < before.len() {
                assert(before[i] == c);
                let k = choose|k: int| 0 <= k < front.len() && front[k] == c;
                assert(found[k] == c);
            } else {
                assert(found[found.len() - 1] == c);
            }
        }
        if found.contains(c) && qualifies(engines, prefer, artists, duration_ms, c) {
            let k = choose|k: int| 0 <= k < found.len() && found[k] == c;
            if k < front.len() {
                assert(front[k] == c);
                let i = choose|i: int| 0 <= i < before.len() && before[i] == c;
                assert(all[i] == c);
            } else {
                assert(all[all.len() - 1] == c);
            }
        }
    }
}

/// Lyrics fit a track where their last mark lies at most eight seconds behind its end; an unknown
/// length fits.
pub proof fn lyrics_end_with_the_track(duration_ms: Option<u64>, latest_ms: Option<u64>)
    ensures
        timeline_agrees(duration_ms, latest_ms) <==> (duration_ms is None || duration_ms->0 == 0
            || latest_ms is None || latest_ms->0 <= duration_ms->0 + 8_000),
{
}

proof fn lemma_lyric_engines(engines: Seq<Platform>)
    ensures
        lyric_engines(engines).no_duplicates(),
        forall|p: Platform| #[trigger]
            lyric_engines(engines).contains(p) <==> engines.contains(p) && (p == Platform::Wyy || p
                == Platform::Qqm || p == Platform::Ytm),
    decreases engines.len(),
{
    if engines.len() > 0 {
        let front = engines.drop_last();
        let last = engines.last();
        let before = lyric_engines(front);
        let all = lyric_engines(engines);
        lemma_lyric_engines(front);
        assert forall|i: int, j: int| 0 <= i < j < all.len() implies all[i] != all[j] by {
            assert(before[i] == all[i]);
            assert(before.contains(before[i]));
        }
        assert forall|p: Platform| #[trigger]
            all.contains(p) <==> engines.contains(p) && (p == Platform::Wyy || p == Platform::Qqm
                || p == Platform::Ytm) by {
            if all.contains(p) {
                let i = choose|i: int| 0 <= i < all.len() && all[i] == p;
                if i < before.len() {
                    assert(before[i] == p);
                    assert(before.contains(p));
                    let k = choose|k: int| 0 <= k < front.len() && front[k] == p;
                    assert(engines[k] == p);
                } else {
                    assert(engines[engines.len() - 1] == p);
                }
            }
            if engines.contains(p) && has_lyrics(p) {
                let k = choose|k: int| 0 <= k < engines.len() && engines[k] == p;
                if k < front.len() {
                    assert(front[k] == p);
                }
                if before.contains(p) {
                    let i = choose|i: int| 0 <= i < before.len() && before[i] == p;
                    assert(all[i] == p);
                } else {
                    assert(all[all.len() - 1] == p);
                }
            }
        }
    }
}

/// The platforms that are asked are those of the order that have lyrics, each once; where there is
/// none of them, all that have lyrics are asked.
pub proof fn the_platforms_that_are_asked(engines: Seq<Platform>)
    ensures
        engines_of(engines).no_duplicates(),
        engines_of(engines).len() > 0,
        forall|p: Platform| #[trigger]
            engines_of(engines).contains(p) ==> p == Platform::Wyy || p == Platform::Qqm || p
                == Platform::Ytm,
        forall|p: Platform|
            #![trigger engines_of(engines).contains(p)]
            engines.contains(p) && (p == Platform::Wyy || p == Platform::Qqm || p == Platform::Ytm)
                ==> engines_of(engines).contains(p),
        (exists|p: Platform| #[trigger]
            engines.contains(p) && (p == Platform::Wyy || p == Platform::Qqm || p == Platform::Ytm))
            ==> forall|p: Platform| #[trigger]
            engines_of(engines).contains(p) ==> engines.contains(p),
{
    lemma_lyric_engines(engines);
    let list = lyric_engines(engines);
    if list.len() == 0 {
        let all = engines_of(engines);
        assert forall|p: Platform|
            #![trigger engines_of(engines).contains(p)]
            engines.contains(p) && (p == Platform::Wyy || p == Platform::Qqm || p == Platform::Ytm)
                implies engines_of(engines).contains(p) by {
            assert(list.contains(p));
        }
        if exists|p: Platform| #[trigger]
            engines.contains(p) && (p == Platform::Wyy || p == Platform::Qqm || p == Platform::Ytm) {
            let p = choose|p: Platform| #[trigger]
                engines.contains(p) && (p == Platform::Wyy || p == Platform::Qqm || p
                    == Platform::Ytm);
            assert(list.contains(p));
        }
    }
}

/// A length counts in whole seconds, half a second up.
pub proof fn lengths_are_rounded_to_seconds(ms: u64)
    requires
        ms <= u64::MAX - 500,
    ensures
        rounded_seconds(None) is None,
        rounded_seconds(Some(ms)) is Some,
        rounded_seconds(Some(ms))->0 * 1000 - 500 <= ms < rounded_seconds(Some(ms))->0 * 1000 + 500,
{
}

/// What is searched for begins with the title; the artist follows where one is known.
pub proof fn a_search_is_for_title_and_artist(title: Seq<char>, artist: Seq<char>)
    ensures
        all_space(artist) ==> search_text(title, artist) == trimmed(title),
        lower(trimmed(artist)) == "unknown"@ ==> search_text(title, artist) == trimmed(title),
        !all_space(artist) && lower(trimmed(artist)) != "unknown"@ ==> search_text(title, artist)
            == trimmed(title) + seq![' '] + trimmed(artist),
{
    trimming_takes_the_white_space_around(artist);
    reveal_strlit(" ");
    assert(" "@ =~= seq![' ']);
}

proof fn lemma_trimmed_parts(parts: Seq<Seq<char>>, name: Seq<char>)
    ensures
        trimmed_parts(parts).contains(name) <==> exists|k: int|
            0 <= k < parts.len() && trimmed(#[trigger] parts[k]) == name && name.len() > 0,
    decreases parts.len(),
{
    if parts.len() > 0 {
        let front = parts.drop_last();
        let before = trimmed_parts(front);
        let all = trimmed_parts(parts);
        lemma_trimmed_parts(front, name);
        if all.contains(name) {
            let i = choose|i: int| 0 <= i < all.len() && all[i] == name;
            if i < before.len() {
                assert(before[i] == name);
                let k = choose|k: int|
                    0 <= k < front.len() && trimmed(#[trigger] front[k]) == name && name.len() > 0;
                assert(parts[k] == front[k]);
            } else {
                assert(trimmed(parts[parts.len() - 1]) == name);
            }
        }
        if exists|k: int|
            0 <= k < parts.len() && trimmed(#[trigger] parts[k]) == name && name.len() > 0 {
            let k = choose|k: int|
                0 <= k < parts.len() && trimmed(#[trigger] parts[k]) == name && name.len() > 0;
            if k < front.len() {
                assert(front[k] == parts[k]);
                let i = choose|i: int| 0 <= i < before.len() && before[i] == name;
                assert(all[i] == name);
            } else {
                assert(all[all.len() - 1] == name);
            }
        }
    }
}

/// The names in an artist's text are what stands between its separators, without white space around
/// it; what is blank is no name. A slash, a comma, an enumeration comma and a semicolon separate.
pub proof fn names_stand_between_separators(artist: Seq<char>, name: Seq<char>)
    ensures
        names_in(artist).contains(name) <==> exists|k: int|
            0 <= k < split_all(with_slashes(trimmed(artist)), '/').len() && trimmed(
                #[trigger] split_all(with_slashes(trimmed(artist)), '/')[k],
            ) == name && name.len() > 0,
        with_slashes(artist).len() == artist.len(),
        forall|i: int|
            #![trigger with_slashes(artist)[i]]
            0 <= i < artist.len() ==> with_slashes(artist)[i] == (if artist[i] == ',' || artist[i]
                == '、' || artist[i] == ';' {
                '/'
            } else {
                artist[i]
            }),
{
    lemma_trimmed_parts(split_all(with_slashes(trimmed(artist)), '/'), name);
}

/// A result is kept for a day where lyrics were found and for two hours where there are none; no
/// other failure is kept, and a search that runs stays.
pub proof fn results_are_kept_for_their_time(e: EntryModel, now: u64)
    ensures
        e.result is None ==> is_fresh(e, now),
        e.result matches Some(CachedModel::Found(_)) ==> (is_fresh(e, now) <==> now < e.created_at
            + 24 * 60 * 60 * 1_000_000),
        e.result matches Some(CachedModel::Failed { status, .. }) ==> (is_fresh(e, now) <==> status
            == 404 && now < e.created_at + 2 * 60 * 60 * 1_000_000),
{
}

/// The one platform that is asked for is named by its three letters, in any case and with white
/// space around them; any other name leaves it to the track.
pub proof fn a_platform_is_asked_for_by_its_letters(raw: Seq<char>)
    ensures
        lower(trimmed(raw)) == seq!['w', 'y', 'y'] <==> preferred(raw) == Some(Platform::Wyy),
        lower(trimmed(raw)) == seq!['q', 'q', 'm'] <==> preferred(raw) == Some(Platform::Qqm),
        lower(trimmed(raw)) == seq!['y', 't', 'm'] <==> preferred(raw) == Some(Platform::Ytm),
        trimmed(raw).len() != 3 ==> preferred(raw) is None,
{
    reveal_strlit("wyy");
    reveal_strlit("qqm");
    reveal_strlit("ytm");
    assert("wyy"@ =~= seq!['w', 'y', 'y']);
    assert("qqm"@ =~= seq!['q', 'q', 'm']);
    assert("ytm"@ =~= seq!['y', 't', 'm']);
    let name = lower(trimmed(raw));
    assert(name.len() == trimmed(raw).len());
    assert(name == "wyy"@ ==> name[0] == 'w');
    assert(name == "qqm"@ ==> name[0] == 'q');
    assert(name == "ytm"@ ==> name[0] == 'y');
}

/// Requests are the same where their texts, their length in seconds, their platform, their key, the
/// platforms to ask and the preferred one are.
pub proof fn a_request_is_known_by_what_it_asks(
    title: Seq<char>,
    artist: Seq<char>,
    a: LyricsRequestModel,
    b: LyricsRequestModel,
)
    ensures
        key_with(title, artist, a) == key_with(title, artist, b) <==> {
            &&& rounded_seconds(a.duration_ms) == rounded_seconds(b.duration_ms)
            &&& a.platform == b.platform
            &&& trimmed(a.key) == trimmed(b.key)
            &&& engines_of(a.engines) == engines_of(b.engines)
            &&& preferred(a.prefer) == preferred(b.prefer)
        },
        key_with(title, artist, a).title == title && key_with(title, artist, a).artist == artist,
{
}

/// A time mark in square brackets gives its minutes and seconds, and the marks behind it follow; a
/// bracket without a colon gives nothing, and a row that does not begin with a bracket has no mark.
pub proof fn a_mark_gives_minutes_and_seconds(minutes: Seq<char>, seconds: Seq<char>, rest: Seq<char>)
    requires
        !minutes.contains(':'),
        !minutes.contains(']'),
        !seconds.contains(']'),
    ensures
        marks_in(seq!['['] + minutes + seq![':'] + seconds + seq![']'] + rest) == seq![
            (trimmed(minutes), trimmed(seconds)),
        ] + marks_in(rest),
        marks_in(seq!['['] + minutes + seq![']'] + rest) == marks_in(rest),
        rest.len() > 0 && rest[0] != '[' ==> marks_in(rest).len() == 0,
{
    let row = seq!['['] + minutes + seq![':'] + seconds + seq![']'] + rest;
    let inner = minutes + seq![':'] + seconds;
    assert(!inner.contains(']')) by {
        if inner.contains(']') {
            let k = choose|k: int| 0 <= k < inner.len() && inner[k] == ']';
            if k < minutes.len() {
                assert(minutes[k] == ']');
            } else if k > minutes.len() {
                assert(seconds[k - minutes.len() - 1] == ']');
            }
        }
    }
    lemma_bracket(inner, rest);
    assert(row =~= seq!['['] + (inner + seq![']'] + rest));
    a_text_splits_at_the_first_separator(minutes, seconds, ':');
    let short = seq!['['] + minutes + seq![']'] + rest;
    lemma_bracket(minutes, rest);
    assert(short =~= seq!['['] + (minutes + seq![']'] + rest));
}

proof fn lemma_bracket(inner: Seq<char>, rest: Seq<char>)
    requires
        !inner.contains(']'),
    ensures
        ({
            let row = seq!['['] + (inner + seq![']'] + rest);
            marks_in(row) == (match split_at_char(inner, ':') {
                Some(pair) => seq![(trimmed(pair.0), trimmed(pair.1))] + marks_in(rest),
                None => marks_in(rest),
            })
        }),
{
    let row = seq!['['] + (inner + seq![']'] + rest);
    let tail = inner + seq![']'] + rest;
    assert(row.skip(1) =~= tail);
    assert forall|j: int| 0 <= j < inner.len() implies tail[j] != ']' by {
        assert(tail[j] == inner[j]);
        assert(inner.contains(inner[j]));
    }
    assert(tail[inner.len() as int] == ']');
    crate::text::lemma_position_is(tail, ']', inner.len() as int);
    assert(tail.take(inner.len() as int) =~= inner);
    assert(tail.skip(inner.len() as int + 1) =~= rest);
}

/// The marks of rows are those of each row, one row after the other; white space around a row does
/// not count.
pub proof fn marks_come_row_by_row(rows: Seq<Seq<char>>, row: Seq<char>)
    ensures
        marks_of(rows.push(row)) == marks_of(rows) + marks_in(trimmed(row)),
        marks_of(Seq::empty()).len() == 0,
        span_in(trimmed(row)) is None ==> spans_of(rows.push(row)) == spans_of(rows),
        span_in(trimmed(row)) is Some ==> spans_of(rows.push(row)) == spans_of(rows).push(
            span_in(trimmed(row))->0,
        ),
{
    assert(rows.push(row).drop_last() =~= rows);
}

/// A row that is timed by the word gives its start and its length.
pub proof fn a_span_gives_start_and_length(start: Seq<char>, length: Seq<char>, rest: Seq<char>)
    requires
        !start.contains(','),
        !start.contains(']'),
        !length.contains(']'),
    ensures
        span_in(seq!['['] + start + seq![','] + length + seq![']'] + rest) == Some(
            (trimmed(start), trimmed(length)),
        ),
{
    let row = seq!['['] + start + seq![','] + length + seq![']'] + rest;
    let inner = start + seq![','] + length;
    let end = inner.len() as int + 1;
    assert(row =~= seq!['['] + inner + seq![']'] + rest);
    assert forall|j: int| 0 <= j < end implies row[j] != ']' by {
        if j > 0 {
            assert(row[j] == inner[j - 1]);
            if j - 1 < start.len() {
                assert(start.contains(start[j - 1]));
                assert(inner[j - 1] == start[j - 1]);
            } else if j - 1 > start.len() {
                assert(length.contains(length[j - 2 - start.len()]));
                assert(inner[j - 1] == length[j - 2 - start.len()]);
            }
        }
    }
    assert(row[end] == ']');
    crate::text::lemma_position_is(row, ']', end);
    assert(row.subrange(1, end) =~= inner);
    a_text_splits_at_the_first_separator(start, length, ',');
}

/// Making room never takes a search that still runs.
pub proof fn running_searches_stay(entries: Seq<EntryModel>, k: int)
    requires
        0 <= k < entries.len(),
        entries[k].result is None,
    ensures
        with_room(entries).contains(entries[k]),
    decreases entries.len(),
{
    crate::lyrics::lemma_oldest_done(entries, entries.len());
    if entries.len() < 1024 {
        assert(with_room(entries)[k] == entries[k]);
    } else {
        match crate::lyrics::oldest_done(entries, entries.len()) {
            Some(i) => {
                let rest = entries.remove(i);
                let m = if k < i {
                    k
                } else {
                    k - 1
                };
                assert(rest[m] == entries[k]);
                running_searches_stay(rest, m);
            },
            None => {
                assert(with_room(entries)[k] == entries[k]);
            },
        }
    }
}

/// What is too old goes, and nothing else does.
pub proof fn only_old_results_go(entries: Seq<EntryModel>, now: u64, e: EntryModel)
    ensures
        fresh_entries(entries, now).contains(e) <==> entries.contains(e) && is_fresh(e, now),
    decreases entries.len(),
{
    if entries.len() > 0 {
        let front = entries.drop_last();
        let before = fresh_entries(front, now);
        let all = fresh_entries(entries, now);
        only_old_results_go(front, now, e);
        if all.contains(e) {
            let i = choose|i: int| 0 <= i < all.len() && all[i] == e;
            if i < before.len() {
                assert(before[i] == e);
                let k = choose|k: int| 0 <= k < front.len() && front[k] == e;
                assert(entries[k] == e);
            } else {
                assert(entries[entries.len() - 1] == e);
            }
        }
        if entries.contains(e) && is_fresh(e, now) {
            let k = choose|k: int| 0 <= k < entries.len() && entries[k] == e;
            if k < front.len() {
                assert(front[k] == e);
                let i = choose|i: int| 0 <= i < before.len() && before[i] == e;
                assert(all[i] == e);
            } else {
                assert(all[all.len() - 1] == e);
            }
        }
    }
}

} // verus!
