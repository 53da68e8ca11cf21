//! Which of two copies is the better one, and what a group of copies holds.

use vstd::prelude::*;

use crate::duplicates::{
    a_group_keeps_its_best_copy, bare_text, bucket_rank, buckets_of, by_length, by_quality,
    group_of, groups_in, has_id, keyed_of, label_parts, lemma_score_bounds, length_key, length_keys,
    letters_of, offline_paths, order_of, ordering_is_a_stable_permutation, parts_by_length,
    quality_keys, score_of, search_folders, title_of, tracks_found, under_any, with_new, with_parts,
    with_track, BucketModel, CandidateModel, GroupModel, KeyedModel, SweepModel, TrackModel,
};
use crate::path_laws::the_outermost_folders_hold_the_others;
use crate::paths::{
    inside_any, lies_within, ordered, ordered_lists_are_sorted_and_complete, outermost, under_root,
};
use crate::text::{
    all_space, byte_count, decimal, file_stem_of, is_letter_or_number, lower, lowercase_of, trimmed,
};
use crate::text_laws::trimming_takes_the_white_space_around;

verus! {

/// A format that loses nothing, by its name in lower case.
pub open spec fn keeps_everything(name: Seq<char>) -> bool {
    name == "flac"@ || name == "wav"@ || name == "aiff"@ || name == "aif"@ || name == "alac"@
}

/// Of two copies that lose something, with the same sample rate and channels, the one with the
/// higher bit rate is the better one.
pub proof fn the_higher_bit_rate_is_better(a: TrackModel, b: TrackModel, low: i64, high: i64)
    requires
        !keeps_everything(lower(trimmed(a.format))),
        !keeps_everything(lower(trimmed(b.format))),
        a.samplerate == b.samplerate,
        a.channels == b.channels,
        a.bitrate == Some(low),
        b.bitrate == Some(high),
        0 <= low < high < 1000,
    ensures
        score_of(a) < score_of(b),
{
}

/// A bit rate that is not known, or is no rate, counts as none.
pub proof fn an_unknown_bit_rate_is_none(a: TrackModel, b: TrackModel)
    requires
        !keeps_everything(lower(trimmed(a.format))),
        !keeps_everything(lower(trimmed(b.format))),
        a.samplerate == b.samplerate,
        a.channels == b.channels,
        a.bitrate is None || a.bitrate->0 <= 0,
    ensures
        score_of(a) <= score_of(b),
        b.bitrate matches Some(rate) && rate > 0 ==> score_of(a) < score_of(b),
        b.bitrate is None || b.bitrate->0 <= 0 ==> score_of(a) == score_of(b),
{
}

/// Of two copies that lose nothing, with the same sample rate and channels, the larger one is the
/// better one, counted in whole kilobytes.
pub proof fn the_larger_lossless_file_is_better(a: TrackModel, b: TrackModel)
    requires
        keeps_everything(lower(trimmed(a.format))),
        keeps_everything(lower(trimmed(b.format))),
        a.samplerate == b.samplerate,
        a.channels == b.channels,
        0 <= a.size <= b.size,
    ensures
        score_of(a) <= score_of(b),
        a.size + 1024 <= b.size && a.size < 999_999 * 1024 ==> score_of(a) < score_of(b),
{
}

/// Of two copies that are both lossless or both not, the one with the higher sample rate is the
/// better one, whatever else they are.
pub proof fn the_higher_sample_rate_is_better(a: TrackModel, b: TrackModel, low: i64, high: i64)
    requires
        keeps_everything(lower(trimmed(a.format))) == keeps_everything(lower(trimmed(b.format))),
        a.samplerate == Some(low),
        b.samplerate == Some(high),
        0 <= low < high,
        a.channels is None || a.channels->0 <= 99,
    ensures
        score_of(a) < score_of(b),
{
}

/// Of two copies of one kind and one sample rate, the one with more channels is the better one.
pub proof fn more_channels_are_better(a: TrackModel, b: TrackModel, few: i64, many: i64)
    requires
        keeps_everything(lower(trimmed(a.format))) == keeps_everything(lower(trimmed(b.format))),
        a.samplerate == b.samplerate,
        a.channels == Some(few),
        b.channels == Some(many),
        0 <= few < many,
    ensures
        score_of(a) < score_of(b),
{
}

/// A lossless copy is better than any other, at every sample rate that sound has.
pub proof fn lossless_is_better(a: TrackModel, b: TrackModel)
    requires
        !keeps_everything(lower(trimmed(a.format))),
        keeps_everything(lower(trimmed(b.format))),
        a.samplerate is None || a.samplerate->0 < 10_000_000,
        a.channels is None || a.channels->0 <= 99,
    ensures
        score_of(a) < score_of(b),
{
}

/// In a group the copy to keep comes first; the candidates stand from the best to the worst, and
/// equally good ones in the order of their numbers.
pub proof fn candidates_stand_from_best_to_worst(
    title: Seq<char>,
    artist: Seq<char>,
    index: nat,
    part: Seq<TrackModel>,
)
    requires
        part.len() > 0,
    ensures
        ({
            let g = group_of(title, artist, index, part);
            &&& g.keep_id == g.candidates[0].track.id
            &&& g.candidates.len() == part.len()
            &&& forall|i: int, j: int|
                #![trigger g.candidates[i], g.candidates[j]]
                0 <= i < j < g.candidates.len() ==> {
                    let a = g.candidates[i].track;
                    let b = g.candidates[j].track;
                    score_of(a) > score_of(b) || (score_of(a) == score_of(b) && a.id <= b.id)
                }
            &&& forall|i: int|
                #![trigger g.candidates[i]]
                0 <= i < g.candidates.len() ==> part.contains(g.candidates[i].track)
                    && g.candidates[i].quality_score == score_of(g.candidates[i].track)
            &&& forall|k: int|
                #![trigger part[k]]
                0 <= k < part.len() ==> exists|i: int|
                    0 <= i < g.candidates.len() && (#[trigger] g.candidates[i]).track == part[k]
        }),
{
    let g = group_of(title, artist, index, part);
    let keys = quality_keys(part);
    let order = order_of(keys, part.len());
    ordering_is_a_stable_permutation(keys, part.len());
    a_group_keeps_its_best_copy(title, artist, index, part);
    assert forall|i: int, j: int|
        #![trigger g.candidates[i], g.candidates[j]]
        0 <= i < j < g.candidates.len() implies {
        let a = g.candidates[i].track;
        let b = g.candidates[j].track;
        score_of(a) > score_of(b) || (score_of(a) == score_of(b) && a.id <= b.id)
    } by {
        let x = order[i];
        let y = order[j];
        lemma_score_bounds(part[x]);
        lemma_score_bounds(part[y]);
        assert(keys[x] == ((-score_of(part[x])) as i128, part[x].id));
        assert(keys[y] == ((-score_of(part[y])) as i128, part[y].id));
        assert(g.candidates[i].track == part[x] && g.candidates[j].track == part[y]);
    }
    assert forall|i: int| #![trigger g.candidates[i]] 0 <= i < g.candidates.len() implies part.contains(
        g.candidates[i].track,
    ) && g.candidates[i].quality_score == score_of(g.candidates[i].track) by {
        lemma_score_bounds(g.candidates[i].track);
        assert(g.candidates[i].track == part[order[i]]);
    }
    assert forall|k: int| #![trigger part[k]] 0 <= k < part.len() implies exists|i: int|
        0 <= i < g.candidates.len() && (#[trigger] g.candidates[i]).track == part[k] by {
        assert(order.contains(k));
        let i = choose|i: int| 0 <= i < order.len() && order[i] == k;
        assert(g.candidates[i].track == part[k]);
    }
}

/// Tracks are compared from the shortest to the longest, those of unknown length last; none is lost
/// and none comes twice.
pub proof fn lengths_ascend(tracks: Seq<TrackModel>)
    ensures
        by_length(tracks).len() == tracks.len(),
        forall|i: int, j: int|
            #![trigger by_length(tracks)[i], by_length(tracks)[j]]
            0 <= i < j < tracks.len() ==> {
                let a = by_length(tracks)[i].duration_us;
                let b = by_length(tracks)[j].duration_us;
                b is None || (a is Some && a->0 <= b->0) || (a is None && b == Some(u64::MAX))
            },
        forall|k: int|
            #![trigger tracks[k]]
            0 <= k < tracks.len() ==> by_length(tracks).contains(tracks[k]),
        forall|i: int|
            #![trigger by_length(tracks)[i]]
            0 <= i < tracks.len() ==> tracks.contains(by_length(tracks)[i]),
{
    let keys = length_keys(tracks);
    let order = order_of(keys, tracks.len());
    let all = by_length(tracks);
    ordering_is_a_stable_permutation(keys, tracks.len());
    assert forall|i: int, j: int| #![trigger all[i], all[j]] 0 <= i < j < tracks.len() implies {
        let a = all[i].duration_us;
        let b = all[j].duration_us;
        b is None || (a is Some && a->0 <= b->0) || (a is None && b == Some(u64::MAX))
    } by {
        let x = order[i];
        let y = order[j];
        assert(all[i] == tracks[x] && all[j] == tracks[y]);
        assert(keys[x] == length_key(tracks[x]) && keys[y] == length_key(tracks[y]));
    }
    assert forall|k: int| #![trigger tracks[k]] 0 <= k < tracks.len() implies all.contains(
        tracks[k],
    ) by {
        assert(order.contains(k));
        let i = choose|i: int| 0 <= i < order.len() && order[i] == k;
        assert(all[i] == tracks[k]);
    }
    assert forall|i: int| #![trigger all[i]] 0 <= i < tracks.len() implies tracks.contains(all[i]) by {
        assert(all[i] == tracks[order[i]]);
    }
}

/// The parts hold every track once, in its order.
pub open spec fn flat(parts: Seq<Seq<TrackModel>>) -> Seq<TrackModel>
    decreases parts.len(),
{
    if parts.len() == 0 {
        Seq::empty()
    } else {
        flat(parts.drop_last()) + parts.last()
    }
}

/// Splitting by length loses no track and doubles none, and keeps their order. A track begins a new
/// part only where its length, or that of the first track before it, is not known, or the two
/// differ by more than three seconds; every other track of a part is within three seconds of its
/// first.
pub proof fn parts_hold_every_track_once(tracks: Seq<TrackModel>)
    ensures
        flat(parts_by_length(tracks)) == tracks,
        forall|p: int|
            #![trigger parts_by_length(tracks)[p]]
            0 <= p < parts_by_length(tracks).len() ==> parts_by_length(tracks)[p].len() > 0,
        forall|p: int, k: int|
            #![trigger parts_by_length(tracks)[p][k]]
            0 <= p < parts_by_length(tracks).len() && 0 < k < parts_by_length(tracks)[p].len() ==> {
                let a = parts_by_length(tracks)[p][k].duration_us;
                let b = parts_by_length(tracks)[p][0].duration_us;
                a is Some && b is Some && a->0 <= b->0 + 3_000_000 && b->0 <= a->0 + 3_000_000
            },
        forall|p: int|
            #![trigger parts_by_length(tracks)[p]]
            0 < p < parts_by_length(tracks).len() ==> {
                let a = parts_by_length(tracks)[p][0].duration_us;
                let b = parts_by_length(tracks)[p - 1][0].duration_us;
                a is None || b is None || a->0 > b->0 + 3_000_000 || b->0 > a->0 + 3_000_000
            },
    decreases tracks.len(),
{
    let parts = parts_by_length(tracks);
    if tracks.len() > 0 {
        let front = tracks.drop_last();
        let before = parts_by_length(front);
        let t = tracks.last();
        parts_hold_every_track_once(front);
        assert(front.push(t) =~= tracks);
        if parts.len() == before.len() {
            assert(parts.drop_last() =~= before.drop_last());
            assert(parts.last() == before.last().push(t));
            assert(flat(parts) =~= flat(before).push(t));
        } else {
            assert(parts == before.push(seq![t]));
            assert(parts.drop_last() =~= before);
            assert(flat(parts) =~= flat(before).push(t));
        }
        assert forall|p: int, k: int|
            #![trigger parts[p][k]]
            0 <= p < parts.len() && 0 < k < parts[p].len() implies {
            let a = parts[p][k].duration_us;
            let b = parts[p][0].duration_us;
            a is Some && b is Some && a->0 <= b->0 + 3_000_000 && b->0 <= a->0 + 3_000_000
        } by {
            if p < before.len() && k < before[p].len() {
                assert(parts[p][k] == before[p][k] && parts[p][0] == before[p][0]);
            }
        }
        assert forall|p: int| #![trigger parts[p]] 0 < p < parts.len() implies {
            let a = parts[p][0].duration_us;
            let b = parts[p - 1][0].duration_us;
            a is None || b is None || a->0 > b->0 + 3_000_000 || b->0 > a->0 + 3_000_000
        } by {
            if p < before.len() {
                assert(parts[p][0] == before[p][0] && parts[p - 1][0] == before[p - 1][0]);
            } else {
                assert(parts[p - 1] == before[p - 1]);
            }
        }
        assert forall|p: int| #![trigger parts[p]] 0 <= p < parts.len() implies parts[p].len() > 0 by {
            if p < before.len() {
                assert(before[p].len() > 0);
            }
        }
    } else {
        assert(flat(parts) =~= tracks);
    }
}

/// A track is compared by its title; by the name of its file without the ending where it has none.
pub proof fn a_track_is_compared_by_its_title(track: TrackModel)
    ensures
        !all_space(track.title) ==> title_of(track) == track.title,
        all_space(track.title) && file_stem_of(track.filename).len() > 0 ==> title_of(track)
            == file_stem_of(track.filename),
        all_space(track.title) && file_stem_of(track.filename).len() == 0 ==> title_of(track)
            == track.filename,
        keyed_of(track).title == bare_text(title_of(track)) && keyed_of(track).artist == bare_text(
            track.artist,
        ) && keyed_of(track).track == track,
{
    trimming_takes_the_white_space_around(track.title);
}

proof fn lemma_letters(chars: Seq<char>)
    ensures
        forall|c: char| #[trigger]
            letters_of(chars).contains(c) <==> chars.contains(c) && is_letter_or_number(c),
    decreases chars.len(),
{
    if chars.len() > 0 {
        let front = chars.drop_last();
        let before = letters_of(front);
        let all = letters_of(chars);
        lemma_letters(front);
        assert forall|c: char| #[trigger] all.contains(c) <==> chars.contains(c)
            && is_letter_or_number(c) by {
            if all.contains(c) {
                let i = choose|i: int| 0 <= i < all.len() && all[i] == c;
                if i < before.len() {
                    assert(before[i] == c);
                    assert(before.contains(c));
                    let k = choose|k: int| 0 <= k < front.len() && front[k] == c;
                    assert(chars[k] == c);
                } else {
                    assert(chars[chars.len() - 1] == c);
                }
            }
            if chars.contains(c) && is_letter_or_number(c) {
                let k = choose|k: int| 0 <= k < chars.len() && chars[k] == c;
                if k < front.len() {
                    assert(front[k] == c);
                    assert(before.contains(c));
                    let i = choose|i: int| 0 <= i < before.len() && before[i] == c;
                    assert(all[i] == c);
                } else {
                    assert(all[all.len() - 1] == c);
                }
            }
        }
    }
}

/// What is compared of a text are its letters and numbers in lower case, all of them, and nothing
/// else: what stands between two texts does not count where it has none.
pub proof fn only_letters_and_numbers_are_compared(a: Seq<char>, b: Seq<char>)
    ensures
        bare_text(a + b) == bare_text(a) + bare_text(b),
        forall|i: int|
            #![trigger bare_text(a)[i]]
            0 <= i < bare_text(a).len() ==> is_letter_or_number(bare_text(a)[i]),
        (forall|k: int|
            #![trigger a[k]]
            0 <= k < a.len() ==> forall|c: char| #[trigger]
                lowercase_of(a[k]).contains(c) ==> !is_letter_or_number(c)) ==> bare_text(a).len()
            == 0,
        a.len() == 1 ==> bare_text(a) == letters_of(lowercase_of(a[0])),
    decreases a.len() + b.len(),
{
    if b.len() > 0 {
        only_letters_and_numbers_are_compared(a, b.drop_last());
        assert((a + b).drop_last() =~= a + b.drop_last());
        assert(bare_text(a + b) =~= bare_text(a) + bare_text(b));
    } else {
        assert(a + b =~= a);
        assert(bare_text(a) + bare_text(b) =~= bare_text(a));
        if a.len() > 0 {
            let front = a.drop_last();
            let tail = letters_of(lowercase_of(a.last()));
            only_letters_and_numbers_are_compared(front, b);
            lemma_letters(lowercase_of(a.last()));
            assert forall|i: int|
                #![trigger bare_text(a)[i]]
                0 <= i < bare_text(a).len() implies is_letter_or_number(bare_text(a)[i]) by {
                if i < bare_text(front).len() {
                    assert(bare_text(a)[i] == bare_text(front)[i]);
                } else {
                    let m = i - bare_text(front).len();
                    assert(bare_text(a)[i] == tail[m]);
                    assert(tail.contains(tail[m]));
                }
            }
            if forall|k: int|
                #![trigger a[k]]
                0 <= k < a.len() ==> forall|c: char| #[trigger]
                    lowercase_of(a[k]).contains(c) ==> !is_letter_or_number(c) {
                assert forall|k: int|
                    #![trigger front[k]]
                    0 <= k < front.len() implies forall|c: char| #[trigger]
                    lowercase_of(front[k]).contains(c) ==> !is_letter_or_number(c) by {
                    assert(front[k] == a[k]);
                }
                assert(a[a.len() - 1] == a.last());
                if tail.len() > 0 {
                    assert(tail.contains(tail[0]));
                }
            }
            if a.len() == 1 {
                assert(front =~= Seq::empty());
                assert(bare_text(a) =~= tail);
            }
        }
    }
}

proof fn lemma_bucket_rank(buckets: Seq<BucketModel>, title: Seq<char>, artist: Seq<char>)
    ensures
        0 <= bucket_rank(buckets, title, artist) <= buckets.len(),
    decreases buckets.len(),
{
    if buckets.len() > 0 {
        lemma_bucket_rank(buckets.drop_last(), title, artist);
    }
}

/// A track stands in a bucket of this name.
pub open spec fn in_bucket(
    buckets: Seq<BucketModel>,
    title: Seq<char>,
    artist: Seq<char>,
    track: TrackModel,
) -> bool {
    exists|b: int|
        0 <= b < buckets.len() && (#[trigger] buckets[b]).title == title && buckets[b].artist
            == artist && buckets[b].tracks.contains(track)
}

proof fn lemma_with_track(
    buckets: Seq<BucketModel>,
    title: Seq<char>,
    artist: Seq<char>,
    track: TrackModel,
    t: Seq<char>,
    a: Seq<char>,
    x: TrackModel,
)
    ensures
        in_bucket(with_track(buckets, title, artist, track), t, a, x) <==> in_bucket(
            buckets,
            t,
            a,
            x,
        ) || (t == title && a == artist && x == track),
{
    lemma_bucket_rank(buckets, title, artist);
    let at = bucket_rank(buckets, title, artist);
    let all = with_track(buckets, title, artist, track);
    let there = at < buckets.len() && buckets[at].title == title && buckets[at].artist == artist;
    if there {
        assert(all[at].tracks == buckets[at].tracks.push(track));
        assert(all[at].tracks[buckets[at].tracks.len() as int] == track);
    } else {
        assert(all[at].tracks == seq![track]);
        assert(all[at].tracks[0] == track);
    }
    assert(all[at].tracks.contains(track));
    if in_bucket(buckets, t, a, x) {
        let b = choose|b: int|
            0 <= b < buckets.len() && (#[trigger] buckets[b]).title == t && buckets[b].artist == a
                && buckets[b].tracks.contains(x);
        let m = if there || b < at {
            b
        } else {
            b + 1
        };
        let i = choose|i: int| 0 <= i < buckets[b].tracks.len() && buckets[b].tracks[i] == x;
        assert(all[m].tracks[i] == x);
        assert(all[m].title == t && all[m].artist == a && all[m].tracks.contains(x));
    }
    if t == title && a == artist && x == track {
        assert(all[at].title == t && all[at].artist == a);
    }
    if in_bucket(all, t, a, x) {
        let b = choose|b: int|
            0 <= b < all.len() && (#[trigger] all[b]).title == t && all[b].artist == a
                && all[b].tracks.contains(x);
        let i = choose|i: int| 0 <= i < all[b].tracks.len() && all[b].tracks[i] == x;
        if b == at {
            if there && i < buckets[at].tracks.len() {
                assert(buckets[at].tracks[i] == x);
                assert(buckets[at].tracks.contains(x));
            }
        } else {
            let m = if there || b < at {
                b
            } else {
                b - 1
            };
            assert(buckets[m] == all[b]);
        }
    }
}

/// Tracks are compared within buckets: a track stands in the bucket of its title and artist, where
/// its title is of two bytes or more, and in no other.
pub proof fn tracks_stand_in_the_bucket_of_their_name(
    keyed: Seq<KeyedModel>,
    title: Seq<char>,
    artist: Seq<char>,
    track: TrackModel,
)
    ensures
        in_bucket(buckets_of(keyed), title, artist, track) <==> byte_count(title) >= 2 && exists|k:
            int|
            0 <= k < keyed.len() && (#[trigger] keyed[k]).title == title && keyed[k].artist
                == artist && keyed[k].track == track,
    decreases keyed.len(),
{
    if keyed.len() > 0 {
        let front = keyed.drop_last();
        let last = keyed.last();
        tracks_stand_in_the_bucket_of_their_name(front, title, artist, track);
        if byte_count(last.title) >= 2 {
            lemma_with_track(
                buckets_of(front),
                last.title,
                last.artist,
                last.track,
                title,
                artist,
                track,
            );
        }
        if exists|k: int|
            0 <= k < front.len() && (#[trigger] front[k]).title == title && front[k].artist == artist
                && front[k].track == track {
            let k = choose|k: int|
                0 <= k < front.len() && (#[trigger] front[k]).title == title && front[k].artist
                    == artist && front[k].track == track;
            assert(keyed[k] == front[k]);
        }
        if exists|k: int|
            0 <= k < keyed.len() && (#[trigger] keyed[k]).title == title && keyed[k].artist == artist
                && keyed[k].track == track {
            let k = choose|k: int|
                0 <= k < keyed.len() && (#[trigger] keyed[k]).title == title && keyed[k].artist
                    == artist && keyed[k].track == track;
            if k < front.len() {
                assert(front[k] == keyed[k]);
            }
        }
        if last.title == title && last.artist == artist && last.track == track {
            assert(keyed[keyed.len() - 1] == last);
        }
    }
}

/// A group was made of this part.
pub open spec fn made_of(g: GroupModel, part: Seq<TrackModel>) -> bool {
    g.candidates.map_values(|c: CandidateModel| c.track) == by_quality(part)
}

proof fn lemma_made(title: Seq<char>, artist: Seq<char>, index: nat, part: Seq<TrackModel>)
    ensures
        made_of(group_of(title, artist, index, part), part),
{
    let g = group_of(title, artist, index, part);
    assert(g.candidates.map_values(|c: CandidateModel| c.track) =~= by_quality(part));
}

proof fn lemma_with_parts(
    groups: Seq<GroupModel>,
    title: Seq<char>,
    artist: Seq<char>,
    parts: Seq<Seq<TrackModel>>,
)
    ensures
        groups.is_prefix_of(with_parts(groups, title, artist, parts)),
        forall|p: int|
            #![trigger parts[p]]
            0 <= p < parts.len() && parts[p].len() >= 2 ==> exists|i: int|
                0 <= i < with_parts(groups, title, artist, parts).len() && made_of(
                    #[trigger] with_parts(groups, title, artist, parts)[i],
                    parts[p],
                ),
        forall|i: int|
            #![trigger with_parts(groups, title, artist, parts)[i]]
            groups.len() <= i < with_parts(groups, title, artist, parts).len() ==> exists|p: int|
                0 <= p < parts.len() && (#[trigger] parts[p]).len() >= 2 && made_of(
                    with_parts(groups, title, artist, parts)[i],
                    parts[p],
                ),
    decreases parts.len(),
{
    if parts.len() > 0 {
        let front = parts.drop_last();
        let last = parts.last();
        let before = with_parts(groups, title, artist, front);
        let all = with_parts(groups, title, artist, parts);
        lemma_with_parts(groups, title, artist, front);
        lemma_made(title, artist, before.len(), last);
        assert forall|p: int| #![trigger parts[p]] 0 <= p < parts.len() && parts[p].len() >= 2 implies exists|
            i: int,
        | 0 <= i < all.len() && made_of(#[trigger] all[i], parts[p]) by {
            if p < front.len() {
                assert(front[p] == parts[p]);
                let i = choose|i: int|
                    0 <= i < before.len() && made_of(#[trigger] before[i], front[p]);
                assert(all[i] == before[i]);
            } else {
                assert(made_of(all[before.len() as int], parts[p]));
            }
        }
        assert forall|i: int| #![trigger all[i]] groups.len() <= i < all.len() implies exists|p: int|
            0 <= p < parts.len() && (#[trigger] parts[p]).len() >= 2 && made_of(all[i], parts[p]) by {
            if i < before.len() {
                assert(all[i] == before[i]);
                let p = choose|p: int|
                    0 <= p < front.len() && (#[trigger] front[p]).len() >= 2 && made_of(
                        before[i],
                        front[p],
                    );
                assert(parts[p] == front[p]);
            } else {
                assert(made_of(all[i], parts[parts.len() - 1]));
            }
        }
    }
}

/// Every part of a bucket with two tracks or more is told as a group of copies.
pub proof fn copies_are_told(buckets: Seq<BucketModel>, b: int, p: int)
    requires
        0 <= b < buckets.len(),
        0 <= p < parts_by_length(by_length(buckets[b].tracks)).len(),
        parts_by_length(by_length(buckets[b].tracks))[p].len() >= 2,
    ensures
        exists|i: int|
            0 <= i < groups_in(buckets).len() && made_of(
                #[trigger] groups_in(buckets)[i],
                parts_by_length(by_length(buckets[b].tracks))[p],
            ),
    decreases buckets.len(),
{
    let front = buckets.drop_last();
    let last = buckets.last();
    let before = groups_in(front);
    let parts = parts_by_length(by_length(last.tracks));
    let all = groups_in(buckets);
    lemma_with_parts(before, last.title, last.artist, parts);
    if b < front.len() {
        assert(front[b] == buckets[b]);
        copies_are_told(front, b, p);
        let part = parts_by_length(by_length(buckets[b].tracks))[p];
        let i = choose|i: int| 0 <= i < before.len() && made_of(#[trigger] before[i], part);
        assert(all[i] == before[i]);
    } else {
        assert(parts[p].len() >= 2);
        let i = choose|i: int| 0 <= i < all.len() && made_of(#[trigger] all[i], parts[p]);
        assert(made_of(all[i], parts[p]));
    }
}

/// Every group of copies is a part of one bucket, of two tracks or more.
pub proof fn only_copies_are_told(buckets: Seq<BucketModel>, i: int)
    requires
        0 <= i < groups_in(buckets).len(),
    ensures
        exists|b: int, p: int|
            #![trigger parts_by_length(by_length(buckets[b].tracks))[p]]
            0 <= b < buckets.len() && 0 <= p < parts_by_length(by_length(buckets[b].tracks)).len()
                && parts_by_length(by_length(buckets[b].tracks))[p].len() >= 2 && made_of(
                groups_in(buckets)[i],
                parts_by_length(by_length(buckets[b].tracks))[p],
            ),
    decreases buckets.len(),
{
    let front = buckets.drop_last();
    let last = buckets.last();
    let before = groups_in(front);
    let parts = parts_by_length(by_length(last.tracks));
    let all = groups_in(buckets);
    lemma_with_parts(before, last.title, last.artist, parts);
    if i < before.len() {
        only_copies_are_told(front, i);
        let (b, p) = choose|b: int, p: int|
            #![trigger parts_by_length(by_length(front[b].tracks))[p]]
            0 <= b < front.len() && 0 <= p < parts_by_length(by_length(front[b].tracks)).len()
                && parts_by_length(by_length(front[b].tracks))[p].len() >= 2 && made_of(
                before[i],
                parts_by_length(by_length(front[b].tracks))[p],
            );
        assert(front[b] == buckets[b]);
        assert(all[i] == before[i]);
        assert(parts_by_length(by_length(buckets[b].tracks))[p].len() >= 2);
    } else {
        let p = choose|p: int|
            0 <= p < parts.len() && (#[trigger] parts[p]).len() >= 2 && made_of(all[i], parts[p]);
        let b = buckets.len() - 1;
        assert(parts_by_length(by_length(buckets[b].tracks))[p] == parts[p]);
    }
}

/// Copies are told with high confidence exactly where all of them came from one place, which is
/// known; the same size is a reason to name, no more.
pub proof fn one_source_is_certain(title: Seq<char>, artist: Seq<char>, index: nat, part: Seq<TrackModel>)
    requires
        part.len() > 0,
    ensures
        group_of(title, artist, index, part).confidence == "high"@ <==> !all_space(
            part[0].source_key,
        ) && forall|i: int|
            0 <= i < part.len() ==> (#[trigger] part[i]).source_platform == part[0].source_platform
                && part[i].source_key == part[0].source_key,
        group_of(title, artist, index, part).confidence == "high"@ || group_of(
            title,
            artist,
            index,
            part,
        ).confidence == "possible"@,
{
    trimming_takes_the_white_space_around(part[0].source_key);
    reveal_strlit("high");
    reveal_strlit("possible");
    assert("high"@.len() == 4 && "possible"@.len() == 8);
}

/// A copy is described by its format, its sample rate where it is known, and its bit rate where it
/// loses something.
pub proof fn a_copy_is_described_by_what_counts(kind: Seq<char>, track: TrackModel)
    ensures
        ({
            let parts = label_parts(kind, track);
            let rate = track.samplerate is Some && track.samplerate->0 > 0;
            let bits = track.bitrate is Some && track.bitrate->0 > 0 && !keeps_everything(
                lower(trimmed(track.format)),
            );
            &&& parts[0] == kind
            &&& parts.len() == 1 + (if rate {
                1int
            } else {
                0
            }) + (if bits {
                1int
            } else {
                0
            })
            &&& rate ==> parts[1] == track.samplerate_label
            &&& bits ==> parts.last() == decimal(track.bitrate->0 as nat) + " kbps"@
        }),
{
}

/// The folders that are not there are told, all of them and no others.
pub proof fn absent_folders_are_told(roots: Seq<(Seq<char>, bool)>, x: Seq<char>)
    ensures
        offline_paths(roots).contains(x) <==> roots.contains((x, false)),
    decreases roots.len(),
{
    if roots.len() > 0 {
        let front = roots.drop_last();
        let last = roots.last();
        let before = offline_paths(front);
        let all = offline_paths(roots);
        absent_folders_are_told(front, x);
        if all.contains(x) {
            let i = choose|i: int| 0 <= i < all.len() && all[i] == x;
            if i < before.len() {
                assert(before[i] == x);
                let k = choose|k: int| 0 <= k < front.len() && front[k] == (x, false);
                assert(roots[k] == (x, false));
            } else {
                assert(roots[roots.len() - 1] == (x, false));
            }
        }
        if roots.contains((x, false)) {
            let k = choose|k: int| 0 <= k < roots.len() && roots[k] == (x, false);
            if k < front.len() {
                assert(front[k] == (x, false));
                let i = choose|i: int| 0 <= i < before.len() && before[i] == x;
                assert(all[i] == x);
            } else {
                assert(all[all.len() - 1] == x);
            }
        }
    }
}

/// A track is called missing (or there) exactly where its file is, and no folder above it is absent.
pub proof fn tracks_are_told_by_their_files(
    found: Seq<(TrackModel, bool)>,
    offline: Seq<Seq<char>>,
    folds_case: bool,
    present: bool,
    t: TrackModel,
)
    ensures
        tracks_found(found, offline, folds_case, present).contains(t) <==> found.contains(
            (t, present),
        ) && forall|i: int|
            0 <= i < offline.len() ==> !under_root(t.path, #[trigger] offline[i], folds_case),
    decreases found.len(),
{
    assert(under_any(t.path, offline, folds_case) <==> exists|i: int|
        0 <= i < offline.len() && under_root(t.path, #[trigger] offline[i], folds_case));
    if found.len() > 0 {
        let front = found.drop_last();
        let before = tracks_found(front, offline, folds_case, present);
        let all = tracks_found(found, offline, folds_case, present);
        tracks_are_told_by_their_files(front, offline, folds_case, present, t);
        if all.contains(t) {
            let i = choose|i: int| 0 <= i < all.len() && all[i] == t;
            if i < before.len() {
                assert(before[i] == t);
                let k = choose|k: int| 0 <= k < front.len() && front[k] == (t, present);
                assert(found[k] == (t, present));
            } else {
                assert(found[found.len() - 1] == (t, present));
            }
        }
        if found.contains((t, present)) && !under_any(t.path, offline, folds_case) {
            let k = choose|k: int| 0 <= k < found.len() && found[k] == (t, present);
            if k < front.len() {
                assert(front[k] == (t, present));
                assert(front.contains((t, present)));
                let i = choose|i: int| 0 <= i < before.len() && before[i] == t;
                assert(all[i] == t);
            } else {
                assert(all[all.len() - 1] == t);
            }
        }
    }
}

/// Every track of a page is collected, unless one of its number is there already, and what was
/// collected stays.
pub proof fn every_track_of_a_page_is_collected(tracks: Seq<TrackModel>, page: Seq<TrackModel>)
    ensures
        tracks.is_prefix_of(with_new(tracks, page)),
        forall|k: int|
            #![trigger page[k]]
            0 <= k < page.len() ==> exists|i: int|
                0 <= i < with_new(tracks, page).len() && (#[trigger] with_new(tracks, page)[i]).id
                    == page[k].id,
        forall|i: int|
            #![trigger with_new(tracks, page)[i]]
            tracks.len() <= i < with_new(tracks, page).len() ==> page.contains(
                with_new(tracks, page)[i],
            ),
    decreases page.len(),
{
    if page.len() > 0 {
        let front = page.drop_last();
        let before = with_new(tracks, front);
        let all = with_new(tracks, page);
        every_track_of_a_page_is_collected(tracks, front);
        assert forall|k: int| #![trigger page[k]] 0 <= k < page.len() implies exists|i: int|
            0 <= i < all.len() && (#[trigger] all[i]).id == page[k].id by {
            if k < front.len() {
                assert(front[k] == page[k]);
                let i = choose|i: int|
                    0 <= i < before.len() && (#[trigger] before[i]).id == front[k].id;
                assert(all[i] == before[i]);
            } else if has_id(before, page.last().id) {
                let i = choose|i: int|
                    0 <= i < before.len() && (#[trigger] before[i]).id == page.last().id;
                assert(all[i] == before[i]);
            } else {
                assert(all[before.len() as int].id == page[k].id);
            }
        }
        assert forall|i: int| #![trigger all[i]] tracks.len() <= i < all.len() implies page.contains(
            all[i],
        ) by {
            if i < before.len() {
                assert(all[i] == before[i]);
                let k = choose|k: int| 0 <= k < front.len() && front[k] == before[i];
                assert(page[k] == all[i]);
            } else {
                assert(page[page.len() - 1] == all[i]);
            }
        }
    }
}

/// A folder is read page after page until its total is reached or a page is empty; then the next
/// one begins at its first track.
pub proof fn a_folder_is_read_to_its_end(sweep: SweepModel, page: Seq<TrackModel>, total: i64)
    ensures
        ({
            let after = sweep.after_page(page, total);
            let over = page.len() == 0 || sweep.offset + page.len() >= total;
            &&& over ==> after.at == sweep.at + 1 && after.offset == 0
            &&& !over ==> after.at == sweep.at && after.offset == sweep.offset + page.len()
            &&& after.folders == sweep.folders && after.tracks == with_new(sweep.tracks, page)
        }),
{
}

/// Where subfolders count, a search goes through folders none of which lies below an earlier one;
/// every chosen folder is searched, by itself or by one above it.
pub proof fn every_chosen_folder_is_searched(folders: Seq<Seq<char>>, k: int)
    requires
        0 <= k < folders.len(),
    ensures
        search_folders(folders, false).contains(folders[k]),
        exists|i: int|
            0 <= i < search_folders(folders, true).len() && lies_within(
                folders[k],
                #[trigger] search_folders(folders, true)[i],
            ),
{
    ordered_lists_are_sorted_and_complete(folders);
    let list = ordered(folders);
    assert(folders.contains(folders[k]));
    assert(list.contains(folders[k]));
    let m = choose|m: int| 0 <= m < list.len() && list[m] == folders[k];
    the_outermost_folders_hold_the_others(list);
    assert(inside_any(list[m], outermost(list)));
    let outer = outermost(list);
    let i = choose|i: int| 0 <= i < outer.len() && lies_within(list[m], #[trigger] outer[i]);
    assert(lies_within(folders[k], search_folders(folders, true)[i]));
}

} // verus!
