//! Tracks that are in the library more than once, and tracks whose files are gone.

use vstd::prelude::*;

use crate::error::{bad, check_result, ApiError};
use crate::models::texts;
use crate::paths::{drop_nested, ordered, outermost, path_under_root, sort_texts, under_root};
use crate::text::{
    append_decimal, byte_count, byte_len, chars_of, decimal, file_stem, file_stem_of,
    is_letter_or_number, join, joined_by, less, less_text, letter_or_number, lower, lower_ascii,
    lowercase_chars, lowercase_of, same, to_uppercase, trim, trimmed, uppercase_text,
};

verus! {

/// What the comparison reads of a track.
pub struct Track {
    pub id: i64,
    pub path: String,
    pub filename: String,
    pub title: String,
    pub artist: String,
    /// The length in microseconds.
    pub duration_us: Option<u64>,
    pub format: String,
    pub samplerate: Option<i64>,
    /// The sample rate as it is shown.
    pub samplerate_label: String,
    pub bitrate: Option<i64>,
    pub channels: Option<i64>,
    pub size: i64,
    pub source_platform: String,
    pub source_key: String,
}

#[verifier::ext_equal]
pub struct TrackModel {
    pub id: i64,
    pub path: Seq<char>,
    pub filename: Seq<char>,
    pub title: Seq<char>,
    pub artist: Seq<char>,
    pub duration_us: Option<u64>,
    pub format: Seq<char>,
    pub samplerate: Option<i64>,
    pub samplerate_label: Seq<char>,
    pub bitrate: Option<i64>,
    pub channels: Option<i64>,
    pub size: i64,
    pub source_platform: Seq<char>,
    pub source_key: Seq<char>,
}

impl View for Track {
    type V = TrackModel;

    open spec fn view(&self) -> TrackModel {
        TrackModel {
            id: self.id,
            path: self.path@,
            filename: self.filename@,
            title: self.title@,
            artist: self.artist@,
            duration_us: self.duration_us,
            format: self.format@,
            samplerate: self.samplerate,
            samplerate_label: self.samplerate_label@,
            bitrate: self.bitrate,
            channels: self.channels,
            size: self.size,
            source_platform: self.source_platform@,
            source_key: self.source_key@,
        }
    }
}

impl Clone for Track {
    fn clone(&self) -> (r: Self)
        ensures
            r@ == self@,
    {
        Track {
            id: self.id,
            path: self.path.clone(),
            filename: self.filename.clone(),
            title: self.title.clone(),
            artist: self.artist.clone(),
            duration_us: self.duration_us,
            format: self.format.clone(),
            samplerate: self.samplerate,
            samplerate_label: self.samplerate_label.clone(),
            bitrate: self.bitrate,
            channels: self.channels,
            size: self.size,
            source_platform: self.source_platform.clone(),
            source_key: self.source_key.clone(),
        }
    }
}

pub open spec fn track_views(v: Seq<Track>) -> Seq<TrackModel> {
    v.map_values(|t: Track| t@)
}

// ---------------------------------------------------------------- what is compared

pub open spec fn letters_of(chars: Seq<char>) -> Seq<char>
    decreases chars.len(),
{
    if chars.len() == 0 {
        Seq::empty()
    } else if is_letter_or_number(chars.last()) {
        letters_of(chars.drop_last()).push(chars.last())
    } else {
        letters_of(chars.drop_last())
    }
}

/// The letters and numbers of a text, in lower case.
pub open spec fn bare_text(s: Seq<char>) -> Seq<char>
    decreases s.len(),
{
    if s.len() == 0 {
        Seq::empty()
    } else {
        bare_text(s.drop_last()) + letters_of(lowercase_of(s.last()))
    }
}

/// The letters and numbers of a text, in lower case: what is left to compare.
pub fn duplicate_text(value: &str) -> (r: String)
    ensures
        r@ == bare_text(value@),
{
    let v = chars_of(value);
    let mut r = String::new();
    let mut i: usize = 0;
    assert(r@ =~= bare_text(v@.take(0)));
    while i < v.len()
        invariant
            i <= v@.len(),
            r@ == bare_text(v@.take(i as int)),
        decreases v@.len() - i,
    {
        let low = lowercase_chars(v[i]);
        let ghost before = r@;
        let mut k: usize = 0;
        assert(before + letters_of(low@.take(0)) =~= before);
        while k < low.len()
            invariant
                k <= low@.len(),
                r@ == before + letters_of(low@.take(k as int)),
            decreases low@.len() - k,
        {
            assert(low@.take(k + 1).drop_last() =~= low@.take(k as int));
            if letter_or_number(low[k]) {
                r.push(low[k]);
                assert(r@ =~= before + letters_of(low@.take(k + 1)));
            }
            k += 1;
        }
        assert(low@.take(k as int) =~= low@);
        assert(v@.take(i + 1).drop_last() =~= v@.take(i as int));
        i += 1;
    }
    assert(v@.take(i as int) =~= v@);
    r
}

/// The title of a track, or the name of its file.
pub open spec fn title_of(track: TrackModel) -> Seq<char> {
    if trimmed(track.title).len() > 0 {
        track.title
    } else if file_stem_of(track.filename).len() > 0 {
        file_stem_of(track.filename)
    } else {
        track.filename
    }
}

fn read_title(track: &Track) -> (r: String)
    ensures
        r@ == title_of(track@),
{
    if !trim(track.title.as_str()).as_str().is_empty() {
        return track.title.clone();
    }
    let stem = file_stem(track.filename.as_str());
    if stem.as_str().is_empty() {
        track.filename.clone()
    } else {
        stem
    }
}

// ---------------------------------------------------------------- which one is better

pub open spec fn not_negative(n: Option<i64>) -> int {
    match n {
        Some(n) => if n > 0 {
            n as int
        } else {
            0
        },
        None => 0,
    }
}

pub open spec fn is_lossless(format: Seq<char>) -> bool {
    let f = lower(trimmed(format));
    f == "flac"@ || f == "wav"@ || f == "aiff"@ || f == "aif"@ || f == "alac"@
}

/// What counts least in the comparison of two copies.
pub open spec fn fine_score(track: TrackModel) -> int {
    let fine = if is_lossless(track.format) {
        (if track.size > 0 {
            track.size as int
        } else {
            0
        }) / 1024
    } else {
        not_negative(track.bitrate) * 1000
    };
    if fine < 999_999 {
        fine
    } else {
        999_999
    }
}

/// How good a copy is: lossless before lossy, then the sample rate, the channels, and at last the
/// size or the bit rate.
pub open spec fn score_of(track: TrackModel) -> int {
    (if is_lossless(track.format) {
        2_000_000_000_000_000
    } else {
        1_000_000_000_000_000int
    }) + not_negative(track.samplerate) * 100_000_000 + not_negative(track.channels) * 1_000_000
        + fine_score(track)
}

fn clamp_up(n: Option<i64>) -> (r: i64)
    ensures
        r == not_negative(n),
        r >= 0,
{
    match n {
        Some(n) => if n > 0 {
            n
        } else {
            0
        },
        None => 0,
    }
}

fn lossless(format: &str) -> (r: bool)
    ensures
        r == is_lossless(format@),
{
    let f = lower_ascii(trim(format).as_str());
    let s = f.as_str();
    same(s, "flac") || same(s, "wav") || same(s, "aiff") || same(s, "aif") || same(s, "alac")
}

/// How a copy of the format `kind` is described.
pub open spec fn label_parts(kind: Seq<char>, track: TrackModel) -> Seq<Seq<char>> {
    let rate = if not_negative(track.samplerate) > 0 {
        seq![track.samplerate_label]
    } else {
        Seq::<Seq<char>>::empty()
    };
    let bits = if not_negative(track.bitrate) > 0 && !is_lossless(track.format) {
        seq![decimal(not_negative(track.bitrate) as nat) + " kbps"@]
    } else {
        Seq::<Seq<char>>::empty()
    };
    seq![kind] + rate + bits
}

pub open spec fn label_of(track: TrackModel) -> Seq<char> {
    joined_by(label_parts(uppercase_text(lower(trimmed(track.format))), track), " · "@)
}

/// The description of a copy whose format is called `kind`: its sample rate and, where the format
/// loses something, its bit rate.
pub fn quality_label(kind: String, track: &Track) -> (r: String)
    ensures
        r@ == joined_by(label_parts(kind@, track@), " · "@),
{
    let ghost name = kind@;
    let bits: i64 = clamp_up(track.bitrate);
    let mut parts: Vec<String> = Vec::new();
    parts.push(kind);
    assert(texts(parts@) =~= seq![name]);
    if clamp_up(track.samplerate) > 0 {
        let ghost before = texts(parts@);
        parts.push(track.samplerate_label.clone());
        assert(texts(parts@) =~= before.push(track@.samplerate_label));
    }
    if bits > 0 && !lossless(track.format.as_str()) {
        let ghost before = texts(parts@);
        let mut text = String::new();
        append_decimal(&mut text, bits as u64);
        text.append(" kbps");
        assert(text@ =~= decimal(not_negative(track@.bitrate) as nat) + " kbps"@);
        parts.push(text);
        assert(texts(parts@) =~= before.push(text@));
    }
    assert(texts(parts@) =~= label_parts(name, track@));
    join(&parts, " · ")
}

/// How good a copy is, and how it is described.
pub fn duplicate_quality(track: &Track) -> (r: (i128, String))
    ensures
        r.0 == score_of(track@),
        r.1@ == label_of(track@),
{
    let good: bool = lossless(track.format.as_str());
    let rate: i64 = clamp_up(track.samplerate);
    let bits: i64 = clamp_up(track.bitrate);
    let channels: i64 = clamp_up(track.channels);
    let fine: i128 = if good {
        let size: i64 = if track.size > 0 {
            track.size
        } else {
            0
        };
        (size / 1024) as i128
    } else {
        bits as i128 * 1000
    };
    let fine: i128 = if fine < 999_999 {
        fine
    } else {
        999_999
    };
    let base: i128 = if good {
        2_000_000_000_000_000
    } else {
        1_000_000_000_000_000
    };
    let score: i128 = base + rate as i128 * 100_000_000 + channels as i128 * 1_000_000 + fine;
    let format = lower_ascii(trim(track.format.as_str()).as_str());
    (score, quality_label(to_uppercase(format.as_str()), track))
}

// ---------------------------------------------------------------- buckets

/// The tracks with the same title and the same artist.
pub struct Bucket {
    pub title: String,
    pub artist: String,
    pub tracks: Vec<Track>,
}

#[verifier::ext_equal]
pub struct BucketModel {
    pub title: Seq<char>,
    pub artist: Seq<char>,
    pub tracks: Seq<TrackModel>,
}

impl View for Bucket {
    type V = BucketModel;

    open spec fn view(&self) -> BucketModel {
        BucketModel { title: self.title@, artist: self.artist@, tracks: track_views(self.tracks@) }
    }
}

pub open spec fn bucket_views(v: Seq<Bucket>) -> Seq<BucketModel> {
    v.map_values(|b: Bucket| b@)
}

/// The order of buckets: by title, then by artist.
pub open spec fn before_bucket(
    title: Seq<char>,
    artist: Seq<char>,
    other_title: Seq<char>,
    other_artist: Seq<char>,
) -> bool {
    less(title, other_title) || (title == other_title && less(artist, other_artist))
}

/// Where a bucket with this name belongs.
pub open spec fn bucket_rank(buckets: Seq<BucketModel>, title: Seq<char>, artist: Seq<char>) -> int
    decreases buckets.len(),
{
    if buckets.len() == 0 {
        0
    } else if before_bucket(buckets.last().title, buckets.last().artist, title, artist) {
        buckets.len() as int
    } else {
        bucket_rank(buckets.drop_last(), title, artist)
    }
}

/// The buckets with one more track.
pub open spec fn with_track(
    buckets: Seq<BucketModel>,
    title: Seq<char>,
    artist: Seq<char>,
    track: TrackModel,
) -> Seq<BucketModel> {
    let at = bucket_rank(buckets, title, artist);
    if 0 <= at < buckets.len() && buckets[at].title == title && buckets[at].artist == artist {
        buckets.update(
            at,
            BucketModel { tracks: buckets[at].tracks.push(track), ..buckets[at] },
        )
    } else {
        buckets.insert(at, BucketModel { title, artist, tracks: seq![track] })
    }
}

/// A track with what is left of its title and artist to compare.
pub struct KeyedTrack {
    pub title: String,
    pub artist: String,
    pub track: Track,
}

#[verifier::ext_equal]
pub struct KeyedModel {
    pub title: Seq<char>,
    pub artist: Seq<char>,
    pub track: TrackModel,
}

impl View for KeyedTrack {
    type V = KeyedModel;

    open spec fn view(&self) -> KeyedModel {
        KeyedModel { title: self.title@, artist: self.artist@, track: self.track@ }
    }
}

pub open spec fn keyed_views(v: Seq<KeyedTrack>) -> Seq<KeyedModel> {
    v.map_values(|k: KeyedTrack| k@)
}

/// All buckets of a list of tracks, in order. A title of one byte is too little to compare.
pub open spec fn buckets_of(keyed: Seq<KeyedModel>) -> Seq<BucketModel>
    decreases keyed.len(),
{
    if keyed.len() == 0 {
        Seq::empty()
    } else {
        let before = buckets_of(keyed.drop_last());
        let k = keyed.last();
        if byte_count(k.title) < 2 {
            before
        } else {
            with_track(before, k.title, k.artist, k.track)
        }
    }
}

fn goes_before(title: &str, artist: &str, other_title: &str, other_artist: &str) -> (r: bool)
    ensures
        r == before_bucket(title@, artist@, other_title@, other_artist@),
{
    less_text(title, other_title) || (same(title, other_title) && less_text(artist, other_artist))
}

fn put_in_bucket(buckets: &mut Vec<Bucket>, item: &KeyedTrack)
    ensures
        bucket_views(final(buckets)@) == with_track(
            bucket_views(old(buckets)@),
            item@.title,
            item@.artist,
            item@.track,
        ),
{
    let ghost model = bucket_views(buckets@);
    let mut at: usize = buckets.len();
    assert(model.take(at as int) =~= model);
    while at > 0 && !goes_before(
        buckets[at - 1].title.as_str(),
        buckets[at - 1].artist.as_str(),
        item.title.as_str(),
        item.artist.as_str(),
    )
        invariant
            at <= buckets@.len(),
            model == bucket_views(buckets@),
            bucket_rank(model, item@.title, item@.artist) == bucket_rank(
                model.take(at as int),
                item@.title,
                item@.artist,
            ),
        decreases at,
    {
        assert(model.take(at as int).last() == buckets@[at - 1]@);
        assert(model.take(at as int).drop_last() =~= model.take(at - 1));
        at -= 1;
    }
    assert(at > 0 ==> model.take(at as int).last() == buckets@[at - 1]@);
    if at < buckets.len() {
        assert(model[at as int] == buckets@[at as int]@);
        if same(buckets[at].title.as_str(), item.title.as_str()) && same(
            buckets[at].artist.as_str(),
            item.artist.as_str(),
        ) {
            let ghost inner = track_views(buckets@[at as int].tracks@);
            let bucket: &mut Bucket = &mut buckets[at];
            bucket.tracks.push(item.track.clone());
            assert(track_views(buckets@[at as int].tracks@) =~= inner.push(item@.track));
            assert(bucket_views(buckets@) =~= model.update(
                at as int,
                BucketModel {
                    tracks: model[at as int].tracks.push(item@.track),
                    ..model[at as int]
                },
            ));
            return;
        }
    }
    let mut tracks: Vec<Track> = Vec::new();
    tracks.push(item.track.clone());
    assert(track_views(tracks@) =~= seq![item@.track]);
    let bucket = Bucket { title: item.title.clone(), artist: item.artist.clone(), tracks };
    let ghost entry = bucket@;
    buckets.insert(at, bucket);
    assert(bucket_views(buckets@) =~= model.insert(at as int, entry));
}

fn sort_into_buckets(keyed: &Vec<KeyedTrack>) -> (r: Vec<Bucket>)
    ensures
        bucket_views(r@) == buckets_of(keyed_views(keyed@)),
{
    let ghost model = keyed_views(keyed@);
    let mut r: Vec<Bucket> = Vec::new();
    let mut i: usize = 0;
    assert(bucket_views(r@) =~= buckets_of(model.take(0)));
    while i < keyed.len()
        invariant
            i <= keyed@.len(),
            model == keyed_views(keyed@),
            bucket_views(r@) == buckets_of(model.take(i as int)),
        decreases keyed@.len() - i,
    {
        assert(model.take(i + 1).drop_last() =~= model.take(i as int));
        assert(model.take(i + 1).last() == keyed@[i as int]@);
        if byte_len(keyed[i].title.as_str()) >= 2 {
            put_in_bucket(&mut r, &keyed[i]);
        }
        i += 1;
    }
    assert(model.take(i as int) =~= model);
    r
}

// ---------------------------------------------------------------- order

/// The order of two keys: by the first number, then by the second.
pub open spec fn goes_first(a: (i128, i64), b: (i128, i64)) -> bool {
    a.0 < b.0 || (a.0 == b.0 && a.1 < b.1)
}

/// Where an item with this key belongs: behind every item that does not come after it.
pub open spec fn slot(keys: Seq<(i128, i64)>, order: Seq<int>, key: (i128, i64)) -> int
    decreases order.len(),
{
    if order.len() == 0 {
        0
    } else if goes_first(key, keys[order.last()]) {
        slot(keys, order.drop_last(), key)
    } else {
        order.len() as int
    }
}

/// The positions of the first `n` keys in ascending order of the keys; equal keys stay in the order
/// in which they came.
pub open spec fn order_of(keys: Seq<(i128, i64)>, n: nat) -> Seq<int>
    decreases n,
{
    if n == 0 {
        Seq::empty()
    } else {
        let before = order_of(keys, (n - 1) as nat);
        before.insert(slot(keys, before, keys[n - 1]), n - 1)
    }
}

pub proof fn lemma_slot(keys: Seq<(i128, i64)>, order: Seq<int>, key: (i128, i64))
    requires
        forall|i: int, j: int|
            0 <= i < j < order.len() ==> !goes_first(
                keys[#[trigger] order[j]],
                keys[#[trigger] order[i]],
            ),
    ensures
        0 <= slot(keys, order, key) <= order.len(),
        forall|i: int|
            0 <= i < slot(keys, order, key) ==> !goes_first(key, keys[#[trigger] order[i]]),
        forall|i: int|
            slot(keys, order, key) <= i < order.len() ==> goes_first(key, keys[#[trigger] order[i]]),
    decreases order.len(),
{
    if order.len() > 0 {
        let front = order.drop_last();
        if goes_first(key, keys[order.last()]) {
            assert forall|i: int, j: int| 0 <= i < j < front.len() implies !goes_first(
                keys[#[trigger] front[j]],
                keys[#[trigger] front[i]],
            ) by {
                assert(front[i] == order[i] && front[j] == order[j]);
            }
            lemma_slot(keys, front, key);
            let at = slot(keys, front, key);
            assert forall|i: int| 0 <= i < at implies !goes_first(key, keys[#[trigger] order[i]]) by {
                assert(front[i] == order[i]);
            }
            assert forall|i: int| at <= i < order.len() implies goes_first(
                key,
                keys[#[trigger] order[i]],
            ) by {
                if i < front.len() {
                    assert(front[i] == order[i]);
                }
            }
        } else {
            assert forall|i: int| 0 <= i < order.len() implies !goes_first(
                key,
                keys[#[trigger] order[i]],
            ) by {
                if i < order.len() - 1 {
                    assert(!goes_first(keys[order[order.len() - 1]], keys[order[i]]));
                }
            }
        }
    }
}

/// Ordering items moves them and does nothing else: each position occurs exactly once, the keys
/// ascend, and items with equal keys keep their order.
pub proof fn ordering_is_a_stable_permutation(keys: Seq<(i128, i64)>, n: nat)
    requires
        n <= keys.len(),
    ensures
        order_of(keys, n).len() == n,
        forall|i: int|
            0 <= i < n ==> 0 <= #[trigger] order_of(keys, n)[i] < n,
        forall|k: int| 0 <= k < n ==> #[trigger] order_of(keys, n).contains(k),
        forall|i: int, j: int|
            0 <= i < j < n ==> {
                let a = #[trigger] order_of(keys, n)[i];
                let b = #[trigger] order_of(keys, n)[j];
                a != b && (goes_first(keys[a], keys[b]) || (keys[a] == keys[b] && a < b))
            },
    decreases n,
{
    if n > 0 {
        let m = (n - 1) as nat;
        ordering_is_a_stable_permutation(keys, m);
        let before = order_of(keys, m);
        let key = keys[n - 1];
        assert forall|i: int, j: int| 0 <= i < j < before.len() implies !goes_first(
            keys[#[trigger] before[j]],
            keys[#[trigger] before[i]],
        ) by {}
        lemma_slot(keys, before, key);
        let at = slot(keys, before, key);
        let after = before.insert(at, n - 1);
        assert(after == order_of(keys, n));
        assert forall|i: int| 0 <= i < n implies 0 <= #[trigger] after[i] < n by {
            if i < at {
                assert(after[i] == before[i]);
            } else if i > at {
                assert(after[i] == before[i - 1]);
            }
        }
        assert forall|k: int| 0 <= k < n implies #[trigger] after.contains(k) by {
            if k == n - 1 {
                assert(after[at] == k);
            } else {
                assert(before.contains(k));
                let i = choose|i: int| 0 <= i < before.len() && before[i] == k;
                if i < at {
                    assert(after[i] == k);
                } else {
                    assert(after[i + 1] == k);
                }
            }
        }
        assert forall|i: int, j: int| 0 <= i < j < n implies {
            let a = #[trigger] after[i];
            let b = #[trigger] after[j];
            a != b && (goes_first(keys[a], keys[b]) || (keys[a] == keys[b] && a < b))
        } by {
            let x = if i < at {
                i
            } else {
                i - 1
            };
            let y = if j < at {
                j
            } else {
                j - 1
            };
            if i != at {
                assert(after[i] == before[x]);
            }
            if j != at {
                assert(after[j] == before[y]);
            }
        }
    }
}

pub open spec fn positions(v: Seq<usize>) -> Seq<int> {
    v.map_values(|i: usize| i as int)
}

fn comes_first(a: (i128, i64), b: (i128, i64)) -> (r: bool)
    ensures
        r == goes_first(a, b),
{
    a.0 < b.0 || (a.0 == b.0 && a.1 < b.1)
}

/// The positions of the keys in ascending order.
pub fn put_in_order(keys: &Vec<(i128, i64)>) -> (r: Vec<usize>)
    ensures
        positions(r@) == order_of(keys@, keys@.len()),
{
    let mut r: Vec<usize> = Vec::new();
    let mut n: usize = 0;
    assert(positions(r@) =~= order_of(keys@, 0));
    while n < keys.len()
        invariant
            n <= keys@.len(),
            positions(r@) == order_of(keys@, n as nat),
        decreases keys@.len() - n,
    {
        proof {
            ordering_is_a_stable_permutation(keys@, n as nat);
        }
        let ghost order = positions(r@);
        let key = keys[n];
        let mut at: usize = r.len();
        assert(order.take(at as int) =~= order);
        assert forall|i: int| 0 <= i < r@.len() implies #[trigger] r@[i] < keys@.len() by {
            assert(order[i] == r@[i]);
        }
        while at > 0 && comes_first(key, keys[r[at - 1]])
            invariant
                at <= r@.len(),
                n < keys@.len(),
                key == keys@[n as int],
                order == positions(r@),
                forall|i: int| 0 <= i < r@.len() ==> #[trigger] r@[i] < keys@.len(),
                slot(keys@, order, key) == slot(keys@, order.take(at as int), key),
            decreases at,
        {
            assert(order.take(at as int).last() == order[at - 1]);
            assert(order.take(at as int).drop_last() =~= order.take(at - 1));
            at -= 1;
        }
        assert(at > 0 ==> order.take(at as int).last() == order[at - 1]);
        r.insert(at, n);
        assert(positions(r@) =~= order.insert(at as int, n as int));
        n += 1;
    }
    r
}

// ---------------------------------------------------------------- copies of about one length

pub open spec fn length_key(track: TrackModel) -> (i128, i64) {
    (
        match track.duration_us {
            Some(d) => d as i128,
            None => u64::MAX as i128,
        },
        track.id,
    )
}

pub open spec fn length_keys(tracks: Seq<TrackModel>) -> Seq<(i128, i64)> {
    tracks.map_values(|t: TrackModel| length_key(t))
}

/// The tracks from the shortest to the longest; those of unknown length come last.
pub open spec fn by_length(tracks: Seq<TrackModel>) -> Seq<TrackModel> {
    order_of(length_keys(tracks), tracks.len()).map_values(|i: int| tracks[i])
}

/// Two known lengths that differ by three seconds at most.
pub open spec fn near(a: Option<u64>, b: Option<u64>) -> bool {
    a is Some && b is Some && -3_000_000 <= a->0 - b->0 <= 3_000_000
}

/// Splits tracks in order of their length: a track joins the last part where its length is near
/// that of the first track there.
pub open spec fn parts_by_length(tracks: Seq<TrackModel>) -> Seq<Seq<TrackModel>>
    decreases tracks.len(),
{
    if tracks.len() == 0 {
        Seq::empty()
    } else {
        let before = parts_by_length(tracks.drop_last());
        let t = tracks.last();
        if before.len() > 0 && before.last().len() > 0 && near(
            t.duration_us,
            before.last()[0].duration_us,
        ) {
            before.update(before.len() - 1, before.last().push(t))
        } else {
            before.push(seq![t])
        }
    }
}

pub open spec fn part_views(v: Seq<Vec<Track>>) -> Seq<Seq<TrackModel>> {
    v.map_values(|p: Vec<Track>| track_views(p@))
}

fn sort_by_length(tracks: &Vec<Track>) -> (r: Vec<Track>)
    ensures
        track_views(r@) == by_length(track_views(tracks@)),
{
    let ghost model = track_views(tracks@);
    let mut keys: Vec<(i128, i64)> = Vec::new();
    let mut i: usize = 0;
    while i < tracks.len()
        invariant
            i <= tracks@.len(),
            model == track_views(tracks@),
            keys@ == length_keys(model).take(i as int),
        decreases tracks@.len() - i,
    {
        let length: i128 = match tracks[i].duration_us {
            Some(d) => d as i128,
            None => u64::MAX as i128,
        };
        keys.push((length, tracks[i].id));
        assert(model[i as int] == tracks@[i as int]@);
        i += 1;
        assert(keys@ =~= length_keys(model).take(i as int));
    }
    assert(keys@ =~= length_keys(model));
    let order = put_in_order(&keys);
    pick(tracks, &order)
}

/// The tracks at these positions.
fn pick(tracks: &Vec<Track>, order: &Vec<usize>) -> (r: Vec<Track>)
    requires
        exists|keys: Seq<(i128, i64)>|
            keys.len() == tracks@.len() && positions(order@) == #[trigger] order_of(
                keys,
                keys.len(),
            ),
    ensures
        track_views(r@) == positions(order@).map_values(|i: int| track_views(tracks@)[i]),
{
    let ghost model = track_views(tracks@);
    let ghost places = positions(order@);
    proof {
        let keys = choose|keys: Seq<(i128, i64)>|
            keys.len() == tracks@.len() && positions(order@) == #[trigger] order_of(
                keys,
                keys.len(),
            );
        ordering_is_a_stable_permutation(keys, keys.len());
        assert forall|i: int| 0 <= i < order@.len() implies #[trigger] order@[i] < tracks@.len() by {
            assert(places[i] == order@[i]);
        }
    }
    let mut r: Vec<Track> = Vec::new();
    let mut i: usize = 0;
    while i < order.len()
        invariant
            i <= order@.len(),
            model == track_views(tracks@),
            places == positions(order@),
            forall|i: int| 0 <= i < order@.len() ==> #[trigger] order@[i] < tracks@.len(),
            track_views(r@) == places.map_values(|i: int| model[i]).take(i as int),
        decreases order@.len() - i,
    {
        let at: usize = order[i];
        assert(places[i as int] == at);
        assert(model[at as int] == tracks@[at as int]@);
        let ghost before = track_views(r@);
        r.push(tracks[at].clone());
        assert(track_views(r@) =~= before.push(model[at as int]));
        i += 1;
        assert(track_views(r@) =~= places.map_values(|i: int| model[i]).take(i as int));
    }
    assert(track_views(r@) =~= places.map_values(|i: int| model[i]));
    r
}

fn is_near(a: Option<u64>, b: Option<u64>) -> (r: bool)
    ensures
        r == near(a, b),
{
    match (a, b) {
        (Some(a), Some(b)) => if a >= b {
            a - b <= 3_000_000
        } else {
            b - a <= 3_000_000
        },
        _ => false,
    }
}

fn split_by_length(tracks: &Vec<Track>) -> (r: Vec<Vec<Track>>)
    ensures
        part_views(r@) == parts_by_length(track_views(tracks@)),
{
    let ghost model = track_views(tracks@);
    let mut r: Vec<Vec<Track>> = Vec::new();
    let mut i: usize = 0;
    assert(part_views(r@) =~= parts_by_length(model.take(0)));
    while i < tracks.len()
        invariant
            i <= tracks@.len(),
            model == track_views(tracks@),
            part_views(r@) == parts_by_length(model.take(i as int)),
        decreases tracks@.len() - i,
    {
        assert(model.take(i + 1).drop_last() =~= model.take(i as int));
        assert(model.take(i + 1).last() == tracks@[i as int]@);
        let ghost before = part_views(r@);
        let ghost t = tracks@[i as int]@;
        let count: usize = r.len();
        let joins: bool = if count > 0 && r[count - 1].len() > 0 {
            assert(before.last() == track_views(r@[count - 1]@));
            assert(before.last()[0] == r@[count - 1]@[0]@);
            is_near(tracks[i].duration_us, r[count - 1][0].duration_us)
        } else {
            assert(count > 0 ==> before.last() == track_views(r@[count - 1]@));
            false
        };
        if joins {
            let part: &mut Vec<Track> = &mut r[count - 1];
            part.push(tracks[i].clone());
            assert(track_views(r@[count - 1]@) =~= before.last().push(t));
            assert(part_views(r@) =~= before.update(before.len() - 1, before.last().push(t)));
        } else {
            let mut part: Vec<Track> = Vec::new();
            part.push(tracks[i].clone());
            assert(track_views(part@) =~= seq![t]);
            r.push(part);
            assert(part_views(r@) =~= before.push(seq![t]));
        }
        i += 1;
    }
    assert(model.take(i as int) =~= model);
    r
}

// ---------------------------------------------------------------- groups

pub struct DuplicateCandidate {
    pub track: Track,
    pub quality_score: i128,
    pub quality_label: String,
}

#[verifier::ext_equal]
pub struct CandidateModel {
    pub track: TrackModel,
    pub quality_score: i128,
    pub quality_label: Seq<char>,
}

impl View for DuplicateCandidate {
    type V = CandidateModel;

    open spec fn view(&self) -> CandidateModel {
        CandidateModel {
            track: self.track@,
            quality_score: self.quality_score,
            quality_label: self.quality_label@,
        }
    }
}

pub open spec fn candidate_views(v: Seq<DuplicateCandidate>) -> Seq<CandidateModel> {
    v.map_values(|c: DuplicateCandidate| c@)
}

/// Tracks that look like copies of one another.
pub struct DuplicateGroup {
    pub group_id: String,
    pub confidence: &'static str,
    pub reason: String,
    pub keep_id: i64,
    pub candidates: Vec<DuplicateCandidate>,
}

#[verifier::ext_equal]
pub struct GroupModel {
    pub group_id: Seq<char>,
    pub confidence: Seq<char>,
    pub reason: Seq<char>,
    pub keep_id: i64,
    pub candidates: Seq<CandidateModel>,
}

impl View for DuplicateGroup {
    type V = GroupModel;

    open spec fn view(&self) -> GroupModel {
        GroupModel {
            group_id: self.group_id@,
            confidence: self.confidence@,
            reason: self.reason@,
            keep_id: self.keep_id,
            candidates: candidate_views(self.candidates@),
        }
    }
}

pub open spec fn group_views(v: Seq<DuplicateGroup>) -> Seq<GroupModel> {
    v.map_values(|g: DuplicateGroup| g@)
}

/// All tracks came from the same place of the same platform.
pub open spec fn same_source(part: Seq<TrackModel>) -> bool {
    &&& part.len() > 0
    &&& trimmed(part[0].source_key).len() > 0
    &&& forall|i: int|
        0 <= i < part.len() ==> (#[trigger] part[i]).source_platform == part[0].source_platform
            && part[i].source_key == part[0].source_key
}

pub open spec fn same_size(part: Seq<TrackModel>) -> bool {
    &&& part.len() > 0
    &&& part[0].size > 0
    &&& forall|i: int| 0 <= i < part.len() ==> (#[trigger] part[i]).size == part[0].size
}

pub open spec fn confidence_of(part: Seq<TrackModel>) -> Seq<char> {
    if same_source(part) {
        "high"@
    } else {
        "possible"@
    }
}

pub open spec fn reason_of(part: Seq<TrackModel>) -> Seq<char> {
    if same_source(part) {
        "来源标识相同，标题、艺人和时长一致"@
    } else if same_size(part) {
        "标题、艺人、时长和文件大小一致"@
    } else {
        "标题、艺人和时长接近，请试听确认"@
    }
}

/// The better copy comes first, then the one with the smaller number.
pub open spec fn quality_keys(part: Seq<TrackModel>) -> Seq<(i128, i64)> {
    part.map_values(|t: TrackModel| ((-score_of(t)) as i128, t.id))
}

pub open spec fn by_quality(part: Seq<TrackModel>) -> Seq<TrackModel> {
    order_of(quality_keys(part), part.len()).map_values(|i: int| part[i])
}

pub open spec fn candidate_of(track: TrackModel) -> CandidateModel {
    CandidateModel {
        track,
        quality_score: score_of(track) as i128,
        quality_label: label_of(track),
    }
}

pub open spec fn group_of(
    title: Seq<char>,
    artist: Seq<char>,
    index: nat,
    part: Seq<TrackModel>,
) -> GroupModel {
    GroupModel {
        group_id: title + ":"@ + artist + ":"@ + decimal(index),
        confidence: confidence_of(part),
        reason: reason_of(part),
        keep_id: by_quality(part)[0].id,
        candidates: by_quality(part).map_values(|t: TrackModel| candidate_of(t)),
    }
}

/// The groups so far with those of one bucket: every part with two tracks or more.
pub open spec fn with_parts(
    groups: Seq<GroupModel>,
    title: Seq<char>,
    artist: Seq<char>,
    parts: Seq<Seq<TrackModel>>,
) -> Seq<GroupModel>
    decreases parts.len(),
{
    if parts.len() == 0 {
        groups
    } else {
        let before = with_parts(groups, title, artist, parts.drop_last());
        if parts.last().len() > 1 {
            before.push(group_of(title, artist, before.len(), parts.last()))
        } else {
            before
        }
    }
}

pub open spec fn groups_in(buckets: Seq<BucketModel>) -> Seq<GroupModel>
    decreases buckets.len(),
{
    if buckets.len() == 0 {
        Seq::empty()
    } else {
        let b = buckets.last();
        with_parts(
            groups_in(buckets.drop_last()),
            b.title,
            b.artist,
            parts_by_length(by_length(b.tracks)),
        )
    }
}

/// The score of every track fits.
pub proof fn lemma_score_bounds(track: TrackModel)
    ensures
        0 <= score_of(track) <= 2_000_000_000_000_000 + i64::MAX * 100_000_000 + i64::MAX * 1_000_000
            + 999_999,
{
}

fn is_same_source(part: &Vec<Track>) -> (r: bool)
    requires
        part@.len() > 0,
    ensures
        r == same_source(track_views(part@)),
{
    let ghost model = track_views(part@);
    assert(model[0] == part@[0]@);
    if trim(part[0].source_key.as_str()).as_str().is_empty() {
        return false;
    }
    let mut i: usize = 0;
    while i < part.len()
        invariant
            0 < part@.len(),
            i <= part@.len(),
            model == track_views(part@),
            forall|j: int|
                0 <= j < i ==> (#[trigger] model[j]).source_platform == model[0].source_platform
                    && model[j].source_key == model[0].source_key,
        decreases part@.len() - i,
    {
        assert(model[i as int] == part@[i as int]@ && model[0] == part@[0]@);
        if !same(part[i].source_platform.as_str(), part[0].source_platform.as_str()) || !same(
            part[i].source_key.as_str(),
            part[0].source_key.as_str(),
        ) {
            return false;
        }
        i += 1;
    }
    true
}

fn is_same_size(part: &Vec<Track>) -> (r: bool)
    requires
        part@.len() > 0,
    ensures
        r == same_size(track_views(part@)),
{
    let ghost model = track_views(part@);
    assert(model[0] == part@[0]@);
    if part[0].size <= 0 {
        return false;
    }
    let mut i: usize = 0;
    while i < part.len()
        invariant
            0 < part@.len(),
            i <= part@.len(),
            model == track_views(part@),
            forall|j: int| 0 <= j < i ==> (#[trigger] model[j]).size == model[0].size,
        decreases part@.len() - i,
    {
        assert(model[i as int] == part@[i as int]@ && model[0] == part@[0]@);
        if part[i].size != part[0].size {
            return false;
        }
        i += 1;
    }
    true
}

fn rank_copies(part: &Vec<Track>) -> (r: Vec<Track>)
    ensures
        track_views(r@) == by_quality(track_views(part@)),
{
    let ghost model = track_views(part@);
    let mut keys: Vec<(i128, i64)> = Vec::new();
    let mut i: usize = 0;
    while i < part.len()
        invariant
            i <= part@.len(),
            model == track_views(part@),
            keys@ == quality_keys(model).take(i as int),
        decreases part@.len() - i,
    {
        let (score, _) = duplicate_quality(&part[i]);
        proof {
            lemma_score_bounds(part@[i as int]@);
        }
        let key: i128 = -score;
        keys.push((key, part[i].id));
        assert(model[i as int] == part@[i as int]@);
        i += 1;
        assert(keys@ =~= quality_keys(model).take(i as int));
    }
    assert(keys@ =~= quality_keys(model));
    let order = put_in_order(&keys);
    pick(part, &order)
}

fn make_group(title: &str, artist: &str, index: usize, part: &Vec<Track>) -> (r: DuplicateGroup)
    requires
        part@.len() > 1,
    ensures
        r@ == group_of(title@, artist@, index as nat, track_views(part@)),
{
    let ghost model = track_views(part@);
    let from_one_place: bool = is_same_source(part);
    let of_one_size: bool = is_same_size(part);
    let confidence: &'static str = if from_one_place {
        "high"
    } else {
        "possible"
    };
    let reason = if from_one_place {
        "来源标识相同，标题、艺人和时长一致".to_owned()
    } else if of_one_size {
        "标题、艺人、时长和文件大小一致".to_owned()
    } else {
        "标题、艺人和时长接近，请试听确认".to_owned()
    };
    let ranked = rank_copies(part);
    proof {
        ordering_is_a_stable_permutation(quality_keys(model), model.len());
    }
    let ghost best = by_quality(model);
    assert(best.len() == model.len());
    let keep_id: i64 = ranked[0].id;
    assert(best[0] == ranked@[0]@);
    let mut candidates: Vec<DuplicateCandidate> = Vec::new();
    let mut i: usize = 0;
    while i < ranked.len()
        invariant
            i <= ranked@.len(),
            best == track_views(ranked@),
            candidate_views(candidates@) == best.map_values(|t: TrackModel| candidate_of(t)).take(
                i as int,
            ),
        decreases ranked@.len() - i,
    {
        let (quality_score, quality_label) = duplicate_quality(&ranked[i]);
        let ghost before = candidate_views(candidates@);
        candidates.push(
            DuplicateCandidate { track: ranked[i].clone(), quality_score, quality_label },
        );
        assert(best[i as int] == ranked@[i as int]@);
        assert(candidates@.last()@ == candidate_of(best[i as int]));
        assert(candidate_views(candidates@) =~= before.push(candidate_of(best[i as int])));
        i += 1;
        assert(candidate_views(candidates@) =~= best.map_values(
            |t: TrackModel| candidate_of(t),
        ).take(i as int));
    }
    assert(candidate_views(candidates@) =~= best.map_values(|t: TrackModel| candidate_of(t)));
    let mut group_id = title.to_owned();
    group_id.append(":");
    group_id.append(artist);
    group_id.append(":");
    append_decimal(&mut group_id, index as u64);
    assert(group_id@ =~= title@ + ":"@ + artist@ + ":"@ + decimal(index as nat));
    DuplicateGroup { group_id, confidence, reason, keep_id, candidates }
}

/// The groups of copies among tracks whose titles and artists are ready to be compared.
pub fn group_tracks(keyed: &Vec<KeyedTrack>) -> (r: Vec<DuplicateGroup>)
    ensures
        group_views(r@) == groups_in(buckets_of(keyed_views(keyed@))),
{
    let buckets = sort_into_buckets(keyed);
    let ghost model = bucket_views(buckets@);
    let mut groups: Vec<DuplicateGroup> = Vec::new();
    let mut i: usize = 0;
    assert(group_views(groups@) =~= groups_in(model.take(0)));
    while i < buckets.len()
        invariant
            i <= buckets@.len(),
            model == bucket_views(buckets@),
            group_views(groups@) == groups_in(model.take(i as int)),
        decreases buckets@.len() - i,
    {
        assert(model.take(i + 1).drop_last() =~= model.take(i as int));
        assert(model.take(i + 1).last() == buckets@[i as int]@);
        let bucket = &buckets[i];
        let sorted = sort_by_length(&bucket.tracks);
        let parts = split_by_length(&sorted);
        let ghost start = group_views(groups@);
        let ghost pieces = part_views(parts@);
        let mut k: usize = 0;
        assert(with_parts(start, bucket@.title, bucket@.artist, pieces.take(0)) == start);
        while k < parts.len()
            invariant
                k <= parts@.len(),
                pieces == part_views(parts@),
                group_views(groups@) == with_parts(
                    start,
                    bucket@.title,
                    bucket@.artist,
                    pieces.take(k as int),
                ),
            decreases parts@.len() - k,
        {
            assert(pieces.take(k + 1).drop_last() =~= pieces.take(k as int));
            assert(pieces.take(k + 1).last() == track_views(parts@[k as int]@));
            if parts[k].len() > 1 {
                let ghost before = group_views(groups@);
                let group = make_group(
                    bucket.title.as_str(),
                    bucket.artist.as_str(),
                    groups.len(),
                    &parts[k],
                );
                let ghost entry = group@;
                groups.push(group);
                assert(group_views(groups@) =~= before.push(entry));
            }
            k += 1;
        }
        assert(pieces.take(k as int) =~= pieces);
        i += 1;
    }
    assert(model.take(i as int) =~= model);
    groups
}

pub open spec fn keyed_of(track: TrackModel) -> KeyedModel {
    KeyedModel { title: bare_text(title_of(track)), artist: bare_text(track.artist), track }
}

/// The groups of copies among tracks.
pub fn duplicate_groups(tracks: &Vec<Track>) -> (r: Vec<DuplicateGroup>)
    ensures
        group_views(r@) == groups_in(
            buckets_of(track_views(tracks@).map_values(|t: TrackModel| keyed_of(t))),
        ),
{
    let ghost model = track_views(tracks@).map_values(|t: TrackModel| keyed_of(t));
    let mut keyed: Vec<KeyedTrack> = Vec::new();
    let mut i: usize = 0;
    while i < tracks.len()
        invariant
            i <= tracks@.len(),
            model == track_views(tracks@).map_values(|t: TrackModel| keyed_of(t)),
            keyed_views(keyed@) == model.take(i as int),
        decreases tracks@.len() - i,
    {
        let name = read_title(&tracks[i]);
        let ghost before = keyed_views(keyed@);
        keyed.push(
            KeyedTrack {
                title: duplicate_text(name.as_str()),
                artist: duplicate_text(tracks[i].artist.as_str()),
                track: tracks[i].clone(),
            },
        );
        assert(track_views(tracks@)[i as int] == tracks@[i as int]@);
        assert(keyed@.last()@ == model[i as int]);
        assert(keyed_views(keyed@) =~= before.push(model[i as int]));
        i += 1;
        assert(keyed_views(keyed@) =~= model.take(i as int));
    }
    assert(keyed_views(keyed@) =~= model);
    group_tracks(&keyed)
}

/// A group keeps the best copy: no candidate has a better score than the first, and the candidates
/// are exactly the tracks that were grouped.
pub proof fn a_group_keeps_its_best_copy(
    title: Seq<char>,
    artist: Seq<char>,
    index: nat,
    part: Seq<TrackModel>,
)
    requires
        part.len() > 0,
    ensures
        ({
            let g = group_of(title, artist, index, part);
            &&& g.candidates.len() == part.len()
            &&& g.keep_id == g.candidates[0].track.id
            &&& forall|i: int|
                0 <= i < g.candidates.len() ==> (#[trigger] g.candidates[i]).quality_score
                    <= g.candidates[0].quality_score
            &&& forall|k: int|
                0 <= k < part.len() ==> g.candidates.contains(candidate_of(#[trigger] part[k]))
            &&& forall|i: int|
                0 <= i < g.candidates.len() ==> part.contains(
                    (#[trigger] g.candidates[i]).track,
                )
        }),
{
    let g = group_of(title, artist, index, part);
    let keys = quality_keys(part);
    let order = order_of(keys, part.len());
    ordering_is_a_stable_permutation(keys, part.len());
    assert forall|i: int| 0 <= i < g.candidates.len() implies (#[trigger] g.candidates[i]).quality_score
        <= g.candidates[0].quality_score by {
        let a = order[0];
        let b = order[i];
        lemma_score_bounds(part[a]);
        lemma_score_bounds(part[b]);
        assert(keys[a].0 == -score_of(part[a]) && keys[b].0 == -score_of(part[b]));
        assert(g.candidates[i].quality_score == score_of(part[b]));
        assert(g.candidates[0].quality_score == score_of(part[a]));
    }
    assert forall|k: int| 0 <= k < part.len() implies g.candidates.contains(
        candidate_of(#[trigger] part[k]),
    ) by {
        assert(order.contains(k));
        let i = choose|i: int| 0 <= i < order.len() && order[i] == k;
        assert(g.candidates[i] == candidate_of(part[k]));
    }
    assert forall|i: int| 0 <= i < g.candidates.len() implies part.contains(
        (#[trigger] g.candidates[i]).track,
    ) by {
        assert(g.candidates[i].track == part[order[i]]);
    }
}

/// Versions of different length are never taken for copies: within a part every length is known and
/// near that of the first track, unless the track stands alone.
pub proof fn copies_are_of_about_one_length(tracks: Seq<TrackModel>)
    ensures
        forall|p: int|
            0 <= p < parts_by_length(tracks).len() ==> (#[trigger] parts_by_length(
                tracks,
            )[p]).len() > 0,
        forall|p: int, k: int|
            0 <= p < parts_by_length(tracks).len() && 0 < k < parts_by_length(tracks)[p].len()
                ==> near(
                (#[trigger] parts_by_length(tracks)[p][k]).duration_us,
                parts_by_length(tracks)[p][0].duration_us,
            ),
    decreases tracks.len(),
{
    if tracks.len() > 0 {
        let front = tracks.drop_last();
        copies_are_of_about_one_length(front);
        let before = parts_by_length(front);
        let after = parts_by_length(tracks);
        let last = before.len() - 1;
        let joins = before.len() > 0 && before.last().len() > 0 && near(
            tracks.last().duration_us,
            before.last()[0].duration_us,
        );
        assert forall|p: int| 0 <= p < after.len() implies (#[trigger] after[p]).len() > 0 by {
            if p < before.len() {
                assert(before[p].len() > 0);
            }
        }
        assert forall|p: int, k: int| 0 <= p < after.len() && 0 < k < after[p].len() implies near(
            (#[trigger] after[p][k]).duration_us,
            after[p][0].duration_us,
        ) by {
            if joins && p == last {
                if k < before[p].len() {
                    assert(after[p][k] == before[p][k]);
                }
                assert(after[p][0] == before[p][0]);
            } else if p < before.len() {
                assert(after[p] == before[p]);
                assert(near(before[p][k].duration_us, before[p][0].duration_us));
            }
        }
    }
}

// ---------------------------------------------------------------- files that are gone

/// A configured library folder, and whether it is there.
pub struct ConfiguredRoot {
    pub path: String,
    pub online: bool,
}

/// A track, and whether its file is there.
pub struct FoundTrack {
    pub track: Track,
    pub present: bool,
}

pub open spec fn root_views(v: Seq<ConfiguredRoot>) -> Seq<(Seq<char>, bool)> {
    v.map_values(|r: ConfiguredRoot| (r.path@, r.online))
}

pub open spec fn found_views(v: Seq<FoundTrack>) -> Seq<(TrackModel, bool)> {
    v.map_values(|f: FoundTrack| (f.track@, f.present))
}

/// The folders that are not there.
pub open spec fn offline_paths(roots: Seq<(Seq<char>, bool)>) -> Seq<Seq<char>>
    decreases roots.len(),
{
    if roots.len() == 0 {
        Seq::empty()
    } else if roots.last().1 {
        offline_paths(roots.drop_last())
    } else {
        offline_paths(roots.drop_last()).push(roots.last().0)
    }
}

/// A path lies below one of these folders.
pub open spec fn under_any(path: Seq<char>, roots: Seq<Seq<char>>, folds_case: bool) -> bool {
    exists|i: int| 0 <= i < roots.len() && under_root(path, #[trigger] roots[i], folds_case)
}

/// The tracks whose files are there (or are not), without those below a folder that is not there.
pub open spec fn tracks_found(
    found: Seq<(TrackModel, bool)>,
    offline: Seq<Seq<char>>,
    folds_case: bool,
    present: bool,
) -> Seq<TrackModel>
    decreases found.len(),
{
    if found.len() == 0 {
        Seq::empty()
    } else {
        let before = tracks_found(found.drop_last(), offline, folds_case, present);
        let f = found.last();
        if f.1 == present && !under_any(f.0.path, offline, folds_case) {
            before.push(f.0)
        } else {
            before
        }
    }
}

/// What is known of the files of a library.
pub struct LibraryState {
    pub missing_tracks: Vec<Track>,
    pub offline_roots: Vec<String>,
    pub available_tracks: Vec<Track>,
}

fn under_one_of(path: &str, roots: &Vec<String>, folds_case: bool) -> (r: bool)
    ensures
        r == under_any(path@, texts(roots@), folds_case),
{
    let ghost model = texts(roots@);
    let mut i: usize = 0;
    while i < roots.len()
        invariant
            i <= roots@.len(),
            model == texts(roots@),
            forall|j: int| 0 <= j < i ==> !under_root(path@, #[trigger] model[j], folds_case),
        decreases roots@.len() - i,
    {
        assert(model[i as int] == roots@[i as int]@);
        if path_under_root(path, roots[i].as_str(), folds_case) {
            assert(under_root(path@, model[i as int], folds_case));
            return true;
        }
        i += 1;
    }
    false
}

/// Sorts the tracks into those whose files are gone and those whose files are there. Nothing is
/// said of tracks below a folder that is not there: its drive may only be unplugged.
pub fn unavailable_library_tracks(
    found: &Vec<FoundTrack>,
    configured_roots: &Vec<ConfiguredRoot>,
    folds_case: bool,
) -> (r: LibraryState)
    ensures
        ({
            let offline = offline_paths(root_views(configured_roots@));
            &&& texts(r.offline_roots@) == ordered(offline)
            &&& track_views(r.missing_tracks@) == tracks_found(
                found_views(found@),
                offline,
                folds_case,
                false,
            )
            &&& track_views(r.available_tracks@) == tracks_found(
                found_views(found@),
                offline,
                folds_case,
                true,
            )
        }),
{
    let ghost roots = root_views(configured_roots@);
    let mut offline: Vec<String> = Vec::new();
    let mut i: usize = 0;
    assert(texts(offline@) =~= offline_paths(roots.take(0)));
    while i < configured_roots.len()
        invariant
            i <= configured_roots@.len(),
            roots == root_views(configured_roots@),
            texts(offline@) == offline_paths(roots.take(i as int)),
        decreases configured_roots@.len() - i,
    {
        assert(roots.take(i + 1).drop_last() =~= roots.take(i as int));
        let ghost root = configured_roots@[i as int];
        assert(roots.take(i + 1).last() == (root.path@, root.online));
        if !configured_roots[i].online {
            let ghost before = texts(offline@);
            offline.push(configured_roots[i].path.clone());
            assert(texts(offline@) =~= before.push(root.path@));
        }
        i += 1;
    }
    assert(roots.take(i as int) =~= roots);
    let ghost away = texts(offline@);
    let ghost all = found_views(found@);
    let mut missing_tracks: Vec<Track> = Vec::new();
    let mut available_tracks: Vec<Track> = Vec::new();
    let mut k: usize = 0;
    assert(track_views(missing_tracks@) =~= tracks_found(all.take(0), away, folds_case, false));
    assert(track_views(available_tracks@) =~= tracks_found(all.take(0), away, folds_case, true));
    while k < found.len()
        invariant
            k <= found@.len(),
            all == found_views(found@),
            away == texts(offline@),
            track_views(missing_tracks@) == tracks_found(
                all.take(k as int),
                away,
                folds_case,
                false,
            ),
            track_views(available_tracks@) == tracks_found(
                all.take(k as int),
                away,
                folds_case,
                true,
            ),
        decreases found@.len() - k,
    {
        assert(all.take(k + 1).drop_last() =~= all.take(k as int));
        let ghost f = found@[k as int];
        assert(all.take(k + 1).last() == (f.track@, f.present));
        if !under_one_of(found[k].track.path.as_str(), &offline, folds_case) {
            if found[k].present {
                let ghost before = track_views(available_tracks@);
                available_tracks.push(found[k].track.clone());
                assert(track_views(available_tracks@) =~= before.push(f.track@));
            } else {
                let ghost before = track_views(missing_tracks@);
                missing_tracks.push(found[k].track.clone());
                assert(track_views(missing_tracks@) =~= before.push(f.track@));
            }
        }
        k += 1;
    }
    assert(all.take(k as int) =~= all);
    LibraryState { missing_tracks, offline_roots: sort_texts(&offline), available_tracks }
}

/// A track below a folder that is not there is never called missing.
pub proof fn an_unplugged_drive_loses_no_track(
    found: Seq<(TrackModel, bool)>,
    offline: Seq<Seq<char>>,
    folds_case: bool,
    present: bool,
)
    ensures
        forall|i: int|
            0 <= i < tracks_found(found, offline, folds_case, present).len() ==> !under_any(
                (#[trigger] tracks_found(found, offline, folds_case, present)[i]).path,
                offline,
                folds_case,
            ),
    decreases found.len(),
{
    if found.len() > 0 {
        an_unplugged_drive_loses_no_track(found.drop_last(), offline, folds_case, present);
        let before = tracks_found(found.drop_last(), offline, folds_case, present);
        let after = tracks_found(found, offline, folds_case, present);
        assert forall|i: int| 0 <= i < after.len() implies !under_any(
            (#[trigger] after[i]).path,
            offline,
            folds_case,
        ) by {
            if i < before.len() {
                assert(after[i] == before[i]);
            }
        }
    }
}

// ---------------------------------------------------------------- what is compared

/// A search needs folders, unless it covers the whole library.
pub fn check_duplicate_request(all: bool, folders: &Vec<String>) -> (r: Result<(), ApiError>)
    ensures
        check_result(r) == (if !all && folders@.len() == 0 {
            Err(bad("至少选择一个文件夹"@))
        } else {
            Ok(())
        }),
{
    if !all && folders.len() == 0 {
        return Err(ApiError::bad_request("至少选择一个文件夹".to_owned()));
    }
    Ok(())
}

/// The folders that a search goes through: in order, each once, and where subfolders count, none
/// that another one covers.
pub open spec fn search_folders(folders: Seq<Seq<char>>, include_subfolders: bool) -> Seq<
    Seq<char>,
> {
    if include_subfolders {
        outermost(ordered(folders))
    } else {
        ordered(folders)
    }
}

pub fn duplicate_folders(folders: &Vec<String>, include_subfolders: bool) -> (r: Vec<String>)
    ensures
        texts(r@) == search_folders(texts(folders@), include_subfolders),
{
    let sorted = sort_texts(folders);
    if include_subfolders {
        drop_nested(&sorted)
    } else {
        sorted
    }
}

/// How many tracks are read at a time.
pub const TRACK_PAGE: i64 = 2000;

/// What is read next.
pub struct TrackPage {
    /// Empty for the whole library.
    pub folder: String,
    pub limit: i64,
    pub offset: i64,
}

/// Goes through folders page by page and collects every track once.
pub struct TrackSweep {
    pub folders: Vec<String>,
    pub at: usize,
    pub offset: i64,
    pub tracks: Vec<Track>,
}

#[verifier::ext_equal]
pub struct SweepModel {
    pub folders: Seq<Seq<char>>,
    pub at: nat,
    pub offset: int,
    pub tracks: Seq<TrackModel>,
}

impl View for TrackSweep {
    type V = SweepModel;

    open spec fn view(&self) -> SweepModel {
        SweepModel {
            folders: texts(self.folders@),
            at: self.at as nat,
            offset: self.offset as int,
            tracks: track_views(self.tracks@),
        }
    }
}

pub open spec fn has_id(tracks: Seq<TrackModel>, id: i64) -> bool {
    exists|i: int| 0 <= i < tracks.len() && (#[trigger] tracks[i]).id == id
}

/// The tracks with those of a page that are not among them.
pub open spec fn with_new(tracks: Seq<TrackModel>, page: Seq<TrackModel>) -> Seq<TrackModel>
    decreases page.len(),
{
    if page.len() == 0 {
        tracks
    } else {
        let before = with_new(tracks, page.drop_last());
        if has_id(before, page.last().id) {
            before
        } else {
            before.push(page.last())
        }
    }
}

impl SweepModel {
    /// After a page: a page without tracks, or one that reaches the total, ends the folder.
    pub open spec fn after_page(self, page: Seq<TrackModel>, total: i64) -> SweepModel {
        let offset = self.offset + page.len();
        let tracks = with_new(self.tracks, page);
        if page.len() == 0 || offset >= total {
            SweepModel { at: self.at + 1, offset: 0, tracks, ..self }
        } else {
            SweepModel { offset, tracks, ..self }
        }
    }
}

fn holds_id(tracks: &Vec<Track>, id: i64) -> (r: bool)
    ensures
        r == has_id(track_views(tracks@), id),
{
    let ghost model = track_views(tracks@);
    let mut i: usize = 0;
    while i < tracks.len()
        invariant
            i <= tracks@.len(),
            model == track_views(tracks@),
            forall|j: int| 0 <= j < i ==> (#[trigger] model[j]).id != id,
        decreases tracks@.len() - i,
    {
        assert(model[i as int] == tracks@[i as int]@);
        if tracks[i].id == id {
            return true;
        }
        i += 1;
    }
    false
}

impl TrackSweep {
    /// Begins with the first folder; the whole library is one folder without a name.
    pub fn begin(all: bool, folders: &Vec<String>) -> (r: Self)
        ensures
            r@ == (SweepModel {
                folders: if all {
                    seq![""@]
                } else {
                    texts(folders@)
                },
                at: 0,
                offset: 0,
                tracks: Seq::empty(),
            }),
    {
        let list = if all {
            let mut one: Vec<String> = Vec::new();
            one.push("".to_owned());
            assert(texts(one@) =~= seq![""@]);
            one
        } else {
            crate::models::clone_texts(folders)
        };
        let r = TrackSweep { folders: list, at: 0, offset: 0, tracks: Vec::new() };
        assert(r@.tracks =~= Seq::<TrackModel>::empty());
        r
    }

    /// The page to read next; nothing at the end.
    pub fn next(&self) -> (r: Option<TrackPage>)
        ensures
            match r {
                Some(page) => self@.at < self@.folders.len() && page.folder@
                    == self@.folders[self@.at as int] && page.limit == TRACK_PAGE && page.offset
                    == self@.offset,
                None => self@.at >= self@.folders.len(),
            },
    {
        if self.at < self.folders.len() {
            assert(self@.folders[self.at as int] == self.folders@[self.at as int]@);
            Some(
                TrackPage {
                    folder: self.folders[self.at].clone(),
                    limit: TRACK_PAGE,
                    offset: self.offset,
                },
            )
        } else {
            None
        }
    }

    /// Takes in the page that was asked for.
    pub fn take_page(&mut self, items: &Vec<Track>, total: i64)
        requires
            old(self)@.at < old(self)@.folders.len(),
            0 <= old(self)@.offset,
            old(self)@.offset + items@.len() <= i64::MAX,
        ensures
            final(self)@ == old(self)@.after_page(track_views(items@), total),
    {
        let ghost before = self@;
        let ghost page = track_views(items@);
        let mut i: usize = 0;
        assert(page.take(0) =~= Seq::<TrackModel>::empty());
        while i < items.len()
            invariant
                i <= items@.len(),
                page == track_views(items@),
                self@.folders == before.folders,
                self@.at == before.at,
                self@.offset == before.offset,
                self@.tracks == with_new(before.tracks, page.take(i as int)),
            decreases items@.len() - i,
        {
            assert(page.take(i + 1).drop_last() =~= page.take(i as int));
            assert(page.take(i + 1).last() == items@[i as int]@);
            if !holds_id(&self.tracks, items[i].id) {
                let ghost list = self@.tracks;
                self.tracks.push(items[i].clone());
                assert(self@.tracks =~= list.push(items@[i as int]@));
            }
            i += 1;
        }
        assert(page.take(i as int) =~= page);
        let offset: i64 = self.offset + items.len() as i64;
        if items.len() == 0 || offset >= total {
            let count: usize = self.folders.len();
            assert(self.at < count);
            self.at = self.at + 1;
            self.offset = 0;
        } else {
            self.offset = offset;
        }
    }
}

/// No track is collected twice, however the folders overlap.
pub proof fn no_track_is_counted_twice(tracks: Seq<TrackModel>, page: Seq<TrackModel>)
    requires
        forall|i: int, j: int|
            0 <= i < j < tracks.len() ==> (#[trigger] tracks[i]).id != (#[trigger] tracks[j]).id,
    ensures
        forall|i: int, j: int|
            0 <= i < j < with_new(tracks, page).len() ==> (#[trigger] with_new(
                tracks,
                page,
            )[i]).id != (#[trigger] with_new(tracks, page)[j]).id,
    decreases page.len(),
{
    if page.len() > 0 {
        no_track_is_counted_twice(tracks, page.drop_last());
    }
}

} // verus!
