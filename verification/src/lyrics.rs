//! Finding the lyrics of a track: where to look, which songs match, and how long a result is kept.

use vstd::prelude::*;

use crate::duplicates::{order_of, ordering_is_a_stable_permutation, positions, put_in_order};
use crate::models::{texts, Platform};
use crate::paths::in_list;
use crate::text::{
    all_space, chars_of, copy_chars, find_char, join, joined_by, lemma_spacing_keeps_words,
    lemma_words_apart, lower, lower_ascii, lowercase_text, position, same, split, split_all,
    split_at_char, split_once, string_of, to_lowercase, trim, trimmed, words, words_of,
};
use crate::urls::pair_views;

verus! {

// ---------------------------------------------------------------- what is asked for

pub struct LyricsRequest {
    pub title: String,
    pub artist: String,
    /// The length of the track in milliseconds.
    pub duration_ms: Option<u64>,
    pub platform: Option<Platform>,
    pub key: String,
    pub engines: Vec<Platform>,
    pub prefer: String,
}

#[verifier::ext_equal]
pub struct LyricsRequestModel {
    pub title: Seq<char>,
    pub artist: Seq<char>,
    pub duration_ms: Option<u64>,
    pub platform: Option<Platform>,
    pub key: Seq<char>,
    pub engines: Seq<Platform>,
    pub prefer: Seq<char>,
}

impl View for LyricsRequest {
    type V = LyricsRequestModel;

    open spec fn view(&self) -> LyricsRequestModel {
        LyricsRequestModel {
            title: self.title@,
            artist: self.artist@,
            duration_ms: self.duration_ms,
            platform: self.platform,
            key: self.key@,
            engines: self.engines@,
            prefer: self.prefer@,
        }
    }
}

/// What is searched for: the title, and the artist where one is known.
pub open spec fn search_text(title: Seq<char>, artist: Seq<char>) -> Seq<char> {
    let t = trimmed(title);
    let a = trimmed(artist);
    if a.len() == 0 || lower(a) == "unknown"@ {
        t
    } else {
        t + " "@ + a
    }
}

pub fn query_of(title: &str, artist: &str) -> (r: String)
    ensures
        r@ == search_text(title@, artist@),
{
    let t = trim(title);
    let a = trim(artist);
    if a.as_str().is_empty() || same(lower_ascii(a.as_str()).as_str(), "unknown") {
        return t;
    }
    let mut r = t;
    r.append(" ");
    r.append(a.as_str());
    r
}

/// The platforms that have lyrics.
pub open spec fn has_lyrics(platform: Platform) -> bool {
    platform == Platform::Wyy || platform == Platform::Qqm || platform == Platform::Ytm
}

pub fn is_lyric_engine(platform: Platform) -> (r: bool)
    ensures
        r == has_lyrics(platform),
{
    platform == Platform::Wyy || platform == Platform::Qqm || platform == Platform::Ytm
}

pub open spec fn lyric_engines(engines: Seq<Platform>) -> Seq<Platform>
    decreases engines.len(),
{
    if engines.len() == 0 {
        Seq::empty()
    } else {
        let before = lyric_engines(engines.drop_last());
        if has_lyrics(engines.last()) && !before.contains(engines.last()) {
            before.push(engines.last())
        } else {
            before
        }
    }
}

/// The platforms to ask, each once and in the given order; all of them where none is given.
pub open spec fn engines_of(engines: Seq<Platform>) -> Seq<Platform> {
    let list = lyric_engines(engines);
    if list.len() == 0 {
        seq![Platform::Wyy, Platform::Qqm, Platform::Ytm]
    } else {
        list
    }
}

pub(crate) fn lists(engines: &Vec<Platform>, platform: Platform) -> (r: bool)
    ensures
        r == engines@.contains(platform),
{
    let mut i: usize = 0;
    while i < engines.len()
        invariant
            i <= engines@.len(),
            forall|j: int| 0 <= j < i ==> engines@[j] != platform,
        decreases engines@.len() - i,
    {
        if engines[i] == platform {
            return true;
        }
        i += 1;
    }
    false
}

pub fn normalize_engines(engines: &Vec<Platform>) -> (r: Vec<Platform>)
    ensures
        r@ == engines_of(engines@),
{
    let mut r: Vec<Platform> = Vec::new();
    let mut i: usize = 0;
    assert(engines@.take(0).len() == 0);
    while i < engines.len()
        invariant
            i <= engines@.len(),
            r@ == lyric_engines(engines@.take(i as int)),
        decreases engines@.len() - i,
    {
        assert(engines@.take(i + 1).drop_last() =~= engines@.take(i as int));
        if is_lyric_engine(engines[i]) && !lists(&r, engines[i]) {
            r.push(engines[i]);
        }
        i += 1;
    }
    assert(engines@.take(i as int) =~= engines@);
    if r.len() == 0 {
        r.push(Platform::Wyy);
        r.push(Platform::Qqm);
        r.push(Platform::Ytm);
        assert(r@ =~= seq![Platform::Wyy, Platform::Qqm, Platform::Ytm]);
    }
    r
}

/// The one platform that is asked for; nothing where the track decides.
pub open spec fn preferred(raw: Seq<char>) -> Option<Platform> {
    let name = lower(trimmed(raw));
    if name == "wyy"@ {
        Some(Platform::Wyy)
    } else if name == "qqm"@ {
        Some(Platform::Qqm)
    } else if name == "ytm"@ {
        Some(Platform::Ytm)
    } else {
        None
    }
}

pub fn parse_prefer(raw: &str) -> (r: Option<Platform>)
    ensures
        r == preferred(raw@),
{
    let name = lower_ascii(trim(raw).as_str());
    if same(name.as_str(), "wyy") {
        Some(Platform::Wyy)
    } else if same(name.as_str(), "qqm") {
        Some(Platform::Qqm)
    } else if same(name.as_str(), "ytm") {
        Some(Platform::Ytm)
    } else {
        None
    }
}

pub open spec fn label_of(platform: Platform) -> Seq<char> {
    match platform {
        Platform::Wyy => "网易云"@,
        Platform::Qqm => "QQ 音乐"@,
        Platform::Ytm => "YouTube Music"@,
        _ => "其它"@,
    }
}

pub fn engine_label(platform: Platform) -> (r: &'static str)
    ensures
        r@ == label_of(platform),
{
    match platform {
        Platform::Wyy => "网易云",
        Platform::Qqm => "QQ 音乐",
        Platform::Ytm => "YouTube Music",
        _ => "其它",
    }
}

/// The place of a platform in the given order, counted from `from`.
pub open spec fn rank_from(engines: Seq<Platform>, platform: Platform, from: nat) -> int
    decreases engines.len() - from,
{
    if from >= engines.len() {
        i64::MAX as int
    } else if engines[from as int] == platform {
        from as int
    } else {
        rank_from(engines, platform, from + 1)
    }
}

/// The place of a platform in the given order; one that is not there comes last.
pub fn engine_rank(engines: &Vec<Platform>, platform: Platform) -> (r: i64)
    requires
        engines@.len() < i64::MAX,
    ensures
        r == rank_from(engines@, platform, 0),
{
    let mut i: usize = 0;
    while i < engines.len()
        invariant
            i <= engines@.len() < i64::MAX,
            rank_from(engines@, platform, 0) == rank_from(engines@, platform, i as nat),
        decreases engines@.len() - i,
    {
        if engines[i] == platform {
            return i as i64;
        }
        i += 1;
    }
    i64::MAX
}

pub open spec fn is_separator(c: char) -> bool {
    c == '/' || c == ',' || c == '、' || c == ';'
}

/// The parts of a list, trimmed, without the empty ones.
pub open spec fn trimmed_parts(parts: Seq<Seq<char>>) -> Seq<Seq<char>>
    decreases parts.len(),
{
    if parts.len() == 0 {
        Seq::empty()
    } else if trimmed(parts.last()).len() == 0 {
        trimmed_parts(parts.drop_last())
    } else {
        trimmed_parts(parts.drop_last()).push(trimmed(parts.last()))
    }
}

pub open spec fn with_slashes(s: Seq<char>) -> Seq<char> {
    s.map_values(
        |c: char|
            if is_separator(c) {
                '/'
            } else {
                c
            },
    )
}

/// The names in an artist's text.
pub open spec fn names_in(artist: Seq<char>) -> Seq<Seq<char>> {
    trimmed_parts(split_all(with_slashes(trimmed(artist)), '/'))
}

pub fn artist_names(artist: &str) -> (r: Vec<String>)
    ensures
        texts(r@) == names_in(artist@),
{
    let t = trim(artist);
    let v = chars_of(t.as_str());
    let ghost model = with_slashes(t@);
    let mut out: Vec<char> = Vec::new();
    let mut i: usize = 0;
    while i < v.len()
        invariant
            i <= v@.len(),
            v@ == t@,
            model == with_slashes(t@),
            out@ == model.take(i as int),
        decreases v@.len() - i,
    {
        let c = v[i];
        if c == '/' || c == ',' || c == '、' || c == ';' {
            out.push('/');
        } else {
            out.push(c);
        }
        i += 1;
        assert(out@ =~= model.take(i as int));
    }
    assert(out@ =~= model);
    let text = string_of(out.as_slice());
    let parts = split(text.as_str(), '/');
    let ghost pieces = texts(parts@);
    let mut r: Vec<String> = Vec::new();
    let mut k: usize = 0;
    assert(texts(r@) =~= trimmed_parts(pieces.take(0)));
    while k < parts.len()
        invariant
            k <= parts@.len(),
            pieces == texts(parts@),
            texts(r@) == trimmed_parts(pieces.take(k as int)),
        decreases parts@.len() - k,
    {
        assert(pieces.take(k + 1).drop_last() =~= pieces.take(k as int));
        assert(pieces.take(k + 1).last() == parts@[k as int]@);
        let name = trim(parts[k].as_str());
        if !name.as_str().is_empty() {
            let ghost before = texts(r@);
            let ghost entry = name@;
            r.push(name);
            assert(texts(r@) =~= before.push(entry));
        }
        k += 1;
    }
    assert(pieces.take(k as int) =~= pieces);
    r
}

// ---------------------------------------------------------------- which request is which

/// A text with one space between its words and none around them.
pub fn single_spaced(value: &str) -> (r: String)
    ensures
        r@ == joined_by(words_of(value@), " "@),
{
    let list = words(value);
    join(&list, " ")
}

/// A text as it is compared: single spaces and lower case.
pub open spec fn identity_of(value: Seq<char>) -> Seq<char> {
    lowercase_text(joined_by(words_of(value), " "@))
}

pub fn normalized_identity(value: &str) -> (r: String)
    ensures
        r@ == identity_of(value@),
{
    let spaced = single_spaced(value);
    to_lowercase(spaced.as_str())
}

/// White space around a text does not count, nor does how much of it stands between two words or
/// which: the text is compared as the same one. Spacing a text that is spaced already changes
/// nothing.
pub proof fn white_space_does_not_count(
    a: Seq<char>,
    b: Seq<char>,
    gap: Seq<char>,
    other: Seq<char>,
)
    requires
        all_space(gap),
        all_space(other),
        gap.len() > 0,
        other.len() > 0,
    ensures
        identity_of(gap + a) == identity_of(a),
        identity_of(a + gap) == identity_of(a),
        identity_of(a + gap + b) == identity_of(a + other + b),
        identity_of(joined_by(words_of(a), " "@)) == identity_of(a),
{
    let none = Seq::<char>::empty();
    lemma_words_apart(none, gap, a);
    assert(none + gap + a =~= gap + a);
    assert(words_of(none) + words_of(a) =~= words_of(a));
    lemma_words_apart(a, gap, none);
    assert(a + gap + none =~= a + gap);
    assert(words_of(a) + words_of(none) =~= words_of(a));
    lemma_words_apart(a, gap, b);
    lemma_words_apart(a, other, b);
    lemma_spacing_keeps_words(a);
}

/// What tells one request from another.
pub struct LyricsCacheKey {
    pub title: String,
    pub artist: String,
    pub duration_seconds: Option<u64>,
    pub platform: Option<Platform>,
    pub source_key: String,
    pub engines: Vec<Platform>,
    pub prefer: Option<Platform>,
}

#[verifier::ext_equal]
pub struct KeyModel {
    pub title: Seq<char>,
    pub artist: Seq<char>,
    pub duration_seconds: Option<u64>,
    pub platform: Option<Platform>,
    pub source_key: Seq<char>,
    pub engines: Seq<Platform>,
    pub prefer: Option<Platform>,
}

impl View for LyricsCacheKey {
    type V = KeyModel;

    open spec fn view(&self) -> KeyModel {
        KeyModel {
            title: self.title@,
            artist: self.artist@,
            duration_seconds: self.duration_seconds,
            platform: self.platform,
            source_key: self.source_key@,
            engines: self.engines@,
            prefer: self.prefer,
        }
    }
}

/// Whole seconds, rounded.
pub open spec fn rounded_seconds(ms: Option<u64>) -> Option<u64> {
    match ms {
        Some(ms) => Some(((ms + 500) / 1000) as u64),
        None => None,
    }
}

pub fn whole_seconds(ms: Option<u64>) -> (r: Option<u64>)
    ensures
        r == rounded_seconds(ms),
{
    match ms {
        Some(ms) => Some(((ms as u128 + 500) / 1000) as u64),
        None => None,
    }
}

/// The key of a request whose texts are ready to be compared.
pub open spec fn key_with(title: Seq<char>, artist: Seq<char>, req: LyricsRequestModel) -> KeyModel {
    KeyModel {
        title,
        artist,
        duration_seconds: rounded_seconds(req.duration_ms),
        platform: req.platform,
        source_key: trimmed(req.key),
        engines: engines_of(req.engines),
        prefer: preferred(req.prefer),
    }
}

pub fn key_for(title: String, artist: String, req: &LyricsRequest) -> (r: LyricsCacheKey)
    ensures
        r@ == key_with(title@, artist@, req@),
{
    LyricsCacheKey {
        title,
        artist,
        duration_seconds: whole_seconds(req.duration_ms),
        platform: req.platform,
        source_key: trim(req.key.as_str()),
        engines: normalize_engines(&req.engines),
        prefer: parse_prefer(req.prefer.as_str()),
    }
}

/// The key of a request. Differences in case, in spaces and in fractions of a second do not count.
pub fn cache_key(req: &LyricsRequest) -> (r: LyricsCacheKey)
    ensures
        r@ == key_with(
            identity_of(req@.title),
            identity_of(req@.artist),
            req@,
        ),
{
    let title = normalized_identity(req.title.as_str());
    let artist = normalized_identity(req.artist.as_str());
    key_for(title, artist, req)
}

// ---------------------------------------------------------------- time marks

/// The time marks at the beginning of a row: minutes and seconds in square brackets.
pub open spec fn marks_in(row: Seq<char>) -> Seq<(Seq<char>, Seq<char>)>
    decreases row.len(),
{
    if row.len() == 0 || row[0] != '[' {
        Seq::empty()
    } else {
        let rest = row.skip(1);
        let end = position(rest, ']');
        if 0 <= end < rest.len() {
            let tail = rest.skip(end + 1);
            match split_at_char(rest.take(end), ':') {
                Some(pair) => seq![(trimmed(pair.0), trimmed(pair.1))] + marks_in(tail),
                None => marks_in(tail),
            }
        } else {
            Seq::empty()
        }
    }
}

/// The time marks of all rows.
pub open spec fn marks_of(rows: Seq<Seq<char>>) -> Seq<(Seq<char>, Seq<char>)>
    decreases rows.len(),
{
    if rows.len() == 0 {
        Seq::empty()
    } else {
        marks_of(rows.drop_last()) + marks_in(trimmed(rows.last()))
    }
}

fn push_marks(out: &mut Vec<(String, String)>, row: &str)
    ensures
        pair_views(final(out)@) == pair_views(old(out)@) + marks_in(row@),
{
    let ghost before = pair_views(out@);
    let ghost mut found = Seq::<(Seq<char>, Seq<char>)>::empty();
    let mut left = chars_of(row);
    assert(before + found =~= before);
    assert(found + marks_in(row@) =~= marks_in(row@));
    while left.len() > 0 && left[0] == '['
        invariant
            before == pair_views(old(out)@),
            pair_views(out@) == before + found,
            marks_in(row@) == found + marks_in(left@),
        decreases left@.len(),
    {
        let rest = copy_chars(left.as_slice(), 1, left.len());
        assert(rest@ =~= left@.skip(1));
        let end: usize = find_char(rest.as_slice(), ']');
        if end >= rest.len() {
            assert(found + marks_in(left@) =~= found);
            return;
        }
        let mark = copy_chars(rest.as_slice(), 0, end);
        assert(mark@ =~= rest@.take(end as int));
        let tail = copy_chars(rest.as_slice(), end + 1, rest.len());
        assert(tail@ =~= rest@.skip(end + 1));
        let text = string_of(mark.as_slice());
        if let Some((minutes, seconds)) = split_once(text.as_str(), ':') {
            let ghost list = pair_views(out@);
            let pair = (trim(minutes.as_str()), trim(seconds.as_str()));
            let ghost entry = (pair.0@, pair.1@);
            out.push(pair);
            assert(pair_views(out@) =~= list.push(entry));
            proof {
                assert(found + (seq![entry] + marks_in(tail@)) =~= found.push(entry) + marks_in(
                    tail@,
                ));
                found = found.push(entry);
            }
            assert(pair_views(out@) =~= before + found);
        }
        left = tail;
    }
    assert(found + marks_in(left@) =~= found);
}

/// The time marks of lyrics that are timed by the line: minutes and seconds.
pub fn lrc_marks(raw: &str) -> (r: Vec<(String, String)>)
    ensures
        pair_views(r@) == marks_of(split_all(raw@, '\n')),
{
    let rows = split(raw, '\n');
    let ghost model = texts(rows@);
    let mut r: Vec<(String, String)> = Vec::new();
    let mut i: usize = 0;
    assert(pair_views(r@) =~= marks_of(model.take(0)));
    while i < rows.len()
        invariant
            i <= rows@.len(),
            model == texts(rows@),
            pair_views(r@) == marks_of(model.take(i as int)),
        decreases rows@.len() - i,
    {
        assert(model.take(i + 1).drop_last() =~= model.take(i as int));
        assert(model.take(i + 1).last() == rows@[i as int]@);
        let row = trim(rows[i].as_str());
        push_marks(&mut r, row.as_str());
        i += 1;
    }
    assert(model.take(i as int) =~= model);
    r
}

/// The start and the length at the beginning of a row that is timed by the word.
pub open spec fn span_in(row: Seq<char>) -> Option<(Seq<char>, Seq<char>)> {
    let end = position(row, ']');
    if 1 <= end < row.len() && (row[0] as u32) < 0x80 {
        match split_at_char(row.subrange(1, end), ',') {
            Some(pair) => Some((trimmed(pair.0), trimmed(pair.1))),
            None => None,
        }
    } else {
        None
    }
}

pub open spec fn spans_of(rows: Seq<Seq<char>>) -> Seq<(Seq<char>, Seq<char>)>
    decreases rows.len(),
{
    if rows.len() == 0 {
        Seq::empty()
    } else {
        match span_in(trimmed(rows.last())) {
            Some(pair) => spans_of(rows.drop_last()).push(pair),
            None => spans_of(rows.drop_last()),
        }
    }
}

fn span_of_row(row: &str) -> (r: Option<(String, String)>)
    ensures
        match r {
            Some(p) => span_in(row@) == Some((p.0@, p.1@)),
            None => span_in(row@) is None,
        },
{
    let v = chars_of(row);
    let end: usize = find_char(v.as_slice(), ']');
    if end < 1 || end >= v.len() || v[0] as u32 >= 0x80 {
        return None;
    }
    let header = copy_chars(v.as_slice(), 1, end);
    let text = string_of(header.as_slice());
    match split_once(text.as_str(), ',') {
        Some((start, length)) => Some((trim(start.as_str()), trim(length.as_str()))),
        None => None,
    }
}

/// The spans of lyrics that are timed by the word: a start and a length in milliseconds.
pub fn yrc_spans(raw: &str) -> (r: Vec<(String, String)>)
    ensures
        pair_views(r@) == spans_of(split_all(raw@, '\n')),
{
    let rows = split(raw, '\n');
    let ghost model = texts(rows@);
    let mut r: Vec<(String, String)> = Vec::new();
    let mut i: usize = 0;
    assert(pair_views(r@) =~= spans_of(model.take(0)));
    while i < rows.len()
        invariant
            i <= rows@.len(),
            model == texts(rows@),
            pair_views(r@) == spans_of(model.take(i as int)),
        decreases rows@.len() - i,
    {
        assert(model.take(i + 1).drop_last() =~= model.take(i as int));
        assert(model.take(i + 1).last() == rows@[i as int]@);
        let row = trim(rows[i].as_str());
        if let Some(pair) = span_of_row(row.as_str()) {
            let ghost before = pair_views(r@);
            let ghost entry = (pair.0@, pair.1@);
            r.push(pair);
            assert(pair_views(r@) =~= before.push(entry));
        }
        i += 1;
    }
    assert(model.take(i as int) =~= model);
    r
}

// ---------------------------------------------------------------- what matches

/// How much longer than the track its lyrics may be, in milliseconds.
pub const LYRIC_DURATION_TOLERANCE_MS: u64 = 8_000;

/// Two lengths, where both are known and not zero, differ little enough.
pub open spec fn lengths_agree(requested: Option<u64>, candidate: Option<u64>) -> bool {
    match (requested, candidate) {
        (Some(a), Some(b)) => a == 0 || b == 0 || -LYRIC_DURATION_TOLERANCE_MS <= a - b
            <= LYRIC_DURATION_TOLERANCE_MS,
        _ => true,
    }
}

pub fn durations_compatible(requested: Option<u64>, candidate: Option<u64>) -> (r: bool)
    ensures
        r == lengths_agree(requested, candidate),
{
    match (requested, candidate) {
        (Some(a), Some(b)) => a == 0 || b == 0 || (if a >= b {
            a - b
        } else {
            b - a
        }) <= LYRIC_DURATION_TOLERANCE_MS,
        _ => true,
    }
}

/// The last time mark of the lyrics does not lie far behind the end of the track.
pub open spec fn timeline_agrees(duration_ms: Option<u64>, latest_ms: Option<u64>) -> bool {
    match (duration_ms, latest_ms) {
        (Some(d), Some(t)) => d == 0 || t <= d + LYRIC_DURATION_TOLERANCE_MS,
        _ => true,
    }
}

/// Whether lyrics fit a track by their last time mark. A short edit that carries the key of the
/// original would get the long lyrics otherwise.
pub fn lyric_timeline_compatible(duration_ms: Option<u64>, latest_ms: Option<u64>) -> (r: bool)
    ensures
        r == timeline_agrees(duration_ms, latest_ms),
{
    match (duration_ms, latest_ms) {
        (Some(d), Some(t)) => d == 0 || t <= d || t - d <= LYRIC_DURATION_TOLERANCE_MS,
        _ => true,
    }
}

/// Two lists of artists have a name in common, or one of them is empty.
pub open spec fn artists_agree(requested: Seq<Seq<char>>, candidate: Seq<Seq<char>>) -> bool {
    requested.len() == 0 || candidate.len() == 0 || exists|i: int|
        0 <= i < requested.len() && candidate.contains(#[trigger] requested[i])
}

/// Whether two lists of artists, ready to be compared, can be of the same song. Lyrics that match by
/// their title alone must not come from another artist.
pub fn artists_compatible(requested: &Vec<String>, candidate: &Vec<String>) -> (r: bool)
    ensures
        r == artists_agree(texts(requested@), texts(candidate@)),
{
    let ghost model = texts(requested@);
    assert(texts(candidate@).len() == candidate@.len());
    if requested.len() == 0 || candidate.len() == 0 {
        return true;
    }
    let mut i: usize = 0;
    while i < requested.len()
        invariant
            i <= requested@.len(),
            model == texts(requested@),
            forall|j: int| 0 <= j < i ==> !texts(candidate@).contains(#[trigger] model[j]),
        decreases requested@.len() - i,
    {
        assert(model[i as int] == requested@[i as int]@);
        if in_list(candidate, requested[i].as_str()) {
            assert(texts(candidate@).contains(model[i as int]));
            return true;
        }
        i += 1;
    }
    false
}

/// A song that a search found.
pub struct LyricCandidate {
    pub platform: Platform,
    pub key: String,
    pub title: String,
    pub artist_text: String,
    /// The artists, ready to be compared.
    pub artists: Vec<String>,
    pub duration_ms: Option<u64>,
    /// How well the song matches: the bits of a floating-point number that is not negative, which
    /// are ordered as the numbers are.
    pub score_bits: u64,
}

#[verifier::ext_equal]
pub struct CandidateModel {
    pub platform: Platform,
    pub key: Seq<char>,
    pub title: Seq<char>,
    pub artist_text: Seq<char>,
    pub artists: Seq<Seq<char>>,
    pub duration_ms: Option<u64>,
    pub score_bits: u64,
}

impl View for LyricCandidate {
    type V = CandidateModel;

    open spec fn view(&self) -> CandidateModel {
        CandidateModel {
            platform: self.platform,
            key: self.key@,
            title: self.title@,
            artist_text: self.artist_text@,
            artists: texts(self.artists@),
            duration_ms: self.duration_ms,
            score_bits: self.score_bits,
        }
    }
}

impl Clone for LyricCandidate {
    fn clone(&self) -> (r: Self)
        ensures
            r@ == self@,
    {
        LyricCandidate {
            platform: self.platform,
            key: self.key.clone(),
            title: self.title.clone(),
            artist_text: self.artist_text.clone(),
            artists: crate::models::clone_texts(&self.artists),
            duration_ms: self.duration_ms,
            score_bits: self.score_bits,
        }
    }
}

pub open spec fn candidate_views(v: Seq<LyricCandidate>) -> Seq<CandidateModel> {
    v.map_values(|c: LyricCandidate| c@)
}

/// The bits of the least score that counts, 0.65.
pub const LYRIC_MATCH_THRESHOLD_BITS: u64 = 0x3FE4_CCCC_CCCC_CCCD;

/// A song is from a platform that is asked, and it matches in artists, length and score.
pub open spec fn qualifies(
    engines: Seq<Platform>,
    prefer: Option<Platform>,
    artists: Seq<Seq<char>>,
    duration_ms: Option<u64>,
    c: CandidateModel,
) -> bool {
    &&& engines.contains(c.platform)
    &&& (prefer is Some ==> prefer == Some(c.platform))
    &&& artists_agree(artists, c.artists)
    &&& lengths_agree(duration_ms, c.duration_ms)
    &&& c.score_bits >= LYRIC_MATCH_THRESHOLD_BITS
}

pub open spec fn qualified(
    engines: Seq<Platform>,
    prefer: Option<Platform>,
    artists: Seq<Seq<char>>,
    duration_ms: Option<u64>,
    found: Seq<CandidateModel>,
) -> Seq<CandidateModel>
    decreases found.len(),
{
    if found.len() == 0 {
        Seq::empty()
    } else {
        let before = qualified(engines, prefer, artists, duration_ms, found.drop_last());
        if qualifies(engines, prefer, artists, duration_ms, found.last()) {
            before.push(found.last())
        } else {
            before
        }
    }
}

pub open spec fn match_keys(engines: Seq<Platform>, list: Seq<CandidateModel>) -> Seq<(i128, i64)> {
    list.map_values(
        |c: CandidateModel| ((-(c.score_bits as int)) as i128, rank_from(engines, c.platform, 0) as i64),
    )
}

/// The best match first; where scores are equal, in the order of the platforms.
pub open spec fn by_match(engines: Seq<Platform>, list: Seq<CandidateModel>) -> Seq<CandidateModel> {
    order_of(match_keys(engines, list), list.len()).map_values(|i: int| list[i])
}

/// The songs that may be the one that is looked for.
pub fn pick_qualified(
    engines: &Vec<Platform>,
    prefer: Option<Platform>,
    artists: &Vec<String>,
    duration_ms: Option<u64>,
    found: &Vec<LyricCandidate>,
) -> (r: Vec<LyricCandidate>)
    ensures
        candidate_views(r@) == qualified(
            engines@,
            prefer,
            texts(artists@),
            duration_ms,
            candidate_views(found@),
        ),
{
    let ghost model = candidate_views(found@);
    let mut r: Vec<LyricCandidate> = Vec::new();
    let mut i: usize = 0;
    assert(candidate_views(r@) =~= qualified(
        engines@,
        prefer,
        texts(artists@),
        duration_ms,
        model.take(0),
    ));
    while i < found.len()
        invariant
            i <= found@.len(),
            model == candidate_views(found@),
            candidate_views(r@) == qualified(
                engines@,
                prefer,
                texts(artists@),
                duration_ms,
                model.take(i as int),
            ),
        decreases found@.len() - i,
    {
        assert(model.take(i + 1).drop_last() =~= model.take(i as int));
        assert(model.take(i + 1).last() == found@[i as int]@);
        let c = &found[i];
        let asked: bool = match prefer {
            Some(p) => p == c.platform,
            None => true,
        };
        if lists(engines, c.platform) && asked && artists_compatible(artists, &c.artists)
            && durations_compatible(duration_ms, c.duration_ms) && c.score_bits
            >= LYRIC_MATCH_THRESHOLD_BITS {
            let ghost before = candidate_views(r@);
            r.push(c.clone());
            assert(candidate_views(r@) =~= before.push(c@));
        }
        i += 1;
    }
    assert(model.take(i as int) =~= model);
    r
}

/// The songs in the order in which their lyrics are tried.
pub fn rank_matches(engines: &Vec<Platform>, list: &Vec<LyricCandidate>) -> (r: Vec<LyricCandidate>)
    requires
        engines@.len() < i64::MAX,
    ensures
        candidate_views(r@) == by_match(engines@, candidate_views(list@)),
{
    let ghost model = candidate_views(list@);
    let mut keys: Vec<(i128, i64)> = Vec::new();
    let mut i: usize = 0;
    while i < list.len()
        invariant
            i <= list@.len(),
            engines@.len() < i64::MAX,
            model == candidate_views(list@),
            keys@ == match_keys(engines@, model).take(i as int),
        decreases list@.len() - i,
    {
        let score: i128 = -(list[i].score_bits as i128);
        let rank: i64 = engine_rank(engines, list[i].platform);
        keys.push((score, rank));
        assert(model[i as int] == list@[i as int]@);
        i += 1;
        assert(keys@ =~= match_keys(engines@, model).take(i as int));
    }
    assert(keys@ =~= match_keys(engines@, model));
    let order = put_in_order(&keys);
    let ghost places = positions(order@);
    proof {
        ordering_is_a_stable_permutation(keys@, keys@.len());
        assert forall|i: int| 0 <= i < order@.len() implies #[trigger] order@[i] < list@.len() by {
            assert(places[i] == order@[i]);
        }
    }
    let mut r: Vec<LyricCandidate> = Vec::new();
    let mut k: usize = 0;
    while k < order.len()
        invariant
            k <= order@.len(),
            model == candidate_views(list@),
            places == positions(order@),
            forall|i: int| 0 <= i < order@.len() ==> #[trigger] order@[i] < list@.len(),
            candidate_views(r@) == places.map_values(|i: int| model[i]).take(k as int),
        decreases order@.len() - k,
    {
        let at: usize = order[k];
        assert(places[k as int] == at);
        assert(model[at as int] == list@[at as int]@);
        let ghost before = candidate_views(r@);
        r.push(list[at].clone());
        assert(candidate_views(r@) =~= before.push(model[at as int]));
        k += 1;
        assert(candidate_views(r@) =~= places.map_values(|i: int| model[i]).take(k as int));
    }
    assert(candidate_views(r@) =~= places.map_values(|i: int| model[i]));
    r
}

// ---------------------------------------------------------------- results that are kept

/// The lyrics of a song.
pub struct LyricsResponse {
    pub lrc: String,
    pub word_lrc: String,
    pub translated_lrc: String,
    pub romaji_lrc: String,
    pub platform: Platform,
    pub key: String,
    pub title: String,
    pub artist: String,
    pub score_bits: u64,
}

#[verifier::ext_equal]
pub struct ResponseModel {
    pub lrc: Seq<char>,
    pub word_lrc: Seq<char>,
    pub translated_lrc: Seq<char>,
    pub romaji_lrc: Seq<char>,
    pub platform: Platform,
    pub key: Seq<char>,
    pub title: Seq<char>,
    pub artist: Seq<char>,
    pub score_bits: u64,
}

impl View for LyricsResponse {
    type V = ResponseModel;

    open spec fn view(&self) -> ResponseModel {
        ResponseModel {
            lrc: self.lrc@,
            word_lrc: self.word_lrc@,
            translated_lrc: self.translated_lrc@,
            romaji_lrc: self.romaji_lrc@,
            platform: self.platform,
            key: self.key@,
            title: self.title@,
            artist: self.artist@,
            score_bits: self.score_bits,
        }
    }
}

impl Clone for LyricsResponse {
    fn clone(&self) -> (r: Self)
        ensures
            r@ == self@,
    {
        LyricsResponse {
            lrc: self.lrc.clone(),
            word_lrc: self.word_lrc.clone(),
            translated_lrc: self.translated_lrc.clone(),
            romaji_lrc: self.romaji_lrc.clone(),
            platform: self.platform,
            key: self.key.clone(),
            title: self.title.clone(),
            artist: self.artist.clone(),
            score_bits: self.score_bits,
        }
    }
}

/// What came of a search.
pub enum CachedLyrics {
    Found(LyricsResponse),
    Failed { status: u16, detail: String },
}

pub enum CachedModel {
    Found(ResponseModel),
    Failed { status: u16, detail: Seq<char> },
}

impl View for CachedLyrics {
    type V = CachedModel;

    open spec fn view(&self) -> CachedModel {
        match self {
            CachedLyrics::Found(r) => CachedModel::Found(r@),
            CachedLyrics::Failed { status, detail } => CachedModel::Failed {
                status: *status,
                detail: detail@,
            },
        }
    }
}

impl Clone for CachedLyrics {
    fn clone(&self) -> (r: Self)
        ensures
            r@ == self@,
    {
        match self {
            CachedLyrics::Found(r) => CachedLyrics::Found(r.clone()),
            CachedLyrics::Failed { status, detail } => CachedLyrics::Failed {
                status: *status,
                detail: detail.clone(),
            },
        }
    }
}

pub open spec fn cached_of(r: Option<CachedLyrics>) -> Option<CachedModel> {
    match r {
        Some(r) => Some(r@),
        None => None,
    }
}

fn clone_cached(r: &Option<CachedLyrics>) -> (c: Option<CachedLyrics>)
    ensures
        cached_of(c) == cached_of(*r),
{
    match r {
        Some(r) => Some(r.clone()),
        None => None,
    }
}

/// How long lyrics are kept, in microseconds.
pub const LYRIC_SUCCESS_TTL: u64 = 86_400_000_000;

/// How long it is kept that there are none, in microseconds.
pub const LYRIC_MISSING_TTL: u64 = 7_200_000_000;

/// How many results are kept.
pub const MAX_LYRIC_CACHE_ENTRIES: usize = 1_024;

/// Lyrics are kept for a day and their absence for two hours; other failures are not kept.
pub open spec fn ttl_of(result: CachedModel) -> Option<u64> {
    match result {
        CachedModel::Found(_) => Some(LYRIC_SUCCESS_TTL),
        CachedModel::Failed { status, .. } => if status == 404 {
            Some(LYRIC_MISSING_TTL)
        } else {
            None
        },
    }
}

pub fn result_ttl(result: &CachedLyrics) -> (r: Option<u64>)
    ensures
        r == ttl_of(result@),
{
    match result {
        CachedLyrics::Found(_) => Some(LYRIC_SUCCESS_TTL),
        CachedLyrics::Failed { status, .. } => if *status == 404 {
            Some(LYRIC_MISSING_TTL)
        } else {
            None
        },
    }
}

/// A search that runs or has ended.
pub struct LyricsCacheEntry {
    pub key: LyricsCacheKey,
    pub created_at: u64,
    /// The number of the search; all who ask for the same wait for it.
    pub search: u64,
    pub result: Option<CachedLyrics>,
}

#[verifier::ext_equal]
pub struct EntryModel {
    pub key: KeyModel,
    pub created_at: u64,
    pub search: u64,
    pub result: Option<CachedModel>,
}

impl View for LyricsCacheEntry {
    type V = EntryModel;

    open spec fn view(&self) -> EntryModel {
        EntryModel {
            key: self.key@,
            created_at: self.created_at,
            search: self.search,
            result: cached_of(self.result),
        }
    }
}

pub open spec fn entry_views(v: Seq<LyricsCacheEntry>) -> Seq<EntryModel> {
    v.map_values(|e: LyricsCacheEntry| e@)
}

/// The searches that run, and the results that are kept.
pub struct LyricsLookupCache {
    pub entries: Vec<LyricsCacheEntry>,
    pub searches: u64,
}

#[verifier::ext_equal]
pub struct CacheModel {
    pub entries: Seq<EntryModel>,
    pub searches: u64,
}

impl View for LyricsLookupCache {
    type V = CacheModel;

    open spec fn view(&self) -> CacheModel {
        CacheModel { entries: entry_views(self.entries@), searches: self.searches }
    }
}

/// An entry still counts: its search runs, or its result is not too old.
pub open spec fn is_fresh(e: EntryModel, now: u64) -> bool {
    match e.result {
        None => true,
        Some(r) => match ttl_of(r) {
            Some(ttl) => now - e.created_at < ttl,
            None => false,
        },
    }
}

pub open spec fn fresh_entries(entries: Seq<EntryModel>, now: u64) -> Seq<EntryModel>
    decreases entries.len(),
{
    if entries.len() == 0 {
        Seq::empty()
    } else if is_fresh(entries.last(), now) {
        fresh_entries(entries.drop_last(), now).push(entries.last())
    } else {
        fresh_entries(entries.drop_last(), now)
    }
}

/// The first entry with a key, counted from `from`.
pub open spec fn find_from(entries: Seq<EntryModel>, key: KeyModel, from: nat) -> Option<int>
    decreases entries.len() - from,
{
    if from >= entries.len() {
        None
    } else if entries[from as int].key == key {
        Some(from as int)
    } else {
        find_from(entries, key, from + 1)
    }
}

/// The oldest of the first `n` entries that have a result.
pub open spec fn oldest_done(entries: Seq<EntryModel>, n: nat) -> Option<int>
    decreases n,
{
    if n == 0 {
        None
    } else {
        let e = entries[n - 1];
        match oldest_done(entries, (n - 1) as nat) {
            Some(i) => if e.result is Some && e.created_at < entries[i].created_at {
                Some(n - 1)
            } else {
                Some(i)
            },
            None => if e.result is Some {
                Some(n - 1)
            } else {
                None
            },
        }
    }
}

pub proof fn lemma_oldest_done(entries: Seq<EntryModel>, n: nat)
    requires
        n <= entries.len(),
    ensures
        match oldest_done(entries, n) {
            Some(i) => 0 <= i < n && entries[i].result is Some && forall|j: int|
                0 <= j < n && (#[trigger] entries[j]).result is Some ==> entries[i].created_at
                    <= entries[j].created_at,
            None => forall|j: int| 0 <= j < n ==> (#[trigger] entries[j]).result is None,
        },
    decreases n,
{
    if n > 0 {
        lemma_oldest_done(entries, (n - 1) as nat);
    }
}

/// The entries with room for one more: the oldest results go, searches that run stay.
pub open spec fn with_room(entries: Seq<EntryModel>) -> Seq<EntryModel>
    decreases entries.len(),
{
    if entries.len() < MAX_LYRIC_CACHE_ENTRIES {
        entries
    } else {
        match oldest_done(entries, entries.len()) {
            Some(i) => if 0 <= i < entries.len() {
                with_room(entries.remove(i))
            } else {
                entries
            },
            None => entries,
        }
    }
}

impl CacheModel {
    /// The entry for a key after everything outdated is gone, and whether it is a new one.
    pub open spec fn after_entry(self, key: KeyModel, now: u64) -> (CacheModel, EntryModel) {
        let fresh = fresh_entries(self.entries, now);
        match find_from(fresh, key, 0) {
            Some(i) => (CacheModel { entries: fresh, ..self }, fresh[i]),
            None => {
                let e = EntryModel { key, created_at: now, search: self.searches, result: None };
                (
                    CacheModel {
                        entries: with_room(fresh).push(e),
                        searches: (self.searches + 1) as u64,
                    },
                    e,
                )
            },
        }
    }

    /// After a search: its result is kept, or its entry goes.
    pub open spec fn after_result(self, search: u64, result: CachedModel) -> CacheModel {
        CacheModel { entries: settled(self.entries, search, result), ..self }
    }
}

/// The entries after a search has ended: its result is set once, and an entry whose result is not
/// to be kept goes.
pub open spec fn settled(entries: Seq<EntryModel>, search: u64, result: CachedModel) -> Seq<
    EntryModel,
>
    decreases entries.len(),
{
    if entries.len() == 0 {
        Seq::empty()
    } else {
        let before = settled(entries.drop_last(), search, result);
        let e = entries.last();
        if e.search != search || e.result is Some {
            before.push(e)
        } else if ttl_of(result) is None {
            before
        } else {
            before.push(EntryModel { result: Some(result), ..e })
        }
    }
}

fn same_platform(a: Option<Platform>, b: Option<Platform>) -> (r: bool)
    ensures
        r == (a == b),
{
    match (a, b) {
        (Some(a), Some(b)) => a == b,
        (None, None) => true,
        _ => false,
    }
}

fn same_seconds(a: Option<u64>, b: Option<u64>) -> (r: bool)
    ensures
        r == (a == b),
{
    match (a, b) {
        (Some(a), Some(b)) => a == b,
        (None, None) => true,
        _ => false,
    }
}

fn same_engines(a: &Vec<Platform>, b: &Vec<Platform>) -> (r: bool)
    ensures
        r == (a@ == b@),
{
    if a.len() != b.len() {
        return false;
    }
    let mut i: usize = 0;
    while i < a.len()
        invariant
            i <= a@.len() == b@.len(),
            forall|j: int| 0 <= j < i ==> a@[j] == b@[j],
        decreases a@.len() - i,
    {
        if a[i] != b[i] {
            return false;
        }
        i += 1;
    }
    assert(a@ =~= b@);
    true
}

fn same_key(a: &LyricsCacheKey, b: &LyricsCacheKey) -> (r: bool)
    ensures
        r == (a@ == b@),
{
    let r: bool = same(a.title.as_str(), b.title.as_str()) && same(
        a.artist.as_str(),
        b.artist.as_str(),
    ) && same_seconds(a.duration_seconds, b.duration_seconds) && same_platform(
        a.platform,
        b.platform,
    ) && same(a.source_key.as_str(), b.source_key.as_str()) && same_engines(
        &a.engines,
        &b.engines,
    ) && same_platform(a.prefer, b.prefer);
    assert(r ==> a@ =~= b@);
    r
}

fn find_oldest(entries: &Vec<LyricsCacheEntry>) -> (r: Option<usize>)
    ensures
        match r {
            Some(i) => oldest_done(entry_views(entries@), entries@.len()) == Some(i as int)
                && i < entries@.len(),
            None => oldest_done(entry_views(entries@), entries@.len()) is None,
        },
{
    let ghost model = entry_views(entries@);
    let mut best: Option<usize> = None;
    let mut n: usize = 0;
    while n < entries.len()
        invariant
            n <= entries@.len(),
            model == entry_views(entries@),
            match best {
                Some(i) => i < n && oldest_done(model, n as nat) == Some(i as int),
                None => oldest_done(model, n as nat) is None,
            },
        decreases entries@.len() - n,
    {
        assert(model[n as int] == entries@[n as int]@);
        match best {
            Some(i) => {
                assert(model[i as int] == entries@[i as int]@);
                if entries[n].result.is_some() && entries[n].created_at < entries[i].created_at {
                    best = Some(n);
                }
            },
            None => {
                if entries[n].result.is_some() {
                    best = Some(n);
                }
            },
        }
        n += 1;
    }
    best
}

/// An entry as it is handed out: the number of its search, its result, and whether the caller is to
/// run the search.
pub struct LyricsTicket {
    pub search: u64,
    pub result: Option<CachedLyrics>,
    pub is_new: bool,
}

impl LyricsLookupCache {
    pub fn new() -> (r: Self)
        ensures
            r@ == (CacheModel { entries: Seq::empty(), searches: 0 }),
    {
        let r = LyricsLookupCache { entries: Vec::new(), searches: 0 };
        assert(r@.entries =~= Seq::<EntryModel>::empty());
        r
    }

    fn prune(&mut self, now: u64)
        ensures
            final(self)@ == (CacheModel {
                entries: fresh_entries(old(self)@.entries, now),
                ..old(self)@
            }),
    {
        let ghost model = self@.entries;
        let ghost count = self.searches;
        let ghost mut tail = Seq::<EntryModel>::empty();
        let mut i: usize = self.entries.len();
        assert(model.take(i as int) =~= model);
        assert(model + tail =~= model);
        assert(fresh_entries(model, now) + tail =~= fresh_entries(model, now));
        while i > 0
            invariant
                i <= model.len(),
                self.searches == count,
                self@.entries == model.take(i as int) + tail,
                fresh_entries(model, now) == fresh_entries(model.take(i as int), now) + tail,
            decreases i,
        {
            let ghost list = self@.entries;
            assert(list.len() == self.entries@.len());
            i -= 1;
            let ghost e = model[i as int];
            assert(list[i as int] == e);
            assert(self.entries@[i as int]@ == e);
            assert(model.take(i + 1).drop_last() =~= model.take(i as int));
            assert(model.take(i + 1).last() == e);
            let created_at: u64 = self.entries[i].created_at;
            let keep: bool = match &self.entries[i].result {
                None => true,
                Some(r) => match result_ttl(r) {
                    Some(ttl) => now < created_at || now - created_at < ttl,
                    None => false,
                },
            };
            let ghost rest = fresh_entries(model.take(i as int), now);
            if keep {
                proof {
                    assert(rest.push(e) + tail =~= rest + (seq![e] + tail));
                    assert(list =~= model.take(i as int) + (seq![e] + tail));
                    tail = seq![e] + tail;
                }
            } else {
                self.entries.remove(i);
                assert(self@.entries =~= list.remove(i as int));
                assert(self@.entries =~= model.take(i as int) + tail);
            }
        }
        assert(self@.entries =~= tail);
        assert(fresh_entries(model, now) =~= tail);
    }

    fn make_room(&mut self)
        ensures
            final(self)@ == (CacheModel {
                entries: with_room(old(self)@.entries),
                ..old(self)@
            }),
    {
        let ghost start = self@;
        while self.entries.len() >= MAX_LYRIC_CACHE_ENTRIES
            invariant
                start == old(self)@,
                self@.searches == start.searches,
                with_room(self@.entries) == with_room(start.entries),
            decreases self.entries@.len(),
        {
            let ghost model = self@.entries;
            match find_oldest(&self.entries) {
                None => {
                    return;
                },
                Some(i) => {
                    self.entries.remove(i);
                    assert(self@.entries =~= model.remove(i as int));
                },
            }
        }
    }

    /// The entry for a request. Everything outdated goes first. Where the request is not known yet,
    /// the caller runs the search; all others wait for it or get its result.
    pub fn entry(&mut self, key: LyricsCacheKey, now: u64) -> (r: LyricsTicket)
        requires
            old(self)@.searches < u64::MAX,
        ensures
            ({
                let (after, e) = old(self)@.after_entry(key@, now);
                &&& final(self)@ == after
                &&& r.search == e.search
                &&& cached_of(r.result) == e.result
                &&& r.is_new == (find_from(fresh_entries(old(self)@.entries, now), key@, 0)
                    is None)
            }),
    {
        let ghost before = self@;
        self.prune(now);
        let ghost model = self@.entries;
        let mut i: usize = 0;
        while i < self.entries.len()
            invariant
                i <= self.entries@.len(),
                self@.searches == before.searches,
                model == self@.entries,
                model == fresh_entries(before.entries, now),
                before == old(self)@,
                find_from(model, key@, 0) == find_from(model, key@, i as nat),
            decreases self.entries@.len() - i,
        {
            assert(model[i as int] == self.entries@[i as int]@);
            if same_key(&self.entries[i].key, &key) {
                return LyricsTicket {
                    search: self.entries[i].search,
                    result: clone_cached(&self.entries[i].result),
                    is_new: false,
                };
            }
            i += 1;
        }
        self.make_room();
        let ghost room = self@.entries;
        let search: u64 = self.searches;
        let e = LyricsCacheEntry { key, created_at: now, search, result: None };
        let ghost entry = e@;
        self.entries.push(e);
        assert(self@.entries =~= room.push(entry));
        self.searches = search + 1;
        LyricsTicket { search, result: None, is_new: true }
    }

    /// A search has ended. Its result is kept for those who ask later, unless it is a failure that
    /// the next one should not inherit.
    pub fn settle(&mut self, search: u64, result: &CachedLyrics)
        ensures
            final(self)@ == old(self)@.after_result(search, result@),
    {
        let ghost model = self@.entries;
        let ghost count = self.searches;
        let keeps: bool = result_ttl(result).is_some();
        let ghost mut tail = Seq::<EntryModel>::empty();
        let mut i: usize = self.entries.len();
        assert(model.take(i as int) =~= model);
        assert(model + tail =~= model);
        assert(settled(model, search, result@) + tail =~= settled(model, search, result@));
        while i > 0
            invariant
                i <= model.len(),
                self.searches == count,
                keeps == (ttl_of(result@) is Some),
                self@.entries == model.take(i as int) + tail,
                settled(model, search, result@) == settled(
                    model.take(i as int),
                    search,
                    result@,
                ) + tail,
            decreases i,
        {
            let ghost list = self@.entries;
            assert(list.len() == self.entries@.len());
            i -= 1;
            let ghost e = model[i as int];
            assert(list[i as int] == e);
            assert(self.entries@[i as int]@ == e);
            assert(model.take(i + 1).drop_last() =~= model.take(i as int));
            assert(model.take(i + 1).last() == e);
            let ghost rest = settled(model.take(i as int), search, result@);
            if self.entries[i].search != search || self.entries[i].result.is_some() {
                proof {
                    assert(rest.push(e) + tail =~= rest + (seq![e] + tail));
                    assert(list =~= model.take(i as int) + (seq![e] + tail));
                    tail = seq![e] + tail;
                }
            } else if keeps {
                let ghost done = EntryModel { result: Some(result@), ..e };
                let entry: &mut LyricsCacheEntry = &mut self.entries[i];
                entry.result = Some(result.clone());
                assert(self.entries@[i as int]@ == done);
                assert(self@.entries =~= list.update(i as int, done));
                proof {
                    assert(rest.push(done) + tail =~= rest + (seq![done] + tail));
                    assert(self@.entries =~= model.take(i as int) + (seq![done] + tail));
                    tail = seq![done] + tail;
                }
            } else {
                self.entries.remove(i);
                assert(self@.entries =~= list.remove(i as int));
                assert(self@.entries =~= model.take(i as int) + tail);
            }
        }
        assert(self@.entries =~= tail);
        assert(settled(model, search, result@) =~= tail);
    }
}

pub proof fn lemma_fresh_holds(entries: Seq<EntryModel>, now: u64, e: EntryModel)
    requires
        entries.contains(e),
        is_fresh(e, now),
    ensures
        fresh_entries(entries, now).contains(e),
    decreases entries.len(),
{
    let k = choose|k: int| 0 <= k < entries.len() && entries[k] == e;
    let front = entries.drop_last();
    let before = fresh_entries(front, now);
    let after = fresh_entries(entries, now);
    if k == entries.len() - 1 {
        assert(after[after.len() - 1] == e);
    } else {
        assert(front[k] == e);
        lemma_fresh_holds(front, now, e);
        let i = choose|i: int| 0 <= i < before.len() && before[i] == e;
        assert(after[i] == e);
    }
}

pub proof fn lemma_found(entries: Seq<EntryModel>, key: KeyModel, from: nat)
    ensures
        match find_from(entries, key, from) {
            Some(i) => from <= i < entries.len() && entries[i].key == key,
            None => forall|i: int| from <= i < entries.len() ==> (#[trigger] entries[i]).key != key,
        },
    decreases entries.len() - from,
{
    if from < entries.len() && entries[from as int].key != key {
        lemma_found(entries, key, from + 1);
    }
}

/// What was not found is remembered: whoever asks again within two hours shares the same result
/// and starts no new search.
pub proof fn a_missing_result_is_shared(cache: CacheModel, e: EntryModel, now: u64)
    requires
        cache.entries.contains(e),
        e.result matches Some(CachedModel::Failed { status, .. }) && status == 404,
        now - e.created_at < LYRIC_MISSING_TTL,
    ensures
        find_from(fresh_entries(cache.entries, now), e.key, 0) is Some,
        cache.after_entry(e.key, now).0.searches == cache.searches,
{
    let fresh = fresh_entries(cache.entries, now);
    lemma_fresh_holds(cache.entries, now, e);
    lemma_found(fresh, e.key, 0);
    let i = choose|i: int| 0 <= i < fresh.len() && fresh[i] == e;
    assert(fresh[i].key == e.key);
}

pub proof fn lemma_room(entries: Seq<EntryModel>)
    ensures
        with_room(entries).len() <= entries.len(),
        with_room(entries).len() < MAX_LYRIC_CACHE_ENTRIES || forall|j: int|
            0 <= j < with_room(entries).len() ==> (#[trigger] with_room(entries)[j]).result is None,
    decreases entries.len(),
{
    if entries.len() >= MAX_LYRIC_CACHE_ENTRIES {
        lemma_oldest_done(entries, entries.len());
        if let Some(i) = oldest_done(entries, entries.len()) {
            lemma_room(entries.remove(i));
        }
    }
}

/// The cache holds no more than its limit, unless every search in it still runs.
pub proof fn the_lyric_cache_is_limited(cache: CacheModel, key: KeyModel, now: u64)
    requires
        cache.entries.len() <= MAX_LYRIC_CACHE_ENTRIES,
        fresh_entries(cache.entries, now).len() < MAX_LYRIC_CACHE_ENTRIES || (exists|i: int|
            0 <= i < fresh_entries(cache.entries, now).len() && (#[trigger] fresh_entries(
                cache.entries,
                now,
            )[i]).result is Some),
    ensures
        cache.after_entry(key, now).0.entries.len() <= MAX_LYRIC_CACHE_ENTRIES,
{
    let fresh = fresh_entries(cache.entries, now);
    lemma_fresh_len(cache.entries, now);
    lemma_room(fresh);
    if fresh.len() >= MAX_LYRIC_CACHE_ENTRIES {
        lemma_oldest_done(fresh, fresh.len());
        match oldest_done(fresh, fresh.len()) {
            Some(i) => {
                lemma_room(fresh.remove(i));
            },
            None => {},
        }
    }
}

pub proof fn lemma_fresh_len(entries: Seq<EntryModel>, now: u64)
    ensures
        fresh_entries(entries, now).len() <= entries.len(),
    decreases entries.len(),
{
    if entries.len() > 0 {
        lemma_fresh_len(entries.drop_last(), now);
    }
}

/// No two entries are for the same request.
pub open spec fn keys_differ(entries: Seq<EntryModel>) -> bool {
    forall|i: int, j: int|
        0 <= i < j < entries.len() ==> (#[trigger] entries[i]).key != (#[trigger] entries[j]).key
}

proof fn lemma_fresh_are_old(entries: Seq<EntryModel>, now: u64)
    ensures
        forall|i: int|
            #![trigger fresh_entries(entries, now)[i]]
            0 <= i < fresh_entries(entries, now).len() ==> entries.contains(
                fresh_entries(entries, now)[i],
            ),
        keys_differ(entries) ==> keys_differ(fresh_entries(entries, now)),
    decreases entries.len(),
{
    if entries.len() > 0 {
        let front = entries.drop_last();
        let before = fresh_entries(front, now);
        let after = fresh_entries(entries, now);
        lemma_fresh_are_old(front, now);
        assert forall|i: int| 0 <= i < before.len() implies exists|k: int|
            0 <= k < entries.len() - 1 && entries[k] == #[trigger] before[i] by {
            let k = choose|k: int| 0 <= k < front.len() && front[k] == before[i];
            assert(entries[k] == before[i]);
        }
        assert forall|i: int| #![trigger after[i]] 0 <= i < after.len() implies entries.contains(
            after[i],
        ) by {
            if i < before.len() {
                let k = choose|k: int| 0 <= k < entries.len() - 1 && entries[k] == before[i];
                assert(entries[k] == after[i]);
            } else {
                assert(entries[entries.len() - 1] == after[i]);
            }
        }
        if keys_differ(entries) {
            assert forall|i: int, j: int| 0 <= i < j < front.len() implies (#[trigger] front[i]).key
                != (#[trigger] front[j]).key by {
                assert(entries[i].key != entries[j].key);
            }
            assert forall|i: int, j: int| 0 <= i < j < after.len() implies (#[trigger] after[i]).key
                != (#[trigger] after[j]).key by {
                if j < before.len() {
                    assert(before[i].key != before[j].key);
                } else {
                    let k = choose|k: int| 0 <= k < entries.len() - 1 && entries[k] == before[i];
                    assert(entries[k].key != entries[entries.len() - 1].key);
                }
            }
        }
    }
}

proof fn lemma_room_is_old(entries: Seq<EntryModel>)
    ensures
        forall|i: int|
            #![trigger with_room(entries)[i]]
            0 <= i < with_room(entries).len() ==> entries.contains(with_room(entries)[i]),
        keys_differ(entries) ==> keys_differ(with_room(entries)),
    decreases entries.len(),
{
    let after = with_room(entries);
    if entries.len() >= MAX_LYRIC_CACHE_ENTRIES && oldest_done(entries, entries.len()) is Some {
        lemma_oldest_done(entries, entries.len());
        let gone = oldest_done(entries, entries.len())->0;
        let rest = entries.remove(gone);
        lemma_room_is_old(rest);
        assert(after == with_room(rest));
        assert forall|i: int| #![trigger after[i]] 0 <= i < after.len() implies entries.contains(
            after[i],
        ) by {
            assert(rest.contains(with_room(rest)[i]));
            let k = choose|k: int| 0 <= k < rest.len() && rest[k] == after[i];
            if k < gone {
                assert(entries[k] == after[i]);
            } else {
                assert(entries[k + 1] == after[i]);
            }
        }
        if keys_differ(entries) {
            assert forall|i: int, j: int| 0 <= i < j < rest.len() implies (#[trigger] rest[i]).key
                != (#[trigger] rest[j]).key by {
                let a = if i < gone {
                    i
                } else {
                    i + 1
                };
                let b = if j < gone {
                    j
                } else {
                    j + 1
                };
                assert(rest[i] == entries[a] && rest[j] == entries[b]);
            }
        }
    } else {
        assert forall|i: int| #![trigger after[i]] 0 <= i < after.len() implies entries.contains(
            after[i],
        ) by {
            assert(after[i] == entries[i]);
        }
    }
}

/// What is left of an entry after a search has ended.
pub open spec fn entry_after(e: EntryModel, search: u64, result: CachedModel) -> Option<EntryModel> {
    if e.search != search || e.result is Some {
        Some(e)
    } else if ttl_of(result) is None {
        None
    } else {
        Some(EntryModel { result: Some(result), ..e })
    }
}

proof fn lemma_settled_are_old(entries: Seq<EntryModel>, search: u64, result: CachedModel)
    ensures
        forall|i: int|
            #![trigger settled(entries, search, result)[i]]
            0 <= i < settled(entries, search, result).len() ==> exists|k: int|
                0 <= k < entries.len() && entry_after(#[trigger] entries[k], search, result)
                    == Some(settled(entries, search, result)[i]),
        forall|k: int|
            0 <= k < entries.len() ==> (entry_after(#[trigger] entries[k], search, result) matches Some(
                e,
            ) ==> settled(entries, search, result).contains(e)),
        keys_differ(entries) ==> keys_differ(settled(entries, search, result)),
    decreases entries.len(),
{
    if entries.len() > 0 {
        let front = entries.drop_last();
        let last = entries.len() - 1;
        let before = settled(front, search, result);
        let after = settled(entries, search, result);
        lemma_settled_are_old(front, search, result);
        assert forall|i: int| 0 <= i < before.len() implies exists|k: int|
            0 <= k < last && entry_after(#[trigger] entries[k], search, result) == Some(
                #[trigger] before[i],
            ) by {
            let k = choose|k: int|
                0 <= k < front.len() && entry_after(#[trigger] front[k], search, result) == Some(
                    before[i],
                );
            assert(entries[k] == front[k]);
        }
        assert forall|i: int| #![trigger after[i]] 0 <= i < after.len() implies exists|k: int|
            0 <= k < entries.len() && entry_after(#[trigger] entries[k], search, result) == Some(
                after[i],
            ) by {
            if i < before.len() {
                let k = choose|k: int|
                    0 <= k < last && entry_after(#[trigger] entries[k], search, result) == Some(
                        before[i],
                    );
                assert(entry_after(entries[k], search, result) == Some(after[i]));
            } else {
                assert(entry_after(entries[last], search, result) == Some(after[i]));
            }
        }
        assert forall|k: int| 0 <= k < entries.len() implies (entry_after(
            #[trigger] entries[k],
            search,
            result,
        ) matches Some(e) ==> after.contains(e)) by {
            if let Some(e) = entry_after(entries[k], search, result) {
                if k < last {
                    assert(front[k] == entries[k]);
                    let i = choose|i: int| 0 <= i < before.len() && before[i] == e;
                    assert(after[i] == e);
                } else {
                    assert(after[after.len() - 1] == e);
                }
            }
        }
        if keys_differ(entries) {
            assert forall|i: int, j: int| 0 <= i < j < front.len() implies (#[trigger] front[i]).key
                != (#[trigger] front[j]).key by {
                assert(entries[i].key != entries[j].key);
            }
            assert forall|i: int, j: int| 0 <= i < j < after.len() implies (#[trigger] after[i]).key
                != (#[trigger] after[j]).key by {
                if j < before.len() {
                    assert(before[i].key != before[j].key);
                } else {
                    let k = choose|k: int|
                        0 <= k < last && entry_after(#[trigger] entries[k], search, result) == Some(
                            before[i],
                        );
                    assert(entries[k].key != entries[last].key);
                }
            }
        }
    }
}

/// The cache never holds two entries for the same request.
pub proof fn each_request_has_one_entry(
    cache: CacheModel,
    key: KeyModel,
    now: u64,
    search: u64,
    result: CachedModel,
)
    requires
        keys_differ(cache.entries),
    ensures
        keys_differ(cache.after_entry(key, now).0.entries),
        keys_differ(cache.after_result(search, result).entries),
{
    let fresh = fresh_entries(cache.entries, now);
    lemma_fresh_are_old(cache.entries, now);
    lemma_room_is_old(fresh);
    lemma_found(fresh, key, 0);
    lemma_settled_are_old(cache.entries, search, result);
    if find_from(fresh, key, 0) is None {
        let room = with_room(fresh);
        let all = cache.after_entry(key, now).0.entries;
        assert forall|i: int, j: int| 0 <= i < j < all.len() implies (#[trigger] all[i]).key != (
        #[trigger] all[j]).key by {
            if j < room.len() {
                assert(room[i].key != room[j].key);
            } else {
                let k = choose|k: int| 0 <= k < fresh.len() && fresh[k] == room[i];
                assert(fresh[k].key != key);
            }
        }
    }
}

/// Whoever asks for the same shares one entry, and with it one search: while the search runs, for
/// a day once it has found lyrics, and for two hours once it has found none.
pub proof fn equal_requests_share_one_search(cache: CacheModel, e: EntryModel, now: u64)
    requires
        keys_differ(cache.entries),
        cache.entries.contains(e),
        is_fresh(e, now),
    ensures
        cache.after_entry(e.key, now) == (
            CacheModel { entries: fresh_entries(cache.entries, now), ..cache },
            e,
        ),
{
    let fresh = fresh_entries(cache.entries, now);
    lemma_fresh_holds(cache.entries, now, e);
    lemma_fresh_are_old(cache.entries, now);
    lemma_found(fresh, e.key, 0);
    let i = choose|i: int| 0 <= i < fresh.len() && fresh[i] == e;
    assert(fresh[i].key == e.key);
    let found = find_from(fresh, e.key, 0)->0;
    if found < i {
        assert(fresh[found].key != fresh[i].key);
    } else if i < found {
        assert(fresh[i].key != fresh[found].key);
    }
}

/// The result of a search is shared by whoever asks next: what was found for a day, and that
/// nothing was found for two hours. After any other failure the next request begins a new search.
pub proof fn what_a_search_gave_is_shared(
    cache: CacheModel,
    e: EntryModel,
    result: CachedModel,
    now: u64,
)
    requires
        keys_differ(cache.entries),
        cache.entries.contains(e),
        e.result is None,
    ensures
        match ttl_of(result) {
            Some(ttl) => now - e.created_at < ttl ==> cache.after_result(
                e.search,
                result,
            ).after_entry(e.key, now).1 == (EntryModel { result: Some(result), ..e }),
            None => cache.after_result(e.search, result).after_entry(e.key, now).1 == (EntryModel {
                key: e.key,
                created_at: now,
                search: cache.searches,
                result: None,
            }),
        },
{
    let after = cache.after_result(e.search, result);
    lemma_settled_are_old(cache.entries, e.search, result);
    let at = choose|k: int| 0 <= k < cache.entries.len() && cache.entries[k] == e;
    assert(cache.entries[at] == e);
    match ttl_of(result) {
        Some(ttl) => {
            if now - e.created_at < ttl {
                let done = EntryModel { result: Some(result), ..e };
                assert(entry_after(cache.entries[at], e.search, result) == Some(done));
                equal_requests_share_one_search(after, done, now);
            }
        },
        None => {
            let fresh = fresh_entries(after.entries, now);
            lemma_fresh_are_old(after.entries, now);
            lemma_found(fresh, e.key, 0);
            if let Some(i) = find_from(fresh, e.key, 0) {
                let m = choose|m: int| 0 <= m < after.entries.len() && after.entries[m] == fresh[i];
                let k = choose|k: int|
                    0 <= k < cache.entries.len() && entry_after(
                        #[trigger] cache.entries[k],
                        e.search,
                        result,
                    ) == Some(after.entries[m]);
                assert(cache.entries[k].key == e.key);
                assert(k == at);
            }
        },
    }
}

} // verus!
