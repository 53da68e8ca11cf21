//! What a player reads in the analysis files: beats, columns and paths stand where the format has
//! them, and say what was analysed.

use vstd::prelude::*;

use crate::anlz::{be16, be32, file, fits, section};
use crate::one_library_analysis::{
    all_beat_bytes, band_triples, be16_all, beat_bytes, beat_grid_bytes, beat_marks, beats_of,
    color_detail_bytes, color_preview_bytes, color_six, color_sixes, color_word, color_words,
    directory, directory_number, directory_prefix, empty_cue_bytes, empty_extended_cue_bytes,
    extended_beat_grid_bytes, lemma_all_beat_bytes_len, lemma_band_triples_len, lemma_be16_all_len,
    lemma_beat_marks_len, lemma_color_sixes_len, lemma_color_words_len, mono, mono_detail_bytes,
    mono_preview_bytes, part, path_bytes, path_hash, peak, preview, sevenths, source_column_of,
    three_band_detail_bytes, three_band_preview_bytes, utf16, utf16_char, whiteness_of,
    whiteness_sum, Beat, LocalAnalysis, LocalWaveform, StretchedColumns, WaveColumn,
};
use crate::text::hex;
use crate::text_laws::{hex_reads_back, hex_value, pow16};

verus! {

/// The bytes at `at` are those of a 16-bit number, most significant first.
pub open spec fn u16_stands(s: Seq<u8>, at: int, n: int) -> bool {
    0 <= at && at + 2 <= s.len() && s[at] * 0x100 + s[at + 1] == n
}

/// The bytes at `at` are those of a 32-bit number, most significant first.
pub open spec fn u32_stands(s: Seq<u8>, at: int, n: int) -> bool {
    0 <= at && at + 4 <= s.len() && s[at] * 0x100_0000 + s[at + 1] * 0x1_0000 + s[at + 2] * 0x100
        + s[at + 3] == n
}

proof fn lemma_be16(n: int)
    requires
        0 <= n <= 0xffff,
    ensures
        be16(n).len() == 2,
        be16(n)[0] * 0x100 + be16(n)[1] == n,
{
}

proof fn lemma_be32(n: int)
    requires
        0 <= n <= 0xffff_ffff,
    ensures
        be32(n).len() == 4,
        be32(n)[0] * 0x100_0000 + be32(n)[1] * 0x1_0000 + be32(n)[2] * 0x100 + be32(n)[3] == n,
{
}

proof fn lemma_beat_reads_back(b: Beat)
    ensures
        beat_bytes(b).len() == 8,
        u16_stands(beat_bytes(b), 0, b.number as int),
        u16_stands(beat_bytes(b), 2, b.tempo as int),
        u32_stands(beat_bytes(b), 4, b.time_ms as int),
{
    let s = beat_bytes(b);
    lemma_be16(b.number as int);
    lemma_be16(b.tempo as int);
    lemma_be32(b.time_ms as int);
    assert(s[0] == be16(b.number as int)[0] && s[1] == be16(b.number as int)[1]);
    assert(s[2] == be16(b.tempo as int)[0] && s[3] == be16(b.tempo as int)[1]);
    assert(s[4] == be32(b.time_ms as int)[0] && s[5] == be32(b.time_ms as int)[1] && s[6] == be32(
        b.time_ms as int,
    )[2] && s[7] == be32(b.time_ms as int)[3]);
}

proof fn lemma_all_beats_read_back(beats: Seq<Beat>, i: int)
    requires
        0 <= i < beats.len(),
    ensures
        all_beat_bytes(beats).subrange(8 * i, 8 * i + 8) == beat_bytes(beats[i]),
    decreases beats.len(),
{
    let front = beats.drop_last();
    lemma_all_beat_bytes_len(beats);
    lemma_all_beat_bytes_len(front);
    lemma_beat_reads_back(beats.last());
    let s = all_beat_bytes(beats);
    if i < front.len() {
        lemma_all_beats_read_back(front, i);
        assert(s.subrange(8 * i, 8 * i + 8) =~= all_beat_bytes(front).subrange(8 * i, 8 * i + 8));
    } else {
        assert(s.subrange(8 * i, 8 * i + 8) =~= beat_bytes(beats[i]));
    }
}

/// A section begins with its name, the length of its head and its whole length; then come the rest
/// of the head and the body.
pub proof fn a_section_says_how_long_it_is(name: Seq<u8>, extra: Seq<u8>, body: Seq<u8>)
    requires
        name.len() == 4,
        12 + extra.len() + body.len() <= 0xffff_ffff,
    ensures
        ({
            let s = section(name, extra, body);
            &&& s.len() == 12 + extra.len() + body.len()
            &&& s.take(4) == name
            &&& u32_stands(s, 4, 12 + extra.len() as int)
            &&& u32_stands(s, 8, s.len() as int)
            &&& s.subrange(12, 12 + extra.len() as int) == extra
            &&& s.skip(12 + extra.len() as int) == body
        }),
{
    let s = section(name, extra, body);
    let head = 12 + extra.len() as int;
    let total = 12 + extra.len() + body.len() as int;
    lemma_be32(head);
    lemma_be32(total);
    assert(s[4] == be32(head)[0] && s[5] == be32(head)[1] && s[6] == be32(head)[2] && s[7] == be32(
        head,
    )[3]);
    assert(s[8] == be32(total)[0] && s[9] == be32(total)[1] && s[10] == be32(total)[2] && s[11]
        == be32(total)[3]);
    assert(s.take(4) =~= name);
    assert(s.subrange(12, head) =~= extra);
    assert(s.skip(head) =~= body);
}

/// A file begins with its name, the length of its head and its whole length.
pub proof fn a_file_says_how_long_it_is(sections: Seq<Seq<u8>>)
    requires
        file(sections).len() <= 0xffff_ffff,
    ensures
        file(sections).len() >= 28,
        file(sections).take(4) == seq![0x50u8, 0x4du8, 0x41u8, 0x49u8],
        u32_stands(file(sections), 4, 28),
        u32_stands(file(sections), 8, file(sections).len() as int),
        fits(sections) <==> file(sections).len() <= usize::MAX,
{
    let s = file(sections);
    let total = s.len() as int;
    lemma_be32(28);
    lemma_be32(total);
    assert(s[4] == be32(28)[0] && s[5] == be32(28)[1] && s[6] == be32(28)[2] && s[7] == be32(
        28,
    )[3]);
    assert(s[8] == be32(total)[0] && s[9] == be32(total)[1] && s[10] == be32(total)[2] && s[11]
        == be32(total)[3]);
    assert(s.take(4) =~= seq![0x50u8, 0x4du8, 0x41u8, 0x49u8]);
}

/// A player that reads the beat grid finds how many beats there are and, for every beat, its number
/// in the bar, its tempo and its time, eight bytes for each.
pub proof fn the_beat_grid_reads_back(beats: Seq<Beat>)
    requires
        24 + 8 * beats.len() <= 0xffff_ffff,
    ensures
        beat_grid_bytes(beats).len() == 24 + 8 * beats.len(),
        beat_grid_bytes(beats).take(4) == seq![0x50u8, 0x51u8, 0x54u8, 0x5au8],
        u32_stands(beat_grid_bytes(beats), 4, 24),
        u32_stands(beat_grid_bytes(beats), 20, beats.len() as int),
        forall|i: int|
            #![trigger beats[i]]
            0 <= i < beats.len() ==> {
                &&& u16_stands(beat_grid_bytes(beats), 24 + 8 * i, beats[i].number as int)
                &&& u16_stands(beat_grid_bytes(beats), 24 + 8 * i + 2, beats[i].tempo as int)
                &&& u32_stands(beat_grid_bytes(beats), 24 + 8 * i + 4, beats[i].time_ms as int)
            },
{
    let name = seq![0x50u8, 0x51, 0x54, 0x5a];
    let extra = be32(0) + be32(0x0008_0000) + be32(beats.len() as int);
    let body = all_beat_bytes(beats);
    let s = beat_grid_bytes(beats);
    lemma_all_beat_bytes_len(beats);
    a_section_says_how_long_it_is(name, extra, body);
    lemma_be32(beats.len() as int);
    assert(name =~= seq![0x50u8, 0x51u8, 0x54u8, 0x5au8]);
    let count = be32(beats.len() as int);
    assert(s[20] == count[0] && s[21] == count[1] && s[22] == count[2] && s[23] == count[3]);
    assert forall|i: int| #![trigger beats[i]] 0 <= i < beats.len() implies u16_stands(
        s,
        24 + 8 * i,
        beats[i].number as int,
    ) && u16_stands(s, 24 + 8 * i + 2, beats[i].tempo as int) && u32_stands(
        s,
        24 + 8 * i + 4,
        beats[i].time_ms as int,
    ) by {
        let b = beat_bytes(beats[i]);
        lemma_all_beats_read_back(beats, i);
        lemma_beat_reads_back(beats[i]);
        let cut = body.subrange(8 * i, 8 * i + 8);
        let at = 24 + 8 * i;
        assert(s.skip(24) == body);
        assert forall|k: int| 0 <= k < 8 implies #[trigger] s[at + k] == b[k] by {
            assert(cut[k] == body[8 * i + k]);
            assert(s.skip(24)[8 * i + k] == s[at + k]);
        }
        assert(s[at + 0] == b[0] && s[at + 1] == b[1] && s[at + 2] == b[2] && s[at + 3] == b[3]);
        assert(s[at + 4] == b[4] && s[at + 5] == b[5] && s[at + 6] == b[6] && s[at + 7] == b[7]);
    }
}

proof fn lemma_marks_read_back(beats: Seq<Beat>, i: int)
    requires
        0 <= i < beats.len(),
    ensures
        beat_marks(beats)[2 * i] == beats[i].number % 256,
        beat_marks(beats)[2 * i + 1] == 0,
    decreases beats.len(),
{
    lemma_beat_marks_len(beats);
    lemma_beat_marks_len(beats.drop_last());
    if i < beats.len() - 1 {
        lemma_marks_read_back(beats.drop_last(), i);
    }
}

/// A player that reads the extended beat grid finds the first two beats in full (the first one
/// twice where there is no other), how many beats there are, and the number of each in its bar.
pub proof fn the_extended_beat_grid_reads_back(beats: Seq<Beat>)
    requires
        0 < beats.len(),
        56 + 2 * beats.len() <= 0xffff_ffff,
    ensures
        ({
            let s = extended_beat_grid_bytes(beats);
            let second = beats[if beats.len() > 1 {
                1int
            } else {
                0
            }];
            &&& s.len() == 56 + 2 * beats.len()
            &&& s.take(4) == seq![0x50u8, 0x51u8, 0x54u8, 0x32u8]
            &&& u16_stands(s, 24, beats[0].number as int)
            &&& u16_stands(s, 26, beats[0].tempo as int)
            &&& u32_stands(s, 28, beats[0].time_ms as int)
            &&& u16_stands(s, 32, second.number as int)
            &&& u16_stands(s, 34, second.tempo as int)
            &&& u32_stands(s, 36, second.time_ms as int)
            &&& u32_stands(s, 40, beats.len() as int)
            &&& forall|i: int|
                #![trigger beats[i]]
                0 <= i < beats.len() ==> s[56 + 2 * i] == beats[i].number % 256 && s[57 + 2 * i]
                    == 0
        }),
{
    let second = if beats.len() > 1 {
        beats[1]
    } else {
        beats[0]
    };
    let name = seq![0x50u8, 0x51, 0x54, 0x32];
    let a = beat_bytes(beats[0]);
    let b = beat_bytes(second);
    let count = be32(beats.len() as int);
    let extra = be32(0) + be32(0x0100_0002) + be32(0) + a + b + count + be32(0) + be32(0) + be32(0);
    let body = beat_marks(beats);
    let s = extended_beat_grid_bytes(beats);
    lemma_beat_reads_back(beats[0]);
    lemma_beat_reads_back(second);
    lemma_beat_marks_len(beats);
    lemma_be32(beats.len() as int);
    assert(extra.len() == 44);
    a_section_says_how_long_it_is(name, extra, body);
    assert(name =~= seq![0x50u8, 0x51u8, 0x54u8, 0x32u8]);
    let head = s.subrange(12, 56);
    assert(head == extra);
    assert forall|k: int| 0 <= k < 8 implies #[trigger] a[k] == s[24 + k] && b[k] == s[32 + k] by {
        assert(head[12 + k] == a[k]);
        assert(head[20 + k] == b[k]);
    }
    assert(a[0] == s[24] && a[1] == s[25] && a[2] == s[26] && a[3] == s[27]);
    assert(a[4] == s[28] && a[5] == s[29] && a[6] == s[30] && a[7] == s[31]);
    assert(b[0] == s[32] && b[1] == s[33] && b[2] == s[34] && b[3] == s[35]);
    assert(b[4] == s[36] && b[5] == s[37] && b[6] == s[38] && b[7] == s[39]);
    assert(head[28] == count[0] && head[29] == count[1] && head[30] == count[2] && head[31]
        == count[3]);
    assert forall|i: int| #![trigger beats[i]] 0 <= i < beats.len() implies s[56 + 2 * i]
        == beats[i].number % 256 && s[57 + 2 * i] == 0 by {
        lemma_marks_read_back(beats, i);
        assert(s.skip(56)[2 * i] == s[56 + 2 * i]);
        assert(s.skip(56)[2 * i + 1] == s[57 + 2 * i]);
    }
}

/// Every beat of an analysis goes into the grid, at its own time and with the tempo of the track;
/// the beats are counted in bars of four.
pub proof fn beats_are_counted_in_fours(tempo: u16, times: Seq<u32>)
    ensures
        beats_of(tempo, times).len() == times.len(),
        forall|i: int|
            #![trigger beats_of(tempo, times)[i]]
            0 <= i < times.len() ==> {
                let b = beats_of(tempo, times)[i];
                &&& b.time_ms == times[i]
                &&& b.tempo == tempo
                &&& 1 <= b.number <= 4
                &&& (i - (b.number - 1)) % 4 == 0
            },
{
}

/// A column of a monochrome waveform gives back its height and how white it is.
pub proof fn a_mono_column_reads_back(c: WaveColumn)
    requires
        c.height < 32,
        c.whiteness < 8,
    ensures
        mono(c) as int % 32 == c.height,
        mono(c) as int / 32 == c.whiteness,
{
}

/// A band is shown as its share of the height in sevenths, rounded down: a band as high as the column
/// fills it, and a silent column is full.
pub proof fn a_band_is_a_share_of_the_height(band: u8, height: u8)
    ensures
        sevenths(band, height) <= 7,
        height == 0 ==> sevenths(band, height) == 7,
        0 < height <= band ==> sevenths(band, height) == 7,
        band < height ==> sevenths(band, height) * height <= band * 7 < (sevenths(band, height) + 1)
            * height,
{
    if 0 < height {
        let q = band * 7 / height as int;
        vstd::arithmetic::div_mod::lemma_fundamental_div_mod(band * 7, height as int);
        vstd::arithmetic::mul::lemma_mul_is_commutative(height as int, q);
        assert((q + 1) * height == q * height + height) by (nonlinear_arith);
        if band < height {
            assert(q <= 7) by (nonlinear_arith)
                requires
                    q * height <= band * 7,
                    band < height,
                    0 < height,
            ;
        } else {
            assert(q >= 7) by (nonlinear_arith)
                requires
                    band * 7 < (q + 1) * height,
                    height <= band,
                    0 < height,
            ;
        }
    }
}

/// The word of a coloured column gives back its height and its three bands as shares: the high band
/// on top, then the middle one, then the low one.
pub proof fn a_color_word_reads_back(c: WaveColumn)
    requires
        c.height < 32,
    ensures
        0 <= color_word(c) <= 0xffff,
        color_word(c) / 8192 == sevenths(c.high, c.height),
        color_word(c) / 1024 % 8 == sevenths(c.mid, c.height),
        color_word(c) / 128 % 8 == sevenths(c.low, c.height),
        color_word(c) / 4 % 32 == c.height,
        color_word(c) % 4 == 0,
{
    a_band_is_a_share_of_the_height(c.high, c.height);
    a_band_is_a_share_of_the_height(c.mid, c.height);
    a_band_is_a_share_of_the_height(c.low, c.height);
    lemma_word_parts(
        sevenths(c.high, c.height) as int,
        sevenths(c.mid, c.height) as int,
        sevenths(c.low, c.height) as int,
        c.height as int,
    );
}

proof fn lemma_word_parts(a: int, b: int, c: int, d: int)
    requires
        0 <= a < 8,
        0 <= b < 8,
        0 <= c < 8,
        0 <= d < 32,
    ensures
        ({
            let w = a * 8192 + b * 1024 + c * 128 + d * 4;
            &&& 0 <= w <= 0xffff
            &&& w / 8192 == a
            &&& w / 1024 % 8 == b
            &&& w / 128 % 8 == c
            &&& w / 4 % 32 == d
            &&& w % 4 == 0
        }),
{
    let w = a * 8192 + b * 1024 + c * 128 + d * 4;
    assert(w / 1024 == a * 8 + b);
    assert(w / 128 == a * 64 + b * 8 + c);
    assert(w / 4 == a * 2048 + b * 256 + c * 32 + d);
}

proof fn lemma_color_words(columns: Seq<WaveColumn>, i: int)
    requires
        0 <= i < columns.len(),
        forall|k: int| 0 <= k < columns.len() ==> (#[trigger] columns[k]).height < 32,
    ensures
        u16_stands(color_words(columns), 2 * i, color_word(columns[i])),
    decreases columns.len(),
{
    let front = columns.drop_last();
    lemma_color_words_len(columns);
    lemma_color_words_len(front);
    a_color_word_reads_back(columns[i]);
    lemma_be16(color_word(columns[i]));
    let s = color_words(columns);
    if i < front.len() {
        assert forall|k: int| 0 <= k < front.len() implies (#[trigger] front[k]).height < 32 by {
            assert(front[k] == columns[k]);
        }
        lemma_color_words(front, i);
        assert(s[2 * i] == color_words(front)[2 * i]);
        assert(s[2 * i + 1] == color_words(front)[2 * i + 1]);
    } else {
        assert(s[2 * i] == be16(color_word(columns[i]))[0]);
        assert(s[2 * i + 1] == be16(color_word(columns[i]))[1]);
    }
}

/// A player that reads the coloured detail waveform finds how many columns there are, and the word
/// of each in its place.
pub proof fn the_color_detail_reads_back(columns: Seq<WaveColumn>)
    requires
        forall|k: int| 0 <= k < columns.len() ==> (#[trigger] columns[k]).height < 32,
        24 + 2 * columns.len() <= 0xffff_ffff,
    ensures
        color_detail_bytes(columns).len() == 24 + 2 * columns.len(),
        color_detail_bytes(columns).take(4) == seq![0x50u8, 0x57, 0x56, 0x35],
        u32_stands(color_detail_bytes(columns), 12, 2),
        u32_stands(color_detail_bytes(columns), 16, columns.len() as int),
        forall|i: int|
            #![trigger columns[i]]
            0 <= i < columns.len() ==> u16_stands(
                color_detail_bytes(columns),
                24 + 2 * i,
                color_word(columns[i]),
            ),
{
    let count = be32(columns.len() as int);
    let extra = be32(2) + count + be32(0x0096_0305);
    let s = color_detail_bytes(columns);
    lemma_color_words_len(columns);
    lemma_be32(columns.len() as int);
    lemma_be32(2);
    a_section_says_how_long_it_is(seq![0x50u8, 0x57, 0x56, 0x35], extra, color_words(columns));
    let head = s.subrange(12, 24);
    assert(head[0] == be32(2)[0] && head[1] == be32(2)[1] && head[2] == be32(2)[2] && head[3]
        == be32(2)[3]);
    assert(head[4] == count[0] && head[5] == count[1] && head[6] == count[2] && head[7] == count[3]);
    assert forall|i: int| #![trigger columns[i]] 0 <= i < columns.len() implies u16_stands(
        s,
        24 + 2 * i,
        color_word(columns[i]),
    ) by {
        lemma_color_words(columns, i);
        assert(s.skip(24)[2 * i] == s[24 + 2 * i]);
        assert(s.skip(24)[2 * i + 1] == s[24 + 2 * i + 1]);
    }
}

proof fn lemma_sixes(columns: Seq<WaveColumn>, i: int, k: int)
    requires
        0 <= i < columns.len(),
        0 <= k < 6,
    ensures
        color_sixes(columns)[6 * i + k] == color_six(columns[i])[k],
    decreases columns.len(),
{
    lemma_color_sixes_len(columns);
    lemma_color_sixes_len(columns.drop_last());
    if i < columns.len() - 1 {
        lemma_sixes(columns.drop_last(), i, k);
    }
}

/// A player that reads the coloured preview finds, for every column, its height twice and then its
/// bands from the high one to the low one, from none (0) to full (31).
pub proof fn the_color_preview_reads_back(columns: Seq<WaveColumn>)
    requires
        24 + 6 * columns.len() <= 0xffff_ffff,
    ensures
        ({
            let s = color_preview_bytes(columns);
            &&& s.len() == 24 + 6 * columns.len()
            &&& s.take(4) == seq![0x50u8, 0x57, 0x56, 0x34]
            &&& u32_stands(s, 12, 6)
            &&& u32_stands(s, 16, columns.len() as int)
            &&& forall|i: int|
                #![trigger columns[i]]
                0 <= i < columns.len() ==> {
                    let c = columns[i];
                    let at = 24 + 6 * i;
                    &&& s[at] == c.height && s[at + 1] == c.height
                    &&& s[at + 2] == sevenths(c.high, c.height) * 31 / 7
                    &&& s[at + 3] == sevenths(c.mid, c.height) * 31 / 7
                    &&& s[at + 4] == sevenths(c.low, c.height) * 31 / 7
                    &&& s[at + 5] == 0
                }
        }),
{
    let count = be32(columns.len() as int);
    let extra = be32(6) + count + be32(0);
    let s = color_preview_bytes(columns);
    lemma_color_sixes_len(columns);
    lemma_be32(columns.len() as int);
    lemma_be32(6);
    a_section_says_how_long_it_is(seq![0x50u8, 0x57, 0x56, 0x34], extra, color_sixes(columns));
    let head = s.subrange(12, 24);
    assert(head[0] == be32(6)[0] && head[1] == be32(6)[1] && head[2] == be32(6)[2] && head[3]
        == be32(6)[3]);
    assert(head[4] == count[0] && head[5] == count[1] && head[6] == count[2] && head[7] == count[3]);
    assert forall|i: int| #![trigger columns[i]] 0 <= i < columns.len() implies {
        let c = columns[i];
        let at = 24 + 6 * i;
        &&& s[at] == c.height && s[at + 1] == c.height
        &&& s[at + 2] == sevenths(c.high, c.height) * 31 / 7
        &&& s[at + 3] == sevenths(c.mid, c.height) * 31 / 7
        &&& s[at + 4] == sevenths(c.low, c.height) * 31 / 7
        &&& s[at + 5] == 0
    } by {
        let c = columns[i];
        let at = 24 + 6 * i;
        a_band_is_a_share_of_the_height(c.high, c.height);
        a_band_is_a_share_of_the_height(c.mid, c.height);
        a_band_is_a_share_of_the_height(c.low, c.height);
        assert forall|k: int| 0 <= k < 6 implies #[trigger] s[at + k] == color_six(c)[k] by {
            lemma_sixes(columns, i, k);
            assert(s.skip(24)[6 * i + k] == s[at + k]);
        }
        assert(s[at + 0] == color_six(c)[0] && s[at + 1] == color_six(c)[1] && s[at + 2]
            == color_six(c)[2] && s[at + 3] == color_six(c)[3] && s[at + 4] == color_six(c)[4]
            && s[at + 5] == color_six(c)[5]);
    }
}

proof fn lemma_triples(columns: Seq<WaveColumn>, i: int)
    requires
        0 <= i < columns.len(),
    ensures
        band_triples(columns)[3 * i] == columns[i].low,
        band_triples(columns)[3 * i + 1] == columns[i].mid,
        band_triples(columns)[3 * i + 2] == columns[i].high,
    decreases columns.len(),
{
    lemma_band_triples_len(columns);
    lemma_band_triples_len(columns.drop_last());
    if i < columns.len() - 1 {
        lemma_triples(columns.drop_last(), i);
    }
}

/// A player that reads a three-band waveform, detailed or as a preview, finds the low, the middle
/// and the high band of every column, in this order.
pub proof fn the_three_bands_read_back(columns: Seq<WaveColumn>)
    requires
        24 + 3 * columns.len() <= 0xffff_ffff,
    ensures
        ({
            let detail = three_band_detail_bytes(columns);
            let small = three_band_preview_bytes(columns);
            &&& detail.len() == 24 + 3 * columns.len()
            &&& small.len() == 20 + 3 * columns.len()
            &&& detail.take(4) == seq![0x50u8, 0x57, 0x56, 0x37]
            &&& small.take(4) == seq![0x50u8, 0x57, 0x56, 0x36]
            &&& u32_stands(detail, 12, 3) && u32_stands(detail, 16, columns.len() as int)
            &&& u32_stands(small, 12, 3) && u32_stands(small, 16, columns.len() as int)
            &&& forall|i: int|
                #![trigger columns[i]]
                0 <= i < columns.len() ==> {
                    let c = columns[i];
                    &&& detail[24 + 3 * i] == c.low && small[20 + 3 * i] == c.low
                    &&& detail[25 + 3 * i] == c.mid && small[21 + 3 * i] == c.mid
                    &&& detail[26 + 3 * i] == c.high && small[22 + 3 * i] == c.high
                }
        }),
{
    let count = be32(columns.len() as int);
    let body = band_triples(columns);
    let detail = three_band_detail_bytes(columns);
    let small = three_band_preview_bytes(columns);
    lemma_band_triples_len(columns);
    lemma_be32(columns.len() as int);
    lemma_be32(3);
    a_section_says_how_long_it_is(
        seq![0x50u8, 0x57, 0x56, 0x37],
        be32(3) + count + be32(0x0096_0000),
        body,
    );
    a_section_says_how_long_it_is(seq![0x50u8, 0x57, 0x56, 0x36], be32(3) + count, body);
    let a = detail.subrange(12, 24);
    let b = small.subrange(12, 20);
    assert(a[0] == be32(3)[0] && a[1] == be32(3)[1] && a[2] == be32(3)[2] && a[3] == be32(3)[3]);
    assert(a[4] == count[0] && a[5] == count[1] && a[6] == count[2] && a[7] == count[3]);
    assert(b[0] == be32(3)[0] && b[1] == be32(3)[1] && b[2] == be32(3)[2] && b[3] == be32(3)[3]);
    assert(b[4] == count[0] && b[5] == count[1] && b[6] == count[2] && b[7] == count[3]);
    assert forall|i: int| #![trigger columns[i]] 0 <= i < columns.len() implies {
        let c = columns[i];
        &&& detail[24 + 3 * i] == c.low && small[20 + 3 * i] == c.low
        &&& detail[25 + 3 * i] == c.mid && small[21 + 3 * i] == c.mid
        &&& detail[26 + 3 * i] == c.high && small[22 + 3 * i] == c.high
    } by {
        lemma_triples(columns, i);
        assert(detail.skip(24)[3 * i] == detail[24 + 3 * i]);
        assert(detail.skip(24)[3 * i + 1] == detail[25 + 3 * i]);
        assert(detail.skip(24)[3 * i + 2] == detail[26 + 3 * i]);
        assert(small.skip(20)[3 * i] == small[20 + 3 * i]);
        assert(small.skip(20)[3 * i + 1] == small[21 + 3 * i]);
        assert(small.skip(20)[3 * i + 2] == small[22 + 3 * i]);
    }
}

/// A player that reads a monochrome waveform, detailed or as a preview, finds one byte for every
/// column, which gives back its height and how white it is.
pub proof fn the_mono_waveforms_read_back(name: Seq<u8>, columns: Seq<WaveColumn>)
    requires
        name.len() == 4,
        24 + columns.len() <= 0xffff_ffff,
        forall|k: int|
            0 <= k < columns.len() ==> (#[trigger] columns[k]).height < 32 && columns[k].whiteness < 8,
    ensures
        ({
            let small = mono_preview_bytes(name, columns);
            let detail = mono_detail_bytes(columns);
            &&& small.len() == 20 + columns.len() && small.take(4) == name
            &&& u32_stands(small, 12, columns.len() as int)
            &&& detail.len() == 24 + columns.len()
            &&& detail.take(4) == seq![0x50u8, 0x57, 0x56, 0x33]
            &&& u32_stands(detail, 12, 1) && u32_stands(detail, 16, columns.len() as int)
            &&& forall|i: int|
                #![trigger columns[i]]
                0 <= i < columns.len() ==> {
                    &&& small[20 + i] % 32 == columns[i].height && small[20 + i] / 32
                        == columns[i].whiteness
                    &&& detail[24 + i] == small[20 + i]
                }
        }),
{
    let count = be32(columns.len() as int);
    let body = columns.map_values(|c: WaveColumn| mono(c));
    let small = mono_preview_bytes(name, columns);
    let detail = mono_detail_bytes(columns);
    lemma_be32(columns.len() as int);
    lemma_be32(1);
    a_section_says_how_long_it_is(name, count + be32(0x0001_0000), body);
    a_section_says_how_long_it_is(
        seq![0x50u8, 0x57, 0x56, 0x33],
        be32(1) + count + be32(0x0096_0000),
        body,
    );
    let a = small.subrange(12, 20);
    let b = detail.subrange(12, 24);
    assert(a[0] == count[0] && a[1] == count[1] && a[2] == count[2] && a[3] == count[3]);
    assert(b[0] == be32(1)[0] && b[1] == be32(1)[1] && b[2] == be32(1)[2] && b[3] == be32(1)[3]);
    assert(b[4] == count[0] && b[5] == count[1] && b[6] == count[2] && b[7] == count[3]);
    assert forall|i: int| #![trigger columns[i]] 0 <= i < columns.len() implies small[20 + i] % 32
        == columns[i].height && small[20 + i] / 32 == columns[i].whiteness && detail[24 + i]
        == small[20 + i] by {
        a_mono_column_reads_back(columns[i]);
        assert(small.skip(20)[i] == small[20 + i]);
        assert(detail.skip(24)[i] == detail[24 + i]);
    }
}

/// A silent column is white. Any other is as white as the high band has a share in its colour, in
/// sevenths and rounded down.
pub proof fn whiteness_is_the_share_of_the_high_band(height: u8, r: u8, g: u8, b: u8)
    ensures
        whiteness_of(height, r, g, b) <= 7,
        height == 0 ==> whiteness_of(height, r, g, b) == 7,
        height > 0 && b == 0 ==> whiteness_of(height, r, g, b) == 0,
        height > 0 && b > 0 && r == 0 && g == 0 ==> whiteness_of(height, r, g, b) == 7,
        height > 0 && r + g + b > 0 ==> {
            let w = whiteness_of(height, r, g, b);
            w * (r + g + b) <= b * 7 < (w + 1) * (r + g + b)
        },
{
    let sum = r + g + b;
    if height > 0 && sum > 0 {
        let q = b * 7 / sum;
        vstd::arithmetic::div_mod::lemma_fundamental_div_mod(b * 7, sum);
        vstd::arithmetic::mul::lemma_mul_is_commutative(sum, q);
        assert((q + 1) * sum == q * sum + sum) by (nonlinear_arith);
        assert(0 <= q <= 7) by (nonlinear_arith)
            requires
                q * sum <= b * 7,
                b * 7 < (q + 1) * sum,
                b <= sum,
                0 < sum,
                0 <= b,
        ;
        if b == 0 {
            assert(q == 0) by (nonlinear_arith)
                requires
                    q * sum <= 0,
                    0 <= q,
                    0 < sum,
            ;
        }
        if r == 0 && g == 0 {
            assert(q >= 7) by (nonlinear_arith)
                requires
                    sum * 7 < (q + 1) * sum,
                    0 < sum,
            ;
        }
    }
}

/// A column of the waveform keeps its height and its bands.
pub proof fn a_column_keeps_its_bands(w: LocalWaveform, i: int)
    requires
        w.complete(),
        0 <= i < w.heights.len(),
    ensures
        Some(source_column_of(w, i).height) == w.heights[i],
        source_column_of(w, i).low == w.bands[i].low,
        source_column_of(w, i).mid == w.bands[i].mid,
        source_column_of(w, i).high == w.bands[i].high,
        source_column_of(w, i).whiteness == whiteness_of(
            source_column_of(w, i).height,
            w.r[i],
            w.g[i],
            w.b[i],
        ),
{
    assert(w.heights[i] is Some);
}

/// The peak of some columns is at least as high as each of them in height and in every band, and
/// one of them reaches it in each.
pub proof fn a_peak_is_reached_and_not_passed(columns: Seq<WaveColumn>)
    requires
        columns.len() > 0,
    ensures
        forall|i: int|
            #![trigger columns[i]]
            0 <= i < columns.len() ==> {
                &&& columns[i].height <= peak(columns).height
                &&& columns[i].low <= peak(columns).low
                &&& columns[i].mid <= peak(columns).mid
                &&& columns[i].high <= peak(columns).high
            },
        exists|i: int|
            0 <= i < columns.len() && (#[trigger] columns[i]).height == peak(columns).height,
        exists|i: int| 0 <= i < columns.len() && (#[trigger] columns[i]).low == peak(columns).low,
        exists|i: int| 0 <= i < columns.len() && (#[trigger] columns[i]).mid == peak(columns).mid,
        exists|i: int| 0 <= i < columns.len() && (#[trigger] columns[i]).high == peak(columns).high,
    decreases columns.len(),
{
    let front = columns.drop_last();
    let last = columns.len() - 1;
    let p = peak(columns);
    if front.len() > 0 {
        a_peak_is_reached_and_not_passed(front);
        let q = peak(front);
        assert forall|i: int| #![trigger columns[i]] 0 <= i < columns.len() implies columns[i].height
            <= p.height && columns[i].low <= p.low && columns[i].mid <= p.mid && columns[i].high
            <= p.high by {
            if i < last {
                assert(front[i] == columns[i]);
            }
        }
        let h = choose|i: int| 0 <= i < front.len() && (#[trigger] front[i]).height == q.height;
        let l = choose|i: int| 0 <= i < front.len() && (#[trigger] front[i]).low == q.low;
        let m = choose|i: int| 0 <= i < front.len() && (#[trigger] front[i]).mid == q.mid;
        let t = choose|i: int| 0 <= i < front.len() && (#[trigger] front[i]).high == q.high;
        assert(columns[h] == front[h] && columns[l] == front[l] && columns[m] == front[m]
            && columns[t] == front[t]);
        assert(columns[last] == columns.last());
    } else {
        assert(columns[last] == columns.last());
        assert(peak(front).height == 0);
    }
}

/// One column that stands for a part of the waveform shows the peaks of that part and the mean of
/// how white it is. The part holds every column that falls into it, wholly or at its edges, and no
/// other.
pub proof fn a_preview_column_stands_for_its_part(
    source: Seq<WaveColumn>,
    stretched: Seq<WaveColumn>,
    count: nat,
    index: int,
)
    requires
        0 <= index < count < source.len(),
        forall|k: int| 0 <= k < source.len() ==> (#[trigger] source[k]).whiteness < 8,
    ensures
        preview(source, stretched, count).len() == count,
        ({
            let here = part(source, index, count as int);
            let c = preview(source, stretched, count)[index];
            &&& here.len() > 0
            &&& c.height == peak(here).height && c.low == peak(here).low
            &&& c.mid == peak(here).mid && c.high == peak(here).high
            &&& c.whiteness * here.len() <= whiteness_sum(here) < (c.whiteness + 1) * here.len()
        }),
{
    let here = part(source, index, count as int);
    crate::one_library_analysis::lemma_part_bounds(source.len() as int, index, count as int);
    let n = source.len() as int;
    let start = index * n / count as int;
    assert forall|k: int| 0 <= k < here.len() implies (#[trigger] here[k]).whiteness <= 7 by {
        assert(here[k] == source[start + k]);
    }
    crate::one_library_analysis::lemma_whiteness_sum_bound(here, 7);
    let sum = whiteness_sum(here) as int;
    let size = here.len() as int;
    let q = sum / size;
    vstd::arithmetic::div_mod::lemma_fundamental_div_mod(sum, size);
    vstd::arithmetic::mul::lemma_mul_is_commutative(size, q);
    assert((q + 1) * size == q * size + size) by (nonlinear_arith);
    assert(0 <= q <= 7) by (nonlinear_arith)
        requires
            q * size <= sum,
            sum < (q + 1) * size,
            0 <= sum <= 7 * size,
            0 < size,
    ;
}

/// Where the waveform has no more columns than the preview, the stretched columns are shown.
pub proof fn a_short_waveform_is_stretched(
    source: Seq<WaveColumn>,
    stretched: Seq<WaveColumn>,
    count: nat,
)
    requires
        count >= source.len(),
    ensures
        preview(source, stretched, count) == stretched,
{
}

proof fn lemma_units_stand(units: Seq<u16>, i: int)
    requires
        0 <= i < units.len(),
    ensures
        u16_stands(be16_all(units), 2 * i, units[i] as int),
    decreases units.len(),
{
    lemma_be16_all_len(units);
    lemma_be16_all_len(units.drop_last());
    lemma_be16(units[i] as int);
    let s = be16_all(units);
    if i < units.len() - 1 {
        lemma_units_stand(units.drop_last(), i);
        assert(s[2 * i] == be16_all(units.drop_last())[2 * i]);
        assert(s[2 * i + 1] == be16_all(units.drop_last())[2 * i + 1]);
    } else {
        assert(s[2 * i] == be16(units[i] as int)[0]);
        assert(s[2 * i + 1] == be16(units[i] as int)[1]);
    }
}

/// A player that reads the path finds its length in bytes, its code units in order, and a closing
/// zero.
pub proof fn the_path_reads_back(path: Seq<char>)
    requires
        path_bytes(path).len() <= 0xffff_ffff,
    ensures
        ({
            let s = path_bytes(path);
            let units = utf16(path);
            &&& s.take(4) == seq![0x50u8, 0x50, 0x54, 0x48]
            &&& s.len() == 18 + 2 * units.len()
            &&& u32_stands(s, 12, 2 * units.len() as int + 2)
            &&& forall|i: int|
                #![trigger units[i]]
                0 <= i < units.len() ==> u16_stands(s, 16 + 2 * i, units[i] as int)
            &&& u16_stands(s, s.len() - 2, 0)
        }),
{
    let units = utf16(path);
    let all = units.push(0);
    let body = be16_all(all);
    let s = path_bytes(path);
    lemma_be16_all_len(all);
    let size = be32(body.len() as int);
    assert(s.len() == 16 + body.len());
    lemma_be32(body.len() as int);
    a_section_says_how_long_it_is(seq![0x50u8, 0x50, 0x54, 0x48], size, body);
    let head = s.subrange(12, 16);
    assert(head[0] == size[0] && head[1] == size[1] && head[2] == size[2] && head[3] == size[3]);
    assert forall|i: int| 0 <= i < all.len() implies u16_stands(
        s,
        16 + 2 * i,
        (#[trigger] all[i]) as int,
    ) by {
        lemma_units_stand(all, i);
        assert(s.skip(16)[2 * i] == s[16 + 2 * i]);
        assert(s.skip(16)[2 * i + 1] == s[16 + 2 * i + 1]);
    }
    assert forall|i: int| #![trigger units[i]] 0 <= i < units.len() implies u16_stands(
        s,
        16 + 2 * i,
        units[i] as int,
    ) by {
        assert(all[i] == units[i]);
    }
    assert(all[units.len() as int] == 0);
}

/// A character of the basic plane is one code unit, its own number. Any other is two: the upper and
/// the lower ten bits of what lies above the basic plane.
pub proof fn code_units_give_the_character_back(c: char)
    ensures
        (c as u32) < 0x1_0000 ==> utf16_char(c).len() == 1 && utf16_char(c)[0] == c as u32,
        (c as u32) >= 0x1_0000 ==> {
            &&& utf16_char(c).len() == 2
            &&& 0xd800 <= utf16_char(c)[0] < 0xdc00
            &&& 0xdc00 <= utf16_char(c)[1] < 0xe000
            &&& 0x1_0000 + (utf16_char(c)[0] - 0xd800) * 0x400 + (utf16_char(c)[1] - 0xdc00)
                == c as u32
        },
{
}

/// The code units of a text are those of its characters, one after the other.
pub proof fn code_units_follow_the_text(a: Seq<char>, b: Seq<char>)
    ensures
        utf16(a + b) == utf16(a) + utf16(b),
        a.len() == 1 ==> utf16(a) == utf16_char(a[0]),
    decreases b.len(),
{
    if b.len() == 0 {
        assert(a + b =~= a);
        assert(utf16(a) + utf16(b) =~= utf16(a));
    } else {
        code_units_follow_the_text(a, b.drop_last());
        assert((a + b).drop_last() =~= a + b.drop_last());
        assert((a + b).last() == b.last());
        assert(utf16(a + b) =~= utf16(a) + utf16(b));
    }
    if a.len() == 1 {
        assert(a.drop_last() =~= Seq::<char>::empty());
        assert(utf16(a.drop_last()) =~= Seq::<u16>::empty());
        assert(utf16(a) =~= utf16_char(a[0]));
    }
}

/// The columns that one column of a preview stands for: from the one into which its share of the
/// waveform begins to the one in which it ends.
pub proof fn a_part_covers_its_share(source: Seq<WaveColumn>, index: int, count: int)
    requires
        0 <= index < count < source.len(),
    ensures
        exists|start: int, end: int|
            #![trigger source.subrange(start, end)]
            {
                let n = source.len() as int;
                &&& 0 <= start < end <= n
                &&& part(source, index, count) == source.subrange(start, end)
                &&& start * count <= index * n < (start + 1) * count
                &&& (end - 1) * count < (index + 1) * n <= end * count
            },
{
    let n = source.len() as int;
    let a = index * n;
    let b = (index + 1) * n;
    let start = a / count;
    let end = (b + count - 1) / count;
    crate::one_library_analysis::lemma_part_bounds(n, index, count);
    vstd::arithmetic::div_mod::lemma_fundamental_div_mod(a, count);
    vstd::arithmetic::div_mod::lemma_fundamental_div_mod(b + count - 1, count);
    vstd::arithmetic::mul::lemma_mul_is_commutative(count, start);
    vstd::arithmetic::mul::lemma_mul_is_commutative(count, end);
    assert((start + 1) * count == start * count + count) by (nonlinear_arith);
    assert((end - 1) * count == end * count - count) by (nonlinear_arith);
    assert(part(source, index, count) == source.subrange(start, end));
}

/// The first file of an analysed track holds its beats, and its columns in two widths.
#[verifier::spinoff_prover]
pub proof fn the_first_file_holds_the_analysis(
    a: LocalAnalysis,
    stretched: StretchedColumns,
    path: Seq<char>,
)
    requires
        a.accepts(stretched),
    ensures
        ({
            let dat = a.dat_sections(stretched, path);
            let p = preview(a.columns@, stretched.preview@, 400);
            let t = preview(a.columns@, stretched.tiny@, 100);
            &&& p.len() == 400 && t.len() == 100
            &&& dat.len() == 7
            &&& dat[0] == path_bytes(path)
            &&& dat[2] == beat_grid_bytes(a.beats@)
            &&& dat[3] == mono_preview_bytes(seq![0x50u8, 0x57, 0x41, 0x56], p)
            &&& dat[4] == mono_preview_bytes(seq![0x50u8, 0x57, 0x56, 0x32], t)
            &&& dat[5] == empty_cue_bytes(1) && dat[6] == empty_cue_bytes(0)
        }),
{
}

/// The second file holds the columns one by one, the extended beats, and the coloured columns in
/// full and in one width.
#[verifier::spinoff_prover]
pub proof fn the_second_file_holds_the_analysis(
    a: LocalAnalysis,
    stretched: StretchedColumns,
    path: Seq<char>,
)
    requires
        a.accepts(stretched),
    ensures
        ({
            let ext = a.ext_sections(stretched, path);
            let c = preview(a.columns@, stretched.color@, 1200);
            &&& c.len() == 1200
            &&& ext.len() == 10
            &&& ext[0] == path_bytes(path)
            &&& ext[1] == mono_detail_bytes(stretched.detail@)
            &&& ext[2] == empty_cue_bytes(1) && ext[3] == empty_cue_bytes(0)
            &&& ext[4] == empty_extended_cue_bytes(1) && ext[5] == empty_extended_cue_bytes(0)
            &&& ext[6] == extended_beat_grid_bytes(a.beats@)
            &&& ext[7] == color_detail_bytes(stretched.detail@)
            &&& ext[8] == color_preview_bytes(c)
        }),
{
}

/// The third file holds the three bands of the columns, in full and in one width.
#[verifier::spinoff_prover]
pub proof fn the_third_file_holds_the_analysis(
    a: LocalAnalysis,
    stretched: StretchedColumns,
    path: Seq<char>,
)
    requires
        a.accepts(stretched),
    ensures
        ({
            let two_ex = a.two_ex_sections(stretched, path);
            let c = preview(a.columns@, stretched.color@, 1200);
            &&& two_ex.len() == 4
            &&& two_ex[0] == path_bytes(path)
            &&& two_ex[1] == three_band_detail_bytes(stretched.detail@)
            &&& two_ex[2] == three_band_preview_bytes(c)
        }),
{
}

/// A list of cues that holds none says of which kind its cues would be.
pub proof fn an_empty_cue_list_says_its_kind(kind: u32)
    ensures
        empty_cue_bytes(kind).len() == 24,
        empty_cue_bytes(kind).take(4) == seq![0x50u8, 0x43, 0x4f, 0x42],
        u32_stands(empty_cue_bytes(kind), 12, kind as int),
        u32_stands(empty_cue_bytes(kind), 16, 0),
        empty_extended_cue_bytes(kind).len() == 20,
        empty_extended_cue_bytes(kind).take(4) == seq![0x50u8, 0x43, 0x4f, 0x32],
        u32_stands(empty_extended_cue_bytes(kind), 12, kind as int),
        u32_stands(empty_extended_cue_bytes(kind), 16, 0),
{
    lemma_be32(kind as int);
    lemma_be32(0);
    let a = be32(kind as int) + be32(0) + be32(0xffff_ffff);
    let b = be32(kind as int) + be32(0);
    a_section_says_how_long_it_is(seq![0x50u8, 0x43, 0x4f, 0x42], a, Seq::empty());
    a_section_says_how_long_it_is(seq![0x50u8, 0x43, 0x4f, 0x32], b, Seq::empty());
    let x = empty_cue_bytes(kind).subrange(12, 24);
    let y = empty_extended_cue_bytes(kind).subrange(12, 20);
    assert(x =~= a);
    assert(y =~= b);
    assert forall|k: int| 0 <= k < 4 implies x[k] == be32(kind as int)[k] && x[4 + k] == be32(0)[k]
        && y[k] == be32(kind as int)[k] && y[4 + k] == be32(0)[k] by {}
    assert(x[0] == be32(kind as int)[0] && x[1] == be32(kind as int)[1]);
    assert(x[2] == be32(kind as int)[2] && x[3] == be32(kind as int)[3]);
    assert(x[4] == be32(0)[0] && x[5] == be32(0)[1] && x[6] == be32(0)[2] && x[7] == be32(0)[3]);
}

/// The hash of a path goes on from code unit to code unit.
pub proof fn a_hash_goes_on_from_unit_to_unit(units: Seq<u16>, unit: u16)
    ensures
        path_hash(Seq::empty()) == 0,
        path_hash(units.push(unit)) == (path_hash(units) * 0x5bc9 * 0x93b5 + unit * 0x93b6)
            % 0x1_0000_0000,
        0 <= path_hash(units) < 0x1_0000_0000,
{
    assert(units.push(unit).drop_last() =~= units);
    lemma_hash_fits(units);
    let h = path_hash(units);
    let u = unit as int;
    let m: int = 0x1_0000_0000;
    let x = h * 0x5bc9 + u;
    let mixed = x % m;
    vstd::arithmetic::div_mod::lemma_mul_mod_noop_left(x, 0x93b5, m);
    assert((mixed * 0x93b5) % m == (x * 0x93b5) % m);
    vstd::arithmetic::div_mod::lemma_add_mod_noop(mixed * 0x93b5, u, m);
    vstd::arithmetic::div_mod::lemma_add_mod_noop(x * 0x93b5, u, m);
    assert((mixed * 0x93b5 + u) % m == (x * 0x93b5 + u) % m);
    assert(x * 0x93b5 + u == h * 0x5bc9 * 0x93b5 + u * 0x93b6);
}

proof fn lemma_hash_fits(units: Seq<u16>)
    ensures
        0 <= path_hash(units) < 0x1_0000_0000,
{
}

/// The directory of a path is named by its number, in eight digits, below one that is named by seven
/// bits of that number, in three.
pub proof fn a_directory_is_named_by_its_number(path: Seq<char>)
    ensures
        ({
            let d = directory(path);
            let n = hex_value(d.skip(21));
            let p = hex_value(d.subrange(17, 20));
            &&& d.len() == 29 && d.take(17) == "PIONEER/USBANLZ/P"@ && d[20] == '/'
            &&& n == path_hash(utf16(path)) % 200_003
            &&& 0 <= p < 128
            &&& p % 2 == n % 2 && p / 2 % 2 == n / 4 % 2 && p / 4 % 2 == n / 64 % 2
            &&& p / 8 % 2 == n / 128 % 2 && p / 16 % 2 == n / 512 % 2
            &&& p / 32 % 2 == n / 8192 % 2 && p / 64 % 2 == n / 65536 % 2
        }),
{
    reveal_strlit("PIONEER/USBANLZ/P");
    reveal_strlit("/");
    let d = directory(path);
    let number = directory_number(path);
    let prefix = directory_prefix(number);
    lemma_hash_fits(utf16(path));
    assert(0 <= number < 0x30d43);
    assert(0 <= prefix < 128);
    reveal_with_fuel(pow16, 9);
    assert(pow16(8) == 0x1_0000_0000 && pow16(3) == 0x1000);
    hex_reads_back(number as nat, 8, true);
    hex_reads_back(prefix as nat, 3, true);
    assert("PIONEER/USBANLZ/P"@.len() == 17);
    assert(d.skip(21) =~= hex(number as nat, 8, true));
    assert(d.subrange(17, 20) =~= hex(prefix as nat, 3, true));
    assert(d.take(17) =~= "PIONEER/USBANLZ/P"@);
    lemma_bits(
        number % 2,
        (number / 4) % 2,
        (number / 64) % 2,
        (number / 128) % 2,
        (number / 512) % 2,
        (number / 8192) % 2,
        (number / 65536) % 2,
    );
}

proof fn lemma_bits(a: int, b: int, c: int, d: int, e: int, f: int, g: int)
    requires
        0 <= a < 2,
        0 <= b < 2,
        0 <= c < 2,
        0 <= d < 2,
        0 <= e < 2,
        0 <= f < 2,
        0 <= g < 2,
    ensures
        ({
            let p = a + 2 * b + 4 * c + 8 * d + 16 * e + 32 * f + 64 * g;
            &&& p % 2 == a && p / 2 % 2 == b && p / 4 % 2 == c && p / 8 % 2 == d
            &&& p / 16 % 2 == e && p / 32 % 2 == f && p / 64 % 2 == g
        }),
{
    let p = a + 2 * b + 4 * c + 8 * d + 16 * e + 32 * f + 64 * g;
    let q5 = f + 2 * g;
    let q4 = e + 2 * q5;
    let q3 = d + 2 * q4;
    let q2 = c + 2 * q3;
    let q1 = b + 2 * q2;
    assert(p == a + 2 * q1);
    assert(p / 2 == q1);
    assert(p == (a + 2 * b) + 4 * q2);
    assert(p / 4 == q2);
    assert(p == (a + 2 * b + 4 * c) + 8 * q3);
    assert(p / 8 == q3);
    assert(p == (a + 2 * b + 4 * c + 8 * d) + 16 * q4);
    assert(p / 16 == q4);
    assert(p == (a + 2 * b + 4 * c + 8 * d + 16 * e) + 32 * q5);
    assert(p / 32 == q5);
    assert(p / 64 == g);
}

} // verus!
