//! ANLZ files for a track: from its local beat grid and waveform, or only with room for cues.

use vstd::prelude::*;

use crate::anlz::{
    anlz_file, be16, be32, be32_at, file, fits, is_section, joined, layout, lemma_be32_reads_back,
    lemma_joined_holds, push_be16, push_be32, push_len, section, spans, tag, views,
    written_sections_read_back, zeros,
};
use crate::text::{append_hex, concat, hex};

verus! {

pub const MAX_DETAIL_COLUMNS: usize = 1_500_000;

pub const PREVIEW_COLUMNS: usize = 400;

pub const TINY_PREVIEW_COLUMNS: usize = 100;

pub const COLOR_PREVIEW_COLUMNS: usize = 1_200;

#[derive(Debug, Clone, Copy, PartialEq, Eq, Structural)]
pub struct Beat {
    pub number: u16,
    pub tempo: u16,
    pub time_ms: u32,
}

#[derive(Debug, Clone, Copy, PartialEq, Eq, Structural)]
pub struct WaveColumn {
    pub height: u8,
    pub whiteness: u8,
    pub low: u8,
    pub mid: u8,
    pub high: u8,
}

/// Five bits for a height or a band, three for the whiteness.
pub open spec fn column_fits(c: WaveColumn) -> bool {
    c.height <= 31 && c.whiteness <= 7 && c.low <= 31 && c.mid <= 31 && c.high <= 31
}

pub open spec fn columns_fit(s: Seq<WaveColumn>) -> bool {
    forall|i: int| 0 <= i < s.len() ==> column_fits(#[trigger] s[i])
}

/// The UTF-16 code units of one character.
pub open spec fn utf16_char(c: char) -> Seq<u16> {
    if (c as u32) < 0x10000 {
        seq![c as u32 as u16]
    } else {
        seq![
            (0xd800 + ((c as u32 - 0x10000) / 1024)) as u16,
            (0xdc00 + ((c as u32 - 0x10000) % 1024)) as u16,
        ]
    }
}

/// The UTF-16 code units of a text.
pub open spec fn utf16(s: Seq<char>) -> Seq<u16>
    decreases s.len(),
{
    if s.len() == 0 {
        Seq::empty()
    } else {
        utf16(s.drop_last()) + utf16_char(s.last())
    }
}

/// A character has one code unit or two.
pub proof fn lemma_utf16_len(s: Seq<char>)
    ensures
        s.len() <= utf16(s).len() <= 2 * s.len(),
    decreases s.len(),
{
    if s.len() > 0 {
        lemma_utf16_len(s.drop_last());
    }
}

pub fn encode_utf16(s: &str) -> (units: Vec<u16>)
    ensures
        units@ == utf16(s@),
{
    let mut units: Vec<u16> = Vec::new();
    for c in iter: s.chars()
        invariant
            units@ == utf16(iter.seq().take(iter.index())),
            iter.seq() == s@,
    {
        let ghost before = units@;
        let u: u32 = c as u32;
        if u < 0x10000 {
            units.push(u as u16);
        } else {
            units.push((0xd800 + ((u - 0x10000) / 1024)) as u16);
            units.push((0xdc00 + ((u - 0x10000) % 1024)) as u16);
        }
        proof {
            let seen = iter.seq().take(iter.index() + 1);
            assert(seen.drop_last() =~= iter.seq().take(iter.index()));
            assert(seen.last() == c);
            assert(units@ =~= before + utf16_char(c));
        }
    }
    assert(s@.take(s@.len() as int) =~= s@);
    units
}

/// The 32-bit hash of a path, over its code units.
pub open spec fn path_hash(units: Seq<u16>) -> int
    decreases units.len(),
{
    if units.len() == 0 {
        0
    } else {
        let mixed = (path_hash(units.drop_last()) * 0x5bc9 + units.last()) % 0x1_0000_0000;
        (mixed * 0x93b5 + units.last()) % 0x1_0000_0000
    }
}

/// The number of the directory that a path belongs to.
pub open spec fn directory_number(path: Seq<char>) -> int {
    path_hash(utf16(path)) % 0x30d43
}

/// Seven bits picked out of a directory number.
pub open spec fn directory_prefix(n: int) -> int {
    (n % 2) + 2 * ((n / 4) % 2) + 4 * ((n / 64) % 2) + 8 * ((n / 128) % 2) + 16 * ((n / 512) % 2)
        + 32 * ((n / 8192) % 2) + 64 * ((n / 65536) % 2)
}

pub open spec fn directory(path: Seq<char>) -> Seq<char> {
    "PIONEER/USBANLZ/P"@ + hex(directory_prefix(directory_number(path)) as nat, 3, true) + "/"@
        + hex(directory_number(path) as nat, 8, true)
}

/// The directory for the analysis of the audio file at `usb_path`.
pub fn anlz_directory(usb_path: &str) -> (r: String)
    ensures
        r@ == directory(usb_path@),
{
    let units = encode_utf16(usb_path);
    let mut hash: u64 = 0;
    let mut i: usize = 0;
    while i < units.len()
        invariant
            i <= units.len(),
            hash < 0x1_0000_0000,
            hash == path_hash(units@.take(i as int)),
        decreases units.len() - i,
    {
        let unit: u64 = units[i] as u64;
        let mixed: u64 = (hash * 0x5bc9 + unit) % 0x1_0000_0000;
        hash = (mixed * 0x93b5 + unit) % 0x1_0000_0000;
        i += 1;
        assert(units@.take(i as int).drop_last() =~= units@.take(i - 1));
    }
    assert(units@.take(i as int) =~= units@);
    let n: u64 = hash % 0x30d43;
    let prefix: u64 = (n % 2) + 2 * ((n / 4) % 2) + 4 * ((n / 64) % 2) + 8 * ((n / 128) % 2) + 16 * ((
    n / 512) % 2) + 32 * ((n / 8192) % 2) + 64 * ((n / 65536) % 2);
    let mut s = "PIONEER/USBANLZ/P".to_owned();
    append_hex(&mut s, prefix, 3, true);
    s.append("/");
    append_hex(&mut s, n, 8, true);
    s
}

pub open spec fn be16_all(units: Seq<u16>) -> Seq<u8>
    decreases units.len(),
{
    if units.len() == 0 {
        Seq::empty()
    } else {
        be16_all(units.drop_last()) + be16(units.last() as int)
    }
}

pub proof fn lemma_be16_all_len(units: Seq<u16>)
    ensures
        be16_all(units).len() == 2 * units.len(),
    decreases units.len(),
{
    if units.len() > 0 {
        lemma_be16_all_len(units.drop_last());
    }
}

/// The section that names the audio file, in UTF-16 with a closing zero.
pub open spec fn path_bytes(path: Seq<char>) -> Seq<u8> {
    let body = be16_all(utf16(path).push(0));
    section(seq![0x50u8, 0x50, 0x54, 0x48], be32(body.len() as int), body)
}

pub fn path_section(path: &str) -> (r: Vec<u8>)
    requires
        path_bytes(path@).len() <= usize::MAX,
    ensures
        r@ == path_bytes(path@),
{
    let mut units = encode_utf16(path);
    proof {
        lemma_be16_all_len(utf16(path@).push(0));
    }
    units.push(0);
    let mut body: Vec<u8> = Vec::new();
    let mut i: usize = 0;
    while i < units.len()
        invariant
            i <= units.len(),
            body@ == be16_all(units@.take(i as int)),
        decreases units.len() - i,
    {
        push_be16(&mut body, units[i]);
        i += 1;
        assert(units@.take(i as int).drop_last() =~= units@.take(i - 1));
    }
    assert(units@.take(i as int) =~= units@);
    let mut header: Vec<u8> = Vec::new();
    push_len(&mut header, body.len());
    assert(header@ =~= be32(body.len() as int));
    let name: [u8; 4] = [0x50, 0x50, 0x54, 0x48];
    assert(name@ =~= seq![0x50u8, 0x50, 0x54, 0x48]);
    tag(name, header.as_slice(), body.as_slice())
}

fn zero_vec(n: usize) -> (v: Vec<u8>)
    ensures
        v@ == zeros(n as nat),
{
    let mut v: Vec<u8> = Vec::new();
    let mut i: usize = 0;
    while i < n
        invariant
            i <= n,
            v@ == zeros(i as nat),
        decreases n - i,
    {
        v.push(0);
        i += 1;
        assert(v@ =~= zeros(i as nat));
    }
    v
}

pub open spec fn vbr_bytes() -> Seq<u8> {
    section(seq![0x50u8, 0x56, 0x42, 0x52], zeros(4), zeros(1604))
}

pub fn vbr_section() -> (r: Vec<u8>)
    ensures
        r@ == vbr_bytes(),
{
    let name: [u8; 4] = [0x50, 0x56, 0x42, 0x52];
    assert(name@ =~= seq![0x50u8, 0x56, 0x42, 0x52]);
    tag(name, zero_vec(4).as_slice(), zero_vec(1604).as_slice())
}

pub open spec fn extended_vbr_bytes() -> Seq<u8> {
    section(seq![0x50u8, 0x56, 0x42, 0x32], zeros(20), zeros(8000))
}

pub fn extended_vbr_section() -> (r: Vec<u8>)
    ensures
        r@ == extended_vbr_bytes(),
{
    let name: [u8; 4] = [0x50, 0x56, 0x42, 0x32];
    assert(name@ =~= seq![0x50u8, 0x56, 0x42, 0x32]);
    tag(name, zero_vec(20).as_slice(), zero_vec(8000).as_slice())
}

pub open spec fn beat_bytes(b: Beat) -> Seq<u8> {
    be16(b.number as int) + be16(b.tempo as int) + be32(b.time_ms as int)
}

pub open spec fn all_beat_bytes(beats: Seq<Beat>) -> Seq<u8>
    decreases beats.len(),
{
    if beats.len() == 0 {
        Seq::empty()
    } else {
        all_beat_bytes(beats.drop_last()) + beat_bytes(beats.last())
    }
}

pub proof fn lemma_all_beat_bytes_len(beats: Seq<Beat>)
    ensures
        all_beat_bytes(beats).len() == 8 * beats.len(),
    decreases beats.len(),
{
    if beats.len() > 0 {
        lemma_all_beat_bytes_len(beats.drop_last());
    }
}

fn push_beat(v: &mut Vec<u8>, beat: Beat)
    ensures
        final(v)@ == old(v)@ + beat_bytes(beat),
{
    push_be16(v, beat.number);
    push_be16(v, beat.tempo);
    push_be32(v, beat.time_ms);
    assert(v@ =~= old(v)@ + beat_bytes(beat));
}

/// The beat grid: every beat with its number in the bar, its tempo and its time.
pub open spec fn beat_grid_bytes(beats: Seq<Beat>) -> Seq<u8> {
    section(
        seq![0x50u8, 0x51, 0x54, 0x5a],
        be32(0) + be32(0x0008_0000) + be32(beats.len() as int),
        all_beat_bytes(beats),
    )
}

pub fn beat_grid_section(beats: &[Beat]) -> (r: Vec<u8>)
    requires
        24 + 8 * beats.len() <= usize::MAX,
    ensures
        r@ == beat_grid_bytes(beats@),
{
    let mut header: Vec<u8> = Vec::new();
    push_be32(&mut header, 0);
    push_be32(&mut header, 0x0008_0000);
    push_len(&mut header, beats.len());
    assert(header@ =~= be32(0) + be32(0x0008_0000) + be32(beats.len() as int));
    let mut body: Vec<u8> = Vec::new();
    let mut i: usize = 0;
    while i < beats.len()
        invariant
            i <= beats.len(),
            body@ == all_beat_bytes(beats@.take(i as int)),
        decreases beats.len() - i,
    {
        push_beat(&mut body, beats[i]);
        i += 1;
        assert(beats@.take(i as int).drop_last() =~= beats@.take(i - 1));
    }
    assert(beats@.take(i as int) =~= beats@);
    proof {
        lemma_all_beat_bytes_len(beats@);
    }
    let name: [u8; 4] = [0x50, 0x51, 0x54, 0x5a];
    assert(name@ =~= seq![0x50u8, 0x51, 0x54, 0x5a]);
    tag(name, header.as_slice(), body.as_slice())
}

pub open spec fn beat_marks(beats: Seq<Beat>) -> Seq<u8>
    decreases beats.len(),
{
    if beats.len() == 0 {
        Seq::empty()
    } else {
        beat_marks(beats.drop_last()) + seq![(beats.last().number % 256) as u8, 0u8]
    }
}

pub proof fn lemma_beat_marks_len(beats: Seq<Beat>)
    ensures
        beat_marks(beats).len() == 2 * beats.len(),
    decreases beats.len(),
{
    if beats.len() > 0 {
        lemma_beat_marks_len(beats.drop_last());
    }
}

/// The extended beat grid: the first two beats in full, then the bar position of every beat.
pub open spec fn extended_beat_grid_bytes(beats: Seq<Beat>) -> Seq<u8> {
    let second = if beats.len() > 1 {
        beats[1]
    } else {
        beats[0]
    };
    section(
        seq![0x50u8, 0x51, 0x54, 0x32],
        be32(0) + be32(0x0100_0002) + be32(0) + beat_bytes(beats[0]) + beat_bytes(second) + be32(
            beats.len() as int,
        ) + be32(0) + be32(0) + be32(0),
        beat_marks(beats),
    )
}

pub fn extended_beat_grid_section(beats: &[Beat]) -> (r: Vec<u8>)
    requires
        beats.len() > 0,
        56 + 2 * beats.len() <= usize::MAX,
    ensures
        r@ == extended_beat_grid_bytes(beats@),
{
    let mut header: Vec<u8> = Vec::new();
    push_be32(&mut header, 0);
    push_be32(&mut header, 0x0100_0002);
    push_be32(&mut header, 0);
    push_beat(&mut header, beats[0]);
    let second: usize = if beats.len() > 1 {
        1
    } else {
        0
    };
    push_beat(&mut header, beats[second]);
    push_len(&mut header, beats.len());
    push_be32(&mut header, 0);
    push_be32(&mut header, 0);
    push_be32(&mut header, 0);
    assert(header@ =~= be32(0) + be32(0x0100_0002) + be32(0) + beat_bytes(beats@[0]) + beat_bytes(
        beats@[second as int],
    ) + be32(beats.len() as int) + be32(0) + be32(0) + be32(0));
    let mut body: Vec<u8> = Vec::new();
    let mut i: usize = 0;
    while i < beats.len()
        invariant
            i <= beats.len(),
            body@ == beat_marks(beats@.take(i as int)),
        decreases beats.len() - i,
    {
        body.push((beats[i].number % 256) as u8);
        body.push(0);
        i += 1;
        let ghost seen = beats@.take(i as int);
        assert(seen.drop_last() =~= beats@.take(i - 1));
        assert(body@ =~= beat_marks(beats@.take(i - 1)) + seq![
            (seen.last().number % 256) as u8,
            0u8,
        ]);
    }
    assert(beats@.take(i as int) =~= beats@);
    proof {
        lemma_beat_marks_len(beats@);
    }
    let name: [u8; 4] = [0x50, 0x51, 0x54, 0x32];
    assert(name@ =~= seq![0x50u8, 0x51, 0x54, 0x32]);
    tag(name, header.as_slice(), body.as_slice())
}

/// An empty cue list of the given kind.
pub open spec fn empty_cue_bytes(kind: u32) -> Seq<u8> {
    section(
        seq![0x50u8, 0x43, 0x4f, 0x42],
        be32(kind as int) + be32(0) + be32(0xffff_ffff),
        Seq::empty(),
    )
}

pub fn empty_cue_section(kind: u32) -> (r: Vec<u8>)
    ensures
        r@ == empty_cue_bytes(kind),
{
    let mut header: Vec<u8> = Vec::new();
    push_be32(&mut header, kind);
    push_be32(&mut header, 0);
    push_be32(&mut header, 0xffff_ffff);
    assert(header@ =~= be32(kind as int) + be32(0) + be32(0xffff_ffff));
    let name: [u8; 4] = [0x50, 0x43, 0x4f, 0x42];
    assert(name@ =~= seq![0x50u8, 0x43, 0x4f, 0x42]);
    let body: Vec<u8> = Vec::new();
    tag(name, header.as_slice(), body.as_slice())
}

/// An empty extended cue list of the given kind.
pub open spec fn empty_extended_cue_bytes(kind: u32) -> Seq<u8> {
    section(seq![0x50u8, 0x43, 0x4f, 0x32], be32(kind as int) + be32(0), Seq::empty())
}

pub fn empty_extended_cue_section(kind: u32) -> (r: Vec<u8>)
    ensures
        r@ == empty_extended_cue_bytes(kind),
{
    let mut header: Vec<u8> = Vec::new();
    push_be32(&mut header, kind);
    push_be32(&mut header, 0);
    assert(header@ =~= be32(kind as int) + be32(0));
    let name: [u8; 4] = [0x50, 0x43, 0x4f, 0x32];
    assert(name@ =~= seq![0x50u8, 0x43, 0x4f, 0x32]);
    let body: Vec<u8> = Vec::new();
    tag(name, header.as_slice(), body.as_slice())
}

/// Three bits of whiteness above five bits of height.
pub open spec fn mono(c: WaveColumn) -> u8 {
    ((c.whiteness % 8) * 32 + c.height % 32) as u8
}

pub fn mono_byte(column: WaveColumn) -> (b: u8)
    ensures
        b == mono(column),
{
    (column.whiteness % 8) * 32 + column.height % 32
}

/// A band as a share of the height, in sevenths.
pub open spec fn sevenths(band: u8, height: u8) -> u8 {
    if height == 0 {
        7
    } else if band * 7 / height as int > 7 {
        7
    } else {
        (band * 7 / height as int) as u8
    }
}

pub fn scale_3bit(band: u8, height: u8) -> (r: u8)
    ensures
        r == sevenths(band, height),
        r <= 7,
{
    if height == 0 {
        7
    } else {
        let scaled: u16 = (band as u16) * 7 / (height as u16);
        if scaled > 7 {
            7
        } else {
            scaled as u8
        }
    }
}

pub open spec fn mono_bytes(columns: Seq<WaveColumn>) -> Seq<u8> {
    columns.map_values(|c: WaveColumn| mono(c))
}

fn mono_body(columns: &[WaveColumn]) -> (body: Vec<u8>)
    ensures
        body@ == mono_bytes(columns@),
{
    let mut body: Vec<u8> = Vec::new();
    let mut i: usize = 0;
    while i < columns.len()
        invariant
            i <= columns.len(),
            body@ == mono_bytes(columns@).take(i as int),
        decreases columns.len() - i,
    {
        body.push(mono_byte(columns[i]));
        i += 1;
        assert(body@ =~= mono_bytes(columns@).take(i as int));
    }
    assert(body@ =~= mono_bytes(columns@));
    body
}

/// A monochrome preview under the given name.
pub open spec fn mono_preview_bytes(name: Seq<u8>, columns: Seq<WaveColumn>) -> Seq<u8> {
    section(name, be32(columns.len() as int) + be32(0x0001_0000), mono_bytes(columns))
}

pub fn mono_preview_section(name: [u8; 4], columns: &[WaveColumn]) -> (r: Vec<u8>)
    requires
        20 + columns.len() <= usize::MAX,
    ensures
        r@ == mono_preview_bytes(name@, columns@),
{
    let body = mono_body(columns);
    let mut header: Vec<u8> = Vec::new();
    push_len(&mut header, columns.len());
    push_be32(&mut header, 0x0001_0000);
    assert(header@ =~= be32(columns.len() as int) + be32(0x0001_0000));
    tag(name, header.as_slice(), body.as_slice())
}

/// The monochrome detail waveform.
pub open spec fn mono_detail_bytes(columns: Seq<WaveColumn>) -> Seq<u8> {
    section(
        seq![0x50u8, 0x57, 0x56, 0x33],
        be32(1) + be32(columns.len() as int) + be32(0x0096_0000),
        mono_bytes(columns),
    )
}

pub fn mono_detail_section(columns: &[WaveColumn]) -> (r: Vec<u8>)
    requires
        24 + columns.len() <= usize::MAX,
    ensures
        r@ == mono_detail_bytes(columns@),
{
    let body = mono_body(columns);
    let mut header: Vec<u8> = Vec::new();
    push_be32(&mut header, 1);
    push_len(&mut header, columns.len());
    push_be32(&mut header, 0x0096_0000);
    assert(header@ =~= be32(1) + be32(columns.len() as int) + be32(0x0096_0000));
    let name: [u8; 4] = [0x50, 0x57, 0x56, 0x33];
    assert(name@ =~= seq![0x50u8, 0x57, 0x56, 0x33]);
    tag(name, header.as_slice(), body.as_slice())
}

/// Three bits each of red, green and blue, five of height, two spare.
pub open spec fn color_word(c: WaveColumn) -> int {
    sevenths(c.high, c.height) * 8192 + sevenths(c.mid, c.height) * 1024 + sevenths(c.low, c.height)
        * 128 + c.height * 4
}

pub open spec fn color_words(columns: Seq<WaveColumn>) -> Seq<u8>
    decreases columns.len(),
{
    if columns.len() == 0 {
        Seq::empty()
    } else {
        color_words(columns.drop_last()) + be16(color_word(columns.last()))
    }
}

pub proof fn lemma_color_words_len(columns: Seq<WaveColumn>)
    ensures
        color_words(columns).len() == 2 * columns.len(),
    decreases columns.len(),
{
    if columns.len() > 0 {
        lemma_color_words_len(columns.drop_last());
    }
}

/// The coloured detail waveform.
pub open spec fn color_detail_bytes(columns: Seq<WaveColumn>) -> Seq<u8> {
    section(
        seq![0x50u8, 0x57, 0x56, 0x35],
        be32(2) + be32(columns.len() as int) + be32(0x0096_0305),
        color_words(columns),
    )
}

pub fn color_detail_section(columns: &[WaveColumn]) -> (r: Vec<u8>)
    requires
        24 + 2 * columns.len() <= usize::MAX,
        columns_fit(columns@),
    ensures
        r@ == color_detail_bytes(columns@),
{
    let mut body: Vec<u8> = Vec::new();
    let mut i: usize = 0;
    while i < columns.len()
        invariant
            i <= columns.len(),
            columns_fit(columns@),
            body@ == color_words(columns@.take(i as int)),
        decreases columns.len() - i,
    {
        let c = columns[i];
        assert(column_fits(columns@[i as int]));
        let red: u16 = scale_3bit(c.high, c.height) as u16;
        let green: u16 = scale_3bit(c.mid, c.height) as u16;
        let blue: u16 = scale_3bit(c.low, c.height) as u16;
        let encoded: u16 = red * 8192 + green * 1024 + blue * 128 + (c.height as u16) * 4;
        push_be16(&mut body, encoded);
        i += 1;
        assert(columns@.take(i as int).drop_last() =~= columns@.take(i - 1));
    }
    assert(columns@.take(i as int) =~= columns@);
    proof {
        lemma_color_words_len(columns@);
    }
    let mut header: Vec<u8> = Vec::new();
    push_be32(&mut header, 2);
    push_len(&mut header, columns.len());
    push_be32(&mut header, 0x0096_0305);
    assert(header@ =~= be32(2) + be32(columns.len() as int) + be32(0x0096_0305));
    let name: [u8; 4] = [0x50, 0x57, 0x56, 0x35];
    assert(name@ =~= seq![0x50u8, 0x57, 0x56, 0x35]);
    tag(name, header.as_slice(), body.as_slice())
}

pub open spec fn color_six(c: WaveColumn) -> Seq<u8> {
    seq![
        c.height,
        c.height,
        (sevenths(c.high, c.height) * 31 / 7) as u8,
        (sevenths(c.mid, c.height) * 31 / 7) as u8,
        (sevenths(c.low, c.height) * 31 / 7) as u8,
        0u8,
    ]
}

pub open spec fn color_sixes(columns: Seq<WaveColumn>) -> Seq<u8>
    decreases columns.len(),
{
    if columns.len() == 0 {
        Seq::empty()
    } else {
        color_sixes(columns.drop_last()) + color_six(columns.last())
    }
}

pub proof fn lemma_color_sixes_len(columns: Seq<WaveColumn>)
    ensures
        color_sixes(columns).len() == 6 * columns.len(),
    decreases columns.len(),
{
    if columns.len() > 0 {
        lemma_color_sixes_len(columns.drop_last());
    }
}

/// The coloured preview.
pub open spec fn color_preview_bytes(columns: Seq<WaveColumn>) -> Seq<u8> {
    section(
        seq![0x50u8, 0x57, 0x56, 0x34],
        be32(6) + be32(columns.len() as int) + be32(0),
        color_sixes(columns),
    )
}

pub fn color_preview_section(columns: &[WaveColumn]) -> (r: Vec<u8>)
    requires
        24 + 6 * columns.len() <= usize::MAX,
    ensures
        r@ == color_preview_bytes(columns@),
{
    let mut body: Vec<u8> = Vec::new();
    let mut i: usize = 0;
    while i < columns.len()
        invariant
            i <= columns.len(),
            body@ == color_sixes(columns@.take(i as int)),
        decreases columns.len() - i,
    {
        let c = columns[i];
        let ghost before = body@;
        body.push(c.height);
        body.push(c.height);
        body.push(scale_3bit(c.high, c.height) * 31 / 7);
        body.push(scale_3bit(c.mid, c.height) * 31 / 7);
        body.push(scale_3bit(c.low, c.height) * 31 / 7);
        body.push(0);
        i += 1;
        assert(columns@.take(i as int).drop_last() =~= columns@.take(i - 1));
        assert(body@ =~= before + color_six(c));
    }
    assert(columns@.take(i as int) =~= columns@);
    proof {
        lemma_color_sixes_len(columns@);
    }
    let mut header: Vec<u8> = Vec::new();
    push_be32(&mut header, 6);
    push_len(&mut header, columns.len());
    push_be32(&mut header, 0);
    assert(header@ =~= be32(6) + be32(columns.len() as int) + be32(0));
    let name: [u8; 4] = [0x50, 0x57, 0x56, 0x34];
    assert(name@ =~= seq![0x50u8, 0x57, 0x56, 0x34]);
    tag(name, header.as_slice(), body.as_slice())
}

pub open spec fn band_triples(columns: Seq<WaveColumn>) -> Seq<u8>
    decreases columns.len(),
{
    if columns.len() == 0 {
        Seq::empty()
    } else {
        band_triples(columns.drop_last()) + seq![
            columns.last().low,
            columns.last().mid,
            columns.last().high,
        ]
    }
}

pub proof fn lemma_band_triples_len(columns: Seq<WaveColumn>)
    ensures
        band_triples(columns).len() == 3 * columns.len(),
    decreases columns.len(),
{
    if columns.len() > 0 {
        lemma_band_triples_len(columns.drop_last());
    }
}

fn band_body(columns: &[WaveColumn]) -> (body: Vec<u8>)
    ensures
        body@ == band_triples(columns@),
{
    let mut body: Vec<u8> = Vec::new();
    let mut i: usize = 0;
    while i < columns.len()
        invariant
            i <= columns.len(),
            body@ == band_triples(columns@.take(i as int)),
        decreases columns.len() - i,
    {
        let c = columns[i];
        let ghost before = body@;
        body.push(c.low);
        body.push(c.mid);
        body.push(c.high);
        i += 1;
        assert(columns@.take(i as int).drop_last() =~= columns@.take(i - 1));
        assert(body@ =~= before + seq![c.low, c.mid, c.high]);
    }
    assert(columns@.take(i as int) =~= columns@);
    body
}

/// The three-band detail waveform.
pub open spec fn three_band_detail_bytes(columns: Seq<WaveColumn>) -> Seq<u8> {
    section(
        seq![0x50u8, 0x57, 0x56, 0x37],
        be32(3) + be32(columns.len() as int) + be32(0x0096_0000),
        band_triples(columns),
    )
}

pub fn three_band_detail_section(columns: &[WaveColumn]) -> (r: Vec<u8>)
    requires
        24 + 3 * columns.len() <= usize::MAX,
    ensures
        r@ == three_band_detail_bytes(columns@),
{
    let body = band_body(columns);
    proof {
        lemma_band_triples_len(columns@);
    }
    let mut header: Vec<u8> = Vec::new();
    push_be32(&mut header, 3);
    push_len(&mut header, columns.len());
    push_be32(&mut header, 0x0096_0000);
    assert(header@ =~= be32(3) + be32(columns.len() as int) + be32(0x0096_0000));
    let name: [u8; 4] = [0x50, 0x57, 0x56, 0x37];
    assert(name@ =~= seq![0x50u8, 0x57, 0x56, 0x37]);
    tag(name, header.as_slice(), body.as_slice())
}

/// The three-band preview.
pub open spec fn three_band_preview_bytes(columns: Seq<WaveColumn>) -> Seq<u8> {
    section(
        seq![0x50u8, 0x57, 0x56, 0x36],
        be32(3) + be32(columns.len() as int),
        band_triples(columns),
    )
}

pub fn three_band_preview_section(columns: &[WaveColumn]) -> (r: Vec<u8>)
    requires
        20 + 3 * columns.len() <= usize::MAX,
    ensures
        r@ == three_band_preview_bytes(columns@),
{
    let body = band_body(columns);
    proof {
        lemma_band_triples_len(columns@);
    }
    let mut header: Vec<u8> = Vec::new();
    push_be32(&mut header, 3);
    push_len(&mut header, columns.len());
    assert(header@ =~= be32(3) + be32(columns.len() as int));
    let name: [u8; 4] = [0x50, 0x57, 0x56, 0x36];
    assert(name@ =~= seq![0x50u8, 0x57, 0x56, 0x36]);
    tag(name, header.as_slice(), body.as_slice())
}

pub open spec fn three_band_summary_bytes() -> Seq<u8> {
    section(
        seq![0x50u8, 0x57, 0x56, 0x43],
        zeros(2),
        seq![0x00u8, 0x7f, 0x00, 0x8c, 0x00, 0x8e],
    )
}

pub fn three_band_summary_section() -> (r: Vec<u8>)
    ensures
        r@ == three_band_summary_bytes(),
{
    let mut body: Vec<u8> = Vec::new();
    push_be16(&mut body, 0x007f);
    push_be16(&mut body, 0x008c);
    push_be16(&mut body, 0x008e);
    assert(body@ =~= seq![0x00u8, 0x7f, 0x00, 0x8c, 0x00, 0x8e]);
    let name: [u8; 4] = [0x50, 0x57, 0x56, 0x43];
    assert(name@ =~= seq![0x50u8, 0x57, 0x56, 0x43]);
    tag(name, zero_vec(2).as_slice(), body.as_slice())
}

/// The largest height and bands of some columns.
pub open spec fn peak(columns: Seq<WaveColumn>) -> WaveColumn
    decreases columns.len(),
{
    if columns.len() == 0 {
        WaveColumn { height: 0, whiteness: 0, low: 0, mid: 0, high: 0 }
    } else {
        let p = peak(columns.drop_last());
        let c = columns.last();
        WaveColumn {
            height: larger(p.height, c.height),
            whiteness: 0,
            low: larger(p.low, c.low),
            mid: larger(p.mid, c.mid),
            high: larger(p.high, c.high),
        }
    }
}

pub open spec fn larger(a: u8, b: u8) -> u8 {
    if a >= b {
        a
    } else {
        b
    }
}

pub open spec fn whiteness_sum(columns: Seq<WaveColumn>) -> nat
    decreases columns.len(),
{
    if columns.len() == 0 {
        0
    } else {
        whiteness_sum(columns.drop_last()) + columns.last().whiteness as nat
    }
}

/// The source columns that fall, wholly or in part, into one of `count` equal parts.
pub open spec fn part(columns: Seq<WaveColumn>, index: int, count: int) -> Seq<WaveColumn> {
    let n = columns.len() as int;
    let start = index * n / count;
    let end = ((index + 1) * n + count - 1) / count;
    columns.subrange(start, end)
}

/// One column for a part: the peaks of its columns and their mean whiteness.
pub open spec fn pooled(columns: Seq<WaveColumn>, index: int, count: int) -> WaveColumn {
    let here = part(columns, index, count);
    WaveColumn { whiteness: (whiteness_sum(here) / here.len()) as u8, ..peak(here) }
}

/// The columns of a preview: pooled where there are more source columns than preview columns, and
/// otherwise the stretched ones.
pub open spec fn preview(
    source: Seq<WaveColumn>,
    stretched: Seq<WaveColumn>,
    count: nat,
) -> Seq<WaveColumn> {
    if count >= source.len() {
        stretched
    } else {
        Seq::new(count, |i: int| pooled(source, i, count as int))
    }
}

pub proof fn lemma_part_bounds(n: int, index: int, count: int)
    requires
        0 <= index < count < n,
    ensures
        0 <= index * n / count,
        index * n / count < ((index + 1) * n + count - 1) / count <= n,
        0 <= index * n,
        (index + 1) * n <= count * n,
{
    assert(0 <= index * n) by (nonlinear_arith)
        requires
            0 <= index,
            0 <= n,
    ;
    assert((index + 1) * n <= count * n) by (nonlinear_arith)
        requires
            index + 1 <= count,
            0 <= n,
    ;
    assert((index + 1) * n == index * n + n) by (nonlinear_arith);
    let a = index * n;
    let b = (index + 1) * n;
    vstd::arithmetic::div_mod::lemma_div_pos_is_pos(a, count);
    vstd::arithmetic::div_mod::lemma_div_is_ordered(b + count - 1, count * n + count - 1, count);
    assert((count * n + count - 1) / count == n) by {
        vstd::arithmetic::mul::lemma_mul_is_commutative(n, count);
        vstd::arithmetic::div_mod::lemma_fundamental_div_mod_converse(
            n * count + count - 1,
            count,
            n,
            count - 1,
        );
    }
    vstd::arithmetic::div_mod::lemma_div_is_ordered(a + count, b + count - 1, count);
    assert((a + count) / count == a / count + 1) by {
        vstd::arithmetic::div_mod::lemma_div_plus_one(a, count);
    }
}

pub proof fn lemma_whiteness_sum_bound(columns: Seq<WaveColumn>, most: int)
    requires
        forall|i: int| 0 <= i < columns.len() ==> (#[trigger] columns[i]).whiteness <= most,
    ensures
        whiteness_sum(columns) <= most * columns.len(),
    decreases columns.len(),
{
    if columns.len() > 0 {
        lemma_whiteness_sum_bound(columns.drop_last(), most);
        assert(columns.last() == columns[columns.len() - 1]);
        assert(most * columns.len() == most * (columns.len() - 1) + most) by (nonlinear_arith);
    }
}

fn pool(columns: &[WaveColumn], index: usize, count: usize) -> (c: WaveColumn)
    requires
        index < count < columns.len(),
    ensures
        c == pooled(columns@, index as int, count as int),
{
    let n: usize = columns.len();
    proof {
        lemma_part_bounds(n as int, index as int, count as int);
        assert(count as int * n as int <= 0xffff_ffff_ffff_ffff * 0xffff_ffff_ffff_ffff)
            by (nonlinear_arith)
            requires
                0 <= count <= 0xffff_ffff_ffff_ffff,
                0 <= n <= 0xffff_ffff_ffff_ffff,
        ;
        assert((index + 1) * n == index * n + n) by (nonlinear_arith);
    }
    let start: usize = ((index as u128) * (n as u128) / (count as u128)) as usize;
    let end: usize = (((index as u128 + 1) * (n as u128) + (count as u128 - 1)) / (count as u128))
        as usize;
    let ghost here = part(columns@, index as int, count as int);
    assert(here =~= columns@.subrange(start as int, end as int));
    let mut height: u8 = 0;
    let mut low: u8 = 0;
    let mut mid: u8 = 0;
    let mut high: u8 = 0;
    let mut whiteness: u128 = 0;
    let mut i: usize = start;
    while i < end
        invariant
            start <= i <= end <= columns.len(),
            here == columns@.subrange(start as int, end as int),
            peak(here.take(i - start)) == (WaveColumn { height, whiteness: 0, low, mid, high }),
            whiteness == whiteness_sum(here.take(i - start)),
            whiteness <= 255 * (i - start),
        decreases end - i,
    {
        let c = columns[i];
        let ghost seen = here.take(i - start + 1);
        assert(seen.drop_last() =~= here.take(i - start));
        assert(seen.last() == c);
        if c.height > height {
            height = c.height;
        }
        if c.low > low {
            low = c.low;
        }
        if c.mid > mid {
            mid = c.mid;
        }
        if c.high > high {
            high = c.high;
        }
        whiteness = whiteness + c.whiteness as u128;
        i += 1;
    }
    assert(here.take(end - start) =~= here);
    let samples: u128 = (end - start) as u128;
    proof {
        lemma_whiteness_sum_bound(here, 255);
        vstd::arithmetic::div_mod::lemma_div_is_ordered(
            whiteness as int,
            255 * samples as int,
            samples as int,
        );
        vstd::arithmetic::div_mod::lemma_div_multiples_vanish(255, samples as int);
        vstd::arithmetic::mul::lemma_mul_is_commutative(255, samples as int);
    }
    WaveColumn { height, whiteness: (whiteness / samples) as u8, low, mid, high }
}

fn preview_columns(source: &[WaveColumn], stretched: &[WaveColumn], count: usize) -> (r: Vec<
    WaveColumn,
>)
    requires
        count >= source.len() ==> stretched.len() == count,
    ensures
        r@ == preview(source@, stretched@, count as nat),
        r.len() == count,
{
    let mut r: Vec<WaveColumn> = Vec::new();
    let pools: bool = count < source.len();
    let mut i: usize = 0;
    let ghost want = preview(source@, stretched@, count as nat);
    while i < count
        invariant
            i <= count,
            pools == (count < source.len()),
            !pools ==> stretched.len() == count,
            want == preview(source@, stretched@, count as nat),
            want.len() == count,
            r@ == want.take(i as int),
        decreases count - i,
    {
        let c = if pools {
            pool(source, i, count)
        } else {
            stretched[i]
        };
        r.push(c);
        i += 1;
        assert(r@ =~= want.take(i as int));
    }
    assert(r@ =~= want);
    r
}

/// What the local analysis of a track says of it.
pub struct LocalTrack {
    pub id: i64,
    /// Whether the local analysis was completed and stored.
    pub analyzed: bool,
    /// The tempo in hundredths of a beat per minute, where the track has a usable one.
    pub tempo: Option<u16>,
    /// The beats of the track in milliseconds, where tempo, first beat and duration are usable.
    pub beat_times_ms: Option<Vec<u32>>,
    /// How many detail columns the duration of the track asks for.
    pub detail_columns: usize,
}

/// The bands of one waveform column, scaled to its height.
#[derive(Debug, Clone, Copy, PartialEq, Eq, Structural)]
pub struct Bands {
    pub low: u8,
    pub mid: u8,
    pub high: u8,
}

/// A waveform whose amplitudes were reduced to 32 steps.
pub struct LocalWaveform {
    pub track_id: i64,
    /// The height of each column; `None` where the amplitude is not a finite number.
    pub heights: Vec<Option<u8>>,
    pub r: Vec<u8>,
    pub g: Vec<u8>,
    pub b: Vec<u8>,
    pub bands: Vec<Bands>,
}

impl LocalWaveform {
    /// Heights and bands lie in the 32 steps that the format has.
    pub open spec fn in_steps(&self) -> bool {
        &&& forall|i: int|
            0 <= i < self.heights.len() ==> (#[trigger] self.heights[i] matches Some(h) ==> h <= 31)
        &&& forall|i: int|
            0 <= i < self.bands.len() ==> (#[trigger] self.bands[i]).low <= 31 && self.bands[i].mid
                <= 31 && self.bands[i].high <= 31
    }

    /// Every column has a height, three colours and three bands.
    pub open spec fn complete(&self) -> bool {
        &&& self.heights.len() > 0
        &&& self.r.len() == self.heights.len()
        &&& self.g.len() == self.heights.len()
        &&& self.b.len() == self.heights.len()
        &&& self.bands.len() == self.heights.len()
        &&& forall|i: int| 0 <= i < self.heights.len() ==> #[trigger] self.heights[i] is Some
    }
}

/// How white a column is, in sevenths: the share of the high band in its colour.
pub open spec fn whiteness_of(height: u8, r: u8, g: u8, b: u8) -> u8 {
    if height == 0 {
        7
    } else if r + g + b == 0 {
        0
    } else if b * 7 / (r + g + b) > 7 {
        7
    } else {
        (b * 7 / (r + g + b)) as u8
    }
}

pub open spec fn source_column_of(w: LocalWaveform, i: int) -> WaveColumn {
    WaveColumn {
        height: w.heights[i]->0,
        whiteness: whiteness_of(w.heights[i]->0, w.r[i], w.g[i], w.b[i]),
        low: w.bands[i].low,
        mid: w.bands[i].mid,
        high: w.bands[i].high,
    }
}

pub fn source_column(w: &LocalWaveform, index: usize) -> (c: WaveColumn)
    requires
        w.complete(),
        w.in_steps(),
        index < w.heights.len(),
    ensures
        c == source_column_of(*w, index as int),
        column_fits(c),
{
    let height: u8 = match w.heights[index] {
        Some(h) => h,
        None => 0,
    };
    assert(w.heights@[index as int] is Some);
    let sum: u32 = w.r[index] as u32 + w.g[index] as u32 + w.b[index] as u32;
    let whiteness: u8 = if height == 0 {
        7
    } else if sum == 0 {
        0
    } else {
        let share: u32 = (w.b[index] as u32) * 7 / sum;
        if share > 7 {
            7
        } else {
            share as u8
        }
    };
    let bands = w.bands[index];
    WaveColumn { height, whiteness, low: bands.low, mid: bands.mid, high: bands.high }
}

pub open spec fn beats_of(tempo: u16, times: Seq<u32>) -> Seq<Beat> {
    Seq::new(
        times.len(),
        |i: int| Beat { number: (i % 4 + 1) as u16, tempo, time_ms: times[i] },
    )
}

/// The part of a local analysis that spares a player from analysing the track again.
pub struct LocalAnalysis {
    pub beats: Vec<Beat>,
    pub columns: Vec<WaveColumn>,
    pub detail_columns: usize,
}

/// Columns stretched to more columns than the waveform has.
pub struct StretchedColumns {
    pub detail: Vec<WaveColumn>,
    pub preview: Vec<WaveColumn>,
    pub tiny: Vec<WaveColumn>,
    pub color: Vec<WaveColumn>,
}

pub open spec fn usable(track: LocalTrack, waveform: LocalWaveform) -> bool {
    &&& track.analyzed
    &&& track.tempo is Some
    &&& track.beat_times_ms is Some
    &&& waveform.track_id == track.id
    &&& waveform.complete()
    &&& track.tempo->0 >= 1
    &&& track.beat_times_ms->0.len() >= 2
    &&& 0 < track.detail_columns <= MAX_DETAIL_COLUMNS
}

impl LocalAnalysis {
    pub open spec fn well_formed(&self) -> bool {
        &&& self.beats.len() >= 2
        &&& self.columns.len() > 0
        &&& columns_fit(self.columns@)
        &&& 0 < self.detail_columns <= MAX_DETAIL_COLUMNS
    }

    /// Takes a completed analysis with a matching waveform, and nothing less.
    pub fn from_local(track: &LocalTrack, waveform: &LocalWaveform) -> (r: Option<Self>)
        requires
            waveform.in_steps(),
        ensures
            r is Some <==> usable(*track, *waveform),
            r matches Some(a) ==> {
                &&& a.well_formed()
                &&& a.beats@ == beats_of(track.tempo->0, track.beat_times_ms->0@)
                &&& a.columns@ == Seq::new(
                    waveform.heights@.len(),
                    |i: int| source_column_of(*waveform, i),
                )
                &&& a.detail_columns == track.detail_columns
            },
    {
        if !track.analyzed {
            return None;
        }
        let tempo: u16 = match track.tempo {
            Some(tempo) => tempo,
            None => return None,
        };
        let times: &Vec<u32> = match &track.beat_times_ms {
            Some(times) => times,
            None => return None,
        };
        let count: usize = waveform.heights.len();
        if count == 0 || waveform.track_id != track.id || waveform.r.len() != count
            || waveform.g.len() != count || waveform.b.len() != count || waveform.bands.len()
            != count {
            return None;
        }
        let mut k: usize = 0;
        while k < count
            invariant
                k <= count,
                count == waveform.heights.len(),
                forall|j: int| 0 <= j < k ==> #[trigger] waveform.heights[j] is Some,
            decreases count - k,
        {
            if waveform.heights[k].is_none() {
                assert(!(waveform.heights@[k as int] is Some));
                return None;
            }
            k += 1;
        }
        if tempo < 1 || times.len() < 2 || track.detail_columns == 0 || track.detail_columns
            > MAX_DETAIL_COLUMNS {
            return None;
        }
        let mut beats: Vec<Beat> = Vec::new();
        let mut i: usize = 0;
        let ghost grid = beats_of(tempo, times@);
        while i < times.len()
            invariant
                i <= times.len(),
                grid == beats_of(tempo, times@),
                beats@ == grid.take(i as int),
            decreases times.len() - i,
        {
            beats.push(Beat { number: (i % 4 + 1) as u16, tempo, time_ms: times[i] });
            i += 1;
            assert(beats@ =~= grid.take(i as int));
        }
        assert(beats@ =~= grid);
        let mut columns: Vec<WaveColumn> = Vec::new();
        let mut c: usize = 0;
        let ghost all = Seq::new(waveform.heights@.len(), |i: int| source_column_of(*waveform, i));
        while c < count
            invariant
                c <= count,
                count == waveform.heights.len(),
                waveform.complete(),
                waveform.in_steps(),
                all == Seq::new(
                    waveform.heights@.len(),
                    |i: int| source_column_of(*waveform, i),
                ),
                columns@ == all.take(c as int),
                columns_fit(columns@),
            decreases count - c,
        {
            columns.push(source_column(waveform, c));
            c += 1;
            assert(columns@ =~= all.take(c as int));
        }
        assert(columns@ =~= all);
        Some(LocalAnalysis { beats, columns, detail_columns: track.detail_columns })
    }

    /// Stretched columns that fit this analysis.
    pub open spec fn accepts(&self, stretched: StretchedColumns) -> bool {
        &&& stretched.detail.len() == self.detail_columns
        &&& columns_fit(stretched.detail@)
        &&& PREVIEW_COLUMNS >= self.columns.len() ==> stretched.preview.len() == PREVIEW_COLUMNS
        &&& TINY_PREVIEW_COLUMNS >= self.columns.len() ==> stretched.tiny.len()
            == TINY_PREVIEW_COLUMNS
        &&& COLOR_PREVIEW_COLUMNS >= self.columns.len() ==> stretched.color.len()
            == COLOR_PREVIEW_COLUMNS
    }

    pub open spec fn dat_sections(&self, stretched: StretchedColumns, path: Seq<char>) -> Seq<
        Seq<u8>,
    > {
        seq![
            path_bytes(path),
            vbr_bytes(),
            beat_grid_bytes(self.beats@),
            mono_preview_bytes(
                seq![0x50u8, 0x57, 0x41, 0x56],
                preview(self.columns@, stretched.preview@, PREVIEW_COLUMNS as nat),
            ),
            mono_preview_bytes(
                seq![0x50u8, 0x57, 0x56, 0x32],
                preview(self.columns@, stretched.tiny@, TINY_PREVIEW_COLUMNS as nat),
            ),
            empty_cue_bytes(1),
            empty_cue_bytes(0),
        ]
    }

    pub open spec fn ext_sections(&self, stretched: StretchedColumns, path: Seq<char>) -> Seq<
        Seq<u8>,
    > {
        seq![
            path_bytes(path),
            mono_detail_bytes(stretched.detail@),
            empty_cue_bytes(1),
            empty_cue_bytes(0),
            empty_extended_cue_bytes(1),
            empty_extended_cue_bytes(0),
            extended_beat_grid_bytes(self.beats@),
            color_detail_bytes(stretched.detail@),
            color_preview_bytes(
                preview(self.columns@, stretched.color@, COLOR_PREVIEW_COLUMNS as nat),
            ),
            extended_vbr_bytes(),
        ]
    }

    pub open spec fn two_ex_sections(&self, stretched: StretchedColumns, path: Seq<char>) -> Seq<
        Seq<u8>,
    > {
        seq![
            path_bytes(path),
            three_band_detail_bytes(stretched.detail@),
            three_band_preview_bytes(
                preview(self.columns@, stretched.color@, COLOR_PREVIEW_COLUMNS as nat),
            ),
            three_band_summary_bytes(),
        ]
    }

    fn dat_file(&self, usb_path: &str, stretched: &StretchedColumns) -> (r: Vec<u8>)
        requires
            self.well_formed(),
            self.accepts(*stretched),
            fits(self.dat_sections(*stretched, usb_path@)),
        ensures
            r@ == file(self.dat_sections(*stretched, usb_path@)),
    {
        proof {
            let sections = self.dat_sections(*stretched, usb_path@);
            lemma_joined_holds(sections, 0);
            lemma_joined_holds(sections, 2);
            assert(sections[0] == path_bytes(usb_path@));
            assert(sections[2] == beat_grid_bytes(self.beats@));
            lemma_all_beat_bytes_len(self.beats@);
        }
        let preview_400 = preview_columns(
            self.columns.as_slice(),
            stretched.preview.as_slice(),
            PREVIEW_COLUMNS,
        );
        let preview_100 = preview_columns(
            self.columns.as_slice(),
            stretched.tiny.as_slice(),
            TINY_PREVIEW_COLUMNS,
        );
        let pwav: [u8; 4] = [0x50, 0x57, 0x41, 0x56];
        assert(pwav@ =~= seq![0x50u8, 0x57, 0x41, 0x56]);
        let pwv2: [u8; 4] = [0x50, 0x57, 0x56, 0x32];
        assert(pwv2@ =~= seq![0x50u8, 0x57, 0x56, 0x32]);
        let parts: Vec<Vec<u8>> = vec![
            path_section(usb_path),
            vbr_section(),
            beat_grid_section(self.beats.as_slice()),
            mono_preview_section(pwav, preview_400.as_slice()),
            mono_preview_section(pwv2, preview_100.as_slice()),
            empty_cue_section(1),
            empty_cue_section(0),
        ];
        proof {
            assert(views(parts@) =~= self.dat_sections(*stretched, usb_path@));
        }
        anlz_file(parts.as_slice())
    }

    #[verifier::rlimit(60)]
    fn ext_file(&self, usb_path: &str, stretched: &StretchedColumns) -> (r: Vec<u8>)
        requires
            self.well_formed(),
            self.accepts(*stretched),
            fits(self.ext_sections(*stretched, usb_path@)),
        ensures
            r@ == file(self.ext_sections(*stretched, usb_path@)),
    {
        proof {
            let sections = self.ext_sections(*stretched, usb_path@);
            lemma_joined_holds(sections, 0);
            lemma_joined_holds(sections, 6);
            assert(sections[0] == path_bytes(usb_path@));
            assert(sections[6] == extended_beat_grid_bytes(self.beats@));
            lemma_beat_marks_len(self.beats@);
        }
        let preview_1200 = preview_columns(
            self.columns.as_slice(),
            stretched.color.as_slice(),
            COLOR_PREVIEW_COLUMNS,
        );
        let detail = stretched.detail.as_slice();
        let parts: Vec<Vec<u8>> = vec![
            path_section(usb_path),
            mono_detail_section(detail),
            empty_cue_section(1),
            empty_cue_section(0),
            empty_extended_cue_section(1),
            empty_extended_cue_section(0),
            extended_beat_grid_section(self.beats.as_slice()),
            color_detail_section(detail),
            color_preview_section(preview_1200.as_slice()),
            extended_vbr_section(),
        ];
        proof {
            assert(views(parts@) =~= self.ext_sections(*stretched, usb_path@));
        }
        anlz_file(parts.as_slice())
    }

    fn two_ex_file(&self, usb_path: &str, stretched: &StretchedColumns) -> (r: Vec<u8>)
        requires
            self.well_formed(),
            self.accepts(*stretched),
            fits(self.two_ex_sections(*stretched, usb_path@)),
        ensures
            r@ == file(self.two_ex_sections(*stretched, usb_path@)),
    {
        proof {
            let sections = self.two_ex_sections(*stretched, usb_path@);
            lemma_joined_holds(sections, 0);
            assert(sections[0] == path_bytes(usb_path@));
        }
        let preview_1200 = preview_columns(
            self.columns.as_slice(),
            stretched.color.as_slice(),
            COLOR_PREVIEW_COLUMNS,
        );
        let detail = stretched.detail.as_slice();
        let parts: Vec<Vec<u8>> = vec![
            path_section(usb_path),
            three_band_detail_section(detail),
            three_band_preview_section(preview_1200.as_slice()),
            three_band_summary_section(),
        ];
        proof {
            assert(views(parts@) =~= self.two_ex_sections(*stretched, usb_path@));
        }
        anlz_file(parts.as_slice())
    }

    proof fn lemma_dat_fits(&self, stretched: StretchedColumns, path: Seq<char>)
        requires
            self.accepts(stretched),
            0x4000 + 2 * utf16(path).len() + 8 * self.beats.len() <= usize::MAX,
        ensures
            fits(self.dat_sections(stretched, path)),
    {
        let dat = self.dat_sections(stretched, path);
        lemma_path_len(path);
        lemma_all_beat_bytes_len(self.beats@);
        assert(dat[1].len() == 1620);
        assert(dat[2].len() == 24 + 8 * self.beats.len());
        assert(dat[3].len() == 420);
        assert(dat[4].len() == 120);
        assert(dat[5].len() == 24);
        assert(dat[6].len() == 24);
        reveal_with_fuel(length_of, 8);
        lemma_fits(dat);
    }

    proof fn lemma_ext_fits(&self, stretched: StretchedColumns, path: Seq<char>)
        requires
            self.accepts(stretched),
            0x4000 + 2 * utf16(path).len() + 8 * self.beats.len() + 3 * self.detail_columns
                <= usize::MAX,
        ensures
            fits(self.ext_sections(stretched, path)),
    {
        let ext = self.ext_sections(stretched, path);
        let color = preview(self.columns@, stretched.color@, COLOR_PREVIEW_COLUMNS as nat);
        assert(ext[0].len() == 18 + 2 * utf16(path).len()) by {
            lemma_path_len(path);
        }
        assert(ext[1].len() == 24 + stretched.detail.len() && ext[7].len() == 24 + 2
            * stretched.detail.len()) by {
            lemma_detail_lens(stretched.detail@);
        }
        assert(ext[2].len() == 24 && ext[3].len() == 24 && ext[4].len() == 20 && ext[5].len() == 20
            && ext[9].len() == 8032) by {
            lemma_empty_lens();
        }
        assert(ext[6].len() == 56 + 2 * self.beats.len()) by {
            lemma_extended_grid_len(self.beats@);
        }
        assert(ext[8].len() == 24 + 6 * COLOR_PREVIEW_COLUMNS) by {
            lemma_color_preview_len(color);
        }
        lemma_ten_fit(ext);
    }

    proof fn lemma_two_ex_fits(&self, stretched: StretchedColumns, path: Seq<char>)
        requires
            self.accepts(stretched),
            0x4000 + 2 * utf16(path).len() + 3 * self.detail_columns <= usize::MAX,
        ensures
            fits(self.two_ex_sections(stretched, path)),
    {
        let two_ex = self.two_ex_sections(stretched, path);
        let color = preview(self.columns@, stretched.color@, COLOR_PREVIEW_COLUMNS as nat);
        lemma_path_len(path);
        lemma_band_triples_len(stretched.detail@);
        lemma_band_triples_len(color);
        assert(two_ex[1].len() == 24 + 3 * self.detail_columns);
        assert(two_ex[2].len() == 20 + 3 * COLOR_PREVIEW_COLUMNS);
        assert(two_ex[3].len() == 20);
        reveal_with_fuel(length_of, 5);
        lemma_fits(two_ex);
    }

    /// The three analysis files of a completely analysed track.
    pub fn bundle(&self, usb_path: &str, stretched: &StretchedColumns) -> (r: AnalysisBundle)
        requires
            self.well_formed(),
            self.accepts(*stretched),
            0x4000 + 2 * utf16(usb_path@).len() + 8 * self.beats.len() + 3 * self.detail_columns
                <= usize::MAX,
        ensures
            r.holds(
                usb_path@,
                self.dat_sections(*stretched, usb_path@),
                self.ext_sections(*stretched, usb_path@),
                self.two_ex_sections(*stretched, usb_path@),
            ),
    {
        proof {
            self.lemma_dat_fits(*stretched, usb_path@);
            self.lemma_ext_fits(*stretched, usb_path@);
            self.lemma_two_ex_fits(*stretched, usb_path@);
        }
        AnalysisBundle::of_parts(
            usb_path,
            self.dat_file(usb_path, stretched),
            self.ext_file(usb_path, stretched),
            self.two_ex_file(usb_path, stretched),
        )
    }
}

proof fn lemma_one_more(sections: Seq<Seq<u8>>, n: int)
    requires
        0 <= n < sections.len(),
    ensures
        joined(sections.take(n + 1)).len() == joined(sections.take(n)).len() + sections[n].len(),
{
    assert(sections.take(n + 1).drop_last() =~= sections.take(n));
}

/// The length of the first `n` sections.
spec fn length_of(s: Seq<Seq<u8>>, n: int) -> int
    decreases n,
{
    if n <= 0 {
        0
    } else {
        length_of(s, n - 1) + s[n - 1].len()
    }
}

proof fn lemma_length_of(s: Seq<Seq<u8>>, n: int)
    requires
        0 <= n <= s.len(),
    ensures
        joined(s.take(n)).len() == length_of(s, n),
    decreases n,
{
    if n > 0 {
        lemma_length_of(s, n - 1);
        lemma_one_more(s, n - 1);
    }
}

proof fn lemma_fits(s: Seq<Seq<u8>>)
    requires
        28 + length_of(s, s.len() as int) <= usize::MAX,
    ensures
        fits(s),
{
    lemma_length_of(s, s.len() as int);
    assert(s.take(s.len() as int) =~= s);
}

proof fn lemma_ten_fit(s: Seq<Seq<u8>>)
    requires
        s.len() == 10,
        28 + s[0].len() + s[1].len() + s[2].len() + s[3].len() + s[4].len() + s[5].len()
            + s[6].len() + s[7].len() + s[8].len() + s[9].len() <= usize::MAX,
    ensures
        fits(s),
{
    reveal_with_fuel(length_of, 11);
    lemma_fits(s);
}

proof fn lemma_empty_lens()
    ensures
        empty_cue_bytes(0).len() == 24,
        empty_cue_bytes(1).len() == 24,
        empty_extended_cue_bytes(0).len() == 20,
        empty_extended_cue_bytes(1).len() == 20,
        extended_vbr_bytes().len() == 8032,
{
}

proof fn lemma_extended_grid_len(beats: Seq<Beat>)
    ensures
        extended_beat_grid_bytes(beats).len() == 56 + 2 * beats.len(),
{
    lemma_beat_marks_len(beats);
}

proof fn lemma_detail_lens(columns: Seq<WaveColumn>)
    ensures
        mono_detail_bytes(columns).len() == 24 + columns.len(),
        color_detail_bytes(columns).len() == 24 + 2 * columns.len(),
{
    lemma_color_words_len(columns);
}

proof fn lemma_color_preview_len(columns: Seq<WaveColumn>)
    ensures
        color_preview_bytes(columns).len() == 24 + 6 * columns.len(),
{
    lemma_color_sixes_len(columns);
}

proof fn lemma_path_len(path: Seq<char>)
    ensures
        path_bytes(path).len() == 18 + 2 * utf16(path).len(),
{
    lemma_be16_all_len(utf16(path).push(0));
}

proof fn lemma_placeholder_lens(path: Seq<char>)
    ensures
        file(AnalysisBundle::placeholder_dat(path)).len() == 76 + path_bytes(path).len(),
        file(AnalysisBundle::placeholder_ext(path)).len() == 116 + path_bytes(path).len(),
        file(AnalysisBundle::placeholder_two_ex(path)).len() == 28 + path_bytes(path).len(),
{
    let dat = AnalysisBundle::placeholder_dat(path);
    let ext = AnalysisBundle::placeholder_ext(path);
    let two_ex = AnalysisBundle::placeholder_two_ex(path);
    reveal_with_fuel(joined, 6);
    assert(two_ex.drop_last() =~= Seq::<Seq<u8>>::empty());
    assert(dat.drop_last().drop_last() =~= two_ex);
    assert(ext.drop_last().drop_last() =~= dat);
}

/// One file of a bundle, with its path below the root of the device.
pub struct AnalysisFile {
    pub relative_path: String,
    pub body: Vec<u8>,
}

pub struct AnalysisBundle {
    /// Where the device's database finds the analysis: the first file, with a leading `/`.
    pub database_path: String,
    pub files: Vec<AnalysisFile>,
}

impl AnalysisBundle {
    /// The bundle for `path` consists of three files with these sections.
    pub open spec fn holds(
        &self,
        path: Seq<char>,
        dat: Seq<Seq<u8>>,
        ext: Seq<Seq<u8>>,
        two_ex: Seq<Seq<u8>>,
    ) -> bool {
        &&& self.database_path@ == "/"@ + (directory(path) + "/ANLZ0000.DAT"@)
        &&& self.files.len() == 3
        &&& self.files[0].relative_path@ == directory(path) + "/ANLZ0000.DAT"@
        &&& self.files[0].body@ == file(dat)
        &&& self.files[1].relative_path@ == directory(path) + "/ANLZ0000.EXT"@
        &&& self.files[1].body@ == file(ext)
        &&& self.files[2].relative_path@ == directory(path) + "/ANLZ0000.2EX"@
        &&& self.files[2].body@ == file(two_ex)
    }

    fn of_parts(usb_path: &str, dat: Vec<u8>, ext: Vec<u8>, two_ex: Vec<u8>) -> (r: Self)
        ensures
            r.database_path@ == "/"@ + (directory(usb_path@) + "/ANLZ0000.DAT"@),
            r.files.len() == 3,
            r.files[0].relative_path@ == directory(usb_path@) + "/ANLZ0000.DAT"@,
            r.files[0].body@ == dat@,
            r.files[1].relative_path@ == directory(usb_path@) + "/ANLZ0000.EXT"@,
            r.files[1].body@ == ext@,
            r.files[2].relative_path@ == directory(usb_path@) + "/ANLZ0000.2EX"@,
            r.files[2].body@ == two_ex@,
    {
        let place = anlz_directory(usb_path);
        let dat_path = concat(place.as_str(), "/ANLZ0000.DAT");
        let database_path = concat("/", dat_path.as_str());
        let ext_path = concat(place.as_str(), "/ANLZ0000.EXT");
        let two_ex_path = concat(place.as_str(), "/ANLZ0000.2EX");
        let files: Vec<AnalysisFile> = vec![
            AnalysisFile { relative_path: dat_path, body: dat },
            AnalysisFile { relative_path: ext_path, body: ext },
            AnalysisFile { relative_path: two_ex_path, body: two_ex },
        ];
        AnalysisBundle { database_path, files }
    }

    pub open spec fn placeholder_dat(path: Seq<char>) -> Seq<Seq<u8>> {
        seq![path_bytes(path), empty_cue_bytes(1), empty_cue_bytes(0)]
    }

    pub open spec fn placeholder_ext(path: Seq<char>) -> Seq<Seq<u8>> {
        seq![
            path_bytes(path),
            empty_cue_bytes(1),
            empty_cue_bytes(0),
            empty_extended_cue_bytes(1),
            empty_extended_cue_bytes(0),
        ]
    }

    pub open spec fn placeholder_two_ex(path: Seq<char>) -> Seq<Seq<u8>> {
        seq![path_bytes(path)]
    }

    /// The bundle of a track without a local analysis: no grid and no waveform, only the path and
    /// empty cue lists that a player can write to.
    pub fn placeholder(usb_path: &str) -> (r: Self)
        requires
            134 + 2 * utf16(usb_path@).len() <= usize::MAX,
        ensures
            r.holds(
                usb_path@,
                Self::placeholder_dat(usb_path@),
                Self::placeholder_ext(usb_path@),
                Self::placeholder_two_ex(usb_path@),
            ),
    {
        proof {
            lemma_placeholder_lens(usb_path@);
            lemma_path_len(usb_path@);
        }
        let dat_parts: Vec<Vec<u8>> = vec![
            path_section(usb_path),
            empty_cue_section(1),
            empty_cue_section(0),
        ];
        let ext_parts: Vec<Vec<u8>> = vec![
            path_section(usb_path),
            empty_cue_section(1),
            empty_cue_section(0),
            empty_extended_cue_section(1),
            empty_extended_cue_section(0),
        ];
        let two_ex_parts: Vec<Vec<u8>> = vec![path_section(usb_path)];
        proof {
            assert(views(dat_parts@) =~= Self::placeholder_dat(usb_path@));
            assert(views(ext_parts@) =~= Self::placeholder_ext(usb_path@));
            assert(views(two_ex_parts@) =~= Self::placeholder_two_ex(usb_path@));
        }
        AnalysisBundle::of_parts(
            usb_path,
            anlz_file(dat_parts.as_slice()),
            anlz_file(ext_parts.as_slice()),
            anlz_file(two_ex_parts.as_slice()),
        )
    }
}

proof fn lemma_section_is_sound(name: Seq<u8>, extra: Seq<u8>, body: Seq<u8>)
    requires
        name.len() == 4,
        section(name, extra, body).len() <= u32::MAX,
    ensures
        is_section(section(name, extra, body)),
{
    let total = 12 + extra.len() + body.len();
    let s = section(name, extra, body);
    assert(s.len() == total);
    lemma_be32_reads_back(total as int);
    assert(be32_at(s, 8) == be32_at(be32(total as int), 0));
}

/// The sections of a file are found in it again, and the first of them names the audio file.
#[verifier::opaque]
pub open spec fn reads_back(sections: Seq<Seq<u8>>, path: Seq<char>) -> bool {
    &&& layout(file(sections)) == Some((28int, spans(28, sections)))
    &&& spans(28, sections).len() == sections.len() > 0
    &&& forall|i: int|
        #![trigger spans(28, sections)[i]]
        0 <= i < sections.len() ==> file(sections).subrange(
            spans(28, sections)[i].0,
            spans(28, sections)[i].1,
        ) == sections[i]
    &&& sections[0] == path_bytes(path)
}

proof fn lemma_reads_back(sections: Seq<Seq<u8>>, path: Seq<char>)
    requires
        sections.len() > 0,
        sections[0] == path_bytes(path),
        forall|i: int| 0 <= i < sections.len() ==> is_section(#[trigger] sections[i]),
        file(sections).len() <= u32::MAX,
    ensures
        reads_back(sections, path),
{
    reveal(reads_back);
    assert(file(sections).len() == 28 + joined(sections).len());
    written_sections_read_back(sections);
}

proof fn lemma_placeholder_sections(path: Seq<char>)
    requires
        path_bytes(path).len() <= u32::MAX,
    ensures
        forall|i: int| 0 <= i < 3 ==> is_section(#[trigger] AnalysisBundle::placeholder_dat(path)[i]),
        forall|i: int| 0 <= i < 5 ==> is_section(#[trigger] AnalysisBundle::placeholder_ext(path)[i]),
        is_section(AnalysisBundle::placeholder_two_ex(path)[0]),
{
    lemma_path_is_section(path);
    lemma_cues_are_sections();
}

/// The three files of a track without a local analysis can be read, section by section, and each
/// begins with the section that names the audio file.
pub proof fn placeholders_read_back(path: Seq<char>)
    requires
        file(AnalysisBundle::placeholder_ext(path)).len() <= u32::MAX,
    ensures
        reads_back(AnalysisBundle::placeholder_dat(path), path),
        reads_back(AnalysisBundle::placeholder_ext(path), path),
        reads_back(AnalysisBundle::placeholder_two_ex(path), path),
{
    lemma_placeholder_lens(path);
    lemma_placeholder_sections(path);
    lemma_reads_back(AnalysisBundle::placeholder_dat(path), path);
    lemma_reads_back(AnalysisBundle::placeholder_ext(path), path);
    lemma_reads_back(AnalysisBundle::placeholder_two_ex(path), path);
}

proof fn lemma_path_is_section(path: Seq<char>)
    requires
        path_bytes(path).len() <= u32::MAX,
    ensures
        is_section(path_bytes(path)),
{
    let body = be16_all(utf16(path).push(0));
    lemma_section_is_sound(seq![0x50u8, 0x50, 0x54, 0x48], be32(body.len() as int), body);
}

proof fn lemma_cues_are_sections()
    ensures
        is_section(empty_cue_bytes(0)),
        is_section(empty_cue_bytes(1)),
        is_section(empty_extended_cue_bytes(0)),
        is_section(empty_extended_cue_bytes(1)),
{
    let cue = seq![0x50u8, 0x43, 0x4f, 0x42];
    let extended = seq![0x50u8, 0x43, 0x4f, 0x32];
    lemma_section_is_sound(cue, be32(0) + be32(0) + be32(0xffff_ffff), Seq::empty());
    lemma_section_is_sound(cue, be32(1) + be32(0) + be32(0xffff_ffff), Seq::empty());
    lemma_section_is_sound(extended, be32(0) + be32(0), Seq::empty());
    lemma_section_is_sound(extended, be32(1) + be32(0), Seq::empty());
}

} // verus!
