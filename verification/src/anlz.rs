//! The ANLZ container: a `PMAI` header followed by tagged, length-prefixed sections.

use std::ops::Range;

use vstd::prelude::*;

verus! {

pub const ANLZ_HEADER_LEN: u32 = 28;

/// The four bytes of a number, most significant first. Larger numbers keep their low 32 bits.
pub open spec fn be32(n: int) -> Seq<u8> {
    seq![
        ((n / 16777216) % 256) as u8,
        ((n / 65536) % 256) as u8,
        ((n / 256) % 256) as u8,
        (n % 256) as u8,
    ]
}

pub open spec fn be16(n: int) -> Seq<u8> {
    seq![((n / 256) % 256) as u8, (n % 256) as u8]
}

/// The number whose big-endian bytes stand at `at`.
pub open spec fn be32_at(s: Seq<u8>, at: int) -> int {
    s[at] * 16777216 + s[at + 1] * 65536 + s[at + 2] * 256 + s[at + 3]
}

pub fn push_be32(v: &mut Vec<u8>, n: u32)
    ensures
        final(v)@ == old(v)@ + be32(n as int),
{
    v.push(((n / 16777216) % 256) as u8);
    v.push(((n / 65536) % 256) as u8);
    v.push(((n / 256) % 256) as u8);
    v.push((n % 256) as u8);
    assert(v@ =~= old(v)@ + be32(n as int));
}

/// A length, reduced to the 32 bits that the format has room for.
pub fn push_len(v: &mut Vec<u8>, n: usize)
    ensures
        final(v)@ == old(v)@ + be32(n as int),
{
    let m: u32 = ((n as u64) % 0x1_0000_0000u64) as u32;
    proof {
        lemma_be32_mod(n as int);
    }
    push_be32(v, m);
}

pub fn push_be16(v: &mut Vec<u8>, n: u16)
    ensures
        final(v)@ == old(v)@ + be16(n as int),
{
    v.push(((n / 256) % 256) as u8);
    v.push((n % 256) as u8);
    assert(v@ =~= old(v)@ + be16(n as int));
}

pub fn push_bytes(v: &mut Vec<u8>, more: &[u8])
    ensures
        final(v)@ == old(v)@ + more@,
{
    let mut i: usize = 0;
    while i < more.len()
        invariant
            i <= more.len(),
            v@ == old(v)@ + more@.take(i as int),
        decreases more.len() - i,
    {
        v.push(more[i]);
        i += 1;
        assert(v@ =~= old(v)@ + more@.take(i as int));
    }
    assert(more@.take(i as int) =~= more@);
}

pub fn copy_bytes(from: &[u8]) -> (v: Vec<u8>)
    ensures
        v@ == from@,
{
    let mut v: Vec<u8> = Vec::new();
    push_bytes(&mut v, from);
    assert(v@ =~= from@);
    v
}

proof fn lemma_be32_mod(n: int)
    requires
        0 <= n,
    ensures
        be32(n % 0x1_0000_0000) == be32(n),
{
    let m = n % 0x1_0000_0000;
    let q = n / 0x1_0000_0000;
    assert(n == q * 0x1_0000_0000 + m);
    assert(n / 16777216 == q * 256 + m / 16777216);
    assert(n / 65536 == q * 65536 + m / 65536);
    assert(n / 256 == q * 16777216 + m / 256);
    assert((q * 256 + m / 16777216) % 256 == (m / 16777216) % 256);
    assert((q * 65536 + m / 65536) % 256 == (m / 65536) % 256);
    assert((q * 16777216 + m / 256) % 256 == (m / 256) % 256);
    assert((q * 0x1_0000_0000 + m) % 256 == m % 256);
}

pub proof fn lemma_be32_reads_back(n: int)
    requires
        0 <= n <= u32::MAX,
    ensures
        be32_at(be32(n), 0) == n,
{
}

pub open spec fn zeros(n: nat) -> Seq<u8> {
    Seq::new(n, |i: int| 0u8)
}


/// One section: its name, the length of its header, its whole length, the rest of the header, and
/// the body.
pub open spec fn section(name: Seq<u8>, extra: Seq<u8>, body: Seq<u8>) -> Seq<u8> {
    name + be32(12 + extra.len() as int) + be32(12 + extra.len() + body.len() as int) + extra + body
}

pub fn tag(name: [u8; 4], header_extra: &[u8], body: &[u8]) -> (value: Vec<u8>)
    requires
        12 + header_extra.len() + body.len() <= usize::MAX,
    ensures
        value@ == section(name@, header_extra@, body@),
{
    let header_len: usize = 12 + header_extra.len();
    let total_len: usize = header_len + body.len();
    let mut value: Vec<u8> = Vec::new();
    push_bytes(&mut value, name.as_slice());
    push_len(&mut value, header_len);
    push_len(&mut value, total_len);
    push_bytes(&mut value, header_extra);
    push_bytes(&mut value, body);
    assert(value@ =~= section(name@, header_extra@, body@));
    value
}

/// All sections, one behind the other.
pub open spec fn joined(sections: Seq<Seq<u8>>) -> Seq<u8>
    decreases sections.len(),
{
    if sections.len() == 0 {
        Seq::empty()
    } else {
        joined(sections.drop_last()) + sections.last()
    }
}

pub open spec fn views(sections: Seq<Vec<u8>>) -> Seq<Seq<u8>> {
    sections.map_values(|v: Vec<u8>| v@)
}

/// The file header for a file of `total` bytes.
pub open spec fn file_header(total: int) -> Seq<u8> {
    seq![0x50u8, 0x4d, 0x41, 0x49] + be32(28) + be32(total) + be32(1) + be32(0x0001_0000) + be32(
        0x0001_0000,
    ) + be32(0)
}

/// A whole file: the header and the sections.
pub open spec fn file(sections: Seq<Seq<u8>>) -> Seq<u8> {
    file_header(28 + joined(sections).len() as int) + joined(sections)
}

/// A file of these sections can be held in memory.
pub open spec fn fits(sections: Seq<Seq<u8>>) -> bool {
    file(sections).len() <= usize::MAX
}

pub fn anlz_file(sections: &[Vec<u8>]) -> (value: Vec<u8>)
    requires
        fits(views(sections@)),
    ensures
        value@ == file(views(sections@)),
{
    let mut rest: Vec<u8> = Vec::new();
    let mut i: usize = 0;
    while i < sections.len()
        invariant
            i <= sections.len(),
            rest@ == joined(views(sections@).take(i as int)),
        decreases sections.len() - i,
    {
        push_bytes(&mut rest, sections[i].as_slice());
        i += 1;
        let ghost all = views(sections@);
        assert(all.take(i as int).drop_last() =~= all.take(i - 1));
        assert(all.take(i as int).last() == sections@[i - 1]@);
    }
    assert(views(sections@).take(i as int) =~= views(sections@));
    let total_len: usize = 28 + rest.len();
    let mut value: Vec<u8> = Vec::new();
    value.push(0x50);
    value.push(0x4d);
    value.push(0x41);
    value.push(0x49);
    push_be32(&mut value, ANLZ_HEADER_LEN);
    push_len(&mut value, total_len);
    push_be32(&mut value, 1);
    push_be32(&mut value, 0x0001_0000);
    push_be32(&mut value, 0x0001_0000);
    push_be32(&mut value, 0);
    push_bytes(&mut value, rest.as_slice());
    assert(value@ =~= file(views(sections@)));
    value
}

/// The sections that stand from `at` to the end of the file, each with its first byte and the one
/// behind its last, where they fill the file exactly.
pub open spec fn sections_from(body: Seq<u8>, at: int) -> Option<Seq<(int, int)>>
    decreases body.len() - at,
{
    if at >= body.len() {
        Some(Seq::empty())
    } else if at + 12 > body.len() {
        None
    } else {
        let total = be32_at(body, at + 8);
        if total < 12 || at + total > body.len() {
            None
        } else {
            match sections_from(body, at + total) {
                Some(rest) => Some(seq![(at, at + total)] + rest),
                None => None,
            }
        }
    }
}

pub open spec fn header_is_sound(body: Seq<u8>) -> bool {
    &&& body.len() >= 28
    &&& body.subrange(0, 4) == seq![0x50u8, 0x4d, 0x41, 0x49]
    &&& 12 <= be32_at(body, 4) <= body.len()
    &&& be32_at(body, 8) == body.len()
}

/// Where the sections of a well-formed file stand: the length of its header, then every section.
pub open spec fn layout(body: Seq<u8>) -> Option<(int, Seq<(int, int)>)> {
    if header_is_sound(body) {
        match sections_from(body, be32_at(body, 4)) {
            Some(ranges) => Some((be32_at(body, 4), ranges)),
            None => None,
        }
    } else {
        None
    }
}

pub open spec fn bounds(ranges: Seq<Range<usize>>) -> Seq<(int, int)> {
    ranges.map_values(|r: Range<usize>| (r.start as int, r.end as int))
}

fn read_be32(body: &[u8], at: usize) -> (n: u32)
    requires
        at + 4 <= body.len(),
    ensures
        n == be32_at(body@, at as int),
{
    let b0: u32 = body[at] as u32;
    let b1: u32 = body[at + 1] as u32;
    let b2: u32 = body[at + 2] as u32;
    let b3: u32 = body[at + 3] as u32;
    b0 * 16777216 + b1 * 65536 + b2 * 256 + b3
}

pub fn anlz_section_ranges(body: &[u8]) -> (r: Option<(usize, Vec<Range<usize>>)>)
    ensures
        r is Some <==> layout(body@) is Some,
        r matches Some(found) ==> layout(body@) == Some((found.0 as int, bounds(found.1@))),
{
    if body.len() < 28 || body[0] != 0x50 || body[1] != 0x4d || body[2] != 0x41 || body[3] != 0x49 {
        proof {
            if header_is_sound(body@) {
                let head = body@.subrange(0, 4);
                assert(head[0] == body@[0] && head[1] == body@[1] && head[2] == body@[2] && head[3]
                    == body@[3]);
            }
        }
        return None;
    }
    assert(body@.subrange(0, 4) =~= seq![0x50u8, 0x4d, 0x41, 0x49]);
    let header_len: usize = read_be32(body, 4) as usize;
    let declared_len: usize = read_be32(body, 8) as usize;
    if header_len < 12 || header_len > body.len() || declared_len != body.len() {
        return None;
    }
    let mut ranges: Vec<Range<usize>> = Vec::new();
    let mut offset: usize = header_len;
    while offset < body.len()
        invariant
            header_is_sound(body@),
            header_len == be32_at(body@, 4),
            12 <= header_len <= offset <= body.len(),
            sections_from(body@, header_len as int) == match sections_from(body@, offset as int) {
                Some(rest) => Some(bounds(ranges@) + rest),
                None => None,
            },
        decreases body.len() - offset,
    {
        if body.len() - offset < 12 {
            return None;
        }
        let total_len: usize = read_be32(body, offset + 8) as usize;
        if total_len < 12 || total_len > body.len() - offset {
            return None;
        }
        let end: usize = offset + total_len;
        let ghost before = bounds(ranges@);
        ranges.push(offset..end);
        proof {
            let here = (offset as int, end as int);
            assert(bounds(ranges@) =~= before.push(here));
            if let Some(rest) = sections_from(body@, end as int) {
                assert(before + (seq![here] + rest) =~= before.push(here) + rest);
            }
        }
        offset = end;
    }
    proof {
        assert(bounds(ranges@) + Seq::<(int, int)>::empty() =~= bounds(ranges@));
    }
    Some((header_len, ranges))
}

pub open spec fn is_cue_name(name: Seq<u8>) -> bool {
    name == seq![0x50u8, 0x43, 0x4f, 0x42] || name == seq![0x50u8, 0x43, 0x4f, 0x32]
}

/// What tells one cue list from another: the name of its section and the kind of the list.
pub open spec fn cue_key(body: Seq<u8>, r: (int, int)) -> Option<(Seq<u8>, int)> {
    if r.1 - r.0 >= 16 && r.0 + 16 <= body.len() && is_cue_name(body.subrange(r.0, r.0 + 4)) {
        Some((body.subrange(r.0, r.0 + 4), be32_at(body, r.0 + 12)))
    } else {
        None
    }
}

pub fn cue_section_key(body: &[u8], range: &Range<usize>) -> (r: Option<([u8; 4], u32)>)
    ensures
        match r {
            Some(key) => cue_key(body@, (range.start as int, range.end as int)) == Some(
                (key.0@, key.1 as int),
            ),
            None => cue_key(body@, (range.start as int, range.end as int)) is None,
        },
{
    let start: usize = range.start;
    if range.end <= start || range.end - start < 16 {
        return None;
    }
    if body.len() < 16 || start > body.len() - 16 {
        return None;
    }
    let name: [u8; 4] = [body[start], body[start + 1], body[start + 2], body[start + 3]];
    let ghost seen = body@.subrange(start as int, start + 4);
    assert(name@ =~= seen);
    let cue: bool = name[0] == 0x50 && name[1] == 0x43 && name[2] == 0x4f && (name[3] == 0x42
        || name[3] == 0x32);
    proof {
        if cue {
            assert(seen =~= seq![0x50u8, 0x43, 0x4f, 0x42] || seen =~= seq![
                0x50u8,
                0x43,
                0x4f,
                0x32,
            ]);
        } else {
            assert(!is_cue_name(seen)) by {
                assert(seen[0] == name@[0] && seen[1] == name@[1] && seen[2] == name@[2] && seen[3]
                    == name@[3]);
            }
        }
    }
    if !cue {
        return None;
    }
    let kind: u32 = read_be32(body, start + 12);
    Some((name, kind))
}

/// The first section of `body` that holds the cue list `key`.
pub open spec fn first_with_key(
    body: Seq<u8>,
    ranges: Seq<(int, int)>,
    key: (Seq<u8>, int),
) -> Option<(int, int)>
    decreases ranges.len(),
{
    if ranges.len() == 0 {
        None
    } else if cue_key(body, ranges[0]) == Some(key) {
        Some(ranges[0])
    } else {
        first_with_key(body, ranges.drop_first(), key)
    }
}

/// What stands in the merged file for one generated section: the cue list that is already there
/// under the same key, and otherwise the generated section.
pub open spec fn kept_piece(
    generated: Seq<u8>,
    existing: Seq<u8>,
    existing_ranges: Seq<(int, int)>,
    r: (int, int),
) -> Seq<u8> {
    match cue_key(generated, r) {
        Some(key) => match first_with_key(existing, existing_ranges, key) {
            Some(e) => existing.subrange(e.0, e.1),
            None => generated.subrange(r.0, r.1),
        },
        None => generated.subrange(r.0, r.1),
    }
}

pub open spec fn kept_pieces(
    generated: Seq<u8>,
    existing: Seq<u8>,
    ranges: Seq<(int, int)>,
    existing_ranges: Seq<(int, int)>,
) -> Seq<Seq<u8>> {
    ranges.map_values(|r: (int, int)| kept_piece(generated, existing, existing_ranges, r))
}

/// A file whose length field says how long it is.
pub open spec fn with_length(body: Seq<u8>) -> Seq<u8> {
    body.take(8) + be32(body.len() as int) + body.skip(12)
}

/// The generated file with the cue lists of the existing one, where both files are well formed.
pub open spec fn preserved(generated: Seq<u8>, existing: Seq<u8>) -> Seq<u8> {
    match (layout(generated), layout(existing)) {
        (Some(g), Some(e)) => {
            let raw = generated.take(g.0) + joined(
                kept_pieces(generated, existing, g.1, e.1),
            );
            if raw.len() <= u32::MAX {
                with_length(raw)
            } else {
                generated
            }
        },
        _ => generated,
    }
}

fn find_key(
    body: &[u8],
    ranges: &Vec<Range<usize>>,
    name: [u8; 4],
    kind: u32,
) -> (r: Option<usize>)
    ensures
        match r {
            Some(i) => i < ranges.len() && first_with_key(
                body@,
                bounds(ranges@),
                (name@, kind as int),
            ) == Some(bounds(ranges@)[i as int]),
            None => first_with_key(body@, bounds(ranges@), (name@, kind as int)) is None,
        },
{
    let ghost all = bounds(ranges@);
    let ghost key = (name@, kind as int);
    let mut i: usize = 0;
    assert(all.skip(0) =~= all);
    while i < ranges.len()
        invariant
            i <= ranges.len(),
            all == bounds(ranges@),
            all.len() == ranges.len(),
            key == (name@, kind as int),
            first_with_key(body@, all, key) == first_with_key(body@, all.skip(i as int), key),
        decreases ranges.len() - i,
    {
        let found = cue_section_key(body, &ranges[i]);
        assert(all.skip(i as int)[0] == all[i as int]);
        assert(all.skip(i as int).drop_first() =~= all.skip(i + 1));
        if let Some((n, k)) = found {
            if n[0] == name[0] && n[1] == name[1] && n[2] == name[2] && n[3] == name[3] && k
                == kind {
                assert(n@ =~= name@);
                return Some(i);
            }
            assert((n@, k as int) != key) by {
                if n@ == name@ {
                    assert(n@[0] == name@[0] && n@[1] == name@[1] && n@[2] == name@[2] && n@[3]
                        == name@[3]);
                }
            }
        }
        i += 1;
    }
    None
}

pub proof fn lemma_sections_in_bounds(body: Seq<u8>, at: int)
    requires
        0 <= at <= body.len(),
        sections_from(body, at) is Some,
    ensures
        forall|i: int|
            #![trigger sections_from(body, at)->0[i]]
            0 <= i < sections_from(body, at)->0.len() ==> {
                let r = sections_from(body, at)->0[i];
                &&& at <= r.0
                &&& r.0 + 12 <= r.1 <= body.len()
                &&& be32_at(body, r.0 + 8) == r.1 - r.0
            },
    decreases body.len() - at,
{
    if at < body.len() {
        let total = be32_at(body, at + 8);
        lemma_sections_in_bounds(body, at + total);
        let rest = sections_from(body, at + total)->0;
        let all = sections_from(body, at)->0;
        assert(all == seq![(at, at + total)] + rest);
        assert forall|i: int|
            #![trigger all[i]]
            0 <= i < all.len() implies at <= all[i].0 && all[i].0 + 12 <= all[i].1 <= body.len()
            && be32_at(body, all[i].0 + 8) == all[i].1 - all[i].0 by {
            if i > 0 {
                assert(all[i] == rest[i - 1]);
            }
        }
    }
}

pub proof fn lemma_first_with_key(body: Seq<u8>, ranges: Seq<(int, int)>, key: (Seq<u8>, int))
    ensures
        first_with_key(body, ranges, key) matches Some(r) ==> ranges.contains(r) && cue_key(body, r)
            == Some(key),
    decreases ranges.len(),
{
    if ranges.len() > 0 && cue_key(body, ranges[0]) != Some(key) {
        lemma_first_with_key(body, ranges.drop_first(), key);
        if let Some(r) = first_with_key(body, ranges.drop_first(), key) {
            let i = choose|i: int| 0 <= i < ranges.drop_first().len() && ranges.drop_first()[i] == r;
            assert(ranges[i + 1] == r);
        }
    } else if ranges.len() > 0 {
        assert(ranges[0] == first_with_key(body, ranges, key)->0);
    }
}

/// Replaces the generated cue lists by the ones that `existing` already holds.
pub fn preserve_external_cue_sections(generated: &[u8], existing: &[u8]) -> (r: Vec<u8>)
    ensures
        r@ == preserved(generated@, existing@),
{
    let (generated_header_len, generated_ranges) = match anlz_section_ranges(generated) {
        Some(found) => found,
        None => return copy_bytes(generated),
    };
    let existing_ranges = match anlz_section_ranges(existing) {
        Some((_, found)) => found,
        None => return copy_bytes(generated),
    };
    let ghost granges = bounds(generated_ranges@);
    let ghost eranges = bounds(existing_ranges@);
    let ghost pieces = kept_pieces(generated@, existing@, granges, eranges);
    let ghost head = generated@.take(generated_header_len as int);
    proof {
        lemma_sections_in_bounds(generated@, generated_header_len as int);
        lemma_sections_in_bounds(existing@, be32_at(existing@, 4));
    }
    let mut merged: Vec<u8> = Vec::new();
    push_range(&mut merged, generated, 0, generated_header_len);
    assert(generated@.subrange(0, generated_header_len as int) =~= head);
    let mut i: usize = 0;
    assert(merged@ =~= head + joined(pieces.take(0)));
    while i < generated_ranges.len()
        invariant
            i <= generated_ranges.len(),
            granges == bounds(generated_ranges@),
            eranges == bounds(existing_ranges@),
            granges.len() == generated_ranges.len(),
            eranges.len() == existing_ranges.len(),
            pieces == kept_pieces(generated@, existing@, granges, eranges),
            pieces.len() == granges.len(),
            forall|j: int|
                #![trigger granges[j]]
                0 <= j < granges.len() ==> 0 <= granges[j].0 <= granges[j].1 <= generated@.len(),
            forall|j: int|
                #![trigger eranges[j]]
                0 <= j < eranges.len() ==> 0 <= eranges[j].0 <= eranges[j].1 <= existing@.len(),
            merged@ == head + joined(pieces.take(i as int)),
        decreases generated_ranges.len() - i,
    {
        let range: &Range<usize> = &generated_ranges[i];
        let replacement: Option<usize> = match cue_section_key(generated, range) {
            Some((name, kind)) => find_key(existing, &existing_ranges, name, kind),
            None => None,
        };
        assert(granges[i as int] == (range.start as int, range.end as int));
        assert(pieces.take(i + 1).drop_last() =~= pieces.take(i as int));
        assert(pieces.take(i + 1).last() == pieces[i as int]);
        match replacement {
            Some(k) => {
                assert(eranges[k as int] == (
                    existing_ranges@[k as int].start as int,
                    existing_ranges@[k as int].end as int,
                ));
                push_range(&mut merged, existing, existing_ranges[k].start, existing_ranges[k].end);
            },
            None => {
                push_range(&mut merged, generated, range.start, range.end);
            },
        }
        assert(merged@ =~= head + joined(pieces.take(i + 1)));
        i += 1;
    }
    assert(pieces.take(i as int) =~= pieces);
    if merged.len() as u64 > 0xffff_ffff {
        return copy_bytes(generated);
    }
    let n: u32 = merged.len() as u32;
    let ghost raw = merged@;
    merged.set(8, ((n / 16777216) % 256) as u8);
    merged.set(9, ((n / 65536) % 256) as u8);
    merged.set(10, ((n / 256) % 256) as u8);
    merged.set(11, (n % 256) as u8);
    assert(merged@ =~= with_length(raw));
    merged
}

fn push_range(v: &mut Vec<u8>, from: &[u8], start: usize, end: usize)
    requires
        start <= end <= from.len(),
    ensures
        final(v)@ == old(v)@ + from@.subrange(start as int, end as int),
{
    let mut i: usize = start;
    while i < end
        invariant
            start <= i <= end <= from.len(),
            v@ == old(v)@ + from@.subrange(start as int, i as int),
        decreases end - i,
    {
        v.push(from[i]);
        i += 1;
        assert(v@ =~= old(v)@ + from@.subrange(start as int, i as int));
    }
}

/// A row of bytes that is one section: its length field says how long it is.
pub open spec fn is_section(s: Seq<u8>) -> bool {
    s.len() >= 12 && be32_at(s, 8) == s.len()
}

/// The places of sections that stand one behind the other from `at` on.
pub open spec fn spans(at: int, sections: Seq<Seq<u8>>) -> Seq<(int, int)>
    decreases sections.len(),
{
    if sections.len() == 0 {
        Seq::empty()
    } else {
        seq![(at, at + sections[0].len())] + spans(at + sections[0].len(), sections.drop_first())
    }
}

proof fn lemma_joined_front(sections: Seq<Seq<u8>>)
    requires
        sections.len() > 0,
    ensures
        joined(sections) == sections[0] + joined(sections.drop_first()),
    decreases sections.len(),
{
    if sections.len() == 1 {
        assert(sections.drop_last() =~= Seq::<Seq<u8>>::empty());
        assert(sections.drop_first() =~= Seq::<Seq<u8>>::empty());
        assert(joined(sections) =~= sections[0] + joined(sections.drop_first()));
    } else {
        lemma_joined_front(sections.drop_last());
        assert(sections.drop_last().drop_first() =~= sections.drop_first().drop_last());
        assert(sections.drop_first().last() == sections.last());
        assert(joined(sections) =~= sections[0] + joined(sections.drop_first()));
    }
}

/// Sections that fill the rest of a file are found where they stand, byte for byte.
pub proof fn lemma_sections_found(body: Seq<u8>, at: int, sections: Seq<Seq<u8>>)
    requires
        0 <= at <= body.len(),
        body.skip(at) == joined(sections),
        forall|i: int| 0 <= i < sections.len() ==> is_section(#[trigger] sections[i]),
    ensures
        sections_from(body, at) == Some(spans(at, sections)),
        spans(at, sections).len() == sections.len(),
        forall|i: int|
            #![trigger spans(at, sections)[i]]
            0 <= i < sections.len() ==> body.subrange(
                spans(at, sections)[i].0,
                spans(at, sections)[i].1,
            ) == sections[i],
    decreases sections.len(),
{
    if sections.len() == 0 {
        assert(body.skip(at).len() == 0);
    } else {
        lemma_joined_front(sections);
        let first = sections[0];
        let rest = sections.drop_first();
        let next = at + first.len();
        assert(is_section(first));
        assert(body.skip(at).len() == body.len() - at);
        assert(body.skip(next) =~= joined(rest)) by {
            assert(body.skip(at).skip(first.len() as int) =~= joined(rest));
            assert(body.skip(at).skip(first.len() as int) =~= body.skip(next));
        }
        assert forall|i: int| 0 <= i < rest.len() implies is_section(#[trigger] rest[i]) by {
            assert(rest[i] == sections[i + 1]);
        }
        lemma_sections_found(body, next, rest);
        assert forall|k: int| 0 <= k < first.len() implies body[at + k] == first[k] by {
            assert(body.skip(at)[k] == body[at + k]);
        }
        assert(be32_at(body, at + 8) == be32_at(first, 8));
        let all = spans(at, sections);
        assert(all == seq![(at, next)] + spans(next, rest));
        assert forall|i: int| #![trigger all[i]] 0 <= i < sections.len() implies body.subrange(
            all[i].0,
            all[i].1,
        ) == sections[i] by {
            if i == 0 {
                assert(body.subrange(at, next) =~= first);
            } else {
                assert(all[i] == spans(next, rest)[i - 1]);
                assert(rest[i - 1] == sections[i]);
            }
        }
    }
}

/// Sections that were written into a file are read back from it, each one whole and in order.
pub proof fn written_sections_read_back(sections: Seq<Seq<u8>>)
    requires
        forall|i: int| 0 <= i < sections.len() ==> is_section(#[trigger] sections[i]),
        28 + joined(sections).len() <= u32::MAX,
    ensures
        layout(file(sections)) == Some((28int, spans(28, sections))),
        spans(28, sections).len() == sections.len(),
        forall|i: int|
            #![trigger spans(28, sections)[i]]
            0 <= i < sections.len() ==> file(sections).subrange(
                spans(28, sections)[i].0,
                spans(28, sections)[i].1,
            ) == sections[i],
{
    let body = file(sections);
    let total = body.len() as int;
    assert(body.skip(28) =~= joined(sections));
    assert(body.subrange(0, 4) =~= seq![0x50u8, 0x4d, 0x41, 0x49]);
    assert(be32_at(body, 4) == be32_at(be32(28), 0));
    assert(be32_at(body, 8) == be32_at(be32(total), 0));
    lemma_be32_reads_back(28);
    lemma_be32_reads_back(total);
    lemma_sections_found(body, 28, sections);
}

proof fn lemma_piece_is_section(body: Seq<u8>, r: (int, int))
    requires
        0 <= r.0,
        r.0 + 12 <= r.1 <= body.len(),
        be32_at(body, r.0 + 8) == r.1 - r.0,
    ensures
        is_section(body.subrange(r.0, r.1)),
{
    let s = body.subrange(r.0, r.1);
    assert(s[8] == body[r.0 + 8] && s[9] == body[r.0 + 9] && s[10] == body[r.0 + 10] && s[11]
        == body[r.0 + 11]);
}

/// The length of the header of a well-formed file.
pub open spec fn header_of(body: Seq<u8>) -> int {
    be32_at(body, 4)
}

/// The places of the sections of a well-formed file.
pub open spec fn ranges_of(body: Seq<u8>) -> Seq<(int, int)> {
    match layout(body) {
        Some(found) => found.1,
        None => Seq::empty(),
    }
}

pub open spec fn merged_pieces(generated: Seq<u8>, existing: Seq<u8>) -> Seq<Seq<u8>> {
    kept_pieces(generated, existing, ranges_of(generated), ranges_of(existing))
}

pub proof fn lemma_joined_holds(sections: Seq<Seq<u8>>, i: int)
    requires
        0 <= i < sections.len(),
    ensures
        joined(sections).len() >= sections[i].len(),
    decreases sections.len(),
{
    if i < sections.len() - 1 {
        lemma_joined_holds(sections.drop_last(), i);
    }
}

proof fn lemma_sections_tile(body: Seq<u8>, at: int)
    requires
        0 <= at <= body.len(),
        sections_from(body, at) is Some,
    ensures
        joined(sections_from(body, at)->0.map_values(|r: (int, int)| body.subrange(r.0, r.1)))
            == body.skip(at),
    decreases body.len() - at,
{
    let cut = |r: (int, int)| body.subrange(r.0, r.1);
    let all = sections_from(body, at)->0;
    if at < body.len() {
        let next = at + be32_at(body, at + 8);
        lemma_sections_tile(body, next);
        let rest = sections_from(body, next)->0;
        assert(all == seq![(at, next)] + rest);
        let pieces = all.map_values(cut);
        assert(pieces[0] == body.subrange(at, next));
        assert(pieces.drop_first() =~= rest.map_values(cut));
        lemma_joined_front(pieces);
        assert(body.subrange(at, next) + body.skip(next) =~= body.skip(at));
    } else {
        assert(all.map_values(cut) =~= Seq::<Seq<u8>>::empty());
        assert(body.skip(at) =~= Seq::<u8>::empty());
    }
}

proof fn lemma_merged_is_long_enough(generated: Seq<u8>, existing: Seq<u8>)
    requires
        layout(generated) is Some,
        layout(existing) is Some,
    ensures
        header_of(generated) + joined(merged_pieces(generated, existing)).len() >= 28,
{
    let granges = ranges_of(generated);
    let eranges = ranges_of(existing);
    let pieces = merged_pieces(generated, existing);
    lemma_sections_in_bounds(existing, header_of(existing));
    let plain = granges.map_values(|r: (int, int)| generated.subrange(r.0, r.1));
    if exists|i: int| 0 <= i < pieces.len() && #[trigger] pieces[i] != plain[i] {
        let i = choose|i: int| 0 <= i < pieces.len() && #[trigger] pieces[i] != plain[i];
        let key = cue_key(generated, granges[i])->0;
        lemma_first_with_key(existing, eranges, key);
        let e = first_with_key(existing, eranges, key)->0;
        let k = choose|k: int| 0 <= k < eranges.len() && eranges[k] == e;
        assert(eranges[k] == e);
        assert(pieces[i] == existing.subrange(e.0, e.1));
        assert(pieces[i].len() >= 16);
        lemma_joined_holds(pieces, i);
    } else {
        assert(pieces =~= plain);
        lemma_sections_tile(generated, header_of(generated));
    }
}

/// Merging keeps the file well formed and keeps its sections in order: a section under whose cue
/// key the existing file holds a list is that list byte for byte, every other section is the
/// generated one.
pub proof fn existing_cues_are_preserved(generated: Seq<u8>, existing: Seq<u8>)
    requires
        layout(generated) is Some,
        layout(existing) is Some,
        header_of(generated) + joined(merged_pieces(generated, existing)).len() <= u32::MAX,
    ensures
        layout(preserved(generated, existing)) is Some,
        ranges_of(preserved(generated, existing)).len() == ranges_of(generated).len(),
        forall|i: int|
            #![trigger ranges_of(preserved(generated, existing))[i]]
            0 <= i < ranges_of(generated).len() ==> {
                let merged = preserved(generated, existing);
                let at = ranges_of(merged)[i];
                merged.subrange(at.0, at.1) == kept_piece(
                    generated,
                    existing,
                    ranges_of(existing),
                    ranges_of(generated)[i],
                )
            },
{
    let h = header_of(generated);
    let granges = ranges_of(generated);
    let eranges = ranges_of(existing);
    let pieces = merged_pieces(generated, existing);
    let raw = generated.take(h) + joined(pieces);
    let merged = preserved(generated, existing);
    lemma_merged_is_long_enough(generated, existing);
    lemma_sections_in_bounds(generated, h);
    lemma_sections_in_bounds(existing, header_of(existing));
    assert forall|i: int| 0 <= i < pieces.len() implies is_section(#[trigger] pieces[i]) by {
        let r = granges[i];
        lemma_piece_is_section(generated, r);
        if let Some(key) = cue_key(generated, r) {
            lemma_first_with_key(existing, eranges, key);
            if let Some(e) = first_with_key(existing, eranges, key) {
                let k = choose|k: int| 0 <= k < eranges.len() && eranges[k] == e;
                assert(eranges[k] == e);
                lemma_piece_is_section(existing, e);
            }
        }
    }
    assert(merged == with_length(raw));
    assert(merged.len() == raw.len());
    lemma_be32_reads_back(raw.len() as int);
    assert(be32_at(merged, 8) == be32_at(be32(raw.len() as int), 0));
    assert(forall|k: int| 0 <= k < 8 ==> merged[k] == generated[k]);
    assert(merged.subrange(0, 4) =~= generated.subrange(0, 4));
    assert(be32_at(merged, 4) == h);
    assert(merged.skip(h) =~= joined(pieces));
    lemma_sections_found(merged, h, pieces);
}

proof fn lemma_key_is_local(a: Seq<u8>, r: (int, int), b: Seq<u8>, t: (int, int))
    requires
        0 <= r.0 <= r.1 <= a.len(),
        0 <= t.0 <= t.1 <= b.len(),
        a.subrange(r.0, r.1) == b.subrange(t.0, t.1),
    ensures
        cue_key(a, r) == cue_key(b, t),
{
    let s = a.subrange(r.0, r.1);
    assert(s.len() == r.1 - r.0);
    assert(b.subrange(t.0, t.1).len() == t.1 - t.0);
    if s.len() >= 16 {
        assert(a.subrange(r.0, r.0 + 4) =~= s.subrange(0, 4));
        assert(b.subrange(t.0, t.0 + 4) =~= s.subrange(0, 4));
        let c = b.subrange(t.0, t.1);
        assert(a[r.0 + 12] == s[12] && a[r.0 + 13] == s[13] && a[r.0 + 14] == s[14] && a[r.0 + 15]
            == s[15]);
        assert(b[t.0 + 12] == c[12] && b[t.0 + 13] == c[13] && b[t.0 + 14] == c[14] && b[t.0 + 15]
            == c[15]);
    }
}

proof fn lemma_merging_again_keeps_the_pieces(generated: Seq<u8>, existing: Seq<u8>)
    requires
        layout(generated) is Some,
        layout(existing) is Some,
        header_of(generated) + joined(merged_pieces(generated, existing)).len() <= u32::MAX,
    ensures
        merged_pieces(preserved(generated, existing), existing) == merged_pieces(
            generated,
            existing,
        ),
{
    let merged = preserved(generated, existing);
    let granges = ranges_of(generated);
    let eranges = ranges_of(existing);
    let pieces = merged_pieces(generated, existing);
    let again = merged_pieces(merged, existing);
    existing_cues_are_preserved(generated, existing);
    lemma_sections_in_bounds(generated, header_of(generated));
    lemma_sections_in_bounds(existing, header_of(existing));
    lemma_sections_in_bounds(merged, header_of(merged));
    assert forall|i: int| 0 <= i < pieces.len() implies #[trigger] again[i] == pieces[i] by {
        let at = ranges_of(merged)[i];
        let r = granges[i];
        assert(merged.subrange(at.0, at.1) == pieces[i]);
        if let Some(key) = cue_key(generated, r) {
            lemma_first_with_key(existing, eranges, key);
            if let Some(e) = first_with_key(existing, eranges, key) {
                let k = choose|k: int| 0 <= k < eranges.len() && eranges[k] == e;
                assert(eranges[k] == e);
                lemma_key_is_local(merged, at, existing, e);
            } else {
                lemma_key_is_local(merged, at, generated, r);
            }
        } else {
            lemma_key_is_local(merged, at, generated, r);
        }
    }
    assert(again =~= pieces);
}

proof fn lemma_length_is_written_once(head: Seq<u8>, rest: Seq<u8>)
    requires
        head.len() >= 12,
    ensures
        ({
            let merged = with_length(head + rest);
            with_length(merged.take(head.len() as int) + rest) == merged
        }),
{
    let raw = head + rest;
    let merged = with_length(raw);
    let h = head.len() as int;
    assert(merged.len() == raw.len());
    assert(merged.skip(h) =~= rest);
    assert(merged.take(h) + rest =~= merged);
    assert(merged.take(8) =~= raw.take(8));
    assert(merged.skip(12) =~= raw.skip(12));
}

/// What a merge gives, over the pieces that it keeps.
proof fn lemma_preserved_of_pieces(generated: Seq<u8>, existing: Seq<u8>)
    requires
        layout(generated) is Some,
        layout(existing) is Some,
    ensures
        ({
            let raw = generated.take(header_of(generated)) + joined(
                merged_pieces(generated, existing),
            );
            preserved(generated, existing) == if raw.len() <= u32::MAX {
                with_length(raw)
            } else {
                generated
            }
        }),
{
}

proof fn lemma_header_is_kept(generated: Seq<u8>, rest: Seq<u8>)
    requires
        header_is_sound(generated),
    ensures
        ({
            let head = generated.take(header_of(generated));
            let merged = with_length(head + rest);
            &&& header_of(merged) == header_of(generated)
            &&& merged.len() == head.len() + rest.len()
        }),
{
    let head = generated.take(header_of(generated));
    let merged = with_length(head + rest);
    assert(merged[4] == generated[4] && merged[5] == generated[5] && merged[6] == generated[6]
        && merged[7] == generated[7]);
}

#[verifier::spinoff_prover]
proof fn lemma_merging_again(generated: Seq<u8>, existing: Seq<u8>)
    requires
        layout(generated) is Some,
        layout(existing) is Some,
        header_of(generated) + joined(merged_pieces(generated, existing)).len() <= u32::MAX,
    ensures
        layout(preserved(generated, existing)) is Some,
        preserved(preserved(generated, existing), existing) == preserved(generated, existing),
{
    let merged = preserved(generated, existing);
    let h = header_of(generated);
    let rest = joined(merged_pieces(generated, existing));
    let head = generated.take(h);
    existing_cues_are_preserved(generated, existing);
    lemma_merging_again_keeps_the_pieces(generated, existing);
    lemma_preserved_of_pieces(generated, existing);
    lemma_preserved_of_pieces(merged, existing);
    lemma_header_is_kept(generated, rest);
    lemma_length_is_written_once(head, rest);
}

/// What is merged with a well-formed file is well formed, and merging the same existing file a
/// second time changes nothing.
pub proof fn merging_twice_is_merging_once(generated: Seq<u8>, existing: Seq<u8>)
    ensures
        layout(generated) is Some ==> layout(preserved(generated, existing)) is Some,
        preserved(preserved(generated, existing), existing) == preserved(generated, existing),
{
    if layout(generated) is Some && layout(existing) is Some {
        lemma_preserved_of_pieces(generated, existing);
        if header_of(generated) + joined(merged_pieces(generated, existing)).len() <= u32::MAX {
            lemma_merging_again(generated, existing);
        }
    }
}

} // verus!
