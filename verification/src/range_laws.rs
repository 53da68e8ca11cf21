//! What a range asks for, what a reply says it holds, and what the two say of each other.

use vstd::prelude::*;

use crate::protected_media::declared_type;
use crate::ranges::{
    audio_mime, bounded, is_text_payload, needs_refresh, passed_mime, payload_head, range_of,
    reply_of, segment_of, span_text, stated_number, stated_span, usable, video_mime, without_blanks,
    PreviewCacheSegment,
};
use crate::text::{
    all_space, before_char, decimal, decimal_reads_back, extension_of, is_digit, is_space,
    lemma_decimal_digits, lemma_position_is, lower, lower_char, parsed_u64, split_at_char, trimmed,
};
use crate::text_laws::trimming_takes_the_white_space_around;

verus! {

proof fn lemma_trim_same(s: Seq<char>)
    requires
        s.len() > 0 ==> !is_space(s[0]) && !is_space(s.last()),
    ensures
        trimmed(s) == s,
{
}

proof fn lemma_lower_same(s: Seq<char>)
    requires
        forall|i: int| 0 <= i < s.len() ==> !('A' <= #[trigger] s[i] && s[i] <= 'Z'),
    ensures
        lower(s) == s,
{
    assert(lower(s) =~= s);
}

proof fn lemma_digits_plain(n: nat)
    ensures
        decimal(n).len() > 0,
        trimmed(decimal(n)) == decimal(n),
        forall|i: int|
            0 <= i < decimal(n).len() ==> '0' <= #[trigger] decimal(n)[i] && decimal(n)[i] <= '9',
{
    lemma_decimal_digits(n);
    let d = decimal(n);
    assert(is_digit(d[0]) && is_digit(d.last()));
    assert forall|i: int| 0 <= i < d.len() implies '0' <= #[trigger] d[i] && d[i] <= '9' by {
        assert(is_digit(d[i]));
    }
    lemma_trim_same(d);
}

/// The text of a range: the unit, and what stands before and behind the hyphen.
pub open spec fn range_text(first: Seq<char>, last: Seq<char>) -> Seq<char> {
    "bytes="@ + first + "-"@ + last
}

proof fn lemma_range_text(first: Seq<char>, last: Seq<char>, total: u64)
    requires
        total > 0,
        forall|i: int| 0 <= i < first.len() ==> '0' <= #[trigger] first[i] && first[i] <= '9',
        forall|i: int| 0 <= i < last.len() ==> '0' <= #[trigger] last[i] && last[i] <= '9',
    ensures
        range_of(range_text(first, last), total) == (match crate::ranges::span_of(
            first,
            last,
            total,
        ) {
            Some(found) => if found.0 <= found.1 && found.0 < total {
                Some((found.0 as u64, found.1 as u64))
            } else {
                None
            },
            None => None,
        }),
{
    reveal_strlit("bytes=");
    reveal_strlit("-");
    let text = range_text(first, last);
    let span = first + "-"@ + last;
    assert(text =~= "bytes="@ + span);
    assert(text.len() == 7 + first.len() + last.len());
    assert(text[0] == 'b');
    assert forall|i: int| 0 <= i < span.len() implies (span[i] == '-' || ('0' <= #[trigger] span[i]
        && span[i] <= '9')) by {
        if i < first.len() {
            assert(span[i] == first[i]);
        } else if i > first.len() {
            assert(span[i] == last[i - first.len() - 1]);
        }
    }
    assert forall|i: int| 0 <= i < text.len() implies !('A' <= #[trigger] text[i] && text[i] <= 'Z')
        && !is_space(text[i]) by {
        if i >= 6 {
            assert(text[i] == span[i - 6]);
        }
    }
    lemma_trim_same(text);
    lemma_lower_same(text);
    assert("bytes="@ =~= text.take(6));
    assert(text.skip(6) =~= span);
    lemma_position_is(span, ',', span.len() as int);
    assert(before_char(span, ',') =~= span);
    lemma_trim_same(span);
    assert(span[first.len() as int] == '-');
    assert forall|j: int| 0 <= j < first.len() implies span[j] != '-' by {
        assert(span[j] == first[j]);
    }
    lemma_position_is(span, '-', first.len() as int);
    assert(span.take(first.len() as int) =~= first);
    assert(span.skip(first.len() as int + 1) =~= last);
    if first.len() > 0 {
        assert(!is_space(first[0]) && !is_space(first.last()));
    }
    if last.len() > 0 {
        assert(!is_space(last[0]) && !is_space(last.last()));
    }
    lemma_trim_same(first);
    lemma_trim_same(last);
}

/// A range from one byte to another is that part of the media, up to its end; one that begins
/// behind the end, or ends before it begins, cannot be satisfied.
pub proof fn a_range_is_from_byte_to_byte(first: u64, last: u64, total: u64)
    requires
        total > 0,
    ensures
        ({
            let found = range_of(range_text(decimal(first as nat), decimal(last as nat)), total);
            &&& first <= last < total ==> found == Some((first, last))
            &&& first < total <= last ==> found == Some((first, (total - 1) as u64))
            &&& first >= total || last < first ==> found is None
        }),
{
    lemma_digits_plain(first as nat);
    lemma_digits_plain(last as nat);
    lemma_range_text(decimal(first as nat), decimal(last as nat), total);
    decimal_reads_back(first);
    decimal_reads_back(last);
}

/// A range from one byte on goes to the end of the media.
pub proof fn an_open_range_goes_to_the_end(first: u64, total: u64)
    requires
        total > 0,
    ensures
        first < total ==> range_of(range_text(decimal(first as nat), Seq::empty()), total) == Some(
            (first, (total - 1) as u64),
        ),
        first >= total ==> range_of(range_text(decimal(first as nat), Seq::empty()), total) is None,
{
    lemma_digits_plain(first as nat);
    lemma_range_text(decimal(first as nat), Seq::empty(), total);
    decimal_reads_back(first);
}

/// A range without a first byte counts from the end.
pub proof fn a_range_counts_from_the_end(count: u64, total: u64)
    requires
        total > 0,
    ensures
        ({
            let found = range_of(range_text(Seq::empty(), decimal(count as nat)), total);
            &&& 0 < count <= total ==> found == Some(((total - count) as u64, (total - 1) as u64))
            &&& count > total ==> found == Some((0u64, (total - 1) as u64))
            &&& count == 0 ==> found is None
        }),
{
    lemma_digits_plain(count as nat);
    lemma_range_text(Seq::empty(), decimal(count as nat), total);
    decimal_reads_back(count);
}

/// Media without a byte has no part.
pub proof fn empty_media_has_no_part(value: Seq<char>)
    ensures
        range_of(value, 0) is None,
{
}

/// A stated span reads back: the two ends and the total stand where they are looked for.
pub proof fn lemma_span_parts(first: u64, last: u64, total: u64)
    ensures
        ({
            let a = decimal(first as nat);
            let b = decimal(last as nat);
            let c = decimal(total as nat);
            let text = span_text(first, last, total);
            &&& trimmed(text) == text
            &&& "bytes "@.is_prefix_of(text) && "bytes "@.len() == 6
            &&& split_at_char(text, ' ') == Some(("bytes"@, text.skip(6)))
            &&& lower("bytes"@) == "bytes"@
            &&& split_at_char(text.skip(6), '/') == Some((a + "-"@ + b, c))
            &&& split_at_char(a + "-"@ + b, '-') == Some((a, b))
            &&& parsed_u64(a) == Some(first) && parsed_u64(b) == Some(last) && parsed_u64(c) == Some(
                total,
            )
        }),
{
    reveal_strlit("bytes ");
    reveal_strlit("bytes");
    reveal_strlit("-");
    reveal_strlit("/");
    let a = decimal(first as nat);
    let b = decimal(last as nat);
    let c = decimal(total as nat);
    lemma_digits_plain(first as nat);
    lemma_digits_plain(last as nat);
    lemma_digits_plain(total as nat);
    let text = span_text(first, last, total);
    assert(text =~= "bytes "@ + a + "-"@ + b + "/"@ + c);
    let value = a + "-"@ + b + "/"@ + c;
    assert(text[0] == 'b');
    assert(text.last() == c.last());
    assert('0' <= c[c.len() - 1] && c[c.len() - 1] <= '9');
    lemma_trim_same(text);
    assert(text[5] == ' ');
    assert forall|j: int| 0 <= j < 5 implies text[j] != ' ' by {}
    lemma_position_is(text, ' ', 5);
    assert(text.take(5) =~= "bytes"@);
    assert(text.take(6) =~= "bytes "@);
    assert(text.skip(6) =~= value);
    lemma_lower_same("bytes"@);
    let n = (a.len() + 1 + b.len()) as int;
    assert(value[n] == '/');
    assert forall|j: int| 0 <= j < n implies value[j] != '/' by {
        if j < a.len() {
            assert(value[j] == a[j]);
        } else if j > a.len() {
            assert(value[j] == b[j - a.len() - 1]);
        }
    }
    lemma_position_is(value, '/', n);
    let span = a + "-"@ + b;
    assert(value.take(n) =~= span);
    assert(value.skip(n + 1) =~= c);
    assert(span[a.len() as int] == '-');
    assert forall|j: int| 0 <= j < a.len() implies span[j] != '-' by {
        assert(span[j] == a[j]);
    }
    lemma_position_is(span, '-', a.len() as int);
    assert(span.take(a.len() as int) =~= a);
    assert(span.skip(a.len() as int + 1) =~= b);
    decimal_reads_back(first);
    decimal_reads_back(last);
    decimal_reads_back(total);
}

proof fn lemma_stated(first: u64, last: u64, total: u64)
    ensures
        stated_span(span_text(first, last, total)) == (if first <= last && last < total {
            Some(PreviewCacheSegment { start: first, end: last, total })
        } else {
            None::<PreviewCacheSegment>
        }),
{
    lemma_span_parts(first, last, total);
}

/// What a reply to a range says of its part reads back as that part; the client that asked for a
/// range of the media gets exactly these bytes.
pub proof fn a_partial_reply_says_its_part(total: u64, range: Seq<char>)
    ensures
        match range_of(range, total) {
            Some(found) => {
                let reply = reply_of(total, Some(range));
                &&& reply.status == 206 && reply.start == found.0
                &&& reply.length == found.1 - found.0 + 1
                &&& stated_number(reply.content_length) == Some(reply.length)
                &&& reply.content_range is Some && stated_span(reply.content_range->0) == Some(
                    PreviewCacheSegment { start: found.0, end: found.1, total },
                )
                &&& segment_of(206, reply.content_length, reply.content_range) == Some(
                    PreviewCacheSegment { start: found.0, end: found.1, total },
                )
            },
            None => {
                let reply = reply_of(total, Some(range));
                reply.status == 416 && reply.length == 0
            },
        },
        reply_of(total, None).status == 200 && reply_of(total, None).start == 0 && reply_of(
            total,
            None,
        ).length == total && stated_number(reply_of(total, None).content_length) == Some(total),
{
    if let Some(found) = range_of(range, total) {
        lemma_stated(found.0, found.1, total);
        decimal_reads_back((found.1 - found.0 + 1) as u64);
    }
    decimal_reads_back(total);
}

/// A part is taken for one only where the reply is a success, and its own length does not refute
/// it; the whole of the media is a part too.
pub proof fn a_part_is_what_the_reply_states(
    status: u16,
    length: Option<Seq<char>>,
    range: Option<Seq<char>>,
)
    ensures
        segment_of(status, length, range) matches Some(s) ==> {
            &&& s.start <= s.end < s.total
            &&& status == 200 || status == 206
            &&& status == 200 ==> s.start == 0 && s.end == s.total - 1 && stated_number(length)
                == Some(s.total)
            &&& status == 206 ==> range is Some && (stated_number(length) is None || stated_number(
                length,
            )->0 == s.end - s.start + 1)
        },
        status == 200 && stated_number(length) is Some && stated_number(length)->0 > 0
            ==> segment_of(status, length, range) is Some,
{
}

/// A header of white space counts as none; any other is used as it is.
pub proof fn a_blank_header_is_none(header: Option<Seq<char>>)
    ensures
        header is None || all_space(header->0) ==> usable(header) is None,
        header is Some && !all_space(header->0) ==> usable(header) == header,
{
    if header is Some {
        trimming_takes_the_white_space_around(header->0);
    }
}

/// An open range is bounded to one mebibyte from its first byte on; every other one stays.
pub proof fn an_open_range_is_bounded(first: u64)
    requires
        first <= u64::MAX - 1_048_575,
    ensures
        bounded(range_text(decimal(first as nat), Seq::empty())) == range_text(
            decimal(first as nat),
            decimal((first + 1_048_575) as nat),
        ),
{
    reveal_strlit("bytes=");
    reveal_strlit("-");
    let d = decimal(first as nat);
    lemma_digits_plain(first as nat);
    decimal_reads_back(first);
    let text = range_text(d, Seq::empty());
    assert(text =~= "bytes="@ + d + "-"@);
    assert(text[0] == 'b' && text.last() == '-');
    lemma_trim_same(text);
    assert("bytes="@ =~= text.take(6));
    let rest = text.skip(6);
    assert(rest =~= d + "-"@);
    assert(rest.drop_last() =~= d);
    assert(bounded(text) =~= range_text(d, decimal((first + 1_048_575) as nat)));
}

/// A range that has a last byte is not bounded further.
pub proof fn a_closed_range_stays(range: Seq<char>)
    requires
        trimmed(range).len() > 0,
        trimmed(range).last() != '-',
    ensures
        bounded(range) == range,
{
    reveal_strlit("bytes=");
    let text = trimmed(range);
    let rest = text.skip(6);
    if "bytes="@.is_prefix_of(text) && rest.len() > 0 {
        assert(rest.last() == text.last());
    }
}

/// The media type of a sound file follows its extension, in whatever case; any other file is mere
/// bytes.
pub proof fn a_type_follows_the_extension(path: Seq<char>)
    ensures
        ({
            let ext = lower(extension_of(path));
            let mime = audio_mime(path);
            &&& ext == seq!['m', 'p', '3'] ==> mime == "audio/mpeg"@
            &&& ext == seq!['f', 'l', 'a', 'c'] ==> mime == "audio/flac"@
            &&& ext == seq!['o', 'g', 'g'] ==> mime == "audio/ogg"@
            &&& ext == seq!['o', 'p', 'u', 's'] ==> mime == "audio/opus"@
            &&& ext == seq!['w', 'a', 'v'] ==> mime == "audio/wav"@
            &&& ext == seq!['m', '4', 'a'] || ext == seq!['m', 'p', '4'] || ext == seq![
                'a',
                'a',
                'c',
            ] ==> mime == "audio/mp4"@
            &&& ext.len() < 3 || ext.len() > 4 ==> mime == "application/octet-stream"@
        }),
{
    reveal_strlit("mp3");
    reveal_strlit("flac");
    reveal_strlit("ogg");
    reveal_strlit("opus");
    reveal_strlit("wav");
    reveal_strlit("m4a");
    reveal_strlit("mp4");
    reveal_strlit("aac");
    assert("mp3"@ =~= seq!['m', 'p', '3']);
    assert("flac"@ =~= seq!['f', 'l', 'a', 'c']);
    assert("ogg"@ =~= seq!['o', 'g', 'g']);
    assert("opus"@ =~= seq!['o', 'p', 'u', 's']);
    assert("wav"@ =~= seq!['w', 'a', 'v']);
    assert("m4a"@ =~= seq!['m', '4', 'a']);
    assert("mp4"@ =~= seq!['m', 'p', '4']);
    assert("aac"@ =~= seq!['a', 'a', 'c']);
    let ext = lower(extension_of(path));
    assert(ext == "mp3"@ ==> ext[0] == 'm' && ext[1] == 'p' && ext[2] == '3');
    assert(ext == "m4a"@ ==> ext[0] == 'm' && ext[1] == '4');
    assert(ext == "mp4"@ ==> ext[0] == 'm' && ext[2] == '4');
    assert(ext == "ogg"@ ==> ext[0] == 'o' && ext[1] == 'g');
    assert(ext == "opus"@ ==> ext[0] == 'o' && ext[1] == 'p');
    assert(ext == "flac"@ ==> ext[0] == 'f');
    assert(ext == "wav"@ ==> ext[0] == 'w');
    assert(ext == "aac"@ ==> ext[0] == 'a');
}

/// What a reply says of its type decides: sound is passed on as it is, mere bytes under the
/// fallback, and anything else not at all.
pub proof fn only_sound_has_a_type(header: Option<Seq<char>>, fallback: Seq<char>)
    ensures
        header is None ==> passed_mime(header, fallback) == Some(fallback),
        header is Some && "audio/"@.is_prefix_of(declared_type(header)) ==> passed_mime(
            header,
            fallback,
        ) == header,
        header is Some && (declared_type(header) == "text/html"@ || declared_type(header)
            == "application/json"@ || declared_type(header) == "video/mp4"@) ==> passed_mime(
            header,
            fallback,
        ) is None,
        header is Some && declared_type(header) == "application/octet-stream"@ ==> passed_mime(
            header,
            fallback,
        ) == Some(fallback),
{
    reveal_strlit("audio/");
    reveal_strlit("text/html");
    reveal_strlit("application/json");
    reveal_strlit("video/mp4");
    reveal_strlit("application/octet-stream");
    reveal_strlit("binary/octet-stream");
    assert("audio/"@[0] == 'a' && "audio/"@[1] == 'u');
    assert("text/html"@[0] == 't');
    assert("application/json"@[0] == 'a' && "application/json"@[1] == 'p' && "application/json"@[12]
        == 'j');
    assert("video/mp4"@[0] == 'v');
    assert("application/octet-stream"@[1] == 'p' && "application/octet-stream"@[12] == 'o');
    assert("binary/octet-stream"@[0] == 'b');
}

/// A refusal that a new address may cure is one of access or of absence; no success is one.
pub proof fn a_new_address_may_cure_a_refusal(status: u16)
    ensures
        needs_refresh(status) ==> 400 <= status < 500,
        needs_refresh(401) && needs_refresh(403) && needs_refresh(404) && needs_refresh(410),
        status < 400 || status >= 500 || status == 416 || status == 429 ==> !needs_refresh(status),
{
}

proof fn lemma_without_blanks(bytes: Seq<u8>) -> (n: int)
    ensures
        0 <= n <= bytes.len(),
        without_blanks(bytes) == bytes.skip(n),
        forall|i: int|
            0 <= i < n ==> (#[trigger] bytes[i] == 32 || 9 <= bytes[i] && bytes[i] <= 10 || 12
                <= bytes[i] && bytes[i] <= 13),
        n < bytes.len() ==> bytes[n] != 32 && bytes[n] != 9 && bytes[n] != 10 && bytes[n] != 12
            && bytes[n] != 13,
    decreases bytes.len(),
{
    if bytes.len() > 0 && crate::ranges::is_ascii_blank(bytes[0]) {
        let rest = bytes.drop_first();
        let m = lemma_without_blanks(rest);
        assert(rest.skip(m) =~= bytes.skip(m + 1));
        assert forall|i: int| 0 <= i < m + 1 implies (#[trigger] bytes[i] == 32 || 9 <= bytes[i]
            && bytes[i] <= 10 || 12 <= bytes[i] && bytes[i] <= 13) by {
            if i > 0 {
                assert(rest[i - 1] == bytes[i]);
            }
        }
        m + 1
    } else {
        assert(bytes.skip(0) =~= bytes);
        0
    }
}

/// A first piece is judged by its first ninety-six bytes, without the blanks before the text.
pub proof fn a_piece_is_judged_by_its_beginning(bytes: Seq<u8>)
    ensures
        exists|n: int, end: int|
            #![trigger bytes.subrange(n, end)]
            {
                &&& end == (if bytes.len() > 96 {
                    96
                } else {
                    bytes.len() as int
                })
                &&& 0 <= n <= end
                &&& payload_head(bytes) == bytes.subrange(n, end)
                &&& forall|i: int|
                    0 <= i < n ==> (#[trigger] bytes[i] == 32 || 9 <= bytes[i] && bytes[i] <= 10
                        || 12 <= bytes[i] && bytes[i] <= 13)
                &&& n < end ==> bytes[n] != 32 && bytes[n] != 9 && bytes[n] != 10 && bytes[n] != 12
                    && bytes[n] != 13
            },
{
    let end = if bytes.len() > 96 {
        96
    } else {
        bytes.len() as int
    };
    let head = if bytes.len() > 96 {
        bytes.take(96)
    } else {
        bytes
    };
    let n = lemma_without_blanks(head);
    assert(head.skip(n) =~= bytes.subrange(n, end));
    assert forall|i: int| 0 <= i < n implies (#[trigger] bytes[i] == 32 || 9 <= bytes[i] && bytes[i]
        <= 10 || 12 <= bytes[i] && bytes[i] <= 13) by {
        assert(head[i] == bytes[i]);
    }
}

/// The media type of a video file follows its extension, in whatever case.
pub proof fn a_video_type_follows_the_extension(path: Seq<char>)
    ensures
        ({
            let ext = lower(extension_of(path));
            let mime = video_mime(path);
            &&& ext == seq!['m', 'p', '4'] || ext == seq!['m', '4', 'v'] ==> mime == "video/mp4"@
            &&& ext == seq!['m', 'o', 'v'] ==> mime == "video/quicktime"@
            &&& ext == seq!['w', 'e', 'b', 'm'] ==> mime == "video/webm"@
            &&& ext == seq!['m', 'k', 'v'] ==> mime == "video/x-matroska"@
            &&& ext.len() < 3 || ext.len() > 4 ==> mime == "application/octet-stream"@
        }),
{
    reveal_strlit("mp4");
    reveal_strlit("m4v");
    reveal_strlit("mov");
    reveal_strlit("webm");
    reveal_strlit("mkv");
    assert("mp4"@ =~= seq!['m', 'p', '4']);
    assert("m4v"@ =~= seq!['m', '4', 'v']);
    assert("mov"@ =~= seq!['m', 'o', 'v']);
    assert("webm"@ =~= seq!['w', 'e', 'b', 'm']);
    assert("mkv"@ =~= seq!['m', 'k', 'v']);
    let ext = lower(extension_of(path));
    assert(ext == "mp4"@ ==> ext[1] == 'p');
    assert(ext == "m4v"@ ==> ext[1] == '4');
    assert(ext == "mov"@ ==> ext[1] == 'o');
    assert(ext == "mkv"@ ==> ext[1] == 'k');
    assert(ext == "webm"@ ==> ext.len() == 4);
}

/// The type that a reply states is what stands before its first parameter, without white space and
/// in lower case.
pub proof fn a_type_stands_before_its_parameters(kind: Seq<char>, parameters: Seq<char>)
    requires
        !kind.contains(';'),
    ensures
        declared_type(Some(kind + seq![';'] + parameters)) == lower(trimmed(kind)),
        declared_type(Some(kind)) == lower(trimmed(kind)),
        declared_type(None).len() == 0,
{
    crate::text_laws::a_text_splits_at_the_first_separator(kind, parameters, ';');
}

/// A text that begins like a page, a list or a structured message is no sound, in whatever case.
pub proof fn a_page_is_no_sound(rest: Seq<char>)
    ensures
        is_text_payload("{"@ + rest),
        is_text_payload("<html"@ + rest),
        is_text_payload("<HTML"@ + rest),
        is_text_payload("#EXTM3U"@ + rest),
        rest.len() > 0 && rest[0] != '<' && rest[0] != '#' && rest[0] != '{' && rest[0] != '['
            ==> !is_text_payload(rest),
        !is_text_payload(Seq::empty()),
{
    reveal_strlit("{");
    reveal_strlit("[{");
    reveal_strlit("<html");
    reveal_strlit("<HTML");
    reveal_strlit("#EXTM3U");
    reveal_strlit("#extm3u");
    reveal_strlit("<!doctype html");
    reveal_strlit("<?xml");
    assert(lower("{"@ + rest).take(1) =~= "{"@);
    assert(lower("<html"@ + rest).take(5) =~= "<html"@);
    assert(lower("<HTML"@ + rest).take(5) =~= "<html"@);
    assert(lower("#EXTM3U"@ + rest).take(7) =~= "#extm3u"@);
    if rest.len() > 0 {
        let low = lower(rest);
        assert(low[0] == lower_char(rest[0]));
        assert("{"@[0] == '{' && "[{"@[0] == '[' && "<html"@[0] == '<' && "#extm3u"@[0] == '#');
        assert("<!doctype html"@[0] == '<' && "<?xml"@[0] == '<');
    }
    assert(lower(Seq::<char>::empty()).len() == 0);
    assert("{"@.len() == 1 && "[{"@.len() == 2 && "<html"@.len() == 5 && "#extm3u"@.len() == 7);
    assert("<!doctype html"@.len() == 14 && "<?xml"@.len() == 5);
}

} // verus!
