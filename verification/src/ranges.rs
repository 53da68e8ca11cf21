//! Byte ranges: what a client asks for, what is sent back, and what an upstream server sent.

use vstd::prelude::*;

use crate::media_spool::smaller;
use crate::models::text_of;
use crate::protected_media::{declared_type, read_declared_type, MediaHead};
use crate::text::{
    append_decimal, before_char, chars_of, copy_chars, decimal, decode_lossy, drop_prefix,
    extension, extension_of, find_char, has_prefix, lossy_text, lower, lower_ascii, parse_u64,
    parsed_u64, same, split_at_char, split_once, string_of, trim, trimmed,
};
use crate::urls::{
    find_first, first_value, is_on_googlevideo, on_googlevideo, parse_url, url_of, url_view,
    ParsedUrl, UrlModel,
};

verus! {

/// The first and last byte that the two sides of a range stand for, in media of `total` bytes.
pub open spec fn span_of(start: Seq<char>, end: Seq<char>, total: u64) -> Option<(int, int)> {
    if start.len() == 0 {
        match parsed_u64(end) {
            Some(length) => Some(
                (
                    if length > total {
                        0
                    } else {
                        total - length
                    },
                    total - 1,
                ),
            ),
            None => None,
        }
    } else {
        match parsed_u64(start) {
            Some(from) => if end.len() == 0 {
                Some((from as int, total - 1))
            } else {
                match parsed_u64(end) {
                    Some(to) => Some((from as int, smaller(to as int, total - 1))),
                    None => None,
                }
            },
            None => None,
        }
    }
}

/// What a range header asks for: `bytes=first-last`, `bytes=first-` or `bytes=-count`, of which only
/// the first span counts; nothing where it cannot be satisfied.
pub open spec fn range_of(value: Seq<char>, total: u64) -> Option<(u64, u64)> {
    let text = lower(trimmed(value));
    if total == 0 || !"bytes="@.is_prefix_of(text) {
        None
    } else {
        let span = trimmed(before_char(text.skip("bytes="@.len() as int), ','));
        match split_at_char(span, '-') {
            None => None,
            Some(sides) => match span_of(trimmed(sides.0), trimmed(sides.1), total) {
                Some(found) => if found.0 <= found.1 && found.0 < total {
                    Some((found.0 as u64, found.1 as u64))
                } else {
                    None
                },
                None => None,
            },
        }
    }
}

/// What a range header asks for.
pub fn parse_range(value: &str, total: u64) -> (r: Option<(u64, u64)>)
    ensures
        r == range_of(value@, total),
{
    if total == 0 {
        return None;
    }
    let text = lower_ascii(trim(value).as_str());
    if !has_prefix(text.as_str(), "bytes=") {
        return None;
    }
    let rest = drop_prefix(text.as_str(), "bytes=");
    let v = chars_of(rest.as_str());
    let comma: usize = find_char(v.as_slice(), ',');
    let first = copy_chars(v.as_slice(), 0, comma);
    assert(first@ =~= before_char(rest@, ','));
    let span = trim(string_of(first.as_slice()).as_str());
    let sides = match split_once(span.as_str(), '-') {
        Some(sides) => sides,
        None => {
            return None;
        },
    };
    let left = trim(sides.0.as_str());
    let right = trim(sides.1.as_str());
    let (start, end): (u64, u64) = if left.as_str().is_empty() {
        match parse_u64(right.as_str()) {
            Some(length) => (
                if length > total {
                    0
                } else {
                    total - length
                },
                total - 1,
            ),
            None => {
                return None;
            },
        }
    } else {
        let from: u64 = match parse_u64(left.as_str()) {
            Some(n) => n,
            None => {
                return None;
            },
        };
        if right.as_str().is_empty() {
            (from, total - 1)
        } else {
            match parse_u64(right.as_str()) {
                Some(to) => (
                    from,
                    if to < total - 1 {
                        to
                    } else {
                        total - 1
                    },
                ),
                None => {
                    return None;
                },
            }
        }
    };
    if start <= end && start < total {
        Some((start, end))
    } else {
        None
    }
}

/// A range that can be satisfied lies within the media.
pub proof fn ranges_lie_within_the_media(value: Seq<char>, total: u64)
    ensures
        range_of(value, total) matches Some(found) ==> found.0 <= found.1 < total,
{
}

/// A header that holds white space only counts as none.
pub open spec fn usable(header: Option<Seq<char>>) -> Option<Seq<char>> {
    match header {
        Some(text) => if trimmed(text).len() == 0 {
            None
        } else {
            Some(text)
        },
        None => None,
    }
}

pub fn usable_range(header: Option<String>) -> (r: Option<String>)
    ensures
        text_of(r) == usable(text_of(header)),
{
    match header {
        Some(text) => {
            if trim(text.as_str()).as_str().is_empty() {
                None
            } else {
                Some(text)
            }
        },
        None => None,
    }
}

/// How a file is sent: the status, where to begin, how much, and the headers that depend on it.
pub struct ReplyPlan {
    pub status: u16,
    pub start: u64,
    pub length: u64,
    pub content_range: Option<String>,
    pub content_length: Option<String>,
}

#[verifier::ext_equal]
pub struct ReplyModel {
    pub status: u16,
    pub start: u64,
    pub length: u64,
    pub content_range: Option<Seq<char>>,
    pub content_length: Option<Seq<char>>,
}

impl View for ReplyPlan {
    type V = ReplyModel;

    open spec fn view(&self) -> ReplyModel {
        ReplyModel {
            status: self.status,
            start: self.start,
            length: self.length,
            content_range: text_of(self.content_range),
            content_length: text_of(self.content_length),
        }
    }
}

pub open spec fn span_text(start: u64, end: u64, total: u64) -> Seq<char> {
    "bytes "@ + decimal(start as nat) + "-"@ + decimal(end as nat) + "/"@ + decimal(total as nat)
}

pub fn content_range(start: u64, end: u64, total: u64) -> (r: String)
    ensures
        r@ == span_text(start, end, total),
{
    let mut r = "bytes ".to_owned();
    append_decimal(&mut r, start);
    r.append("-");
    append_decimal(&mut r, end);
    r.append("/");
    append_decimal(&mut r, total);
    r
}

/// Without a range the whole file is sent; with one that can be satisfied, exactly that part; with
/// any other, nothing but the size.
pub open spec fn reply_of(total: u64, range: Option<Seq<char>>) -> ReplyModel {
    match range {
        None => ReplyModel {
            status: 200,
            start: 0,
            length: total,
            content_range: None,
            content_length: Some(decimal(total as nat)),
        },
        Some(text) => match range_of(text, total) {
            Some(found) => ReplyModel {
                status: 206,
                start: found.0,
                length: (found.1 - found.0 + 1) as u64,
                content_range: Some(span_text(found.0, found.1, total)),
                content_length: Some(decimal((found.1 - found.0 + 1) as nat)),
            },
            None => ReplyModel {
                status: 416,
                start: 0,
                length: 0,
                content_range: Some("bytes */"@ + decimal(total as nat)),
                content_length: None,
            },
        },
    }
}

/// How a file of `total` bytes is sent to a client that asked for a range.
pub fn audio_response(total: u64, raw_range: &Option<String>) -> (r: ReplyPlan)
    ensures
        r@ == reply_of(total, text_of(*raw_range)),
{
    match raw_range {
        None => {
            let mut length = String::new();
            append_decimal(&mut length, total);
            assert(length@ =~= decimal(total as nat));
            ReplyPlan {
                status: 200,
                start: 0,
                length: total,
                content_range: None,
                content_length: Some(length),
            }
        },
        Some(text) => match parse_range(text.as_str(), total) {
            Some(found) => {
                let count: u64 = found.1 - found.0 + 1;
                let mut length = String::new();
                append_decimal(&mut length, count);
                assert(length@ =~= decimal(count as nat));
                ReplyPlan {
                    status: 206,
                    start: found.0,
                    length: count,
                    content_range: Some(content_range(found.0, found.1, total)),
                    content_length: Some(length),
                }
            },
            None => {
                let mut range = "bytes */".to_owned();
                append_decimal(&mut range, total);
                ReplyPlan {
                    status: 416,
                    start: 0,
                    length: 0,
                    content_range: Some(range),
                    content_length: None,
                }
            },
        },
    }
}

/// What is sent always lies within the file; a range that cannot be satisfied is never answered
/// with data.
pub proof fn replies_stay_within_the_file(total: u64, range: Option<Seq<char>>)
    ensures
        reply_of(total, range).start + reply_of(total, range).length <= total,
        reply_of(total, range).status == 416 ==> reply_of(total, range).length == 0,
        range is None ==> reply_of(total, range).length == total,
{
}

/// The media type of a sound file, by its extension.
pub open spec fn audio_mime(path: Seq<char>) -> Seq<char> {
    let ext = lower(extension_of(path));
    if ext == "mp3"@ {
        "audio/mpeg"@
    } else if ext == "flac"@ {
        "audio/flac"@
    } else if ext == "m4a"@ || ext == "mp4"@ || ext == "aac"@ {
        "audio/mp4"@
    } else if ext == "ogg"@ {
        "audio/ogg"@
    } else if ext == "opus"@ {
        "audio/opus"@
    } else if ext == "wav"@ {
        "audio/wav"@
    } else {
        "application/octet-stream"@
    }
}

pub fn mime_for(path: &str) -> (r: &'static str)
    ensures
        r@ == audio_mime(path@),
{
    let ext = lower_ascii(extension(path).as_str());
    let e = ext.as_str();
    if same(e, "mp3") {
        "audio/mpeg"
    } else if same(e, "flac") {
        "audio/flac"
    } else if same(e, "m4a") || same(e, "mp4") || same(e, "aac") {
        "audio/mp4"
    } else if same(e, "ogg") {
        "audio/ogg"
    } else if same(e, "opus") {
        "audio/opus"
    } else if same(e, "wav") {
        "audio/wav"
    } else {
        "application/octet-stream"
    }
}

/// The media type of a video file, by its extension.
pub open spec fn video_mime(path: Seq<char>) -> Seq<char> {
    let ext = lower(extension_of(path));
    if ext == "mp4"@ || ext == "m4v"@ {
        "video/mp4"@
    } else if ext == "mov"@ {
        "video/quicktime"@
    } else if ext == "webm"@ {
        "video/webm"@
    } else if ext == "mkv"@ {
        "video/x-matroska"@
    } else {
        "application/octet-stream"@
    }
}

pub fn video_mime_for(path: &str) -> (r: &'static str)
    ensures
        r@ == video_mime(path@),
{
    let ext = lower_ascii(extension(path).as_str());
    let e = ext.as_str();
    if same(e, "mp4") || same(e, "m4v") {
        "video/mp4"
    } else if same(e, "mov") {
        "video/quicktime"
    } else if same(e, "webm") {
        "video/webm"
    } else if same(e, "mkv") {
        "video/x-matroska"
    } else {
        "application/octet-stream"
    }
}

/// The part of the media that an upstream reply holds.
#[derive(Clone, Copy, PartialEq, Eq, Debug, Structural)]
pub struct PreviewCacheSegment {
    pub start: u64,
    pub end: u64,
    pub total: u64,
}

impl PreviewCacheSegment {
    pub open spec fn well_formed(self) -> bool {
        self.start <= self.end < self.total
    }
}

/// The span that a `Content-Range` header states.
pub open spec fn stated_span(raw: Seq<char>) -> Option<PreviewCacheSegment> {
    match split_at_char(trimmed(raw), ' ') {
        None => None,
        Some(parts) => if lower(parts.0) != "bytes"@ {
            None
        } else {
            match split_at_char(parts.1, '/') {
                None => None,
                Some(value) => match split_at_char(value.0, '-') {
                    None => None,
                    Some(span) => match (
                        parsed_u64(span.0),
                        parsed_u64(span.1),
                        parsed_u64(value.1),
                    ) {
                        (Some(start), Some(end), Some(total)) => if start <= end && end < total {
                            Some(PreviewCacheSegment { start, end, total })
                        } else {
                            None
                        },
                        _ => None,
                    },
                },
            }
        },
    }
}

pub open spec fn stated_number(header: Option<Seq<char>>) -> Option<u64> {
    match header {
        Some(text) => parsed_u64(text),
        None => None,
    }
}

/// The part that a reply holds, by its own headers. A length that contradicts the span refutes it.
pub open spec fn segment_of(
    status: u16,
    length: Option<Seq<char>>,
    range: Option<Seq<char>>,
) -> Option<PreviewCacheSegment> {
    if status == 200 {
        match stated_number(length) {
            Some(total) => if total > 0 {
                Some(PreviewCacheSegment { start: 0, end: (total - 1) as u64, total })
            } else {
                None
            },
            None => None,
        }
    } else if status != 206 {
        None
    } else {
        match range {
            None => None,
            Some(raw) => match stated_span(raw) {
                None => None,
                Some(segment) => match stated_number(length) {
                    Some(count) => if count == segment.end - segment.start + 1 {
                        Some(segment)
                    } else {
                        None
                    },
                    None => Some(segment),
                },
            },
        }
    }
}

fn read_span(raw: &str) -> (r: Option<PreviewCacheSegment>)
    ensures
        r == stated_span(raw@),
{
    let text = trim(raw);
    let parts = match split_once(text.as_str(), ' ') {
        Some(parts) => parts,
        None => {
            return None;
        },
    };
    if !same(lower_ascii(parts.0.as_str()).as_str(), "bytes") {
        return None;
    }
    let value = match split_once(parts.1.as_str(), '/') {
        Some(value) => value,
        None => {
            return None;
        },
    };
    let span = match split_once(value.0.as_str(), '-') {
        Some(span) => span,
        None => {
            return None;
        },
    };
    match (
        parse_u64(span.0.as_str()),
        parse_u64(span.1.as_str()),
        parse_u64(value.1.as_str()),
    ) {
        (Some(start), Some(end), Some(total)) => {
            if start <= end && end < total {
                Some(PreviewCacheSegment { start, end, total })
            } else {
                None
            }
        },
        _ => None,
    }
}

fn read_number(header: &Option<String>) -> (r: Option<u64>)
    ensures
        r == stated_number(text_of(*header)),
{
    match header {
        Some(text) => parse_u64(text.as_str()),
        None => None,
    }
}

/// The part of the media that an upstream reply holds.
pub fn preview_response_segment(head: &MediaHead) -> (r: Option<PreviewCacheSegment>)
    ensures
        r == segment_of(head.status, text_of(head.content_length), text_of(head.content_range)),
        r matches Some(segment) ==> segment.well_formed(),
{
    if head.status == 200 {
        return match read_number(&head.content_length) {
            Some(total) => if total > 0 {
                Some(PreviewCacheSegment { start: 0, end: total - 1, total })
            } else {
                None
            },
            None => None,
        };
    }
    if head.status != 206 {
        return None;
    }
    match &head.content_range {
        None => None,
        Some(raw) => match read_span(raw.as_str()) {
            None => None,
            Some(segment) => match read_number(&head.content_length) {
                Some(count) => if count == segment.end - segment.start + 1 {
                    Some(segment)
                } else {
                    None
                },
                None => Some(segment),
            },
        },
    }
}

/// The part that a reply holds, where it begins at the byte that was asked for.
pub fn preview_cache_segment(head: &MediaHead, requested_start: u64) -> (r: Option<
    PreviewCacheSegment,
>)
    ensures
        r == match segment_of(
            head.status,
            text_of(head.content_length),
            text_of(head.content_range),
        ) {
            Some(segment) => if segment.start == requested_start {
                Some(segment)
            } else {
                None
            },
            None => None,
        },
        r matches Some(segment) ==> segment.well_formed(),
{
    match preview_response_segment(head) {
        Some(segment) => if segment.start == requested_start {
            Some(segment)
        } else {
            None
        },
        None => None,
    }
}

/// What a waveform for the running session records of a reply.
#[derive(Clone, Copy, PartialEq, Eq, Debug, Structural)]
pub struct CapturePlan {
    pub start: u64,
    pub expected: u64,
    pub total: u64,
    /// The reply reaches the end of the media.
    pub reaches_end: bool,
}

pub fn session_preview_capture_plan(segment: Option<PreviewCacheSegment>) -> (r: Option<CapturePlan>)
    requires
        segment matches Some(s) ==> s.well_formed(),
    ensures
        r == match segment {
            Some(s) => Some(
                CapturePlan {
                    start: s.start,
                    expected: (s.end - s.start + 1) as u64,
                    total: s.total,
                    reaches_end: s.end + 1 == s.total,
                },
            ),
            None => None,
        },
{
    match segment {
        Some(s) => Some(
            CapturePlan {
                start: s.start,
                expected: s.end - s.start + 1,
                total: s.total,
                reaches_end: s.end + 1 == s.total,
            },
        ),
        None => None,
    }
}

/// The media type under which an upstream reply is passed on: its own where it says sound, the
/// fallback where it says nothing or only bytes, none where it says something else.
pub open spec fn passed_mime(header: Option<Seq<char>>, fallback: Seq<char>) -> Option<Seq<char>> {
    match header {
        None => Some(fallback),
        Some(raw) => {
            let base = declared_type(header);
            if "audio/"@.is_prefix_of(base) {
                Some(raw)
            } else if base == "application/octet-stream"@ || base == "binary/octet-stream"@ {
                Some(fallback)
            } else {
                None
            }
        },
    }
}

pub fn preview_audio_mime(content_type: &Option<String>, fallback: &str) -> (r: Option<String>)
    ensures
        text_of(r) == passed_mime(text_of(*content_type), fallback@),
{
    match content_type {
        None => Some(fallback.to_owned()),
        Some(raw) => {
            let base = read_declared_type(content_type);
            if has_prefix(base.as_str(), "audio/") {
                Some(raw.clone())
            } else if same(base.as_str(), "application/octet-stream") || same(
                base.as_str(),
                "binary/octet-stream",
            ) {
                Some(fallback.to_owned())
            } else {
                None
            }
        },
    }
}

/// The media type that a URL states, or that of an MP3 file.
pub open spec fn url_mime(url: Option<UrlModel>) -> Seq<char> {
    match url {
        Some(u) => match first_value(u.query, "mime"@) {
            Some(mime) => if "audio/"@.is_prefix_of(mime) {
                mime
            } else {
                "audio/mpeg"@
            },
            None => "audio/mpeg"@,
        },
        None => "audio/mpeg"@,
    }
}

fn read_url_mime(url: &Option<ParsedUrl>) -> (r: String)
    ensures
        r@ == url_mime(url_view(*url)),
{
    if let Some(u) = url {
        if let Some(mime) = find_first(&u.query, "mime") {
            if has_prefix(mime.as_str(), "audio/") {
                return mime.clone();
            }
        }
    }
    "audio/mpeg".to_owned()
}

/// The media type under which a reply is passed on, for a URL that has been taken apart.
pub fn mime_with_url(content_type: &Option<String>, url: &Option<ParsedUrl>) -> (r: Option<String>)
    ensures
        text_of(r) == passed_mime(text_of(*content_type), url_mime(url_view(*url))),
{
    let fallback = read_url_mime(url);
    preview_audio_mime(content_type, fallback.as_str())
}

/// The media type under which a reply is passed on; the URL says what plain bytes are.
pub fn preview_audio_mime_for_url(content_type: &Option<String>, url: &str) -> (r: Option<String>)
    ensures
        text_of(r) == passed_mime(text_of(*content_type), url_mime(url_of(url@))),
{
    mime_with_url(content_type, &parse_url(url))
}

pub open spec fn needs_refresh(status: u16) -> bool {
    status == 401 || status == 403 || status == 404 || status == 410
}

/// Whether a status means that an address has expired or is refused.
pub fn song_preview_url_needs_refresh(status: u16) -> (r: bool)
    ensures
        r == needs_refresh(status),
{
    status == 401 || status == 403 || status == 404 || status == 410
}

/// An open range, bounded to one mebibyte; any other range as it is.
pub open spec fn bounded(range: Seq<char>) -> Seq<char> {
    let text = trimmed(range);
    if "bytes="@.is_prefix_of(text) {
        let rest = text.skip("bytes="@.len() as int);
        if rest.len() > 0 && rest.last() == '-' && parsed_u64(rest.drop_last()) is Some {
            let start = parsed_u64(rest.drop_last())->0;
            "bytes="@ + decimal(start as nat) + "-"@ + decimal(
                smaller(start + 1_048_575, u64::MAX as int) as nat,
            )
        } else {
            range
        }
    } else {
        range
    }
}

pub fn bound_range(range: &str) -> (r: String)
    ensures
        r@ == bounded(range@),
{
    let text = trim(range);
    if !has_prefix(text.as_str(), "bytes=") {
        return range.to_owned();
    }
    let rest = drop_prefix(text.as_str(), "bytes=");
    let v = chars_of(rest.as_str());
    if v.len() == 0 || v[v.len() - 1] != '-' {
        return range.to_owned();
    }
    let digits = copy_chars(v.as_slice(), 0, v.len() - 1);
    assert(digits@ =~= rest@.drop_last());
    match parse_u64(string_of(digits.as_slice()).as_str()) {
        Some(start) => {
            let end: u64 = if start <= u64::MAX - 1_048_575 {
                start + 1_048_575
            } else {
                u64::MAX
            };
            let mut r = "bytes=".to_owned();
            append_decimal(&mut r, start);
            r.append("-");
            append_decimal(&mut r, end);
            r
        },
        None => range.to_owned(),
    }
}

/// The range that is sent upstream, for a URL that has been taken apart.
pub fn range_for(url: &Option<ParsedUrl>, range: &str) -> (r: String)
    ensures
        r@ == if on_googlevideo(url_view(*url)) {
            bounded(range@)
        } else {
            range@
        },
{
    if is_on_googlevideo(url) {
        bound_range(range)
    } else {
        range.to_owned()
    }
}

/// The range that is sent upstream. Protected media is asked for in bounded parts only.
pub fn gvs_upstream_range(url: &str, range: &str) -> (r: String)
    ensures
        r@ == if on_googlevideo(url_of(url@)) {
            bounded(range@)
        } else {
            range@
        },
{
    range_for(&parse_url(url), range)
}

pub open spec fn is_ascii_blank(b: u8) -> bool {
    b == 0x20 || b == 0x09 || b == 0x0a || b == 0x0c || b == 0x0d
}

pub open spec fn without_blanks(bytes: Seq<u8>) -> Seq<u8>
    decreases bytes.len(),
{
    if bytes.len() > 0 && is_ascii_blank(bytes[0]) {
        without_blanks(bytes.drop_first())
    } else {
        bytes
    }
}

/// The bytes by which a first piece is judged: what follows the blanks within the first 96.
pub open spec fn payload_head(bytes: Seq<u8>) -> Seq<u8> {
    without_blanks(
        if bytes.len() > 96 {
            bytes.take(96)
        } else {
            bytes
        },
    )
}

/// A text that is an error page, a list or a structured message rather than sound.
pub open spec fn is_text_payload(text: Seq<char>) -> bool {
    let low = lower(text);
    ||| "<!doctype html"@.is_prefix_of(low)
    ||| "<html"@.is_prefix_of(low)
    ||| "<?xml"@.is_prefix_of(low)
    ||| "#extm3u"@.is_prefix_of(low)
    ||| "{"@.is_prefix_of(low)
    ||| "[{"@.is_prefix_of(low)
}

pub fn is_text_head(text: &str) -> (r: bool)
    ensures
        r == is_text_payload(text@),
{
    let low = lower_ascii(text);
    let s = low.as_str();
    has_prefix(s, "<!doctype html") || has_prefix(s, "<html") || has_prefix(s, "<?xml")
        || has_prefix(s, "#extm3u") || has_prefix(s, "{") || has_prefix(s, "[{")
}

/// Whether the first piece of a reply is text rather than sound.
pub fn looks_like_text_error_payload(bytes: &Vec<u8>) -> (r: bool)
    ensures
        r == is_text_payload(lossy_text(payload_head(bytes@))),
{
    let end: usize = if bytes.len() > 96 {
        96
    } else {
        bytes.len()
    };
    let ghost front = bytes@.take(end as int);
    assert(front =~= if bytes@.len() > 96 {
        bytes@.take(96)
    } else {
        bytes@
    });
    let mut i: usize = 0;
    assert(front.skip(0) =~= front);
    while i < end && (bytes[i] == 0x20 || bytes[i] == 0x09 || bytes[i] == 0x0a || bytes[i] == 0x0c
        || bytes[i] == 0x0d)
        invariant
            i <= end <= bytes@.len(),
            front == bytes@.take(end as int),
            without_blanks(front) == without_blanks(front.skip(i as int)),
        decreases end - i,
    {
        assert(front.skip(i as int).drop_first() =~= front.skip(i + 1));
        assert(front.skip(i as int)[0] == bytes@[i as int]);
        i += 1;
    }
    let mut head: Vec<u8> = Vec::new();
    let mut k: usize = i;
    while k < end
        invariant
            i <= k <= end <= bytes@.len(),
            head@ == bytes@.subrange(i as int, k as int),
        decreases end - k,
    {
        head.push(bytes[k]);
        k += 1;
        assert(head@ =~= bytes@.subrange(i as int, k as int));
    }
    assert(head@ =~= front.skip(i as int));
    assert(i < end ==> front.skip(i as int)[0] == bytes@[i as int]);
    let text = decode_lossy(head.as_slice());
    is_text_head(text.as_str())
}

} // verus!
