//! Media that can be fetched only once.
//!
//! A protected media URL is a short-lived right to play, so the stream is fetched in bounded pieces,
//! one behind the other, into a growing local file. Readers get any range of that file, and wait
//! where it has not arrived yet. A browser can feed such a file as well.

use vstd::prelude::*;

use crate::models::text_of;
use crate::text::{
    append_decimal, contains, decimal, decode_lossy, has_prefix, lossy_text, lower, lower_ascii,
    occurs_in, parse_u64, parsed_u64, same, split_at_char, split_once, trim_front, trimmed,
};
use crate::urls::{
    find_first, first_value, pair_views, parse_url, url_of, url_view, ParsedUrl, UrlModel,
};

verus! {

/// How much is asked of the upstream server at once.
pub const GVS_RANGE_CHUNK_BYTES: u64 = 1_048_576;

/// How much a reader gets at once.
pub const LOCAL_RANGE_CHUNK_BYTES: u64 = 1_048_576;

/// What the rules read of an upstream reply. A header that is absent, or that is no readable text,
/// is `None`.
pub struct MediaHead {
    pub status: u16,
    /// The status as it is written in messages.
    pub status_text: String,
    pub content_range: Option<String>,
    pub content_length: Option<String>,
    pub content_type: Option<String>,
}

/// The first pair named `clen` whose value is a number.
pub open spec fn first_length(query: Seq<(Seq<char>, Seq<char>)>) -> Option<u64>
    decreases query.len(),
{
    if query.len() == 0 {
        None
    } else if query[0].0 == "clen"@ && parsed_u64(query[0].1) is Some {
        parsed_u64(query[0].1)
    } else {
        first_length(query.drop_first())
    }
}

/// The length that a media URL states.
pub open spec fn stated_length(url: Option<UrlModel>) -> Option<u64> {
    match url {
        Some(u) => first_length(u.query),
        None => None,
    }
}

/// The length that a parsed media URL states.
pub fn length_hint(url: &Option<ParsedUrl>) -> (r: Option<u64>)
    ensures
        r == stated_length(url_view(*url)),
{
    match url {
        Some(u) => {
            let ghost all = pair_views(u.query@);
            let mut i: usize = 0;
            assert(all.skip(0) =~= all);
            while i < u.query.len()
                invariant
                    i <= u.query.len(),
                    all == pair_views(u.query@),
                    *url == Some(*u),
                    first_length(all) == first_length(all.skip(i as int)),
                decreases u.query.len() - i,
            {
                assert(all.skip(i as int)[0] == all[i as int]);
                assert(all.skip(i as int).drop_first() =~= all.skip(i + 1));
                if same(u.query[i].0.as_str(), "clen") {
                    if let Some(length) = parse_u64(u.query[i].1.as_str()) {
                        return Some(length);
                    }
                }
                i += 1;
            }
            None
        },
        None => None,
    }
}

/// The length that a media URL states.
pub fn content_length_hint(url: &str) -> (r: Option<u64>)
    ensures
        r == stated_length(url_of(url@)),
{
    length_hint(&parse_url(url))
}

/// The last byte of the piece that begins at `start`.
pub open spec fn piece_end(start: u64, total: u64) -> nat {
    let reach = start + GVS_RANGE_CHUNK_BYTES - 1;
    let reach = if reach > u64::MAX {
        u64::MAX as int
    } else {
        reach
    };
    let last = if total > 0 {
        total - 1
    } else {
        0int
    };
    (if reach < last {
        reach
    } else {
        last
    }) as nat
}

pub open spec fn range_text(start: u64, end: nat) -> Seq<char> {
    "bytes="@ + decimal(start as nat) + "-"@ + decimal(end)
}

/// The range header of the piece that begins at `start`.
pub fn gvs_range(start: u64, total: u64) -> (r: String)
    ensures
        r@ == range_text(start, piece_end(start, total)),
{
    let reach: u64 = if start <= u64::MAX - (GVS_RANGE_CHUNK_BYTES - 1) {
        start + (GVS_RANGE_CHUNK_BYTES - 1)
    } else {
        u64::MAX
    };
    let last: u64 = if total > 0 {
        total - 1
    } else {
        0
    };
    let end: u64 = if reach < last {
        reach
    } else {
        last
    };
    let mut r = "bytes=".to_owned();
    append_decimal(&mut r, start);
    r.append("-");
    append_decimal(&mut r, end);
    r
}

/// A page of text where media should be: it begins with a tag or holds the head of a document.
pub open spec fn is_error_page(text: Seq<char>) -> bool {
    let low = lower(text);
    let body = trim_front(low);
    ||| body.len() > 0 && body[0] == '<'
    ||| occurs_in("<!doctype html"@, low)
    ||| occurs_in("<html"@, low)
}

pub fn looks_like_error_page(text: &str) -> (r: bool)
    ensures
        r == is_error_page(text@),
{
    let low = lower_ascii(text);
    let v = crate::text::chars_of(low.as_str());
    let mut i: usize = 0;
    while i < v.len() && crate::text::is_space_char(v[i])
        invariant
            i <= v.len(),
            forall|j: int| 0 <= j < i ==> crate::text::is_space(v@[j]),
        decreases v.len() - i,
    {
        i += 1;
    }
    proof {
        crate::text::lemma_trim_front_skip(v@, i as int);
        assert(i < v.len() ==> v@.skip(i as int)[0] == v@[i as int]);
        assert(trim_front(v@) == v@.skip(i as int));
    }
    (i < v.len() && v[i] == '<') || contains(low.as_str(), "<!doctype html") || contains(
        low.as_str(),
        "<html",
    )
}

/// The bytes by which a piece is judged: the first 256.
pub open spec fn probe_of(bytes: Seq<u8>) -> Seq<u8> {
    if bytes.len() > 256 {
        bytes.take(256)
    } else {
        bytes
    }
}

fn probe(bytes: &Vec<u8>) -> (r: Vec<u8>)
    ensures
        r@ == probe_of(bytes@),
{
    let mut r: Vec<u8> = Vec::new();
    let mut i: usize = 0;
    while i < bytes.len() && i < 256
        invariant
            i <= bytes.len(),
            i <= 256,
            r@ == bytes@.take(i as int),
        decreases 256 - i,
    {
        r.push(bytes[i]);
        i += 1;
        assert(r@ =~= bytes@.take(i as int));
    }
    assert(bytes@.take(i as int) =~= probe_of(bytes@));
    r
}

pub open spec fn chunk_refusal() -> Seq<char> {
    "YouTube GVS 返回了错误页面"@
}

/// Refuses a piece that is a page of text.
pub fn ensure_media_chunk(bytes: &Vec<u8>) -> (r: Result<(), String>)
    ensures
        match r {
            Ok(()) => !is_error_page(lossy_text(probe_of(bytes@))),
            Err(e) => is_error_page(lossy_text(probe_of(bytes@))) && e@ == chunk_refusal(),
        },
{
    let head = probe(bytes);
    let text = decode_lossy(head.as_slice());
    if looks_like_error_page(text.as_str()) {
        Err("YouTube GVS 返回了错误页面".to_owned())
    } else {
        Ok(())
    }
}

/// The total of a partial reply that begins at the first byte.
pub open spec fn first_total(range: Option<Seq<char>>) -> Result<u64, Seq<char>> {
    match range {
        None => Err("YouTube GVS 缺少 Content-Range"@),
        Some(raw) => if !"bytes 0-"@.is_prefix_of(raw) {
            Err("YouTube GVS 首段不是从 0 开始"@)
        } else {
            match split_at_char(raw.skip("bytes 0-"@.len() as int), '/') {
                Some(parts) => match parsed_u64(parts.1) {
                    Some(total) => Ok(total),
                    None => Err("YouTube GVS Content-Range 无效"@),
                },
                None => Err("YouTube GVS Content-Range 无效"@),
            }
        },
    }
}

/// The total of a whole reply: what the header states, or else the URL.
pub open spec fn whole_total(length: Option<Seq<char>>, url: Option<UrlModel>) -> Result<
    u64,
    Seq<char>,
> {
    let declared = match length {
        Some(text) => parsed_u64(text),
        None => None,
    };
    match declared {
        Some(total) => Ok(total),
        None => match stated_length(url) {
            Some(total) => Ok(total),
            None => Err("YouTube GVS 缺少媒体长度"@),
        },
    }
}

/// The media type that a reply states, without its parameters and in lower case.
pub open spec fn declared_type(header: Option<Seq<char>>) -> Seq<char> {
    match header {
        Some(text) => lower(trimmed(crate::text::before_char(text, ';'))),
        None => Seq::empty(),
    }
}

/// The media type that a URL states, in lower case.
pub open spec fn query_type(url: Option<UrlModel>) -> Seq<char> {
    match url {
        Some(u) => match first_value(u.query, "mime"@) {
            Some(value) => lower(value),
            None => Seq::empty(),
        },
        None => Seq::empty(),
    }
}

pub open spec fn is_audio_type(mime: Seq<char>) -> bool {
    "audio/"@.is_prefix_of(mime)
}

/// The length and the type of the media in a first reply, or why it is refused.
pub open spec fn metadata_of(
    url: Option<UrlModel>,
    status: u16,
    status_text: Seq<char>,
    range: Option<Seq<char>>,
    length: Option<Seq<char>>,
    content_type: Option<Seq<char>>,
) -> Result<(u64, Seq<char>), Seq<char>> {
    if status != 200 && status != 206 {
        Err("YouTube GVS 返回 HTTP "@ + status_text)
    } else {
        match if status == 206 {
            first_total(range)
        } else {
            whole_total(length, url)
        } {
            Err(reason) => Err(reason),
            Ok(total) => {
                let declared = declared_type(content_type);
                if total == 0 {
                    Err("YouTube GVS 返回空媒体"@)
                } else if is_audio_type(declared) {
                    Ok((total, declared))
                } else if is_audio_type(query_type(url)) {
                    Ok((total, query_type(url)))
                } else {
                    Err("YouTube GVS 返回的不是音频（"@ + declared + "）"@)
                }
            },
        }
    }
}

pub open spec fn head_metadata(url: Option<UrlModel>, head: MediaHead) -> Result<
    (u64, Seq<char>),
    Seq<char>,
> {
    metadata_of(
        url,
        head.status,
        head.status_text@,
        text_of(head.content_range),
        text_of(head.content_length),
        text_of(head.content_type),
    )
}

pub open spec fn metadata_view(r: Result<(u64, String), String>) -> Result<
    (u64, Seq<char>),
    Seq<char>,
> {
    match r {
        Ok(found) => Ok((found.0, found.1@)),
        Err(e) => Err(e@),
    }
}

pub open spec fn number_view(r: Result<u64, String>) -> Result<u64, Seq<char>> {
    match r {
        Ok(n) => Ok(n),
        Err(e) => Err(e@),
    }
}

fn read_first_total(range: &Option<String>) -> (r: Result<u64, String>)
    ensures
        number_view(r) == first_total(text_of(*range)),
{
    match range {
        None => Err("YouTube GVS 缺少 Content-Range".to_owned()),
        Some(raw) => {
            if !has_prefix(raw.as_str(), "bytes 0-") {
                return Err("YouTube GVS 首段不是从 0 开始".to_owned());
            }
            let rest = crate::text::drop_prefix(raw.as_str(), "bytes 0-");
            match split_once(rest.as_str(), '/') {
                Some(parts) => match parse_u64(parts.1.as_str()) {
                    Some(total) => Ok(total),
                    None => Err("YouTube GVS Content-Range 无效".to_owned()),
                },
                None => Err("YouTube GVS Content-Range 无效".to_owned()),
            }
        },
    }
}

fn read_whole_total(length: &Option<String>, url: &Option<ParsedUrl>) -> (r: Result<u64, String>)
    ensures
        number_view(r) == whole_total(text_of(*length), url_view(*url)),
{
    if let Some(text) = length {
        if let Some(total) = parse_u64(text.as_str()) {
            return Ok(total);
        }
    }
    match length_hint(url) {
        Some(total) => Ok(total),
        None => Err("YouTube GVS 缺少媒体长度".to_owned()),
    }
}

/// The media type that a header states.
pub fn read_declared_type(header: &Option<String>) -> (r: String)
    ensures
        r@ == declared_type(text_of(*header)),
{
    match header {
        Some(text) => {
            let v = crate::text::chars_of(text.as_str());
            let end: usize = crate::text::find_char(v.as_slice(), ';');
            let head = crate::text::copy_chars(v.as_slice(), 0, end);
            assert(head@ =~= crate::text::before_char(text@, ';'));
            let body = crate::text::trim_chars(head.as_slice());
            let low = crate::text::lower_chars(body.as_slice());
            crate::text::string_of(low.as_slice())
        },
        None => {
            let r = String::new();
            assert(r@ =~= Seq::<char>::empty());
            r
        },
    }
}

fn read_query_type(url: &Option<ParsedUrl>) -> (r: String)
    ensures
        r@ == query_type(url_view(*url)),
{
    if let Some(u) = url {
        if let Some(value) = find_first(&u.query, "mime") {
            return lower_ascii(value.as_str());
        }
    }
    let r = String::new();
    assert(r@ =~= Seq::<char>::empty());
    r
}

/// The length and the type of the media in a first reply, for a URL that has been taken apart.
pub fn response_metadata(url: &Option<ParsedUrl>, head: &MediaHead) -> (r: Result<
    (u64, String),
    String,
>)
    ensures
        metadata_view(r) == head_metadata(url_view(*url), *head),
{
    if head.status != 200 && head.status != 206 {
        let mut e = "YouTube GVS 返回 HTTP ".to_owned();
        e.append(head.status_text.as_str());
        return Err(e);
    }
    let found: Result<u64, String> = if head.status == 206 {
        read_first_total(&head.content_range)
    } else {
        read_whole_total(&head.content_length, url)
    };
    match found {
        Err(e) => Err(e),
        Ok(total) => {
            let declared = read_declared_type(&head.content_type);
            if total == 0 {
                return Err("YouTube GVS 返回空媒体".to_owned());
            }
            if has_prefix(declared.as_str(), "audio/") {
                return Ok((total, declared));
            }
            let stated = read_query_type(url);
            if has_prefix(stated.as_str(), "audio/") {
                return Ok((total, stated));
            }
            let mut e = "YouTube GVS 返回的不是音频（".to_owned();
            e.append(declared.as_str());
            e.append("）");
            Err(e)
        },
    }
}

/// The length and the type of the media in a first reply.
pub fn media_response_metadata(url: &str, head: &MediaHead) -> (r: Result<(u64, String), String>)
    ensures
        metadata_view(r) == head_metadata(url_of(url@), *head),
{
    response_metadata(&parse_url(url), head)
}

/// What a continuation has to say: the piece begins where the last one ended, and the whole has
/// the same length.
pub open spec fn continuation_of(
    status: u16,
    status_text: Seq<char>,
    range: Option<Seq<char>>,
    expected_start: u64,
    total: u64,
) -> Result<(), Seq<char>> {
    let malformed = "YouTube GVS 续传 Content-Range 无效"@;
    if status != 206 {
        Err("YouTube GVS 续传返回 HTTP "@ + status_text)
    } else {
        match range {
            None => Err("YouTube GVS 续传缺少 Content-Range"@),
            Some(raw) => if !"bytes "@.is_prefix_of(raw) {
                Err(malformed)
            } else {
                match split_at_char(raw.skip("bytes "@.len() as int), '/') {
                    None => Err(malformed),
                    Some(parts) => match split_at_char(parts.0, '-') {
                        None => Err(malformed),
                        Some(span) => match parsed_u64(span.0) {
                            None => Err("YouTube GVS 续传起点无效"@),
                            Some(start) => match parsed_u64(span.1) {
                                None => Err("YouTube GVS 续传终点无效"@),
                                Some(end) => match parsed_u64(parts.1) {
                                    None => Err("YouTube GVS 续传总长度无效"@),
                                    Some(whole) => if start == expected_start && start <= end
                                        && whole == total {
                                        Ok(())
                                    } else {
                                        Err("YouTube GVS 续传范围不连续"@)
                                    },
                                },
                            },
                        },
                    },
                }
            },
        }
    }
}

pub open spec fn unit_view(r: Result<(), String>) -> Result<(), Seq<char>> {
    match r {
        Ok(()) => Ok(()),
        Err(e) => Err(e@),
    }
}

pub fn validate_continuation(head: &MediaHead, expected_start: u64, total: u64) -> (r: Result<
    (),
    String,
>)
    ensures
        unit_view(r) == continuation_of(
            head.status,
            head.status_text@,
            text_of(head.content_range),
            expected_start,
            total,
        ),
{
    if head.status != 206 {
        let mut e = "YouTube GVS 续传返回 HTTP ".to_owned();
        e.append(head.status_text.as_str());
        return Err(e);
    }
    let raw = match &head.content_range {
        Some(raw) => raw,
        None => {
            return Err("YouTube GVS 续传缺少 Content-Range".to_owned());
        },
    };
    if !has_prefix(raw.as_str(), "bytes ") {
        return Err("YouTube GVS 续传 Content-Range 无效".to_owned());
    }
    let value = crate::text::drop_prefix(raw.as_str(), "bytes ");
    let parts = match split_once(value.as_str(), '/') {
        Some(parts) => parts,
        None => {
            return Err("YouTube GVS 续传 Content-Range 无效".to_owned());
        },
    };
    let span = match split_once(parts.0.as_str(), '-') {
        Some(span) => span,
        None => {
            return Err("YouTube GVS 续传 Content-Range 无效".to_owned());
        },
    };
    let start: u64 = match parse_u64(span.0.as_str()) {
        Some(n) => n,
        None => {
            return Err("YouTube GVS 续传起点无效".to_owned());
        },
    };
    let end: u64 = match parse_u64(span.1.as_str()) {
        Some(n) => n,
        None => {
            return Err("YouTube GVS 续传终点无效".to_owned());
        },
    };
    let whole: u64 = match parse_u64(parts.1.as_str()) {
        Some(n) => n,
        None => {
            return Err("YouTube GVS 续传总长度无效".to_owned());
        },
    };
    if start == expected_start && start <= end && whole == total {
        Ok(())
    } else {
        Err("YouTube GVS 续传范围不连续".to_owned())
    }
}

} // verus!
