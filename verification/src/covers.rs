//! Pictures: which ones are fetched from elsewhere, which frame of a video stands for it, and how
//! they are kept.

use vstd::prelude::*;

use crate::error::{bad, check_result, ApiError, ErrorModel};
use crate::models::Platform;
use crate::text::{
    append_decimal, append_signed, decimal, has_suffix, is_digit, lemma_decimal_digits, same,
    signed_decimal, trim, trimmed,
};
use crate::urls::{host_of, lower_host, parse_url, url_of, url_view, ParsedUrl, UrlModel};

verus! {

// ---------------------------------------------------------------- pictures of platforms

/// The hosts from which a platform serves its pictures.
pub open spec fn is_cover_host(platform: Platform, host: Seq<char>) -> bool {
    match platform {
        Platform::Wyy => {
            ||| host == "163.com"@
            ||| ".163.com"@.is_suffix_of(host)
            ||| ".126.net"@.is_suffix_of(host)
        },
        Platform::Qqm => {
            ||| host == "qq.com"@
            ||| ".qq.com"@.is_suffix_of(host)
            ||| host == "gtimg.cn"@
            ||| ".gtimg.cn"@.is_suffix_of(host)
            ||| host == "qpic.cn"@
            ||| ".qpic.cn"@.is_suffix_of(host)
        },
        _ => false,
    }
}

pub open spec fn cover_url_allowed(platform: Platform, url: UrlModel) -> bool {
    url.host is Some && is_cover_host(platform, host_of(url))
}

/// Whether a URL lies on a host from which the platform serves its pictures.
pub fn cover_host_allowed(platform: Platform, url: &ParsedUrl) -> (r: bool)
    ensures
        r == cover_url_allowed(platform, url@),
{
    if url.host.is_none() {
        return false;
    }
    let host = lower_host(url);
    let h = host.as_str();
    match platform {
        Platform::Wyy => same(h, "163.com") || has_suffix(h, ".163.com") || has_suffix(
            h,
            ".126.net",
        ),
        Platform::Qqm => same(h, "qq.com") || has_suffix(h, ".qq.com") || same(h, "gtimg.cn")
            || has_suffix(h, ".gtimg.cn") || same(h, "qpic.cn") || has_suffix(h, ".qpic.cn"),
        _ => false,
    }
}

pub open spec fn cover_request(platform: Platform, url: Option<UrlModel>) -> Result<(), ErrorModel> {
    match url {
        None => Err(bad("封面地址无效"@)),
        Some(u) => if (u.scheme == "http"@ || u.scheme == "https"@) && cover_url_allowed(
            platform,
            u,
        ) {
            Ok(())
        } else {
            Err(bad("封面地址不是允许的网易云 / QQ 图片地址"@))
        },
    }
}

/// Whether a picture may be fetched from an address.
pub fn check_cover_address(platform: Platform, url: &Option<ParsedUrl>) -> (r: Result<(), ApiError>)
    ensures
        check_result(r) == cover_request(platform, url_view(*url)),
{
    match url {
        None => Err(ApiError::bad_request("封面地址无效".to_owned())),
        Some(u) => {
            let plain: bool = same(u.scheme.as_str(), "http") || same(u.scheme.as_str(), "https");
            if plain && cover_host_allowed(platform, u) {
                Ok(())
            } else {
                Err(
                    ApiError::bad_request(
                        "封面地址不是允许的网易云 / QQ 图片地址".to_owned(),
                    ),
                )
            }
        },
    }
}

/// Whether a picture may be fetched from an address that was typed or found.
pub fn check_cover_url(platform: Platform, raw: &str) -> (r: Result<(), ApiError>)
    ensures
        check_result(r) == cover_request(platform, url_of(trimmed(raw@))),
{
    let text = trim(raw);
    let url = parse_url(text.as_str());
    check_cover_address(platform, &url)
}

pub open spec fn cover_reply(
    platform: Platform,
    status: u16,
    status_text: Seq<char>,
    url: Option<UrlModel>,
) -> Result<(), ErrorModel> {
    if !(200 <= status < 300) {
        Err(bad("封面下载失败：HTTP "@ + status_text))
    } else if url is Some && cover_url_allowed(platform, url->0) {
        Ok(())
    } else {
        Err(bad("封面重定向到了不允许的地址"@))
    }
}

/// Whether the reply to a picture's address may be read: it is a success, and it did not lead away
/// from the platform's hosts.
pub fn check_cover_reply(
    platform: Platform,
    status: u16,
    status_text: &str,
    url: &Option<ParsedUrl>,
) -> (r: Result<(), ApiError>)
    ensures
        check_result(r) == cover_reply(platform, status, status_text@, url_view(*url)),
{
    if status < 200 || status >= 300 {
        let mut detail = "封面下载失败：HTTP ".to_owned();
        detail.append(status_text);
        return Err(ApiError::bad_request(detail));
    }
    let allowed: bool = match url {
        Some(u) => cover_host_allowed(platform, u),
        None => false,
    };
    if allowed {
        Ok(())
    } else {
        Err(ApiError::bad_request("封面重定向到了不允许的地址".to_owned()))
    }
}

/// The largest picture.
pub const COVER_MAX_BYTES: usize = 16_777_216;

/// A picture as it arrives.
pub struct CoverData {
    pub bytes: Vec<u8>,
}

impl CoverData {
    pub fn new() -> (r: Self)
        ensures
            r.bytes@ == Seq::<u8>::empty(),
    {
        CoverData { bytes: Vec::new() }
    }

    /// Takes in a piece, unless the picture gets too large.
    pub fn append(&mut self, chunk: &Vec<u8>) -> (r: Result<(), ApiError>)
        ensures
            check_result(r) == (if old(self).bytes@.len() + chunk@.len() > COVER_MAX_BYTES {
                Err(bad("封面图片不能超过 16 MB"@))
            } else {
                Ok(())
            }),
            r is Ok ==> final(self).bytes@ == old(self).bytes@ + chunk@,
            r is Err ==> final(self).bytes@ == old(self).bytes@,
    {
        let have: usize = self.bytes.len();
        let more: usize = chunk.len();
        if more > COVER_MAX_BYTES || have > COVER_MAX_BYTES - more {
            return Err(ApiError::bad_request("封面图片不能超过 16 MB".to_owned()));
        }
        let ghost before = self.bytes@;
        let mut i: usize = 0;
        assert(before + chunk@.take(0) =~= before);
        while i < chunk.len()
            invariant
                i <= chunk@.len(),
                self.bytes@ == before + chunk@.take(i as int),
            decreases chunk@.len() - i,
        {
            self.bytes.push(chunk[i]);
            i += 1;
            assert(self.bytes@ =~= before + chunk@.take(i as int));
        }
        assert(chunk@.take(i as int) =~= chunk@);
        Ok(())
    }

    /// The kind of the whole picture.
    pub fn finish(&self) -> (r: Result<&'static str, ApiError>)
        ensures
            match r {
                Ok(mime) => cover_kind(self.bytes@) == Some(mime@),
                Err(e) => cover_kind(self.bytes@) is None && e@ == bad(
                    "在线封面不是 JPEG / PNG 图片"@,
                ),
            },
    {
        match sniff_remote_cover(&self.bytes) {
            Some(mime) => Ok(mime),
            None => Err(ApiError::bad_request("在线封面不是 JPEG / PNG 图片".to_owned())),
        }
    }
}

/// The bytes that a PNG picture begins with.
pub open spec fn png_mark() -> Seq<u8> {
    seq![0x89, 0x50, 0x4e, 0x47, 0x0d, 0x0a, 0x1a, 0x0a]
}

/// The bytes that a JPEG picture begins with.
pub open spec fn jpeg_mark() -> Seq<u8> {
    seq![0xff, 0xd8, 0xff]
}

pub open spec fn cover_kind(data: Seq<u8>) -> Option<Seq<char>> {
    if png_mark().is_prefix_of(data) {
        Some("image/png"@)
    } else if jpeg_mark().is_prefix_of(data) {
        Some("image/jpeg"@)
    } else {
        None
    }
}

/// The kind of a picture by its first bytes.
pub fn sniff_remote_cover(data: &Vec<u8>) -> (r: Option<&'static str>)
    ensures
        match r {
            Some(mime) => cover_kind(data@) == Some(mime@),
            None => cover_kind(data@) is None,
        },
{
    let n: usize = data.len();
    let png: bool = n >= 8 && data[0] == 0x89 && data[1] == 0x50 && data[2] == 0x4e && data[3]
        == 0x47 && data[4] == 0x0d && data[5] == 0x0a && data[6] == 0x1a && data[7] == 0x0a;
    let jpeg: bool = n >= 3 && data[0] == 0xff && data[1] == 0xd8 && data[2] == 0xff;
    proof {
        let p = png_mark();
        let j = jpeg_mark();
        if png {
            assert(p =~= data@.subrange(0, 8));
        } else if p.is_prefix_of(data@) {
            assert(p == data@.subrange(0, 8));
            assert(p[0] == data@[0] && p[1] == data@[1] && p[2] == data@[2] && p[3] == data@[3]
                && p[4] == data@[4] && p[5] == data@[5] && p[6] == data@[6] && p[7] == data@[7]);
        }
        if jpeg {
            assert(j =~= data@.subrange(0, 3));
        } else if j.is_prefix_of(data@) {
            assert(j == data@.subrange(0, 3));
            assert(j[0] == data@[0] && j[1] == data@[1] && j[2] == data@[2]);
        }
    }
    if png {
        Some("image/png")
    } else if jpeg {
        Some("image/jpeg")
    } else {
        None
    }
}

/// A picture that is sent in must not be empty.
pub fn check_picture(len: usize) -> (r: Result<(), ApiError>)
    ensures
        check_result(r) == (if len == 0 {
            Err(bad("没有收到图片数据"@))
        } else {
            Ok(())
        }),
{
    if len == 0 {
        return Err(ApiError::bad_request("没有收到图片数据".to_owned()));
    }
    Ok(())
}

/// The headers of a picture. It may be kept for an hour: a file can be replaced under the same
/// number.
pub fn cover_headers(mime: String) -> (r: Vec<(String, String)>)
    ensures
        crate::urls::pair_views(r@) == seq![
            ("content-type"@, mime@),
            ("cache-control"@, "private, max-age=3600"@),
        ],
{
    let ghost kind = mime@;
    let mut r: Vec<(String, String)> = Vec::new();
    r.push(("content-type".to_owned(), mime));
    r.push(("cache-control".to_owned(), "private, max-age=3600".to_owned()));
    assert(crate::urls::pair_views(r@) =~= seq![
        ("content-type"@, kind),
        ("cache-control"@, "private, max-age=3600"@),
    ]);
    r
}

// ---------------------------------------------------------------- names of kept files

/// A name within a folder.
pub open spec fn joined_path(folder: Seq<char>, name: Seq<char>) -> Seq<char> {
    if folder.len() == 0 || folder.last() == '/' {
        folder + name
    } else {
        folder + "/"@ + name
    }
}

pub fn join_path(folder: &str, name: &str) -> (r: String)
    ensures
        r@ == joined_path(folder@, name@),
{
    let v = crate::text::chars_of(folder);
    let mut r = folder.to_owned();
    if v.len() > 0 && v[v.len() - 1] != '/' {
        r.append("/");
    }
    r.append(name);
    assert(r@ =~= joined_path(folder@, name@));
    r
}

/// The name of what is kept of a track: its number and when its file was changed, so that a
/// replaced file is not taken for the old one.
pub open spec fn kept_name(track_id: i64, mtime: u64, ending: Seq<char>) -> Seq<char> {
    signed_decimal(track_id as int) + "-"@ + decimal(mtime as nat) + ending
}

pub fn kept_file_name(track_id: i64, mtime: u64, ending: &str) -> (r: String)
    ensures
        r@ == kept_name(track_id, mtime, ending@),
{
    let mut r = String::new();
    append_signed(&mut r, track_id);
    r.append("-");
    append_decimal(&mut r, mtime);
    r.append(ending);
    assert(r@ =~= kept_name(track_id, mtime, ending@));
    r
}

/// The file of a kept frame.
pub fn cover_cache_file(cache_dir: &str, track_id: i64, mtime: u64) -> (r: String)
    ensures
        r@ == joined_path(cache_dir@, kept_name(track_id, mtime, ".jpg"@)),
{
    let name = kept_file_name(track_id, mtime, ".jpg");
    join_path(cache_dir, name.as_str())
}

/// Files of different tracks, or of one track at different times, have different names.
pub proof fn kept_names_tell_files_apart(a: i64, m: u64, b: i64, n: u64, ending: Seq<char>)
    requires
        kept_name(a, m, ending) == kept_name(b, n, ending),
    ensures
        a == b,
        m == n,
{
    reveal_strlit("-");
    let x = signed_decimal(a as int);
    let y = signed_decimal(b as int);
    let dm = decimal(m as nat);
    let dn = decimal(n as nat);
    let first = kept_name(a, m, ending);
    let second = kept_name(b, n, ending);
    lemma_decimal_digits(m as nat);
    lemma_decimal_digits(n as nat);
    let p = x.len() as int;
    let q = y.len() as int;
    let end = first.len() - ending.len();
    assert(first[p] == '-' && second[q] == '-');
    assert forall|i: int| p < i < end implies is_digit(#[trigger] first[i]) by {
        assert(first[i] == dm[i - p - 1]);
    }
    assert forall|i: int| q < i < end implies is_digit(#[trigger] second[i]) by {
        assert(second[i] == dn[i - q - 1]);
    }
    assert(p == q) by {
        if p < q {
            assert(is_digit(first[q]));
        }
        if q < p {
            assert(is_digit(second[p]));
        }
    }
    assert(dm =~= first.subrange(p + 1, end));
    assert(dn =~= second.subrange(p + 1, end));
    assert(x =~= first.take(p));
    assert(y =~= second.take(p));
    lemma_signed_differ(a as int, b as int);
}

proof fn lemma_signed_differ(a: int, b: int)
    requires
        signed_decimal(a) == signed_decimal(b),
    ensures
        a == b,
{
    let m: nat = if a < 0 {
        (-a) as nat
    } else {
        a as nat
    };
    let n: nat = if b < 0 {
        (-b) as nat
    } else {
        b as nat
    };
    let x = decimal(m);
    let y = decimal(n);
    lemma_decimal_digits(m);
    lemma_decimal_digits(n);
    assert(is_digit(x[0]) && is_digit(y[0]));
    let s = signed_decimal(a);
    let t = signed_decimal(b);
    assert(a < 0 ==> s[0] == '-' && x =~= s.skip(1));
    assert(b < 0 ==> t[0] == '-' && y =~= t.skip(1));
    assert(a >= 0 ==> s == x);
    assert(b >= 0 ==> t == y);
}

// ---------------------------------------------------------------- the frame of a video

/// A frame that was taken.
#[derive(Clone, Copy, Debug, PartialEq, Eq, Structural)]
pub enum Frame {
    /// There was none at this place.
    Missing,
    Black,
    Good,
}

/// What becomes of the frames so far.
#[derive(Clone, Copy, Debug, PartialEq, Eq, Structural)]
pub struct FrameStep {
    /// The frame that goes.
    pub remove: Option<usize>,
    /// No further frame is taken.
    pub stop: bool,
}

/// Looks for a frame that is not black. A black one is kept as long as there is nothing better.
pub struct FrameSearch {
    pub best: Option<usize>,
}

pub open spec fn after_frame(best: Option<usize>, index: usize, frame: Frame) -> (Option<usize>, FrameStep) {
    match frame {
        Frame::Missing => (best, FrameStep { remove: Some(index), stop: false }),
        Frame::Black => match best {
            Some(_) => (best, FrameStep { remove: Some(index), stop: false }),
            None => (Some(index), FrameStep { remove: None, stop: false }),
        },
        Frame::Good => (Some(index), FrameStep { remove: best, stop: true }),
    }
}

impl FrameSearch {
    pub fn new() -> (r: Self)
        ensures
            r.best is None,
    {
        FrameSearch { best: None }
    }

    pub fn offer(&mut self, index: usize, frame: Frame) -> (r: FrameStep)
        ensures
            (final(self).best, r) == after_frame(old(self).best, index, frame),
    {
        match frame {
            Frame::Missing => FrameStep { remove: Some(index), stop: false },
            Frame::Black => match self.best {
                Some(_) => FrameStep { remove: Some(index), stop: false },
                None => {
                    self.best = Some(index);
                    FrameStep { remove: None, stop: false }
                },
            },
            Frame::Good => {
                let stale = self.best;
                self.best = Some(index);
                FrameStep { remove: stale, stop: true }
            },
        }
    }
}

/// The best frame after the first `n` of a list, taken in order until one is good.
pub open spec fn best_of(frames: Seq<Frame>, n: nat) -> (Option<usize>, bool)
    decreases n,
{
    if n == 0 {
        (None, false)
    } else {
        let (best, stopped) = best_of(frames, (n - 1) as nat);
        if stopped {
            (best, true)
        } else {
            let (next, step) = after_frame(best, (n - 1) as usize, frames[n - 1]);
            (next, step.stop)
        }
    }
}

/// The frame that stands for a video is the first good one; where there is none, the first black
/// one; and none only where nothing could be taken.
pub proof fn the_first_good_frame_wins(frames: Seq<Frame>, n: nat)
    requires
        n <= frames.len() <= usize::MAX,
    ensures
        match best_of(frames, n).0 {
            Some(b) => {
                &&& b < n
                &&& frames[b as int] != Frame::Missing
                &&& best_of(frames, n).1 == (frames[b as int] == Frame::Good)
                &&& forall|i: int| 0 <= i < b ==> #[trigger] frames[i] != Frame::Good
                &&& (frames[b as int] == Frame::Black ==> forall|i: int|
                    0 <= i < n ==> #[trigger] frames[i] != Frame::Good)
                &&& (frames[b as int] == Frame::Black ==> forall|i: int|
                    0 <= i < b ==> #[trigger] frames[i] == Frame::Missing)
            },
            None => !best_of(frames, n).1 && forall|i: int|
                0 <= i < n ==> #[trigger] frames[i] == Frame::Missing,
        },
    decreases n,
{
    if n > 0 {
        the_first_good_frame_wins(frames, (n - 1) as nat);
    }
}

} // verus!
