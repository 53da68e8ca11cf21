//! Protected playback of YouTube Music: which tokens, addresses and sessions are accepted.

use vstd::prelude::*;

use crate::error::{bad, check_result, plain, text_result, ApiError, ErrorModel};
use crate::json::{json_size, json_size_of};
use crate::models::{text_of, Platform};
use crate::protected_media::{declared_type, read_declared_type};
use crate::text::{
    byte_count, byte_len, chars_of, contains, first_chars, has_prefix, occurs_in, parse_u64,
    parsed_u64, same, take_chars, trim, trimmed,
};
use crate::urls::{
    find_last, googlevideo_host, host_of, is_googlevideo_host, last_value, lower_host, parse_url,
    url_of, url_view, ParsedUrl, UrlModel,
};

verus! {

/// A letter or a digit of ASCII, or one of `-`, `_`, `=`.
pub open spec fn is_token_char(c: char) -> bool {
    ||| '0' <= c && c <= '9'
    ||| 'a' <= c && c <= 'z'
    ||| 'A' <= c && c <= 'Z'
    ||| c == '-'
    ||| c == '_'
    ||| c == '='
}

/// A proof of playback: 80 to 2048 characters of the URL-safe alphabet.
pub open spec fn is_po_token(s: Seq<char>) -> bool {
    &&& 80 <= s.len() <= 2048
    &&& forall|i: int| 0 <= i < s.len() ==> is_token_char(#[trigger] s[i])
}

pub fn valid_web_po_token(value: &str) -> (r: bool)
    ensures
        r == is_po_token(value@),
{
    let v = chars_of(value);
    if v.len() < 80 || v.len() > 2048 {
        return false;
    }
    let mut i: usize = 0;
    while i < v.len()
        invariant
            i <= v.len(),
            v@ == value@,
            forall|j: int| 0 <= j < i ==> is_token_char(#[trigger] v@[j]),
        decreases v.len() - i,
    {
        let c = v[i];
        if !(('0' <= c && c <= '9') || ('a' <= c && c <= 'z') || ('A' <= c && c <= 'Z') || c == '-'
            || c == '_' || c == '=') {
            assert(!is_token_char(v@[i as int]));
            return false;
        }
        i += 1;
    }
    true
}

/// A text with a line break in it.
pub open spec fn has_line_break(s: Seq<char>) -> bool {
    s.contains('\r') || s.contains('\n')
}

pub fn line_break_in(s: &str) -> (r: bool)
    ensures
        r == has_line_break(s@),
{
    let v = chars_of(s);
    let mut i: usize = 0;
    while i < v.len()
        invariant
            i <= v.len(),
            v@ == s@,
            forall|j: int| 0 <= j < i ==> v@[j] != '\r' && v@[j] != '\n',
        decreases v.len() - i,
    {
        if v[i] == '\r' || v[i] == '\n' {
            assert(s@[i as int] == '\r' || s@[i as int] == '\n');
            return true;
        }
        i += 1;
    }
    false
}

/// The only addresses that protected requests go to.
pub open spec fn is_sabr_url(url: UrlModel) -> bool {
    &&& url.scheme == "https"@
    &&& url.port == Some(443u16)
    &&& is_googlevideo_host(host_of(url))
    &&& url.path == "/videoplayback"@
    &&& url.username.len() == 0
    &&& !url.has_password
    &&& !url.has_fragment
}

pub open spec fn sabr_url(value: Seq<char>, parsed: Option<UrlModel>) -> Result<
    Seq<char>,
    ErrorModel,
> {
    if value.len() == 0 || byte_count(value) > 8192 || has_line_break(value) {
        Err(bad("YouTube SABR URL 无效"@))
    } else {
        match parsed {
            None => Err(bad("YouTube SABR URL 无效"@)),
            Some(url) => if is_sabr_url(url) {
                Ok(url.text)
            } else {
                Err(bad("YouTube SABR URL 不受信任"@))
            },
        }
    }
}

/// Judges the address of a protected request that has been taken apart.
pub fn check_sabr_url(value: &str, parsed: Option<ParsedUrl>) -> (r: Result<String, ApiError>)
    ensures
        text_result(r) == sabr_url(value@, url_view(parsed)),
{
    if value.is_empty() || byte_len(value) > 8192 || line_break_in(value) {
        return Err(ApiError::bad_request("YouTube SABR URL 无效".to_owned()));
    }
    match parsed {
        None => Err(ApiError::bad_request("YouTube SABR URL 无效".to_owned())),
        Some(url) => {
            let host = lower_host(&url);
            let trusted: bool = same(url.scheme.as_str(), "https") && url.port == Some(443u16)
                && googlevideo_host(host.as_str()) && same(url.path.as_str(), "/videoplayback")
                && url.username.as_str().is_empty() && !url.has_password && !url.has_fragment;
            if trusted {
                Ok(url.text)
            } else {
                Err(ApiError::bad_request("YouTube SABR URL 不受信任".to_owned()))
            }
        },
    }
}

/// The address of a protected request, in its normal form.
pub fn validated_ytm_sabr_url(value: &str) -> (r: Result<String, ApiError>)
    ensures
        text_result(r) == sabr_url(value@, url_of(value@)),
{
    let parsed = parse_url(value);
    check_sabr_url(value, parsed)
}

/// An address of sound on the video host that carries this token.
pub open spec fn is_stream_url(url: UrlModel, token: Seq<char>) -> bool {
    &&& url.scheme == "https"@
    &&& is_googlevideo_host(host_of(url))
    &&& url.path == "/videoplayback"@
    &&& last_value(url.query, "pot"@) == Some(token)
    &&& last_value(url.query, "mime"@) matches Some(mime) && "audio/"@.is_prefix_of(mime)
}

pub open spec fn stream_url(value: Seq<char>, token: Seq<char>, parsed: Option<UrlModel>) -> Result<
    Seq<char>,
    ErrorModel,
> {
    if byte_count(value) > 16_384 || has_line_break(value) {
        Err(bad("YouTube Music 音频 URL 无效"@))
    } else {
        match parsed {
            None => Err(bad("YouTube Music 音频 URL 无效"@)),
            Some(url) => if is_stream_url(url, token) {
                Ok(url.text)
            } else {
                Err(bad("YouTube Music 音频 URL 不属于受信任的 GVS 来源"@))
            },
        }
    }
}

/// Judges the address of a stream that has been taken apart.
pub fn check_stream_url(value: &str, po_token: &str, parsed: Option<ParsedUrl>) -> (r: Result<
    String,
    ApiError,
>)
    ensures
        text_result(r) == stream_url(value@, po_token@, url_view(parsed)),
{
    if byte_len(value) > 16_384 || line_break_in(value) {
        return Err(ApiError::bad_request("YouTube Music 音频 URL 无效".to_owned()));
    }
    match parsed {
        None => Err(ApiError::bad_request("YouTube Music 音频 URL 无效".to_owned())),
        Some(url) => {
            let host = lower_host(&url);
            let token_fits: bool = match find_last(&url.query, "pot") {
                Some(pot) => same(pot.as_str(), po_token),
                None => false,
            };
            let audio: bool = match find_last(&url.query, "mime") {
                Some(mime) => has_prefix(mime.as_str(), "audio/"),
                None => false,
            };
            if same(url.scheme.as_str(), "https") && googlevideo_host(host.as_str()) && same(
                url.path.as_str(),
                "/videoplayback",
            ) && token_fits && audio {
                Ok(url.text)
            } else {
                Err(
                    ApiError::bad_request(
                        "YouTube Music 音频 URL 不属于受信任的 GVS 来源".to_owned(),
                    ),
                )
            }
        },
    }
}

/// The address of a stream, in its normal form.
pub fn validated_ytm_browser_stream_url(value: &str, po_token: &str) -> (r: Result<
    String,
    ApiError,
>)
    ensures
        text_result(r) == stream_url(value@, po_token@, url_of(value@)),
{
    let parsed = parse_url(value);
    check_stream_url(value, po_token, parsed)
}

/// When an address expires, in seconds of the epoch.
pub open spec fn expiry_of(url: UrlModel) -> Option<u64> {
    match last_value(url.query, "expire"@) {
        Some(text) => parsed_u64(text),
        None => None,
    }
}

/// An address is fresh for more than a minute.
pub open spec fn fresh_url(url: Option<UrlModel>, text: Seq<char>, now: u64) -> Result<
    Seq<char>,
    ErrorModel,
> {
    match url {
        None => Err(bad("YouTube Music 音频 URL 无效"@)),
        Some(u) => match expiry_of(u) {
            None => Err(bad("YouTube Music 音频 URL 缺少有效期"@)),
            Some(expires) => if expires > now + 60 {
                Ok(text)
            } else {
                Err(bad("YouTube Music 音频 URL 已过期"@))
            },
        },
    }
}

/// Judges how long an address, which has been taken apart, is good for.
pub fn check_fresh_url(parsed: Option<ParsedUrl>, text: String, now: u64) -> (r: Result<
    String,
    ApiError,
>)
    ensures
        text_result(r) == fresh_url(url_view(parsed), text@, now),
{
    match parsed {
        None => Err(ApiError::bad_request("YouTube Music 音频 URL 无效".to_owned())),
        Some(url) => {
            let expires: Option<u64> = match find_last(&url.query, "expire") {
                Some(value) => parse_u64(value.as_str()),
                None => None,
            };
            match expires {
                None => Err(
                    ApiError::bad_request("YouTube Music 音频 URL 缺少有效期".to_owned()),
                ),
                Some(at) => {
                    let fresh: bool = now <= u64::MAX - 60 && at > now + 60;
                    if fresh {
                        Ok(text)
                    } else {
                        Err(ApiError::bad_request("YouTube Music 音频 URL 已过期".to_owned()))
                    }
                },
            }
        },
    }
}

/// The address of a stream for a download that begins now.
pub fn validated_fresh_ytm_download_url(value: &str, po_token: &str, now: u64) -> (r: Result<
    String,
    ApiError,
>)
    ensures
        text_result(r) == match stream_url(value@, po_token@, url_of(value@)) {
            Ok(text) => fresh_url(url_of(text), text, now),
            Err(e) => Err(e),
        },
{
    match validated_ytm_browser_stream_url(value, po_token) {
        Ok(text) => {
            let parsed = parse_url(text.as_str());
            check_fresh_url(parsed, text, now)
        },
        Err(e) => Err(e),
    }
}

/// What a trial request to the video host has to answer.
pub open spec fn preflight(
    status: u16,
    status_text: Seq<char>,
    content_type: Option<Seq<char>>,
) -> Result<(), ErrorModel> {
    let kind = declared_type(content_type);
    if status == 401 || status == 403 {
        Err(plain(401, "YouTube Music GVS 授权被拒绝（上游 "@ + status_text + "）"@))
    } else if !(200 <= status < 300) {
        Err(plain(502, "YouTube Music GVS 预检返回 "@ + status_text))
    } else if kind.len() > 0 && kind != "application/octet-stream"@ && !"audio/"@.is_prefix_of(
        kind,
    ) {
        Err(plain(502, "YouTube Music GVS 没有返回音频内容"@))
    } else {
        Ok(())
    }
}

pub fn validate_ytm_preflight_response(
    status: u16,
    status_text: &str,
    content_type: &Option<String>,
) -> (r: Result<(), ApiError>)
    ensures
        check_result(r) == preflight(status, status_text@, text_of(*content_type)),
{
    if status == 401 || status == 403 {
        let mut detail = "YouTube Music GVS 授权被拒绝（上游 ".to_owned();
        detail.append(status_text);
        detail.append("）");
        return Err(ApiError::new(401, detail));
    }
    if status < 200 || status >= 300 {
        let mut detail = "YouTube Music GVS 预检返回 ".to_owned();
        detail.append(status_text);
        return Err(ApiError::new(502, detail));
    }
    let kind = read_declared_type(content_type);
    if !kind.as_str().is_empty() && !same(kind.as_str(), "application/octet-stream") && !has_prefix(
        kind.as_str(),
        "audio/",
    ) {
        return Err(ApiError::new(502, "YouTube Music GVS 没有返回音频内容".to_owned()));
    }
    Ok(())
}

/// What a browser session sends for a protected player.
pub struct PlayerRequest {
    pub platform: Platform,
    pub po_token: Option<String>,
    pub visitor_data: String,
    pub data_sync_id: String,
    pub player_url: String,
    pub signature_timestamp: u64,
}

/// A text of at most `limit` bytes on one line.
pub open spec fn is_short_line(s: Seq<char>, limit: nat) -> bool {
    byte_count(s) <= limit && !has_line_break(s)
}

fn short_line(s: &str, limit: usize) -> (r: bool)
    ensures
        r == is_short_line(s@, limit as nat),
{
    byte_len(s) <= limit && !line_break_in(s)
}

pub open spec fn is_player_request(request: PlayerRequest) -> bool {
    &&& request.platform == Platform::Ytm
    &&& request.po_token matches Some(token) ==> is_po_token(token@)
    &&& request.visitor_data@.len() > 0
    &&& is_short_line(request.visitor_data@, 4096)
    &&& is_short_line(request.data_sync_id@, 512)
    &&& is_short_line(request.player_url@, 4096)
    &&& 10_000 <= request.signature_timestamp <= 100_000
}

/// Judges the request for a protected player.
pub fn check_player_request(request: &PlayerRequest) -> (r: Result<(), ApiError>)
    ensures
        check_result(r) == if is_player_request(*request) {
            Ok(())
        } else {
            Err(bad("YouTube Music WebPO 参数无效"@))
        },
{
    let token_fits: bool = match &request.po_token {
        Some(token) => valid_web_po_token(token.as_str()),
        None => true,
    };
    if request.platform == Platform::Ytm && token_fits && !request.visitor_data.as_str().is_empty()
        && short_line(request.visitor_data.as_str(), 4096) && short_line(
        request.data_sync_id.as_str(),
        512,
    ) && short_line(request.player_url.as_str(), 4096) && 10_000 <= request.signature_timestamp
        && request.signature_timestamp <= 100_000 {
        Ok(())
    } else {
        Err(ApiError::bad_request("YouTube Music WebPO 参数无效".to_owned()))
    }
}

/// Judges a challenge request by its operation and the size of its payload.
pub fn check_botguard(operation: &str, payload_bytes: usize) -> (r: Result<(), ApiError>)
    ensures
        check_result(r) == if (operation@ == "Create"@ || operation@ == "GenerateIT"@)
            && payload_bytes <= 524_288 {
            Ok(())
        } else {
            Err(bad("YouTube BotGuard 参数无效"@))
        },
{
    if (same(operation, "Create") || same(operation, "GenerateIT")) && payload_bytes <= 524_288 {
        Ok(())
    } else {
        Err(ApiError::bad_request("YouTube BotGuard 参数无效".to_owned()))
    }
}

/// Judges a challenge request whose payload is this JSON text; it is measured as it will be sent.
pub fn botguard_request(operation: &str, payload: &str) -> (r: Result<(), ApiError>)
    ensures
        check_result(r) == if (operation@ == "Create"@ || operation@ == "GenerateIT"@)
            && json_size_of(payload@) is Some && json_size_of(payload@)->0 <= 524_288 {
            Ok(())
        } else {
            Err(bad("YouTube BotGuard 参数无效"@))
        },
{
    let size: usize = match json_size(payload) {
        Some(n) => n,
        None => usize::MAX,
    };
    check_botguard(operation, size)
}

pub open spec fn proxy_target(
    body_bytes: usize,
    header: Option<Seq<char>>,
    parsed: Option<UrlModel>,
) -> Result<Seq<char>, ErrorModel> {
    if !(0 < body_bytes <= 1_048_576) {
        Err(bad("YouTube SABR 请求体无效"@))
    } else {
        match header {
            None => Err(bad("YouTube SABR URL 缺失"@)),
            Some(value) => sabr_url(value, parsed),
        }
    }
}

/// Where a proxied request goes. `header` is the address header, where it can be read as text.
pub fn sabr_proxy_target(body_bytes: usize, header: &Option<String>) -> (r: Result<String, ApiError>)
    ensures
        text_result(r) == proxy_target(
            body_bytes,
            text_of(*header),
            match *header {
                Some(value) => url_of(value@),
                None => None,
            },
        ),
{
    if body_bytes == 0 || body_bytes > 1_048_576 {
        return Err(ApiError::bad_request("YouTube SABR 请求体无效".to_owned()));
    }
    match header {
        None => Err(ApiError::bad_request("YouTube SABR URL 缺失".to_owned())),
        Some(value) => validated_ytm_sabr_url(value.as_str()),
    }
}

/// Judges a session that a browser feeds.
pub fn check_spool_request(platform: Platform, total: u64, content_type: &str) -> (r: Result<
    (),
    ApiError,
>)
    ensures
        check_result(r) == if platform == Platform::Ytm && 0 < total <= 536_870_912 && (
        content_type@ == "audio/mp4"@ || content_type@ == "audio/webm"@) {
            Ok(())
        } else {
            Err(bad("YouTube SABR 媒体参数无效"@))
        },
{
    if platform == Platform::Ytm && total > 0 && total <= 536_870_912 && (same(
        content_type,
        "audio/mp4",
    ) || same(content_type, "audio/webm")) {
        Ok(())
    } else {
        Err(ApiError::bad_request("YouTube SABR 媒体参数无效".to_owned()))
    }
}

/// The extension of the file of a session.
pub fn spool_extension(content_type: &str) -> (r: &'static str)
    ensures
        r@ == if content_type@ == "audio/webm"@ {
            "webm"@
        } else {
            "m4a"@
        },
{
    if same(content_type, "audio/webm") {
        "webm"
    } else {
        "m4a"
    }
}

/// The extension of the file of a stream, by the media type in its address.
pub fn stream_extension(url: &str) -> (r: &'static str)
    ensures
        r@ == if occurs_in("mime=audio%2Fwebm"@, url@) || occurs_in("mime=audio/webm"@, url@) {
            "webm"@
        } else {
            "m4a"@
        },
{
    if contains(url, "mime=audio%2Fwebm") || contains(url, "mime=audio/webm") {
        "webm"
    } else {
        "m4a"
    }
}

/// The message of a session that a browser gives up: at most 500 characters, or a stock phrase.
pub open spec fn failure_text(error: Seq<char>) -> Seq<char> {
    let message = first_chars(trimmed(error), 500);
    if message.len() == 0 {
        "YouTube SABR 媒体会话失败"@
    } else {
        message
    }
}

pub fn spool_failure(error: &str) -> (r: String)
    ensures
        r@ == failure_text(error@),
{
    let message = take_chars(trim(error).as_str(), 500);
    if message.as_str().is_empty() {
        "YouTube SABR 媒体会话失败".to_owned()
    } else {
        message
    }
}

/// What a proof of playback is bound to.
#[derive(Clone, Copy, PartialEq, Eq, Debug, Structural)]
pub enum TokenBinding {
    VideoId,
    DataSyncId,
    VisitorData,
}

impl TokenBinding {
    pub open spec fn name(self) -> Seq<char> {
        match self {
            TokenBinding::VideoId => "video_id"@,
            TokenBinding::DataSyncId => "data_sync_id"@,
            TokenBinding::VisitorData => "visitor_data"@,
        }
    }

    pub fn as_str(self) -> (r: &'static str)
        ensures
            r@ == self.name(),
    {
        match self {
            TokenBinding::VideoId => "video_id",
            TokenBinding::DataSyncId => "data_sync_id",
            TokenBinding::VisitorData => "visitor_data",
        }
    }
}

/// Every address that is accepted, for a proxied request or for a stream, lies on the video host
/// and is reached over TLS.
pub proof fn accepted_addresses_are_trusted(
    value: Seq<char>,
    token: Seq<char>,
    url: UrlModel,
    now: u64,
)
    ensures
        sabr_url(value, Some(url)) is Ok || stream_url(value, token, Some(url)) is Ok ==> {
            &&& url.scheme == "https"@
            &&& is_googlevideo_host(host_of(url))
            &&& url.path == "/videoplayback"@
        },
        stream_url(value, token, Some(url)) is Ok ==> last_value(url.query, "pot"@) == Some(token),
        fresh_url(Some(url), value, now) is Ok ==> (expiry_of(url) matches Some(at) && at > now
            + 60),
{
}

} // verus!
