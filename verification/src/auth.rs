//! Who may call the local service.
//!
//! Two credentials exist. The control token opens every route and travels in the `Authorization`
//! header. The media token opens only the routes that a media element reads, and travels in the
//! query of the URL.

use vstd::prelude::*;

use crate::ids::{id_text, random_u64};
use crate::models::texts;
use crate::text::{
    append_hex, hex, lemma_hex_len, lemma_same_bytes, lower, lower_ascii, same, split,
    split_all, split_at_char, split_once, strip, stripped,
};

verus! {

/// Calls `subtle::ConstantTimeEq::ct_eq` on two byte slices and turns the `Choice` into a `bool`.
/// It is true exactly for equal slices; that it takes the same time for all slices of one length
/// is not stated.
#[verifier::external_body]
fn constant_time_equal(a: &[u8], b: &[u8]) -> (r: bool)
    ensures
        r == (a@ == b@),
{
    bool::from(subtle::ConstantTimeEq::ct_eq(a, b))
}

fn same_secret(a: &str, b: &str) -> (r: bool)
    ensures
        r == (a@ == b@),
{
    if a.len() != b.len() {
        return false;
    }
    let r = constant_time_equal(a.as_bytes(), b.as_bytes());
    proof {
        if r {
            lemma_same_bytes(a@, b@);
        }
    }
    r
}

/// The credential of the control routes, made anew at every start.
pub struct AuthToken(pub String);

/// The credential of the media routes.
pub struct MediaToken(pub String);

impl View for AuthToken {
    type V = Seq<char>;

    open spec fn view(&self) -> Seq<char> {
        self.0@
    }
}

impl View for MediaToken {
    type V = Seq<char>;

    open spec fn view(&self) -> Seq<char> {
        self.0@
    }
}

impl Clone for AuthToken {
    fn clone(&self) -> (r: Self)
        ensures
            r@ == self@,
    {
        AuthToken(self.0.clone())
    }
}

impl Clone for MediaToken {
    fn clone(&self) -> (r: Self)
        ensures
            r@ == self@,
    {
        MediaToken(self.0.clone())
    }
}

/// Four random numbers, written as hexadecimal digits.
pub open spec fn token_text(a: u64, b: u64, c: u64, d: u64) -> Seq<char> {
    id_text(a) + id_text(b) + id_text(c) + id_text(d)
}

pub open spec fn is_lower_hex_digit(c: char) -> bool {
    ('0' <= c && c <= '9') || ('a' <= c && c <= 'f')
}

/// A token holds 64 hexadecimal digits in lower case: 256 bits.
pub proof fn tokens_hold_256_bits(a: u64, b: u64, c: u64, d: u64)
    ensures
        token_text(a, b, c, d).len() == 64,
        forall|i: int|
            0 <= i < 64 ==> is_lower_hex_digit(#[trigger] token_text(a, b, c, d)[i]),
{
    lemma_hex_digits_only(a as nat, 16);
    lemma_hex_digits_only(b as nat, 16);
    lemma_hex_digits_only(c as nat, 16);
    lemma_hex_digits_only(d as nat, 16);
    let all = token_text(a, b, c, d);
    assert forall|i: int| 0 <= i < 64 implies is_lower_hex_digit(#[trigger] all[i]) by {
        if i < 16 {
            assert(all[i] == id_text(a)[i]);
        } else if i < 32 {
            assert(all[i] == id_text(b)[i - 16]);
        } else if i < 48 {
            assert(all[i] == id_text(c)[i - 32]);
        } else {
            assert(all[i] == id_text(d)[i - 48]);
        }
    }
}

proof fn lemma_hex_digits_only(n: nat, width: nat)
    ensures
        hex(n, width, false).len() == width,
        forall|i: int|
            0 <= i < width ==> is_lower_hex_digit(#[trigger] hex(n, width, false)[i]),
    decreases width,
{
    lemma_hex_len(n, width, false);
    if width > 0 {
        let before = hex(n / 16, (width - 1) as nat, false);
        lemma_hex_digits_only(n / 16, (width - 1) as nat);
        assert forall|i: int| 0 <= i < width implies is_lower_hex_digit(
            #[trigger] hex(n, width, false)[i],
        ) by {
            if i < width - 1 {
                assert(hex(n, width, false)[i] == before[i]);
            }
        }
    }
}

/// The token that four numbers make.
pub fn token_of(a: u64, b: u64, c: u64, d: u64) -> (s: String)
    ensures
        s@ == token_text(a, b, c, d),
{
    let mut s = String::new();
    append_hex(&mut s, a, 16, false);
    append_hex(&mut s, b, 16, false);
    append_hex(&mut s, c, 16, false);
    append_hex(&mut s, d, 16, false);
    assert(s@ =~= token_text(a, b, c, d));
    s
}

impl AuthToken {
    /// A fresh token.
    pub fn generate() -> (r: Self)
        ensures
            exists|a: u64, b: u64, c: u64, d: u64| r@ == #[trigger] token_text(a, b, c, d),
    {
        let a: u64 = random_u64();
        let b: u64 = random_u64();
        let c: u64 = random_u64();
        let d: u64 = random_u64();
        AuthToken(token_of(a, b, c, d))
    }

    pub fn expose(&self) -> (r: &str)
        ensures
            r@ == self@,
    {
        self.0.as_str()
    }

    pub fn matches(&self, candidate: &str) -> (r: bool)
        ensures
            r == (candidate@ == self@),
    {
        same_secret(self.0.as_str(), candidate)
    }
}

impl MediaToken {
    /// A fresh token.
    pub fn generate() -> (r: Self)
        ensures
            exists|a: u64, b: u64, c: u64, d: u64| r@ == #[trigger] token_text(a, b, c, d),
    {
        MediaToken(AuthToken::generate().0)
    }

    pub fn expose(&self) -> (r: &str)
        ensures
            r@ == self@,
    {
        self.0.as_str()
    }

    pub fn matches(&self, candidate: &str) -> (r: bool)
        ensures
            r == (candidate@ == self@),
    {
        same_secret(self.0.as_str(), candidate)
    }
}

/// Both credentials.
pub struct AuthState {
    pub control: AuthToken,
    pub media: MediaToken,
}

#[derive(Clone, Copy, PartialEq, Eq, Debug, Structural)]
pub enum Method {
    Get,
    Head,
    Post,
    Put,
    Patch,
    Delete,
    Options,
    Other,
}

/// The `Origin` header of a request.
pub enum OriginHeader {
    Absent,
    /// Not a text of visible ASCII characters.
    Unreadable,
    Text(String),
}

/// What the rules read of a request.
pub struct RequestHead {
    pub method: Method,
    pub path: String,
    pub query: Option<String>,
    /// The `Authorization` header, where there is one that can be read as text.
    pub authorization: Option<String>,
    pub origin: OriginHeader,
}

/// An origin that the service answers to. The origins of a development server count only in
/// development builds.
pub open spec fn is_trusted_origin(origin: Seq<char>, development: bool) -> bool {
    ||| origin == "tauri://localhost"@
    ||| origin == "http://tauri.localhost"@
    ||| origin == "https://tauri.localhost"@
    ||| development && (origin == "http://localhost:5274"@ || origin == "http://127.0.0.1:5274"@)
}

/// Whether the service answers to an origin.
pub fn origin_allowed(origin: &str, development: bool) -> (r: bool)
    ensures
        r == is_trusted_origin(origin@, development),
{
    same(origin, "tauri://localhost") || same(origin, "http://tauri.localhost") || same(
        origin,
        "https://tauri.localhost",
    ) || (development && (same(origin, "http://localhost:5274") || same(
        origin,
        "http://127.0.0.1:5274",
    )))
}

/// The credential of a bearer header: what follows the first space behind the word `bearer`, in
/// any case.
pub open spec fn bearer_of(header: Option<Seq<char>>) -> Option<Seq<char>> {
    match header {
        Some(value) => match split_at_char(value, ' ') {
            Some(parts) => if lower(parts.0) == "bearer"@ && parts.1.len() > 0 {
                Some(parts.1)
            } else {
                None
            },
            None => None,
        },
        None => None,
    }
}

pub fn bearer(header: &Option<String>) -> (r: Option<String>)
    ensures
        crate::models::text_of(r) == bearer_of(crate::models::text_of(*header)),
{
    match header {
        Some(value) => match split_once(value.as_str(), ' ') {
            Some(parts) => {
                let scheme = lower_ascii(parts.0.as_str());
                if same(scheme.as_str(), "bearer") && !parts.1.as_str().is_empty() {
                    Some(parts.1)
                } else {
                    None
                }
            },
            None => None,
        },
        None => None,
    }
}

/// The value of the first part that is named `kdj_media_token`.
pub open spec fn first_media_token(parts: Seq<Seq<char>>) -> Option<Seq<char>>
    decreases parts.len(),
{
    if parts.len() == 0 {
        None
    } else {
        match split_at_char(parts[0], '=') {
            Some(pair) => if pair.0 == "kdj_media_token"@ {
                Some(pair.1)
            } else {
                first_media_token(parts.drop_first())
            },
            None => first_media_token(parts.drop_first()),
        }
    }
}

/// The media token in a request's query; only reading requests can carry one.
pub open spec fn media_token_of(method: Method, query: Option<Seq<char>>) -> Option<Seq<char>> {
    match query {
        Some(text) if method == Method::Get || method == Method::Head => first_media_token(
            split_all(text, '&'),
        ),
        _ => None,
    }
}

pub fn media_query_token(method: Method, query: &Option<String>) -> (r: Option<String>)
    ensures
        crate::models::text_of(r) == media_token_of(method, crate::models::text_of(*query)),
{
    if method != Method::Get && method != Method::Head {
        return None;
    }
    match query {
        Some(text) => {
            let parts = split(text.as_str(), '&');
            let ghost all = texts(parts@);
            let mut i: usize = 0;
            assert(all.skip(0) =~= all);
            while i < parts.len()
                invariant
                    i <= parts.len(),
                    all == texts(parts@),
                    all == split_all(text@, '&'),
                    *query == Some(*text),
                    method == Method::Get || method == Method::Head,
                    first_media_token(all) == first_media_token(all.skip(i as int)),
                decreases parts.len() - i,
            {
                assert(all.skip(i as int)[0] == parts[i as int]@);
                assert(all.skip(i as int).drop_first() =~= all.skip(i + 1));
                if let Some(pair) = split_once(parts[i].as_str(), '=') {
                    if same(pair.0.as_str(), "kdj_media_token") {
                        return Some(pair.1);
                    }
                }
                i += 1;
            }
            None
        },
        None => None,
    }
}

/// A path that the media token opens, as its parts between the slashes.
pub open spec fn is_media_parts(parts: Seq<Seq<char>>) -> bool {
    ||| {
        &&& parts.len() == 4
        &&& parts[0] == "api"@
        &&& parts[1] == "library"@
        &&& parts[2] == "audio"@ || parts[2] == "video"@ || parts[2] == "cover"@
        &&& parts[3].len() > 0
    }
    ||| {
        &&& parts.len() == 4
        &&& parts[0] == "api"@
        &&& parts[1] == "song"@
        &&& parts[2] == "preview"@
        &&& parts[3].len() > 0
    }
    ||| {
        &&& parts.len() == 5
        &&& parts[0] == "api"@
        &&& parts[1] == "video"@
        &&& parts[2] == "youtube"@
        &&& parts[3] == "hls"@
        &&& parts[4].len() > 0
    }
}

/// A path that the media token opens.
pub open spec fn is_media_path(path: Seq<char>) -> bool {
    path == "/api/video/preview"@ || is_media_parts(split_all(stripped(path, '/'), '/'))
}

/// Whether the media token opens a path.
pub fn media_path_allowed(path: &str) -> (r: bool)
    ensures
        r == is_media_path(path@),
{
    if same(path, "/api/video/preview") {
        return true;
    }
    let parts = split(strip(path, '/').as_str(), '/');
    let ghost all = texts(parts@);
    assert(all.len() == parts.len());
    if parts.len() == 4 {
        assert(all[0] == parts[0]@ && all[1] == parts[1]@ && all[2] == parts[2]@ && all[3]
            == parts[3]@);
        same(parts[0].as_str(), "api") && !parts[3].as_str().is_empty() && ((same(
            parts[1].as_str(),
            "library",
        ) && (same(parts[2].as_str(), "audio") || same(parts[2].as_str(), "video") || same(
            parts[2].as_str(),
            "cover",
        ))) || (same(parts[1].as_str(), "song") && same(parts[2].as_str(), "preview")))
    } else if parts.len() == 5 {
        assert(all[0] == parts[0]@ && all[1] == parts[1]@ && all[2] == parts[2]@ && all[3]
            == parts[3]@ && all[4] == parts[4]@);
        same(parts[0].as_str(), "api") && same(parts[1].as_str(), "video") && same(
            parts[2].as_str(),
            "youtube",
        ) && same(parts[3].as_str(), "hls") && !parts[4].as_str().is_empty()
    } else {
        false
    }
}

/// A request carries a credential for what it asks.
pub open spec fn is_authorized(
    method: Method,
    path: Seq<char>,
    query: Option<Seq<char>>,
    authorization: Option<Seq<char>>,
    control: Seq<char>,
    media: Seq<char>,
) -> bool {
    ||| bearer_of(authorization) == Some(control)
    ||| is_media_path(path) && media_token_of(method, query) == Some(media)
}

pub fn request_authorized(request: &RequestHead, auth: &AuthState) -> (r: bool)
    ensures
        r == is_authorized(
            request.method,
            request.path@,
            crate::models::text_of(request.query),
            crate::models::text_of(request.authorization),
            auth.control@,
            auth.media@,
        ),
{
    if let Some(candidate) = bearer(&request.authorization) {
        if auth.control.matches(candidate.as_str()) {
            return true;
        }
    }
    if !media_path_allowed(request.path.as_str()) {
        return false;
    }
    match media_query_token(request.method, &request.query) {
        Some(candidate) => auth.media.matches(candidate.as_str()),
        None => false,
    }
}

/// What becomes of a request before any route sees it.
#[derive(Clone, Copy, PartialEq, Eq, Debug, Structural)]
pub enum Verdict {
    Pass,
    /// The origin is not trusted.
    Forbidden,
    /// The credential is missing or wrong.
    Unauthorized,
}

pub open spec fn origin_refused(origin: OriginHeader, development: bool) -> bool {
    match origin {
        OriginHeader::Absent => false,
        OriginHeader::Unreadable => true,
        OriginHeader::Text(text) => !is_trusted_origin(text@, development),
    }
}

pub open spec fn verdict_of(request: RequestHead, auth: AuthState, development: bool) -> Verdict {
    if request.method == Method::Options || request.path@ == "/ws"@ {
        Verdict::Pass
    } else if origin_refused(request.origin, development) {
        Verdict::Forbidden
    } else if is_authorized(
        request.method,
        request.path@,
        crate::models::text_of(request.query),
        crate::models::text_of(request.authorization),
        auth.control@,
        auth.media@,
    ) {
        Verdict::Pass
    } else {
        Verdict::Unauthorized
    }
}

/// Decides on a request. A preflight request carries no credential, and the WebSocket route checks
/// its own.
pub fn require_auth(request: &RequestHead, auth: &AuthState, development: bool) -> (r: Verdict)
    ensures
        r == verdict_of(*request, *auth, development),
{
    if request.method == Method::Options {
        return Verdict::Pass;
    }
    if same(request.path.as_str(), "/ws") {
        return Verdict::Pass;
    }
    let refused: bool = match &request.origin {
        OriginHeader::Absent => false,
        OriginHeader::Unreadable => true,
        OriginHeader::Text(text) => !origin_allowed(text.as_str(), development),
    };
    if refused {
        return Verdict::Forbidden;
    }
    if request_authorized(request, auth) {
        Verdict::Pass
    } else {
        Verdict::Unauthorized
    }
}

impl Verdict {
    /// The status and the message of a refusal.
    pub open spec fn reply(self) -> Option<(u16, Seq<char>)> {
        match self {
            Verdict::Pass => None,
            Verdict::Forbidden => Some((403, "请求来源不受信任"@)),
            Verdict::Unauthorized => Some((401, "本地服务认证失败"@)),
        }
    }

    pub fn refusal(self) -> (r: Option<(u16, &'static str)>)
        ensures
            match r {
                Some(reply) => self.reply() == Some((reply.0, reply.1@)),
                None => self.reply() is None,
            },
    {
        match self {
            Verdict::Pass => None,
            Verdict::Forbidden => Some((403, "请求来源不受信任")),
            Verdict::Unauthorized => Some((401, "本地服务认证失败")),
        }
    }
}

/// A caller without the control token reaches nothing but media paths, by reading requests.
pub proof fn the_media_token_opens_only_media_reads(
    request: RequestHead,
    auth: AuthState,
    development: bool,
)
    requires
        bearer_of(crate::models::text_of(request.authorization)) != Some(auth.control@),
        request.method != Method::Options,
        request.path@ != "/ws"@,
        verdict_of(request, auth, development) == Verdict::Pass,
    ensures
        is_media_path(request.path@),
        request.method == Method::Get || request.method == Method::Head,
{
}

/// The control token opens every path, whatever the method, unless the origin is not trusted.
pub proof fn the_control_token_opens_everything(
    request: RequestHead,
    auth: AuthState,
    development: bool,
)
    requires
        bearer_of(crate::models::text_of(request.authorization)) == Some(auth.control@),
        !origin_refused(request.origin, development),
    ensures
        verdict_of(request, auth, development) == Verdict::Pass,
{
}

/// The media token in the header opens nothing.
pub proof fn the_media_token_is_no_bearer(request: RequestHead, auth: AuthState, development: bool)
    requires
        bearer_of(crate::models::text_of(request.authorization)) == Some(auth.media@),
        auth.media@ != auth.control@,
        request.query is None,
        request.method != Method::Options,
        request.path@ != "/ws"@,
    ensures
        verdict_of(request, auth, development) != Verdict::Pass,
{
}

/// A request from an origin that is not trusted is refused, even with the control token.
pub proof fn an_untrusted_origin_is_refused(
    request: RequestHead,
    auth: AuthState,
    development: bool,
)
    requires
        origin_refused(request.origin, development),
        request.method != Method::Options,
        request.path@ != "/ws"@,
    ensures
        verdict_of(request, auth, development) == Verdict::Forbidden,
{
}

} // verus!
