//! Requests to play an online track: from what the client sends to a ticket.

use vstd::prelude::*;

use crate::error::{bad, plain, ApiError, ErrorModel};
use crate::models::{text_of, texts, Platform, Quality, SongSource, TaskState};
use crate::protected_media::{declared_type, read_declared_type, LOCAL_RANGE_CHUNK_BYTES};
use crate::text::{hex, lower_ascii, lower, occurs_in, same};
use crate::tickets::{SongPreviewTicket, TicketModel};
use crate::urls::url_of;
use crate::ytm::{
    fresh_url, is_po_token, stream_extension, stream_url, valid_web_po_token,
    validated_fresh_ytm_download_url, validated_ytm_browser_stream_url,
};

verus! {

/// What a client sends to play an online track.
pub struct SongPreviewBody {
    pub source: SongSource,
    pub quality: Option<Quality>,
    /// What is kept of the track is not used but dropped.
    pub bypass_cache: bool,
    pub po_token: Option<String>,
    pub po_tokens: Vec<String>,
    pub resolved_url: Option<String>,
    pub resolved_urls: Vec<String>,
}

/// What to do for a request, one thing after another.
pub enum PreviewAction {
    /// Drop what is kept of the track.
    Invalidate,
    /// Look whether the track is kept.
    Lookup,
    /// Ask the platform for an address.
    AskProvider,
    /// Open the growing file of a protected stream: its address, the alternatives, the extension.
    Open(String, Vec<String>, &'static str),
    /// Issue this ticket.
    Issue(SongPreviewTicket),
    Fail(ApiError),
}

/// What came of it.
pub enum PreviewEvent {
    Invalidated,
    /// The media type of what is kept.
    Found(Option<String>),
    /// What the platform answered.
    Offered(Result<Option<String>, ApiError>),
    /// The growing file.
    Opened(Result<u64, String>),
}

pub enum PreviewWant {
    Invalidate,
    Lookup,
    AskProvider,
    Open(Seq<char>, Seq<Seq<char>>, Seq<char>),
    Issue(TicketModel),
    Fail(ErrorModel),
}

pub open spec fn want_of(action: PreviewAction) -> PreviewWant {
    match action {
        PreviewAction::Invalidate => PreviewWant::Invalidate,
        PreviewAction::Lookup => PreviewWant::Lookup,
        PreviewAction::AskProvider => PreviewWant::AskProvider,
        PreviewAction::Open(url, urls, extension) => PreviewWant::Open(
            url@,
            texts(urls@),
            extension@,
        ),
        PreviewAction::Issue(ticket) => PreviewWant::Issue(ticket@),
        PreviewAction::Fail(e) => PreviewWant::Fail(e@),
    }
}

#[derive(Clone, Copy, PartialEq, Eq, Debug, Structural)]
pub enum PreviewStage {
    /// Before the cache has been asked.
    Cache,
    /// Waiting for an address or a file.
    Source,
    Ended,
}

/// One request on its way to a ticket.
pub struct SongPreview {
    pub body: SongPreviewBody,
    pub quality: Quality,
    pub cache_key: String,
    /// The address of the protected stream that is being opened.
    pub protected_url: Option<String>,
    pub stage: PreviewStage,
}

#[verifier::ext_equal]
pub struct PreviewModel {
    pub source: crate::models::SongSourceModel,
    pub po_token: Option<Seq<char>>,
    pub po_tokens: Seq<Seq<char>>,
    pub resolved_url: Option<Seq<char>>,
    pub resolved_urls: Seq<Seq<char>>,
    pub quality: Quality,
    pub cache_key: Seq<char>,
    pub protected_url: Option<Seq<char>>,
    pub stage: PreviewStage,
}

impl View for SongPreview {
    type V = PreviewModel;

    open spec fn view(&self) -> PreviewModel {
        PreviewModel {
            source: self.body.source@,
            po_token: text_of(self.body.po_token),
            po_tokens: texts(self.body.po_tokens@),
            resolved_url: text_of(self.body.resolved_url),
            resolved_urls: texts(self.body.resolved_urls@),
            quality: self.quality,
            cache_key: self.cache_key@,
            protected_url: text_of(self.protected_url),
            stage: self.stage,
        }
    }
}

/// The addresses that come with a token each, judged in order; the first refusal counts.
pub open spec fn streams_of(urls: Seq<Seq<char>>, tokens: Seq<Seq<char>>, count: nat) -> Result<
    Seq<Seq<char>>,
    ErrorModel,
>
    decreases count,
{
    if count == 0 {
        Ok(Seq::empty())
    } else {
        match streams_of(urls, tokens, (count - 1) as nat) {
            Err(e) => Err(e),
            Ok(before) => match stream_url(
                urls[count - 1],
                tokens[count - 1],
                url_of(urls[count - 1]),
            ) {
                Ok(text) => Ok(before.push(text)),
                Err(e) => Err(e),
            },
        }
    }
}

pub open spec fn fewer(a: nat, b: nat) -> nat {
    if a < b {
        a
    } else {
        b
    }
}

fn validated_streams(urls: &Vec<String>, tokens: &Vec<String>) -> (r: Result<Vec<String>, ApiError>)
    ensures
        match r {
            Ok(v) => streams_of(
                texts(urls@),
                texts(tokens@),
                fewer(urls@.len(), tokens@.len()),
            ) == Ok::<Seq<Seq<char>>, ErrorModel>(texts(v@)),
            Err(e) => streams_of(
                texts(urls@),
                texts(tokens@),
                fewer(urls@.len(), tokens@.len()),
            ) == Err::<Seq<Seq<char>>, ErrorModel>(e@),
        },
{
    let count: usize = if urls.len() < tokens.len() {
        urls.len()
    } else {
        tokens.len()
    };
    let mut out: Vec<String> = Vec::new();
    let mut i: usize = 0;
    assert(texts(out@) =~= Seq::<Seq<char>>::empty());
    while i < count
        invariant
            i <= count,
            count == fewer(urls@.len(), tokens@.len()),
            streams_of(texts(urls@), texts(tokens@), i as nat) == Ok::<
                Seq<Seq<char>>,
                ErrorModel,
            >(texts(out@)),
        decreases count - i,
    {
        assert(texts(urls@)[i as int] == urls@[i as int]@);
        assert(texts(tokens@)[i as int] == tokens@[i as int]@);
        match validated_ytm_browser_stream_url(urls[i].as_str(), tokens[i].as_str()) {
            Ok(text) => {
                let ghost before = texts(out@);
                out.push(text);
                assert(texts(out@) =~= before.push(text@));
            },
            Err(e) => {
                proof {
                    lemma_refusal_stays(
                        texts(urls@),
                        texts(tokens@),
                        (i + 1) as nat,
                        count as nat,
                        e@,
                    );
                }
                return Err(e);
            },
        }
        i += 1;
    }
    Ok(out)
}

proof fn lemma_refusal_stays(
    urls: Seq<Seq<char>>,
    tokens: Seq<Seq<char>>,
    at: nat,
    count: nat,
    e: ErrorModel,
)
    requires
        at <= count,
        streams_of(urls, tokens, at) == Err::<Seq<Seq<char>>, ErrorModel>(e),
    ensures
        streams_of(urls, tokens, count) == Err::<Seq<Seq<char>>, ErrorModel>(e),
    decreases count - at,
{
    if at < count {
        lemma_refusal_stays(urls, tokens, (at + 1) as nat, count, e);
    }
}

/// The extension of the file of a stream.
pub open spec fn extension_for(url: Seq<char>) -> Seq<char> {
    if occurs_in("mime=audio%2Fwebm"@, url) || occurs_in("mime=audio/webm"@, url) {
        "webm"@
    } else {
        "m4a"@
    }
}

/// Where the media of a request comes from: from the platform, or, for a protected stream, from the
/// addresses that the browser session found.
pub open spec fn source_want(model: PreviewModel) -> PreviewWant {
    if model.source.platform != Platform::Ytm {
        PreviewWant::AskProvider
    } else {
        match (model.po_token, model.resolved_url) {
            (Some(token), Some(url)) => match stream_url(url, token, url_of(url)) {
                Err(e) => PreviewWant::Fail(e),
                Ok(text) => match streams_of(
                    model.resolved_urls,
                    model.po_tokens,
                    fewer(model.resolved_urls.len(), model.po_tokens.len()),
                ) {
                    Err(e) => PreviewWant::Fail(e),
                    Ok(urls) => PreviewWant::Open(text, urls, extension_for(text)),
                },
            },
            (None, None) => PreviewWant::AskProvider,
            _ => PreviewWant::Fail(bad("YouTube Music WebPO 会话不完整"@)),
        }
    }
}

/// The request once its source is sought.
pub open spec fn seeking(model: PreviewModel) -> (PreviewModel, PreviewWant) {
    let want = source_want(model);
    (
        PreviewModel {
            protected_url: match want {
                PreviewWant::Open(url, _, _) => Some(url),
                _ => None,
            },
            stage: match want {
                PreviewWant::Fail(_) => PreviewStage::Ended,
                _ => PreviewStage::Source,
            },
            ..model
        },
        want,
    )
}

/// A media type of WebM sound, whatever its parameters.
pub open spec fn is_webm(mime: Seq<char>) -> bool {
    declared_type(Some(mime)) == "audio/webm"@
}

pub open spec fn ticket_of(
    model: PreviewModel,
    cached: bool,
    url: Seq<char>,
    spool: Option<u64>,
    now: u64,
) -> TicketModel {
    TicketModel {
        source: model.source,
        quality: model.quality,
        cache_key: Some(model.cache_key),
        cached,
        url,
        browser_resolved: model.po_token is Some,
        protected_spool: spool,
        last_used_at: now,
    }
}

/// What an event makes of a request. What is kept of a protected track in a form that cannot be
/// decoded is dropped, and the track is fetched anew.
pub open spec fn preview_step(model: PreviewModel, event: PreviewEvent, now: u64) -> (
    PreviewModel,
    PreviewWant,
) {
    let ended = PreviewModel { stage: PreviewStage::Ended, ..model };
    match event {
        PreviewEvent::Invalidated => seeking(model),
        PreviewEvent::Found(None) => seeking(model),
        PreviewEvent::Found(Some(mime)) => if model.source.platform == Platform::Ytm && is_webm(
            mime@,
        ) {
            (model, PreviewWant::Invalidate)
        } else {
            (ended, PreviewWant::Issue(ticket_of(model, true, Seq::empty(), None, now)))
        },
        PreviewEvent::Offered(Err(e)) => (ended, PreviewWant::Fail(e@)),
        PreviewEvent::Offered(Ok(None)) => (
            ended,
            PreviewWant::Fail(plain(422, "这个平台不支持歌曲试听"@)),
        ),
        PreviewEvent::Offered(Ok(Some(url))) => (
            ended,
            PreviewWant::Issue(ticket_of(model, false, url@, None, now)),
        ),
        PreviewEvent::Opened(Err(reason)) => (ended, PreviewWant::Fail(plain(502, reason@))),
        PreviewEvent::Opened(Ok(spool)) => (
            ended,
            PreviewWant::Issue(
                ticket_of(
                    model,
                    false,
                    match model.protected_url {
                        Some(url) => url,
                        None => Seq::empty(),
                    },
                    Some(spool),
                    now,
                ),
            ),
        ),
    }
}

/// Why a request is refused before anything is looked up.
pub open spec fn request_refusal(
    provider_known: bool,
    platform: Platform,
    po_token: Option<Seq<char>>,
    po_tokens: Seq<Seq<char>>,
) -> Option<ErrorModel> {
    if !provider_known {
        Some(bad("不认识的平台"@))
    } else if platform == Platform::Ytm && po_token is Some && !is_po_token(po_token->0) {
        Some(bad("YouTube Music WebPO token 无效"@))
    } else if platform == Platform::Ytm && exists|i: int|
        0 <= i < po_tokens.len() && !is_po_token(#[trigger] po_tokens[i]) {
        Some(bad("YouTube Music WebPO token 列表无效"@))
    } else {
        None
    }
}

fn all_tokens_fit(tokens: &Vec<String>) -> (r: bool)
    ensures
        r == !(exists|i: int|
            0 <= i < texts(tokens@).len() && !is_po_token(#[trigger] texts(tokens@)[i])),
{
    let mut i: usize = 0;
    while i < tokens.len()
        invariant
            i <= tokens@.len(),
            forall|j: int| 0 <= j < i ==> is_po_token(#[trigger] texts(tokens@)[j]),
        decreases tokens@.len() - i,
    {
        assert(texts(tokens@)[i as int] == tokens@[i as int]@);
        if !valid_web_po_token(tokens[i].as_str()) {
            assert(!is_po_token(texts(tokens@)[i as int]));
            return false;
        }
        i += 1;
    }
    true
}

impl SongPreview {
    /// Takes a request on. The cache is asked first, unless it is switched off or to be bypassed.
    pub fn begin(
        body: SongPreviewBody,
        default_quality: Quality,
        provider_known: bool,
        cache_key: String,
        cache_enabled: bool,
    ) -> (r: Result<(Self, PreviewAction), ApiError>)
        ensures
            match request_refusal(
                provider_known,
                body.source.platform,
                text_of(body.po_token),
                texts(body.po_tokens@),
            ) {
                Some(e) => r matches Err(refused) && refused@ == e,
                None => {
                    &&& r matches Ok(begun)
                    &&& ({
                        let model = PreviewModel {
                            source: body.source@,
                            po_token: text_of(body.po_token),
                            po_tokens: texts(body.po_tokens@),
                            resolved_url: text_of(body.resolved_url),
                            resolved_urls: texts(body.resolved_urls@),
                            quality: match body.quality {
                                Some(q) => q,
                                None => default_quality,
                            },
                            cache_key: cache_key@,
                            protected_url: None,
                            stage: PreviewStage::Cache,
                        };
                        if body.bypass_cache {
                            begun.0@ == model && want_of(begun.1) == PreviewWant::Invalidate
                        } else if cache_enabled {
                            begun.0@ == model && want_of(begun.1) == PreviewWant::Lookup
                        } else {
                            (begun.0@, want_of(begun.1)) == seeking(model)
                        }
                    })
                },
            },
    {
        if !provider_known {
            return Err(ApiError::bad_request("不认识的平台".to_owned()));
        }
        if body.source.platform == Platform::Ytm {
            if let Some(token) = &body.po_token {
                if !valid_web_po_token(token.as_str()) {
                    return Err(
                        ApiError::bad_request("YouTube Music WebPO token 无效".to_owned()),
                    );
                }
            }
            if !all_tokens_fit(&body.po_tokens) {
                return Err(
                    ApiError::bad_request("YouTube Music WebPO token 列表无效".to_owned()),
                );
            }
        }
        let quality: Quality = match body.quality {
            Some(q) => q,
            None => default_quality,
        };
        let bypass: bool = body.bypass_cache;
        let mut run = SongPreview {
            body,
            quality,
            cache_key,
            protected_url: None,
            stage: PreviewStage::Cache,
        };
        let action = if bypass {
            PreviewAction::Invalidate
        } else if cache_enabled {
            PreviewAction::Lookup
        } else {
            run.seek()
        };
        Ok((run, action))
    }

    fn seek(&mut self) -> (r: PreviewAction)
        ensures
            (final(self)@, want_of(r)) == seeking(old(self)@),
    {
        self.protected_url = None;
        self.stage = PreviewStage::Source;
        if self.body.source.platform != Platform::Ytm {
            return PreviewAction::AskProvider;
        }
        match (&self.body.po_token, &self.body.resolved_url) {
            (Some(token), Some(url)) => {
                let text = match validated_ytm_browser_stream_url(url.as_str(), token.as_str()) {
                    Ok(text) => text,
                    Err(e) => {
                        self.stage = PreviewStage::Ended;
                        return PreviewAction::Fail(e);
                    },
                };
                let urls = match validated_streams(
                    &self.body.resolved_urls,
                    &self.body.po_tokens,
                ) {
                    Ok(urls) => urls,
                    Err(e) => {
                        self.stage = PreviewStage::Ended;
                        return PreviewAction::Fail(e);
                    },
                };
                let extension = stream_extension(text.as_str());
                self.protected_url = Some(text.clone());
                PreviewAction::Open(text, urls, extension)
            },
            (None, None) => PreviewAction::AskProvider,
            _ => {
                self.stage = PreviewStage::Ended;
                PreviewAction::Fail(
                    ApiError::bad_request("YouTube Music WebPO 会话不完整".to_owned()),
                )
            },
        }
    }

    fn ticket(&self, cached: bool, url: String, spool: Option<u64>, now: u64) -> (r:
        SongPreviewTicket)
        ensures
            r@ == ticket_of(self@, cached, url@, spool, now),
    {
        SongPreviewTicket {
            source: self.body.source.clone(),
            quality: self.quality,
            cache_key: Some(self.cache_key.clone()),
            cached,
            url,
            browser_resolved: self.body.po_token.is_some(),
            protected_spool: spool,
            last_used_at: now,
        }
    }

    /// Takes in what came of the last action.
    pub fn step(&mut self, event: PreviewEvent, now: u64) -> (r: PreviewAction)
        ensures
            (final(self)@, want_of(r)) == preview_step(old(self)@, event, now),
    {
        match event {
            PreviewEvent::Invalidated => self.seek(),
            PreviewEvent::Found(None) => self.seek(),
            PreviewEvent::Found(Some(mime)) => {
                let kind = read_declared_type(&Some(mime));
                if self.body.source.platform == Platform::Ytm && same(kind.as_str(), "audio/webm") {
                    PreviewAction::Invalidate
                } else {
                    let url = String::new();
                    assert(url@ =~= Seq::<char>::empty());
                    let ticket = self.ticket(true, url, None, now);
                    self.stage = PreviewStage::Ended;
                    PreviewAction::Issue(ticket)
                }
            },
            PreviewEvent::Offered(Err(e)) => {
                self.stage = PreviewStage::Ended;
                PreviewAction::Fail(e)
            },
            PreviewEvent::Offered(Ok(None)) => {
                self.stage = PreviewStage::Ended;
                PreviewAction::Fail(ApiError::new(422, "这个平台不支持歌曲试听".to_owned()))
            },
            PreviewEvent::Offered(Ok(Some(url))) => {
                let ticket = self.ticket(false, url, None, now);
                self.stage = PreviewStage::Ended;
                PreviewAction::Issue(ticket)
            },
            PreviewEvent::Opened(Err(reason)) => {
                self.stage = PreviewStage::Ended;
                PreviewAction::Fail(ApiError::new(502, reason))
            },
            PreviewEvent::Opened(Ok(spool)) => {
                let url = match &self.protected_url {
                    Some(url) => url.clone(),
                    None => {
                        let none = String::new();
                        assert(none@ =~= Seq::<char>::empty());
                        none
                    },
                };
                let ticket = self.ticket(false, url, Some(spool), now);
                self.stage = PreviewStage::Ended;
                PreviewAction::Issue(ticket)
            },
        }
    }
}

/// A protected track is opened only at an address that carries the very token it came with.
pub proof fn protected_streams_carry_their_token(model: PreviewModel)
    requires
        source_want(model) is Open,
    ensures
        model.source.platform == Platform::Ytm,
        model.po_token is Some,
        model.resolved_url is Some,
        crate::urls::url_of(model.resolved_url->0) matches Some(url)
            && crate::ytm::is_stream_url(url, model.po_token->0),
{
}

/// What is kept of a track, for a session that a browser wants to feed.
pub fn kept_serves_session(mime: &str, content_type: &str) -> (r: bool)
    ensures
        r == (declared_type(Some(mime@)) == lower(content_type@)),
{
    let kind = read_declared_type(&Some(mime.to_owned()));
    let wanted = lower_ascii(content_type);
    same(kind.as_str(), wanted.as_str())
}

pub open spec fn session_of(ticket: Option<TicketModel>) -> Result<u64, ErrorModel> {
    match ticket {
        None => Err(plain(404, "YouTube SABR 媒体会话不存在"@)),
        Some(t) => if t.source.platform != Platform::Ytm || !t.browser_resolved || t.cached {
            Err(bad("YouTube SABR 媒体会话无效"@))
        } else {
            match t.protected_spool {
                Some(spool) => Ok(spool),
                None => Err(bad("YouTube SABR 媒体会话无效"@)),
            }
        },
    }
}

/// The growing file that a ticket lets a browser feed.
pub fn ytm_upload_spool(ticket: &Option<SongPreviewTicket>) -> (r: Result<u64, ApiError>)
    ensures
        match r {
            Ok(spool) => session_of(
                match *ticket {
                    Some(t) => Some(t@),
                    None => None,
                },
            ) == Ok::<u64, ErrorModel>(spool),
            Err(e) => session_of(
                match *ticket {
                    Some(t) => Some(t@),
                    None => None,
                },
            ) == Err::<u64, ErrorModel>(e@),
        },
{
    match ticket {
        None => Err(ApiError::not_found("YouTube SABR 媒体会话不存在".to_owned())),
        Some(t) => {
            if t.source.platform != Platform::Ytm || !t.browser_resolved || t.cached {
                return Err(ApiError::bad_request("YouTube SABR 媒体会话无效".to_owned()));
            }
            match t.protected_spool {
                Some(spool) => Ok(spool),
                None => Err(ApiError::bad_request("YouTube SABR 媒体会话无效".to_owned())),
            }
        },
    }
}

/// The address from which a prepared download is fetched.
pub open spec fn prepared_url(
    platform: Option<Platform>,
    proof_text: Seq<char>,
    url: Seq<char>,
    now: u64,
) -> Result<Seq<char>, ErrorModel> {
    match platform {
        None => Err(plain(404, "任务不存在"@)),
        Some(platform) => if platform != Platform::Ytm {
            Err(bad("当前平台不需要外部媒体准备"@))
        } else if !is_po_token(proof_text) {
            Err(bad("YouTube Music WebPO token 无效"@))
        } else {
            match stream_url(url, proof_text, url_of(url)) {
                Ok(text) => fresh_url(url_of(text), text, now),
                Err(e) => Err(e),
            }
        },
    }
}

/// Judges the address that was prepared for a download of `platform`; no platform means no task.
pub fn prepared_download_url(
    platform: Option<Platform>,
    proof_text: &str,
    resolved_url: &str,
    now: u64,
) -> (r: Result<String, ApiError>)
    ensures
        crate::error::text_result(r) == prepared_url(platform, proof_text@, resolved_url@, now),
{
    match platform {
        None => Err(ApiError::not_found("任务不存在".to_owned())),
        Some(platform) => {
            if platform != Platform::Ytm {
                return Err(ApiError::bad_request("当前平台不需要外部媒体准备".to_owned()));
            }
            if !valid_web_po_token(proof_text) {
                return Err(ApiError::bad_request("YouTube Music WebPO token 无效".to_owned()));
            }
            validated_fresh_ytm_download_url(resolved_url, proof_text, now)
        },
    }
}

/// The longest path with the name of a server that an address is formed of, in characters. An
/// address counts the bytes before its path in 32 bits, and a character of a server's name takes
/// far fewer than 256 of them.
pub const SERVER_PATH_LIMIT: usize = 0x0100_0000;

pub open spec fn is_path_separator(c: char) -> bool {
    c == '/' || c == '\\'
}

/// A path that begins with two separators: on some systems the name of a server follows.
pub open spec fn names_server(path: Seq<char>) -> bool {
    path.len() >= 2 && is_path_separator(path[0]) && is_path_separator(path[1])
}

/// An address can be formed of a path: any path, but for an overlong one with the name of a server.
pub open spec fn addressable(path: Seq<char>) -> bool {
    names_server(path) ==> path.len() <= SERVER_PATH_LIMIT
}

/// The address of the file at a path on one kind of system.
pub uninterp spec fn file_address_on(system: nat, path: Seq<char>) -> Option<Seq<char>>;

/// Calls `reqwest::Url::from_file_path`. How a path is read differs between kinds of systems; on
/// one kind the address depends on the path alone. It begins with `file://` and has neither a query
/// nor a fragment.
#[verifier::external_body]
fn file_address(path: &str) -> (r: Option<String>)
    requires
        addressable(path@),
    ensures
        exists|system: nat| text_of(r) == #[trigger] file_address_on(system, path@),
        r matches Some(url) ==> is_file_address(url@),
{
    match reqwest::Url::from_file_path(path) {
        Ok(url) => Some(url.into()),
        Err(_) => None,
    }
}

/// The address of a file, without a query or a fragment.
pub open spec fn is_file_address(url: Seq<char>) -> bool {
    &&& "file://"@.is_prefix_of(url)
    &&& !url.contains('?')
    &&& !url.contains('#')
}

/// One byte as it stands in a query: letters, digits and four marks stay, a space becomes a plus,
/// and every other byte a percent sign with two digits.
pub open spec fn query_byte(b: u8) -> Seq<char> {
    let c = b as char;
    if ('0' <= c && c <= '9') || ('A' <= c && c <= 'Z') || ('a' <= c && c <= 'z') || c == '*' || c
        == '-' || c == '.' || c == '_' {
        seq![c]
    } else if c == ' ' {
        seq!['+']
    } else {
        seq!['%'] + hex(b as nat, 2, true)
    }
}

pub open spec fn query_bytes(bytes: Seq<u8>) -> Seq<char>
    decreases bytes.len(),
{
    if bytes.len() == 0 {
        Seq::empty()
    } else {
        query_bytes(bytes.drop_last()) + query_byte(bytes.last())
    }
}

/// One pair of a key and a value as it stands in the query of an address.
pub open spec fn query_pair(key: Seq<char>, value: Seq<char>) -> Seq<char> {
    query_bytes(vstd::utf8::encode_utf8(key)) + "="@ + query_bytes(vstd::utf8::encode_utf8(value))
}

/// Calls `append_pair` on the `query_pairs_mut` of a `reqwest::Url` without a query, and takes the
/// query that comes of it: the key, an equals sign and the value, byte by byte in their encoded
/// form.
#[verifier::external_body]
fn pair_of(key: &str, value: &str) -> (r: String)
    ensures
        r@ == query_pair(key@, value@),
{
    match reqwest::Url::parse("file:///") {
        Ok(mut url) => {
            url.query_pairs_mut().append_pair(key, value);
            url.query().unwrap_or_default().to_owned()
        },
        Err(_) => String::new(),
    }
}

/// The address of a file, with its media type as a query.
pub open spec fn typed_address(base: Seq<char>, content_type: Seq<char>) -> Seq<char> {
    base + "?"@ + query_pair("mime"@, content_type)
}

/// What comes of an address that could be formed, or could not.
pub open spec fn prepared(base: Option<Seq<char>>, content_type: Seq<char>) -> Result<
    Seq<char>,
    ErrorModel,
> {
    match base {
        Some(url) => Ok(typed_address(url, content_type)),
        None => Err(plain(500, "媒体会话路径无效"@)),
    }
}

/// The address of a prepared file, where it could be formed, with its media type.
pub fn prepared_address(base: Option<String>, content_type: &str) -> (r: Result<String, ApiError>)
    ensures
        crate::error::text_result(r) == prepared(text_of(base), content_type@),
{
    match base {
        Some(url) => {
            let mut r = url;
            r.append("?");
            r.append(pair_of("mime", content_type).as_str());
            Ok(r)
        },
        None => Err(ApiError::new(500, "媒体会话路径无效".to_owned())),
    }
}

fn is_addressable(path: &str) -> (r: bool)
    ensures
        r == addressable(path@),
{
    let length: usize = path.unicode_len();
    if length <= SERVER_PATH_LIMIT {
        return true;
    }
    let first: char = path.get_char(0);
    let second: char = path.get_char(1);
    !((first == '/' || first == '\\') && (second == '/' || second == '\\'))
}

/// The address under which a complete file goes on to the download: that of the path on this kind
/// of system, with the media type.
pub fn prepared_file(path: &str, content_type: &str) -> (r: Result<String, ApiError>)
    ensures
        addressable(path@) ==> exists|system: nat|
            crate::error::text_result(r) == prepared(
                #[trigger] file_address_on(system, path@),
                content_type@,
            ) && (file_address_on(system, path@) matches Some(url) ==> is_file_address(url)),
        !addressable(path@) ==> crate::error::text_result(r) == prepared(None, content_type@),
{
    let base: Option<String> = if is_addressable(path) {
        file_address(path)
    } else {
        None
    };
    prepared_address(base, content_type)
}

/// Whether the preparation of a download goes on: its task is there and not cancelled.
pub fn preparation_goes_on(state: Option<TaskState>) -> (r: bool)
    ensures
        r == (state is Some && state != Some(TaskState::Canceled)),
{
    match state {
        Some(TaskState::Canceled) => false,
        Some(_) => true,
        None => false,
    }
}

/// The next part to copy from a complete file into the cache; none at the end.
pub fn next_copy(offset: u64, total: u64) -> (r: Option<(u64, u64)>)
    ensures
        match r {
            Some(part) => offset < total && part.0 == offset && offset <= part.1 < total && part.1
                - offset < LOCAL_RANGE_CHUNK_BYTES && (part.1 == total - 1 || part.1 - offset + 1
                == LOCAL_RANGE_CHUNK_BYTES),
            None => offset >= total,
        },
{
    if offset >= total {
        return None;
    }
    let last: u64 = total - 1;
    let end: u64 = if last - offset >= LOCAL_RANGE_CHUNK_BYTES {
        offset + (LOCAL_RANGE_CHUNK_BYTES - 1)
    } else {
        last
    };
    Some((offset, end))
}

} // verus!
