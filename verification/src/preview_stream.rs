//! The reply to a request for the sound of an online track: from the cache, from a growing file, or
//! from the platform, whose addresses are renewed where they have expired.

use vstd::prelude::*;

use crate::error::{bad, plain, ApiError, ErrorModel};
use crate::media_spool::ProtectedMediaSlice;
use crate::models::{clone_text, text_of, Platform};
use crate::protected_media::MediaHead;
use crate::ranges::{
    content_range, needs_refresh, parse_range, passed_mime, preview_audio_mime_for_url,
    preview_response_segment, range_of, segment_of, session_preview_capture_plan,
    song_preview_url_needs_refresh, span_text, url_mime, CapturePlan, PreviewCacheSegment,
};
use crate::tickets::{SongPreviewTicket, TicketModel};
use crate::urls::url_of;

verus! {

/// Whether the waveform of a track in play can be asked for again: always, whatever is kept of the
/// track.
pub const SONG_PREVIEW_SESSION_WAVEFORM_ENABLED: bool = true;

/// When a track that is being played is fetched for the cache.
#[derive(Clone, Copy, PartialEq, Eq, Debug, Structural)]
pub enum CacheSchedule {
    /// Right after the player has begun.
    Soon,
    /// When nobody plays it any more.
    WhenIdle,
}

/// What is recorded of a reply while it is passed on.
#[derive(Clone, Copy, PartialEq, Eq, Debug, Structural)]
pub enum Capture {
    /// The reply is the whole track, of so many bytes: it goes into the cache.
    Whole(u64),
    /// A part for the waveform of the running session.
    Session(CapturePlan),
}

/// The settings that a reply depends on.
#[derive(Clone, Copy, PartialEq, Eq, Debug, Structural)]
pub struct StreamSettings {
    pub cache_enabled: bool,
    /// The player and the cache share one mobile connection.
    pub mobile: bool,
    /// The platform of the track can be asked for an address.
    pub platform_known: bool,
}

/// How an upstream reply is passed on.
pub struct UpstreamReply {
    pub status: u16,
    pub content_type: String,
    pub content_length: Option<String>,
    pub content_range: Option<String>,
    pub schedule: Option<CacheSchedule>,
    pub capture: Option<Capture>,
}

#[verifier::ext_equal]
pub struct UpstreamModel {
    pub status: u16,
    pub content_type: Seq<char>,
    pub content_length: Option<Seq<char>>,
    pub content_range: Option<Seq<char>>,
    pub schedule: Option<CacheSchedule>,
    pub capture: Option<Capture>,
}

impl View for UpstreamReply {
    type V = UpstreamModel;

    open spec fn view(&self) -> UpstreamModel {
        UpstreamModel {
            status: self.status,
            content_type: self.content_type@,
            content_length: text_of(self.content_length),
            content_range: text_of(self.content_range),
            schedule: self.schedule,
            capture: self.capture,
        }
    }
}

/// What to do for a request, one thing after another.
pub enum StreamAction {
    /// Look whether the track is kept.
    Lookup,
    /// Send what is kept.
    ServeCached,
    /// Drop what is kept.
    Invalidate,
    /// Ask the platform for an address.
    AskProvider,
    /// Read from the growing file, from the first to at most the second byte.
    ReadSpool(u64, Option<u64>),
    /// Ask this address, with the range of the client.
    Request(String, Option<String>),
    /// Pass the reply on.
    PassOn(UpstreamReply),
    /// What was kept has been sent.
    Sent,
    Fail(ApiError),
}

/// What came of it.
pub enum StreamEvent {
    /// Whether the track is kept.
    Looked(bool),
    /// Whether what is kept could be sent.
    Served(bool),
    Invalidated,
    /// What the platform answered, and when.
    Offered(Result<Option<String>, ApiError>, u64),
    /// The head of the reply, or why there is none.
    Replied(Result<MediaHead, String>),
}

#[derive(Clone, Copy, PartialEq, Eq, Debug, Structural)]
pub enum StreamStage {
    Looking,
    Serving,
    Dropping,
    /// The address is renewed before the first request.
    FirstRenewal,
    /// The first request.
    Asking,
    /// The address is renewed after a refusal.
    StatusRenewal,
    /// The request after that.
    AskingAgain,
    /// The address is renewed after a reply that was no sound.
    TypeRenewal,
    /// The last request.
    AskingLast,
    Ended,
}

/// One request for the sound of a track.
pub struct StreamRun {
    pub ticket: SongPreviewTicket,
    pub range: Option<String>,
    /// The length of the growing file, where the ticket has one.
    pub spool_total: Option<u64>,
    pub settings: StreamSettings,
    pub stage: StreamStage,
}

#[verifier::ext_equal]
pub struct StreamModel {
    pub ticket: TicketModel,
    pub range: Option<Seq<char>>,
    pub spool_total: Option<u64>,
    pub settings: StreamSettings,
    pub stage: StreamStage,
}

impl View for StreamRun {
    type V = StreamModel;

    open spec fn view(&self) -> StreamModel {
        StreamModel {
            ticket: self.ticket@,
            range: text_of(self.range),
            spool_total: self.spool_total,
            settings: self.settings,
            stage: self.stage,
        }
    }
}

pub enum StreamWant {
    Lookup,
    ServeCached,
    Invalidate,
    AskProvider,
    ReadSpool(u64, Option<u64>),
    Request(Seq<char>, Option<Seq<char>>),
    PassOn(UpstreamModel),
    Sent,
    Fail(ErrorModel),
}

pub open spec fn want_of(action: StreamAction) -> StreamWant {
    match action {
        StreamAction::Lookup => StreamWant::Lookup,
        StreamAction::ServeCached => StreamWant::ServeCached,
        StreamAction::Invalidate => StreamWant::Invalidate,
        StreamAction::AskProvider => StreamWant::AskProvider,
        StreamAction::ReadSpool(start, end) => StreamWant::ReadSpool(start, end),
        StreamAction::Request(url, range) => StreamWant::Request(url@, text_of(range)),
        StreamAction::PassOn(reply) => StreamWant::PassOn(reply@),
        StreamAction::Sent => StreamWant::Sent,
        StreamAction::Fail(e) => StreamWant::Fail(e@),
    }
}

impl StreamModel {
    pub open spec fn at(self, stage: StreamStage) -> StreamModel {
        StreamModel { stage, ..self }
    }

    pub open spec fn well_formed(self) -> bool {
        &&& self.spool_total matches Some(total) ==> total > 0
        &&& self.ticket.protected_spool is Some == self.spool_total is Some
    }

    pub open spec fn failing(self, e: ErrorModel) -> (StreamModel, StreamWant) {
        (self.at(StreamStage::Ended), StreamWant::Fail(e))
    }

    /// The address can be renewed by the platform alone.
    pub open spec fn renewable(self) -> bool {
        !(self.ticket.source.platform == Platform::Ytm && self.ticket.browser_resolved)
    }

    /// Renewing the address, as the stage says why.
    pub open spec fn renewing(self, stage: StreamStage) -> (StreamModel, StreamWant) {
        if !self.settings.platform_known {
            self.failing(bad("不认识的平台"@))
        } else if self.renewable() {
            (self.at(stage), StreamWant::AskProvider)
        } else {
            self.failing(plain(401, "YouTube Music WebPO 地址已失效，请重新播放"@))
        }
    }

    /// Asking for the sound: from the growing file, or from the address.
    pub open spec fn asking(self, stage: StreamStage) -> (StreamModel, StreamWant) {
        match self.spool_total {
            Some(total) => match self.range {
                None => (self.at(StreamStage::Ended), StreamWant::ReadSpool(0, None)),
                Some(raw) => match range_of(raw, total) {
                    Some(found) => (
                        self.at(StreamStage::Ended),
                        StreamWant::ReadSpool(found.0, Some(found.1)),
                    ),
                    None => self.failing(plain(416, "试听范围无效"@)),
                },
            },
            None => (self.at(stage), StreamWant::Request(self.ticket.url, self.range)),
        }
    }

    /// The way to the source: a ticket without an address gets one first.
    pub open spec fn to_source(self) -> (StreamModel, StreamWant) {
        if self.ticket.cached || (self.ticket.url.len() == 0 && self.ticket.protected_spool is None) {
            self.renewing(StreamStage::FirstRenewal)
        } else {
            self.asking(StreamStage::Asking)
        }
    }

    /// The ticket with the address that the platform gave.
    pub open spec fn renewed(self, url: Seq<char>, now: u64) -> StreamModel {
        StreamModel {
            ticket: TicketModel { url, cached: false, last_used_at: now, ..self.ticket },
            ..self
        }
    }

    /// When the track is fetched for the cache.
    pub open spec fn schedule(self) -> Option<CacheSchedule> {
        if !self.settings.cache_enabled {
            None
        } else if self.ticket.browser_resolved || self.settings.mobile {
            Some(CacheSchedule::WhenIdle)
        } else {
            Some(CacheSchedule::Soon)
        }
    }

    /// What is recorded of a reply that holds this part of the media.
    pub open spec fn capture(self, segment: Option<PreviewCacheSegment>) -> Option<Capture> {
        match segment {
            None => None,
            Some(s) => if self.settings.cache_enabled && !self.settings.mobile {
                None
            } else if self.settings.cache_enabled && s.start == 0 && s.end + 1 == s.total {
                Some(Capture::Whole(s.total))
            } else {
                Some(
                    Capture::Session(
                        CapturePlan {
                            start: s.start,
                            expected: (s.end - s.start + 1) as u64,
                            total: s.total,
                            reaches_end: s.end + 1 == s.total,
                        },
                    ),
                )
            },
        }
    }

    /// The reply as it is passed on.
    pub open spec fn passed(
        self,
        status: u16,
        length: Option<Seq<char>>,
        range: Option<Seq<char>>,
        mime: Seq<char>,
    ) -> UpstreamModel {
        UpstreamModel {
            status,
            content_type: mime,
            content_length: length,
            content_range: range,
            schedule: self.schedule(),
            capture: self.capture(segment_of(status, length, range)),
        }
    }

    /// What a reply makes of the request, when its media type, as far as it is sound, is `mime`. The
    /// first refusal, and the first reply that is no sound, cost a renewal each; a second one ends
    /// the request.
    pub open spec fn judged(
        self,
        status: u16,
        status_text: Seq<char>,
        length: Option<Seq<char>>,
        range: Option<Seq<char>>,
        mime: Option<Seq<char>>,
    ) -> (StreamModel, StreamWant) {
        if needs_refresh(status) && self.stage == StreamStage::Asking {
            self.renewing(StreamStage::StatusRenewal)
        } else if !(200 <= status < 300) {
            self.failing(plain(status, "试听源返回 HTTP "@ + status_text))
        } else {
            match mime {
                Some(mime) => (
                    self.at(StreamStage::Ended),
                    StreamWant::PassOn(self.passed(status, length, range, mime)),
                ),
                None => if self.stage == StreamStage::AskingLast {
                    self.failing(plain(502, "试听源返回的不是音频内容"@))
                } else {
                    self.renewing(StreamStage::TypeRenewal)
                },
            }
        }
    }

    pub open spec fn after(self, event: StreamEvent) -> (StreamModel, StreamWant) {
        match event {
            StreamEvent::Looked(found) => if found {
                (self.at(StreamStage::Serving), StreamWant::ServeCached)
            } else {
                self.to_source()
            },
            StreamEvent::Served(ok) => if ok {
                (self.at(StreamStage::Ended), StreamWant::Sent)
            } else {
                (self.at(StreamStage::Dropping), StreamWant::Invalidate)
            },
            StreamEvent::Invalidated => self.to_source(),
            StreamEvent::Offered(Err(e), _) => self.failing(e@),
            StreamEvent::Offered(Ok(None), _) => self.failing(
                plain(422, "这个平台暂时无法刷新试听地址"@),
            ),
            StreamEvent::Offered(Ok(Some(url)), now) => self.renewed(url@, now).asking(
                match self.stage {
                    StreamStage::FirstRenewal => StreamStage::Asking,
                    StreamStage::StatusRenewal => StreamStage::AskingAgain,
                    _ => StreamStage::AskingLast,
                },
            ),
            StreamEvent::Replied(Err(reason)) => self.failing(
                plain(502, "试听源连接失败："@ + reason@),
            ),
            StreamEvent::Replied(Ok(head)) => self.judged(
                head.status,
                head.status_text@,
                text_of(head.content_length),
                text_of(head.content_range),
                passed_mime(text_of(head.content_type), url_mime(url_of(self.ticket.url))),
            ),
        }
    }
}

/// The refusal of a request whose ticket is not there any more.
pub fn ticket_gone() -> (r: ApiError)
    ensures
        r@ == plain(404, "试听地址已过期，请重新双击歌曲"@),
{
    ApiError::not_found("试听地址已过期，请重新双击歌曲".to_owned())
}

impl StreamRun {
    pub open spec fn well_formed(self) -> bool {
        self@.well_formed()
    }

    /// Takes a request on.
    pub fn begin(
        ticket: SongPreviewTicket,
        range: Option<String>,
        spool_total: Option<u64>,
        settings: StreamSettings,
    ) -> (r: (Self, StreamAction))
        requires
            spool_total matches Some(total) ==> total > 0,
            ticket.protected_spool is Some == spool_total is Some,
        ensures
            r.0.well_formed(),
            ({
                let model = StreamModel {
                    ticket: ticket@,
                    range: text_of(range),
                    spool_total,
                    settings,
                    stage: StreamStage::Looking,
                };
                (r.0@, want_of(r.1)) == if settings.cache_enabled {
                    (model, StreamWant::Lookup)
                } else {
                    model.to_source()
                }
            }),
    {
        let mut run = StreamRun { ticket, range, spool_total, settings, stage: StreamStage::Looking };
        let action = if settings.cache_enabled {
            StreamAction::Lookup
        } else {
            run.go_to_source()
        };
        (run, action)
    }

    fn fail(&mut self, e: ApiError) -> (r: StreamAction)
        ensures
            (final(self)@, want_of(r)) == old(self)@.failing(e@),
    {
        self.stage = StreamStage::Ended;
        StreamAction::Fail(e)
    }

    fn renew(&mut self, stage: StreamStage) -> (r: StreamAction)
        ensures
            (final(self)@, want_of(r)) == old(self)@.renewing(stage),
    {
        if !self.settings.platform_known {
            self.fail(ApiError::bad_request("不认识的平台".to_owned()))
        } else if self.ticket.source.platform == Platform::Ytm && self.ticket.browser_resolved {
            self.fail(
                ApiError::new(401, "YouTube Music WebPO 地址已失效，请重新播放".to_owned()),
            )
        } else {
            self.stage = stage;
            StreamAction::AskProvider
        }
    }

    fn ask(&mut self, stage: StreamStage) -> (r: StreamAction)
        requires
            old(self).well_formed(),
        ensures
            (final(self)@, want_of(r)) == old(self)@.asking(stage),
    {
        match self.spool_total {
            Some(total) => {
                let found: Option<(u64, u64)> = match &self.range {
                    None => {
                        self.stage = StreamStage::Ended;
                        return StreamAction::ReadSpool(0, None);
                    },
                    Some(raw) => parse_range(raw.as_str(), total),
                };
                match found {
                    Some(span) => {
                        self.stage = StreamStage::Ended;
                        StreamAction::ReadSpool(span.0, Some(span.1))
                    },
                    None => self.fail(ApiError::new(416, "试听范围无效".to_owned())),
                }
            },
            None => {
                self.stage = stage;
                StreamAction::Request(self.ticket.url.clone(), clone_text(&self.range))
            },
        }
    }

    fn go_to_source(&mut self) -> (r: StreamAction)
        requires
            old(self).well_formed(),
        ensures
            (final(self)@, want_of(r)) == old(self)@.to_source(),
    {
        if self.ticket.cached || (self.ticket.url.as_str().is_empty()
            && self.ticket.protected_spool.is_none()) {
            self.renew(StreamStage::FirstRenewal)
        } else {
            self.ask(StreamStage::Asking)
        }
    }

    /// Judges a reply whose media type, as far as it is sound, is `mime`.
    pub fn judge(&mut self, head: &MediaHead, mime: Option<String>) -> (r: StreamAction)
        ensures
            (final(self)@, want_of(r)) == old(self)@.judged(
                head.status,
                head.status_text@,
                text_of(head.content_length),
                text_of(head.content_range),
                text_of(mime),
            ),
    {
        let status: u16 = head.status;
        if song_preview_url_needs_refresh(status) && self.stage == StreamStage::Asking {
            return self.renew(StreamStage::StatusRenewal);
        }
        if status < 200 || status >= 300 {
            let mut detail = "试听源返回 HTTP ".to_owned();
            detail.append(head.status_text.as_str());
            return self.fail(ApiError::new(status, detail));
        }
        match mime {
            None => {
                if self.stage == StreamStage::AskingLast {
                    self.fail(ApiError::new(502, "试听源返回的不是音频内容".to_owned()))
                } else {
                    self.renew(StreamStage::TypeRenewal)
                }
            },
            Some(content_type) => {
                let segment = preview_response_segment(head);
                let capture: Option<Capture> = match segment {
                    None => None,
                    Some(s) => {
                        if self.settings.cache_enabled && !self.settings.mobile {
                            None
                        } else if self.settings.cache_enabled && s.start == 0 && s.end + 1
                            == s.total {
                            Some(Capture::Whole(s.total))
                        } else {
                            match session_preview_capture_plan(Some(s)) {
                                Some(plan) => Some(Capture::Session(plan)),
                                None => None,
                            }
                        }
                    },
                };
                let schedule: Option<CacheSchedule> = if !self.settings.cache_enabled {
                    None
                } else if self.ticket.browser_resolved || self.settings.mobile {
                    Some(CacheSchedule::WhenIdle)
                } else {
                    Some(CacheSchedule::Soon)
                };
                self.stage = StreamStage::Ended;
                StreamAction::PassOn(
                    UpstreamReply {
                        status,
                        content_type,
                        content_length: clone_text(&head.content_length),
                        content_range: clone_text(&head.content_range),
                        schedule,
                        capture,
                    },
                )
            },
        }
    }

    /// Takes in what came of the last action.
    pub fn step(&mut self, event: StreamEvent) -> (r: StreamAction)
        requires
            old(self).well_formed(),
        ensures
            final(self).well_formed(),
            (final(self)@, want_of(r)) == old(self)@.after(event),
    {
        match event {
            StreamEvent::Looked(found) => {
                if found {
                    self.stage = StreamStage::Serving;
                    StreamAction::ServeCached
                } else {
                    self.go_to_source()
                }
            },
            StreamEvent::Served(ok) => {
                if ok {
                    self.stage = StreamStage::Ended;
                    StreamAction::Sent
                } else {
                    self.stage = StreamStage::Dropping;
                    StreamAction::Invalidate
                }
            },
            StreamEvent::Invalidated => self.go_to_source(),
            StreamEvent::Offered(Err(e), _) => self.fail(e),
            StreamEvent::Offered(Ok(None), _) => self.fail(
                ApiError::new(422, "这个平台暂时无法刷新试听地址".to_owned()),
            ),
            StreamEvent::Offered(Ok(Some(url)), now) => {
                self.ticket.url = url;
                self.ticket.cached = false;
                self.ticket.last_used_at = now;
                let stage = match self.stage {
                    StreamStage::FirstRenewal => StreamStage::Asking,
                    StreamStage::StatusRenewal => StreamStage::AskingAgain,
                    _ => StreamStage::AskingLast,
                };
                self.ask(stage)
            },
            StreamEvent::Replied(Err(reason)) => {
                let mut detail = "试听源连接失败：".to_owned();
                detail.append(reason.as_str());
                self.fail(ApiError::new(502, detail))
            },
            StreamEvent::Replied(Ok(head)) => {
                let mime = preview_audio_mime_for_url(&head.content_type, self.ticket.url.as_str());
                self.judge(&head, mime)
            },
        }
    }
}

/// The `Content-Range` of a part of the growing file.
pub fn slice_range(slice: &ProtectedMediaSlice) -> (r: String)
    ensures
        r@ == span_text(slice.start, slice.end, slice.total),
{
    content_range(slice.start, slice.end, slice.total)
}

/// How far a request is: every renewal brings it closer to its end.
pub open spec fn progress_of(stage: StreamStage) -> int {
    match stage {
        StreamStage::Looking => 0,
        StreamStage::Serving => 1,
        StreamStage::Dropping => 2,
        StreamStage::FirstRenewal => 3,
        StreamStage::Asking => 4,
        StreamStage::StatusRenewal => 5,
        StreamStage::AskingAgain => 6,
        StreamStage::TypeRenewal => 7,
        StreamStage::AskingLast => 8,
        StreamStage::Ended => 9,
    }
}

/// The event answers what the request waits for.
pub open spec fn answers(model: StreamModel, event: StreamEvent) -> bool {
    match event {
        StreamEvent::Looked(_) => model.stage == StreamStage::Looking,
        StreamEvent::Served(_) => model.stage == StreamStage::Serving,
        StreamEvent::Invalidated => model.stage == StreamStage::Dropping,
        StreamEvent::Offered(_, _) => model.stage == StreamStage::FirstRenewal || model.stage
            == StreamStage::StatusRenewal || model.stage == StreamStage::TypeRenewal,
        StreamEvent::Replied(_) => model.stage == StreamStage::Asking || model.stage
            == StreamStage::AskingAgain || model.stage == StreamStage::AskingLast,
    }
}

/// A request never runs in circles: whatever is answered, it comes closer to its end, so that an
/// address is renewed at most three times and asked at most three times.
pub proof fn a_request_always_ends(model: StreamModel, event: StreamEvent)
    requires
        answers(model, event),
    ensures
        progress_of(model.after(event).0.stage) > progress_of(model.stage),
{
}

/// A reply that is not sound is never passed on, and neither is a refusal.
pub proof fn only_sound_is_passed_on(model: StreamModel, event: StreamEvent)
    requires
        model.after(event).1 is PassOn,
    ensures
        event matches StreamEvent::Replied(Ok(head)) && 200 <= head.status < 300 && passed_mime(
            text_of(head.content_type),
            url_mime(url_of(model.ticket.url)),
        ) is Some,
{
}

/// Renewing an address keeps the track and the quality.
pub proof fn renewal_keeps_the_track(model: StreamModel, url: Seq<char>, now: u64)
    ensures
        model.renewed(url, now).ticket.source == model.ticket.source,
        model.renewed(url, now).ticket.quality == model.ticket.quality,
        model.renewed(url, now).range == model.range,
{
}

} // verus!
