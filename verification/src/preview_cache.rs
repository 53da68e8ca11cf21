//! Fetching an online track for the cache, part by part, while nobody waits for it.

use vstd::prelude::*;

use crate::models::{text_of, Platform};
use crate::preview_stream::CacheSchedule;
use crate::protected_media::MediaHead;
use crate::ranges::{
    is_text_payload, looks_like_text_error_payload, needs_refresh, passed_mime, payload_head,
    preview_audio_mime, preview_cache_segment, segment_of, song_preview_url_needs_refresh,
    PreviewCacheSegment,
};
use crate::text::{append_decimal, decimal, lossy_text};
use crate::tickets::{SongPreviewTicket, TicketModel};

verus! {

/// How many parts a track may come in.
pub const MAX_CACHE_PARTS: u32 = 2048;

/// After how many further bytes the waveform is told of the growing file.
pub const OBSERVE_STEP_BYTES: u64 = 524_288;

/// What to do next.
pub enum FetchAction {
    /// Ask this address from this byte on.
    Request(String, u64),
    /// Get a new address.
    Renew,
    /// Open the file in the cache: its media type and its length.
    OpenWriter(String, u64),
    /// Read the next piece of the reply.
    Read,
    /// Write the piece.
    Write,
    /// Make what has been written readable and tell the waveform.
    Publish,
    /// Close the file; it is complete.
    Commit,
    /// Nothing more; what is not complete is dropped.
    Stop,
    Fail(String),
}

/// What came of it.
pub enum FetchEvent {
    /// The head of a reply.
    Replied(MediaHead),
    Renewed(String),
    /// Whether the cache took the file.
    WriterOpened(bool),
    /// A piece of the reply.
    Piece(Vec<u8>),
    /// The reply ended.
    PartEnded,
    /// Whether the cache goes on, and how many bytes are in the file.
    Written(bool, u64),
    /// Whether the waveform was told.
    Published(bool),
    Committed,
    /// Connecting, reading or writing failed.
    Broken(String),
}

#[derive(Clone, Copy, PartialEq, Eq, Debug, Structural)]
pub enum FetchStage {
    Asking,
    Renewing,
    Opening,
    Reading,
    Writing,
    Publishing,
    Committing,
    Ended,
}

/// One track on its way into the cache.
pub struct CacheFetch {
    pub url: String,
    /// The media type that the player was told.
    pub type_hint: String,
    pub offset: u64,
    pub expected_total: Option<u64>,
    pub writer_open: bool,
    pub renewals_left: u8,
    /// How many requests may still be sent.
    pub parts_left: u32,
    pub segment: Option<PreviewCacheSegment>,
    /// How many bytes of the part have arrived.
    pub received: u64,
    /// How many bytes the waveform has been told of.
    pub observed: u64,
    /// How many bytes are in the file.
    pub written: u64,
    pub stage: FetchStage,
}

#[verifier::ext_equal]
pub struct FetchModel {
    pub url: Seq<char>,
    pub type_hint: Seq<char>,
    pub offset: u64,
    pub expected_total: Option<u64>,
    pub writer_open: bool,
    pub renewals_left: u8,
    pub parts_left: u32,
    pub segment: Option<PreviewCacheSegment>,
    pub received: u64,
    pub observed: u64,
    pub written: u64,
    pub stage: FetchStage,
}

impl View for CacheFetch {
    type V = FetchModel;

    open spec fn view(&self) -> FetchModel {
        FetchModel {
            url: self.url@,
            type_hint: self.type_hint@,
            offset: self.offset,
            expected_total: self.expected_total,
            writer_open: self.writer_open,
            renewals_left: self.renewals_left,
            parts_left: self.parts_left,
            segment: self.segment,
            received: self.received,
            observed: self.observed,
            written: self.written,
            stage: self.stage,
        }
    }
}

pub enum FetchWant {
    Request(Seq<char>, u64),
    Renew,
    OpenWriter(Seq<char>, u64),
    Read,
    Write,
    Publish,
    Commit,
    Stop,
    Fail(Seq<char>),
}

pub open spec fn want_of(action: FetchAction) -> FetchWant {
    match action {
        FetchAction::Request(url, start) => FetchWant::Request(url@, start),
        FetchAction::Renew => FetchWant::Renew,
        FetchAction::OpenWriter(mime, total) => FetchWant::OpenWriter(mime@, total),
        FetchAction::Read => FetchWant::Read,
        FetchAction::Write => FetchWant::Write,
        FetchAction::Publish => FetchWant::Publish,
        FetchAction::Commit => FetchWant::Commit,
        FetchAction::Stop => FetchWant::Stop,
        FetchAction::Fail(e) => FetchWant::Fail(e@),
    }
}

pub open spec fn added(a: u64, b: nat) -> u64 {
    if a + b > u64::MAX {
        u64::MAX
    } else {
        (a + b) as u64
    }
}

impl FetchModel {
    /// What has been agreed with the source fits together.
    pub open spec fn well_formed(self) -> bool {
        &&& self.segment matches Some(s) ==> s.well_formed() && s.start == self.offset
            && self.expected_total == Some(s.total)
        &&& (self.stage == FetchStage::Opening || self.stage == FetchStage::Reading || self.stage
            == FetchStage::Writing || self.stage == FetchStage::Publishing) ==> self.segment is Some
    }

    pub open spec fn at(self, stage: FetchStage) -> FetchModel {
        FetchModel { stage, ..self }
    }

    pub open spec fn failing(self, e: Seq<char>) -> (FetchModel, FetchWant) {
        (self.at(FetchStage::Ended), FetchWant::Fail(e))
    }

    /// The next request, unless the track comes in too many parts or the cache does not want it any
    /// more.
    pub open spec fn asking(self, wanted: bool) -> (FetchModel, FetchWant) {
        if self.parts_left == 0 {
            self.failing("缓存源分段过多，已停止续传"@)
        } else if !wanted {
            (self.at(FetchStage::Ended), FetchWant::Stop)
        } else {
            (
                FetchModel {
                    parts_left: (self.parts_left - 1) as u32,
                    segment: None,
                    received: 0,
                    stage: FetchStage::Asking,
                    ..self
                },
                FetchWant::Request(self.url, self.offset),
            )
        }
    }

    /// A new address, once; `e` is what is said the second time.
    pub open spec fn renewing(self, e: Seq<char>) -> (FetchModel, FetchWant) {
        if self.renewals_left == 0 {
            self.failing(e)
        } else {
            (
                FetchModel {
                    renewals_left: (self.renewals_left - 1) as u8,
                    stage: FetchStage::Renewing,
                    ..self
                },
                FetchWant::Renew,
            )
        }
    }

    pub open spec fn replied(
        self,
        status: u16,
        status_text: Seq<char>,
        length: Option<Seq<char>>,
        range: Option<Seq<char>>,
        content_type: Option<Seq<char>>,
    ) -> (FetchModel, FetchWant) {
        if needs_refresh(status) {
            self.renewing("缓存源刷新后仍返回 HTTP "@ + status_text)
        } else {
            match passed_mime(content_type, self.type_hint) {
                None => self.renewing("缓存源刷新后仍返回非音频内容"@),
                Some(mime) => match segment_of(status, length, range) {
                    Some(s) if s.start == self.offset => if self.expected_total is Some
                        && self.expected_total != Some(s.total) {
                        self.failing("缓存源总长度在续传时发生变化"@)
                    } else {
                        let agreed = FetchModel {
                            expected_total: Some(s.total),
                            segment: Some(s),
                            received: 0,
                            ..self
                        };
                        if self.writer_open {
                            (agreed.at(FetchStage::Reading), FetchWant::Read)
                        } else {
                            (
                                agreed.at(FetchStage::Opening),
                                FetchWant::OpenWriter(mime, s.total),
                            )
                        }
                    },
                    _ => self.failing(
                        "缓存源没有返回可续写的完整范围：HTTP "@ + status_text,
                    ),
                },
            }
        }
    }

    /// The end of a part: it has to be as long as it said.
    pub open spec fn part_ended(self, wanted: bool) -> (FetchModel, FetchWant) {
        match self.segment {
            None => self.failing("缓存源分段过多，已停止续传"@),
            Some(s) => {
                let declared = (s.end - s.start + 1) as u64;
                if self.received != declared {
                    self.failing(
                        "缓存分段长度不符：声明 "@ + decimal(declared as nat) + "，收到 "@
                            + decimal(self.received as nat),
                    )
                } else {
                    let moved = FetchModel { offset: (s.end + 1) as u64, segment: None, ..self };
                    if moved.offset == s.total {
                        (moved.at(FetchStage::Committing), FetchWant::Commit)
                    } else {
                        moved.asking(wanted)
                    }
                }
            },
        }
    }

    /// What an event makes of the fetch; `wanted` says whether the cache still wants the track.
    pub open spec fn after(self, event: FetchEvent, wanted: bool) -> (FetchModel, FetchWant) {
        match event {
            FetchEvent::Replied(head) => self.replied(
                head.status,
                head.status_text@,
                text_of(head.content_length),
                text_of(head.content_range),
                text_of(head.content_type),
            ),
            FetchEvent::Renewed(url) => FetchModel { url: url@, ..self }.asking(wanted),
            FetchEvent::WriterOpened(ok) => if ok {
                (
                    FetchModel { writer_open: true, stage: FetchStage::Reading, ..self },
                    FetchWant::Read,
                )
            } else {
                (self.at(FetchStage::Ended), FetchWant::Stop)
            },
            FetchEvent::Piece(bytes) => if self.offset == 0 && self.received == 0
                && is_text_payload(lossy_text(payload_head(bytes@))) {
                self.failing("缓存源返回了 HTML/JSON 错误内容"@)
            } else {
                (
                    FetchModel {
                        received: added(self.received, bytes@.len()),
                        stage: FetchStage::Writing,
                        ..self
                    },
                    FetchWant::Write,
                )
            },
            FetchEvent::PartEnded => self.part_ended(wanted),
            FetchEvent::Written(ok, written) => if !ok {
                (self.at(FetchStage::Ended), FetchWant::Stop)
            } else if written - self.observed >= OBSERVE_STEP_BYTES {
                (
                    FetchModel { written, stage: FetchStage::Publishing, ..self },
                    FetchWant::Publish,
                )
            } else {
                (FetchModel { written, stage: FetchStage::Reading, ..self }, FetchWant::Read)
            },
            FetchEvent::Published(ok) => (
                FetchModel {
                    observed: if ok {
                        self.written
                    } else {
                        self.observed
                    },
                    stage: FetchStage::Reading,
                    ..self
                },
                FetchWant::Read,
            ),
            FetchEvent::Committed => (self.at(FetchStage::Ended), FetchWant::Stop),
            FetchEvent::Broken(e) => self.failing(e@),
        }
    }
}

/// The event answers what the fetch waits for.
pub open spec fn answers(model: FetchModel, event: FetchEvent) -> bool {
    match event {
        FetchEvent::Replied(_) => model.stage == FetchStage::Asking,
        FetchEvent::Renewed(_) => model.stage == FetchStage::Renewing,
        FetchEvent::WriterOpened(_) => model.stage == FetchStage::Opening,
        FetchEvent::Piece(_) => model.stage == FetchStage::Reading,
        FetchEvent::PartEnded => model.stage == FetchStage::Reading,
        FetchEvent::Written(_, _) => model.stage == FetchStage::Writing,
        FetchEvent::Published(_) => model.stage == FetchStage::Publishing,
        FetchEvent::Committed => model.stage == FetchStage::Committing,
        FetchEvent::Broken(_) => true,
    }
}

impl CacheFetch {
    pub open spec fn well_formed(self) -> bool {
        self@.well_formed()
    }

    pub fn begin(url: String, type_hint: String, wanted: bool) -> (r: (Self, FetchAction))
        ensures
            r.0.well_formed(),
            (r.0@, want_of(r.1)) == (FetchModel {
                url: url@,
                type_hint: type_hint@,
                offset: 0,
                expected_total: None,
                writer_open: false,
                renewals_left: 1,
                parts_left: MAX_CACHE_PARTS,
                segment: None,
                received: 0,
                observed: 0,
                written: 0,
                stage: FetchStage::Asking,
            }).asking(wanted),
    {
        let mut run = CacheFetch {
            url,
            type_hint,
            offset: 0,
            expected_total: None,
            writer_open: false,
            renewals_left: 1,
            parts_left: MAX_CACHE_PARTS,
            segment: None,
            received: 0,
            observed: 0,
            written: 0,
            stage: FetchStage::Asking,
        };
        let action = run.ask(wanted);
        (run, action)
    }

    fn fail(&mut self, e: String) -> (r: FetchAction)
        ensures
            (final(self)@, want_of(r)) == old(self)@.failing(e@),
    {
        self.stage = FetchStage::Ended;
        FetchAction::Fail(e)
    }

    fn ask(&mut self, wanted: bool) -> (r: FetchAction)
        ensures
            (final(self)@, want_of(r)) == old(self)@.asking(wanted),
    {
        if self.parts_left == 0 {
            return self.fail("缓存源分段过多，已停止续传".to_owned());
        }
        if !wanted {
            self.stage = FetchStage::Ended;
            return FetchAction::Stop;
        }
        self.parts_left = self.parts_left - 1;
        self.segment = None;
        self.received = 0;
        self.stage = FetchStage::Asking;
        FetchAction::Request(self.url.clone(), self.offset)
    }

    fn renew(&mut self, e: String) -> (r: FetchAction)
        ensures
            (final(self)@, want_of(r)) == old(self)@.renewing(e@),
    {
        if self.renewals_left == 0 {
            return self.fail(e);
        }
        self.renewals_left = self.renewals_left - 1;
        self.stage = FetchStage::Renewing;
        FetchAction::Renew
    }

    fn take_reply(&mut self, head: &MediaHead) -> (r: FetchAction)
        ensures
            (final(self)@, want_of(r)) == old(self)@.replied(
                head.status,
                head.status_text@,
                text_of(head.content_length),
                text_of(head.content_range),
                text_of(head.content_type),
            ),
            final(self)@.segment matches Some(s) ==> old(self)@.segment == Some(s)
                || s.well_formed(),
    {
        if song_preview_url_needs_refresh(head.status) {
            let mut e = "缓存源刷新后仍返回 HTTP ".to_owned();
            e.append(head.status_text.as_str());
            return self.renew(e);
        }
        let mime = match preview_audio_mime(&head.content_type, self.type_hint.as_str()) {
            Some(mime) => mime,
            None => {
                return self.renew("缓存源刷新后仍返回非音频内容".to_owned());
            },
        };
        let segment = match preview_cache_segment(head, self.offset) {
            Some(segment) => segment,
            None => {
                let mut e = "缓存源没有返回可续写的完整范围：HTTP ".to_owned();
                e.append(head.status_text.as_str());
                return self.fail(e);
            },
        };
        if let Some(total) = self.expected_total {
            if total != segment.total {
                return self.fail("缓存源总长度在续传时发生变化".to_owned());
            }
        }
        self.expected_total = Some(segment.total);
        self.segment = Some(segment);
        self.received = 0;
        if self.writer_open {
            self.stage = FetchStage::Reading;
            FetchAction::Read
        } else {
            self.stage = FetchStage::Opening;
            FetchAction::OpenWriter(mime, segment.total)
        }
    }

    fn end_part(&mut self, wanted: bool) -> (r: FetchAction)
        requires
            old(self).well_formed(),
        ensures
            (final(self)@, want_of(r)) == old(self)@.part_ended(wanted),
    {
        match self.segment {
            None => self.fail("缓存源分段过多，已停止续传".to_owned()),
            Some(s) => {
                let declared: u64 = s.end - s.start + 1;
                if self.received != declared {
                    let mut e = "缓存分段长度不符：声明 ".to_owned();
                    append_decimal(&mut e, declared);
                    e.append("，收到 ");
                    append_decimal(&mut e, self.received);
                    return self.fail(e);
                }
                self.offset = s.end + 1;
                self.segment = None;
                if self.offset == s.total {
                    self.stage = FetchStage::Committing;
                    FetchAction::Commit
                } else {
                    self.ask(wanted)
                }
            },
        }
    }

    /// Takes in what came of the last action.
    pub fn step(&mut self, event: FetchEvent, wanted: bool) -> (r: FetchAction)
        requires
            old(self).well_formed(),
            answers(old(self)@, event),
        ensures
            final(self).well_formed(),
            (final(self)@, want_of(r)) == old(self)@.after(event, wanted),
    {
        match event {
            FetchEvent::Replied(head) => self.take_reply(&head),
            FetchEvent::Renewed(url) => {
                self.url = url;
                self.ask(wanted)
            },
            FetchEvent::WriterOpened(ok) => {
                if ok {
                    self.writer_open = true;
                    self.stage = FetchStage::Reading;
                    FetchAction::Read
                } else {
                    self.stage = FetchStage::Ended;
                    FetchAction::Stop
                }
            },
            FetchEvent::Piece(bytes) => {
                if self.offset == 0 && self.received == 0 && looks_like_text_error_payload(&bytes) {
                    return self.fail("缓存源返回了 HTML/JSON 错误内容".to_owned());
                }
                let length: u64 = bytes.len() as u64;
                if length > u64::MAX - self.received {
                    self.received = u64::MAX;
                } else {
                    self.received = self.received + length;
                }
                self.stage = FetchStage::Writing;
                FetchAction::Write
            },
            FetchEvent::PartEnded => self.end_part(wanted),
            FetchEvent::Written(ok, written) => {
                if !ok {
                    self.stage = FetchStage::Ended;
                    return FetchAction::Stop;
                }
                self.written = written;
                if written >= self.observed && written - self.observed >= OBSERVE_STEP_BYTES {
                    self.stage = FetchStage::Publishing;
                    FetchAction::Publish
                } else {
                    self.stage = FetchStage::Reading;
                    FetchAction::Read
                }
            },
            FetchEvent::Published(ok) => {
                if ok {
                    self.observed = self.written;
                }
                self.stage = FetchStage::Reading;
                FetchAction::Read
            },
            FetchEvent::Committed => {
                self.stage = FetchStage::Ended;
                FetchAction::Stop
            },
            FetchEvent::Broken(e) => self.fail(e),
        }
    }
}

/// A file is committed only when every part was as long as it said and the last one reached the
/// end that the source had stated all along.
pub proof fn only_complete_tracks_are_kept(model: FetchModel, event: FetchEvent, wanted: bool)
    requires
        model.well_formed(),
        answers(model, event),
        model.after(event, wanted).1 is Commit,
    ensures
        event is PartEnded,
        model.segment matches Some(s) && {
            &&& s.start == model.offset
            &&& model.received == s.end - s.start + 1
            &&& s.end + 1 == s.total
            &&& model.expected_total == Some(s.total)
        },
{
}

/// The address is renewed at most once, and a request always begins where the file ends.
pub proof fn fetching_is_bounded(model: FetchModel, event: FetchEvent, wanted: bool)
    requires
        model.well_formed(),
        answers(model, event),
    ensures
        model.after(event, wanted).1 is Renew ==> model.renewals_left > 0
            && model.after(event, wanted).0.renewals_left == model.renewals_left - 1,
        model.after(event, wanted).1 matches FetchWant::Request(url, start) ==> {
            &&& start == model.after(event, wanted).0.offset
            &&& model.after(event, wanted).0.parts_left < model.parts_left
        },
{
}

/// Where a track that is fetched in the background gets a new address: a session's own address
/// stays, since only the browser could renew it.
pub open spec fn background_renewal(
    ticket: TicketModel,
    platform_known: bool,
    offered: Result<Option<Seq<char>>, Seq<char>>,
) -> Result<Seq<char>, Seq<char>> {
    if !platform_known {
        Err("缓存来源平台不可用"@)
    } else if ticket.source.platform == Platform::Ytm && ticket.browser_resolved {
        if ticket.url.len() > 0 {
            Ok(ticket.url)
        } else {
            Err("缓存来源地址无法刷新"@)
        }
    } else {
        match offered {
            Ok(Some(url)) => Ok(url),
            Ok(None) => Err("缓存来源地址无法刷新"@),
            Err(e) => Err(e),
        }
    }
}

/// What a platform offers, or why it cannot.
pub open spec fn offer_view(r: Result<Option<String>, String>) -> Result<
    Option<Seq<char>>,
    Seq<char>,
> {
    match r {
        Ok(url) => Ok(text_of(url)),
        Err(e) => Err(e@),
    }
}

/// Whether the platform has to be asked for a new address.
pub fn asks_platform(ticket: &SongPreviewTicket) -> (r: bool)
    ensures
        r == !(ticket@.source.platform == Platform::Ytm && ticket@.browser_resolved),
{
    !(ticket.source.platform == Platform::Ytm && ticket.browser_resolved)
}

pub open spec fn address_view(r: Result<String, String>) -> Result<Seq<char>, Seq<char>> {
    match r {
        Ok(url) => Ok(url@),
        Err(e) => Err(e@),
    }
}

/// The address with which a fetch goes on; `offered` is what the platform gave, where it was asked.
pub fn refresh_background_preview_url(
    ticket: &SongPreviewTicket,
    platform_known: bool,
    offered: Result<Option<String>, String>,
) -> (r: Result<String, String>)
    ensures
        address_view(r) == background_renewal(ticket@, platform_known, offer_view(offered)),
{
    if !platform_known {
        return Err("缓存来源平台不可用".to_owned());
    }
    if ticket.source.platform == Platform::Ytm && ticket.browser_resolved {
        if ticket.url.as_str().is_empty() {
            return Err("缓存来源地址无法刷新".to_owned());
        }
        return Ok(ticket.url.clone());
    }
    match offered {
        Ok(Some(url)) => Ok(url),
        Ok(None) => Err("缓存来源地址无法刷新".to_owned()),
        Err(e) => Err(e),
    }
}

// ---------------------------------------------------------------- when to begin

/// How long a track that plays is left alone before the first look, in milliseconds: longer than
/// a player that goes on is counted as playing.
pub const FIRST_LOOK_MS: u64 = 6_000;

/// How long until the next look, in milliseconds.
pub const NEXT_LOOK_MS: u64 = 2_000;

/// How long the player has the connection for itself at the beginning, in milliseconds.
pub const PLAYER_LEAD_MS: u64 = 400;

/// What to do before a track is fetched.
#[derive(Clone, Copy, PartialEq, Eq, Debug, Structural)]
pub enum ScheduleAction {
    /// Note that the track is wanted once nobody plays it.
    Defer,
    /// Look after this many milliseconds whether the note still counts, whether nobody plays the
    /// track, and again whether the note counts.
    Look(u64),
    /// Reserve the place of the track.
    Reserve,
    /// Wait for one of the few slots for fetching.
    TakeSlot,
    /// Look whether the track is kept by now.
    Lookup,
    /// It is kept: tell the waveform.
    Observe,
    Fetch,
    Stop,
}

/// What came of it.
#[derive(Clone, Copy, PartialEq, Eq, Debug, Structural)]
pub enum ScheduleEvent {
    /// Whether the note, the place or the slot was to be had, or the track is kept.
    Answer(bool),
    Looked { valid: bool, idle: bool, still_valid: bool },
}

#[derive(Clone, Copy, PartialEq, Eq, Debug, Structural)]
pub enum ScheduleStage {
    Deferring,
    Deferred,
    Reserving,
    Leading,
    Waiting,
    Looking,
    Ended,
}

/// The way to the fetching of a track in the background.
#[derive(Clone, Copy, PartialEq, Eq, Debug, Structural)]
pub struct FetchSchedule {
    pub stage: ScheduleStage,
    /// The player and the cache share one mobile connection.
    pub mobile: bool,
}

impl FetchSchedule {
    pub open spec fn at(self, stage: ScheduleStage) -> FetchSchedule {
        FetchSchedule { stage, ..self }
    }

    pub open spec fn ended(self) -> (FetchSchedule, ScheduleAction) {
        (self.at(ScheduleStage::Ended), ScheduleAction::Stop)
    }

    /// The schedule after an event, and what is to be done next.
    pub open spec fn after(self, event: ScheduleEvent) -> (FetchSchedule, ScheduleAction) {
        match (self.stage, event) {
            (ScheduleStage::Deferring, ScheduleEvent::Answer(true)) => (
                self.at(ScheduleStage::Deferred),
                ScheduleAction::Look(FIRST_LOOK_MS),
            ),
            (ScheduleStage::Deferred, ScheduleEvent::Looked { valid, idle, still_valid }) => {
                if !valid {
                    self.ended()
                } else if !idle {
                    (self, ScheduleAction::Look(NEXT_LOOK_MS))
                } else if !still_valid {
                    self.ended()
                } else {
                    (self.at(ScheduleStage::Reserving), ScheduleAction::Reserve)
                }
            },
            (ScheduleStage::Reserving, ScheduleEvent::Answer(true)) => (
                self.at(ScheduleStage::Leading),
                ScheduleAction::Look(PLAYER_LEAD_MS),
            ),
            (ScheduleStage::Leading, ScheduleEvent::Looked { idle, still_valid, .. }) => {
                if (self.mobile && !idle) || !still_valid {
                    self.ended()
                } else {
                    (self.at(ScheduleStage::Waiting), ScheduleAction::TakeSlot)
                }
            },
            (ScheduleStage::Waiting, ScheduleEvent::Answer(true)) => (
                self.at(ScheduleStage::Looking),
                ScheduleAction::Lookup,
            ),
            (ScheduleStage::Looking, ScheduleEvent::Answer(kept)) => (
                self.at(ScheduleStage::Ended),
                if kept {
                    ScheduleAction::Observe
                } else {
                    ScheduleAction::Fetch
                },
            ),
            _ => self.ended(),
        }
    }

    /// Begins: soon, or once nobody plays the track.
    pub fn begin(schedule: CacheSchedule, mobile: bool) -> (r: (Self, ScheduleAction))
        ensures
            r.0.mobile == mobile,
            match schedule {
                CacheSchedule::Soon => r.0.stage == ScheduleStage::Reserving && r.1
                    == ScheduleAction::Reserve,
                CacheSchedule::WhenIdle => r.0.stage == ScheduleStage::Deferring && r.1
                    == ScheduleAction::Defer,
            },
    {
        match schedule {
            CacheSchedule::Soon => (
                FetchSchedule { stage: ScheduleStage::Reserving, mobile },
                ScheduleAction::Reserve,
            ),
            CacheSchedule::WhenIdle => (
                FetchSchedule { stage: ScheduleStage::Deferring, mobile },
                ScheduleAction::Defer,
            ),
        }
    }

    /// Takes in what came of the last action.
    pub fn step(&mut self, event: ScheduleEvent) -> (r: ScheduleAction)
        ensures
            (*final(self), r) == old(self).after(event),
    {
        let (stage, action) = match (self.stage, event) {
            (ScheduleStage::Deferring, ScheduleEvent::Answer(true)) => {
                (ScheduleStage::Deferred, ScheduleAction::Look(FIRST_LOOK_MS))
            },
            (ScheduleStage::Deferred, ScheduleEvent::Looked { valid, idle, still_valid }) => {
                if valid && !idle {
                    (ScheduleStage::Deferred, ScheduleAction::Look(NEXT_LOOK_MS))
                } else if valid && still_valid {
                    (ScheduleStage::Reserving, ScheduleAction::Reserve)
                } else {
                    (ScheduleStage::Ended, ScheduleAction::Stop)
                }
            },
            (ScheduleStage::Reserving, ScheduleEvent::Answer(true)) => {
                (ScheduleStage::Leading, ScheduleAction::Look(PLAYER_LEAD_MS))
            },
            (ScheduleStage::Leading, ScheduleEvent::Looked { idle, still_valid, .. }) => {
                if still_valid && (idle || !self.mobile) {
                    (ScheduleStage::Waiting, ScheduleAction::TakeSlot)
                } else {
                    (ScheduleStage::Ended, ScheduleAction::Stop)
                }
            },
            (ScheduleStage::Waiting, ScheduleEvent::Answer(true)) => {
                (ScheduleStage::Looking, ScheduleAction::Lookup)
            },
            (ScheduleStage::Looking, ScheduleEvent::Answer(true)) => {
                (ScheduleStage::Ended, ScheduleAction::Observe)
            },
            (ScheduleStage::Looking, ScheduleEvent::Answer(false)) => {
                (ScheduleStage::Ended, ScheduleAction::Fetch)
            },
            _ => (ScheduleStage::Ended, ScheduleAction::Stop),
        };
        self.stage = stage;
        action
    }
}

/// A track that was put off is taken up only when nobody plays it, and on a mobile connection none
/// is fetched while it plays. What is kept by now is not fetched again, and what is no longer
/// wanted is given up at the next look.
pub proof fn playing_goes_before_fetching(
    schedule: FetchSchedule,
    event: ScheduleEvent,
    valid: bool,
    idle: bool,
    still_valid: bool,
)
    ensures
        schedule.after(event).1 == ScheduleAction::Fetch ==> schedule.stage == ScheduleStage::Looking
            && event == ScheduleEvent::Answer(false),
        ({
            let looked = ScheduleEvent::Looked { valid, idle, still_valid };
            let action = schedule.after(looked).1;
            &&& schedule.stage == ScheduleStage::Deferred && action == ScheduleAction::Reserve
                ==> valid && idle && still_valid
            &&& schedule.mobile && action == ScheduleAction::TakeSlot ==> idle
            &&& !valid && !still_valid ==> schedule.after(looked) == schedule.ended()
        }),
{
}

/// A reply that is the whole track, on its way to the player and into the cache at once.
pub struct InlineCapture {
    pub total: u64,
    /// How many bytes the waveform has been told of.
    pub published: u64,
    /// How many bytes of the reply have passed.
    pub passed: u64,
}

/// Why a piece is refused; `written` says how much is in the file.
pub open spec fn piece_refusal(capture: InlineCapture, bytes: Seq<u8>, written: u64) -> Option<
    Seq<char>,
> {
    if written == 0 && is_text_payload(lossy_text(payload_head(bytes))) {
        Some("试听缓存首包不是音频"@)
    } else if capture.passed + bytes.len() > capture.total {
        Some("媒体响应超过声明的完整资源长度"@)
    } else {
        None
    }
}

impl InlineCapture {
    pub fn begin(total: u64) -> (r: Option<Self>)
        ensures
            match r {
                Some(capture) => total > 0 && capture == (InlineCapture {
                    total,
                    published: 0,
                    passed: 0,
                }),
                None => total == 0,
            },
    {
        if total == 0 {
            None
        } else {
            Some(InlineCapture { total, published: 0, passed: 0 })
        }
    }

    /// Judges a piece before it is written.
    pub fn accept(&self, bytes: &Vec<u8>, written: u64) -> (r: Result<(), String>)
        ensures
            match (piece_refusal(*self, bytes@, written), r) {
                (None, Ok(())) => true,
                (Some(reason), Err(e)) => e@ == reason,
                _ => false,
            },
    {
        if written == 0 && looks_like_text_error_payload(bytes) {
            return Err("试听缓存首包不是音频".to_owned());
        }
        let length: u64 = bytes.len() as u64;
        if self.passed > self.total || length > self.total - self.passed {
            return Err("媒体响应超过声明的完整资源长度".to_owned());
        }
        Ok(())
    }

    /// Counts a piece that has been written; says whether the waveform is to be told.
    pub fn written(&mut self, length: u64, written: u64) -> (r: bool)
        requires
            old(self).passed + length <= old(self).total,
        ensures
            final(self).total == old(self).total,
            final(self).published == old(self).published,
            final(self).passed == old(self).passed + length,
            r == (written - old(self).published >= OBSERVE_STEP_BYTES),
    {
        self.passed = self.passed + length;
        written >= self.published && written - self.published >= OBSERVE_STEP_BYTES
    }

    /// Notes that the waveform has been told.
    pub fn published(&mut self, written: u64)
        ensures
            final(self).total == old(self).total,
            final(self).passed == old(self).passed,
            final(self).published == written,
    {
        self.published = written;
    }

    /// Whether the file may be kept: the reply ended, and all of it passed.
    pub fn is_complete(&self, reached_end: bool) -> (r: bool)
        ensures
            r == (reached_end && self.passed == self.total),
    {
        reached_end && self.passed == self.total
    }
}

} // verus!
