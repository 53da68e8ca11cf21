//! The growing file of a protected stream: how it is opened, fed, read and closed.

use vstd::prelude::*;

use crate::ids::{id_of, id_text, random_u64};
use crate::models::{clone_texts, text_of, texts};
use crate::protected_media::{
    continuation_of, ensure_media_chunk, gvs_range, head_metadata, is_error_page, length_hint,
    piece_end, probe_of, range_text, response_metadata, stated_length, validate_continuation,
    chunk_refusal, MediaHead, LOCAL_RANGE_CHUNK_BYTES,
};
use crate::text::{
    append_decimal, decimal, first_chars, has_prefix, lossy_text, same, strip_front, take_chars,
    trim, trimmed,
};
use crate::urls::{parse_url, url_of, url_view, ParsedUrl};

verus! {

/// A part of the file, as a reader gets it.
pub struct ProtectedMediaSlice {
    pub bytes: Vec<u8>,
    pub start: u64,
    pub end: u64,
    pub total: u64,
    pub content_type: String,
}

/// The state of one growing file.
pub struct ProtectedMediaSpool {
    pub total: u64,
    pub content_type: String,
    /// How many bytes are in the file.
    pub available: u64,
    pub complete: bool,
    pub error: Option<String>,
    /// The file outlives this state.
    pub persistent: bool,
    pub cancelled: bool,
}

#[verifier::ext_equal]
pub struct SpoolModel {
    pub total: u64,
    pub content_type: Seq<char>,
    pub available: u64,
    pub complete: bool,
    pub error: Option<Seq<char>>,
    pub persistent: bool,
    pub cancelled: bool,
}

impl View for ProtectedMediaSpool {
    type V = SpoolModel;

    open spec fn view(&self) -> SpoolModel {
        SpoolModel {
            total: self.total,
            content_type: self.content_type@,
            available: self.available,
            complete: self.complete,
            error: text_of(self.error),
            persistent: self.persistent,
            cancelled: self.cancelled,
        }
    }
}

impl SpoolModel {
    /// A file is complete only with every byte that was announced.
    pub open spec fn well_formed(self) -> bool {
        self.total > 0 && (self.complete ==> self.available == self.total)
    }

    /// After the transfer of a stream: it succeeded only with every byte that was announced.
    pub open spec fn after_pump(self, result: Result<(), String>) -> SpoolModel {
        match result {
            Ok(()) => if self.available == self.total {
                SpoolModel { complete: true, ..self }
            } else {
                SpoolModel {
                    error: Some(
                        short_text("YouTube GVS 媒体流提前结束（"@, self.available, self.total),
                    ),
                    ..self
                }
            },
            Err(e) => SpoolModel { error: Some(e@), ..self },
        }
    }

    pub open spec fn fresh(total: u64, content_type: Seq<char>, available: u64) -> SpoolModel {
        SpoolModel {
            total,
            content_type,
            available,
            complete: available == total,
            error: None,
            persistent: false,
            cancelled: false,
        }
    }
}

/// The addresses of a stream: the given alternatives, or the address itself.
pub open spec fn media_urls(url: Seq<char>, alternatives: Seq<Seq<char>>) -> Seq<Seq<char>> {
    if alternatives.len() == 0 {
        seq![url]
    } else {
        alternatives
    }
}

/// The opening of a stream.
pub struct SpoolOpening {
    pub parsed: Option<ParsedUrl>,
    pub urls: Vec<String>,
    pub range: String,
    /// Whether the one repetition is spent.
    pub repeated: bool,
}

/// What to do with the reply to the opening request.
pub enum OpeningStep {
    /// Wait so many milliseconds and send the request again.
    Repeat(u64),
    /// The right to play is gone; the text of the reply says more.
    Refused,
    /// The length and the type of the media.
    Opened(u64, String),
    Failed(String),
}

pub open spec fn is_refusal(status: u16) -> bool {
    status == 401 || status == 403
}

/// The message for a right to play that is gone.
pub open spec fn refused_text(status_text: Seq<char>, body: Seq<char>) -> Seq<char> {
    let detail = first_chars(trimmed(body), 300);
    let middle = if detail.len() == 0 {
        Seq::<char>::empty()
    } else {
        "："@ + detail
    };
    "YouTube GVS 播放授权已失效（HTTP "@ + status_text + middle + "）"@
}

pub fn refused_message(status_text: &str, body: &str) -> (r: String)
    ensures
        r@ == refused_text(status_text@, body@),
{
    let detail = take_chars(trim(body).as_str(), 300);
    let mut r = "YouTube GVS 播放授权已失效（HTTP ".to_owned();
    r.append(status_text);
    if !detail.as_str().is_empty() {
        r.append("：");
        r.append(detail.as_str());
    }
    r.append("）");
    assert(r@ =~= refused_text(status_text@, body@));
    r
}

impl SpoolOpening {
    pub open spec fn well_formed(self) -> bool {
        self.urls@.len() > 0
    }

    /// Begins with an address that has been taken apart. It has to state the length.
    pub fn begin_with(url: &str, parsed: Option<ParsedUrl>, alternatives: &Vec<String>) -> (r:
        Result<Self, String>)
        ensures
            match (stated_length(url_view(parsed)), r) {
                (Some(total), Ok(opening)) => {
                    &&& opening.well_formed()
                    &&& opening.parsed == parsed
                    &&& texts(opening.urls@) == media_urls(url@, texts(alternatives@))
                    &&& opening.range@ == range_text(0, piece_end(0, total))
                    &&& !opening.repeated
                },
                (None, Err(e)) => e@ == "YouTube GVS URL 缺少 clen"@,
                _ => false,
            },
    {
        let total: u64 = match length_hint(&parsed) {
            Some(total) => total,
            None => {
                return Err("YouTube GVS URL 缺少 clen".to_owned());
            },
        };
        let urls: Vec<String> = if alternatives.len() == 0 {
            let mut own: Vec<String> = Vec::new();
            own.push(url.to_owned());
            assert(texts(own@) =~= seq![url@]);
            own
        } else {
            clone_texts(alternatives)
        };
        assert(texts(urls@).len() == urls@.len());
        assert(texts(alternatives@).len() == alternatives@.len());
        Ok(SpoolOpening { parsed, urls, range: gvs_range(0, total), repeated: false })
    }

    pub fn begin(url: &str, alternatives: &Vec<String>) -> (r: Result<Self, String>)
        ensures
            match (stated_length(url_of(url@)), r) {
                (Some(total), Ok(opening)) => {
                    &&& opening.well_formed()
                    &&& url_view(opening.parsed) == url_of(url@)
                    &&& texts(opening.urls@) == media_urls(url@, texts(alternatives@))
                    &&& opening.range@ == range_text(0, piece_end(0, total))
                    &&& !opening.repeated
                },
                (None, Err(e)) => e@ == "YouTube GVS URL 缺少 clen"@,
                _ => false,
            },
    {
        let parsed = parse_url(url);
        Self::begin_with(url, parsed, alternatives)
    }

    /// The address and the range of the opening request.
    pub fn request(&self) -> (r: (&str, &str))
        requires
            self.well_formed(),
        ensures
            r.0@ == self.urls@[0]@,
            r.1@ == self.range@,
    {
        (self.urls[0].as_str(), self.range.as_str())
    }

    /// Judges the reply. A refusal is worth one repetition.
    pub fn judge(&mut self, head: &MediaHead) -> (r: OpeningStep)
        ensures
            final(self).parsed == old(self).parsed,
            final(self).urls == old(self).urls,
            final(self).range == old(self).range,
            final(self).repeated == (old(self).repeated || is_refusal(head.status)),
            if is_refusal(head.status) {
                if old(self).repeated {
                    r is Refused
                } else {
                    r matches OpeningStep::Repeat(wait) && wait == 300
                }
            } else {
                match (head_metadata(url_view(old(self).parsed), *head), r) {
                    (Ok(found), OpeningStep::Opened(total, kind)) => found == (total, kind@),
                    (Err(reason), OpeningStep::Failed(e)) => e@ == reason,
                    _ => false,
                }
            },
    {
        if head.status == 401 || head.status == 403 {
            if self.repeated {
                return OpeningStep::Refused;
            }
            self.repeated = true;
            return OpeningStep::Repeat(300);
        }
        match response_metadata(&self.parsed, head) {
            Ok(found) => OpeningStep::Opened(found.0, found.1),
            Err(e) => OpeningStep::Failed(e),
        }
    }
}

/// Why the first piece of a stream is refused.
pub open spec fn first_piece_refusal(total: u64, bytes: Seq<u8>) -> Option<Seq<char>> {
    if is_error_page(lossy_text(probe_of(bytes))) {
        Some(chunk_refusal())
    } else if bytes.len() > total {
        Some("YouTube GVS 返回内容超过声明长度"@)
    } else {
        None
    }
}

/// Why an upload is refused.
pub open spec fn upload_refusal(total: u64, content_type: Seq<char>) -> Option<Seq<char>> {
    if !(0 < total <= 536_870_912) {
        Some("媒体上传长度无效"@)
    } else if content_type != "audio/mp4"@ && content_type != "audio/webm"@ {
        Some("媒体上传类型无效"@)
    } else {
        None
    }
}

/// Why a piece of an upload is refused.
pub open spec fn piece_refusal(spool: SpoolModel, length: nat) -> Option<Seq<char>> {
    if !(0 < length <= 2_097_152) {
        Some("媒体上传分段无效"@)
    } else if spool.error is Some {
        spool.error
    } else if spool.complete {
        Some("媒体上传已经完成"@)
    } else if spool.cancelled {
        Some("媒体会话已取消"@)
    } else if spool.available + length > spool.total {
        Some("媒体上传超过声明长度"@)
    } else {
        None
    }
}

/// The message for a transfer that ended early.
pub open spec fn short_text(head: Seq<char>, available: u64, total: u64) -> Seq<char> {
    head + decimal(available as nat) + "/"@ + decimal(total as nat) + " 字节）"@
}

fn short_message(head: &str, available: u64, total: u64) -> (r: String)
    ensures
        r@ == short_text(head@, available, total),
{
    let mut r = head.to_owned();
    append_decimal(&mut r, available);
    r.append("/");
    append_decimal(&mut r, total);
    r.append(" 字节）");
    r
}

/// What a reader asks for: where the part ends at the latest, and how much of it has to be there
/// before it is handed out.
#[derive(Clone, Copy, PartialEq, Eq, Debug, Structural)]
pub struct RangeWindow {
    pub start: u64,
    pub desired_end: u64,
    pub minimum: u64,
}

pub open spec fn smaller(a: int, b: int) -> int {
    if a < b {
        a
    } else {
        b
    }
}

/// The last byte that a reader can get, for a request that begins at `start`.
pub open spec fn window_end(total: u64, start: u64, requested_end: Option<u64>) -> int {
    let reach = smaller(start + LOCAL_RANGE_CHUNK_BYTES - 1, u64::MAX as int);
    let wanted = match requested_end {
        Some(end) => end as int,
        None => reach,
    };
    smaller(smaller(wanted, reach), total - 1)
}

/// The first part may come small, so that playing begins soon.
pub open spec fn window_minimum(start: u64, length: int) -> int {
    smaller(
        length,
        if start == 0 {
            65_536
        } else {
            262_144
        },
    )
}

/// Whether a reader can be served.
pub enum RangePoll {
    /// The part from the start of the window to this byte.
    Ready(u64),
    Failed(String),
    Wait,
}

/// Whether a transfer has ended.
pub enum CompletePoll {
    Done,
    Failed(String),
    Wait,
}

fn lesser(a: u64, b: u64) -> (r: u64)
    ensures
        r == smaller(a as int, b as int),
{
    if a < b {
        a
    } else {
        b
    }
}

impl ProtectedMediaSpool {
    pub open spec fn well_formed(self) -> bool {
        self@.well_formed()
    }

    /// The file of a stream after its first piece.
    pub fn opened(total: u64, content_type: String, first: &Vec<u8>) -> (r: Result<Self, String>)
        requires
            total > 0,
        ensures
            match (first_piece_refusal(total, first@), r) {
                (None, Ok(spool)) => {
                    &&& spool.well_formed()
                    &&& spool@ == SpoolModel::fresh(total, content_type@, first@.len() as u64)
                },
                (Some(reason), Err(e)) => e@ == reason,
                _ => false,
            },
    {
        match ensure_media_chunk(first) {
            Err(e) => {
                return Err(e);
            },
            Ok(()) => {},
        }
        let length: u64 = first.len() as u64;
        if length > total {
            return Err("YouTube GVS 返回内容超过声明长度".to_owned());
        }
        Ok(
            ProtectedMediaSpool {
                total,
                content_type,
                available: length,
                complete: length == total,
                error: None,
                persistent: false,
                cancelled: false,
            },
        )
    }

    /// The empty file of an upload.
    pub fn start_upload(total: u64, content_type: String) -> (r: Result<Self, String>)
        ensures
            match (upload_refusal(total, content_type@), r) {
                (None, Ok(spool)) => {
                    &&& spool.well_formed()
                    &&& spool@ == SpoolModel::fresh(total, content_type@, 0)
                },
                (Some(reason), Err(e)) => e@ == reason,
                _ => false,
            },
    {
        if total == 0 || total > 536_870_912 {
            return Err("媒体上传长度无效".to_owned());
        }
        if !same(content_type.as_str(), "audio/mp4") && !same(content_type.as_str(), "audio/webm") {
            return Err("媒体上传类型无效".to_owned());
        }
        Ok(
            ProtectedMediaSpool {
                total,
                content_type,
                available: 0,
                complete: false,
                error: None,
                persistent: false,
                cancelled: false,
            },
        )
    }

    /// Where the next piece of an upload is written, before it is.
    pub fn admit_upload(&self, length: usize) -> (r: Result<u64, String>)
        ensures
            match (piece_refusal(self@, length as nat), r) {
                (None, Ok(offset)) => offset == self@.available,
                (Some(reason), Err(e)) => e@ == reason,
                _ => false,
            },
    {
        if length == 0 || length > 2_097_152 {
            return Err("媒体上传分段无效".to_owned());
        }
        if let Some(error) = &self.error {
            return Err(error.clone());
        }
        if self.complete {
            return Err("媒体上传已经完成".to_owned());
        }
        if self.cancelled {
            return Err("媒体会话已取消".to_owned());
        }
        if self.available > self.total || self.total - self.available < length as u64 {
            return Err("媒体上传超过声明长度".to_owned());
        }
        Ok(self.available)
    }

    /// Counts the piece that has been written at `offset`.
    pub fn append_upload(&mut self, offset: u64, length: usize) -> (r: (u64, u64))
        requires
            old(self).well_formed(),
            piece_refusal(old(self)@, length as nat) is None,
            offset == old(self)@.available,
        ensures
            final(self).well_formed(),
            final(self)@ == (SpoolModel { available: (offset + length) as u64, ..old(self)@ }),
            r == (final(self)@.available, old(self)@.total),
    {
        self.available = offset + length as u64;
        (self.available, self.total)
    }

    /// Closes an upload; all of it has to be there.
    pub fn finish_upload(&mut self) -> (r: Result<(), String>)
        requires
            old(self).well_formed(),
        ensures
            final(self).well_formed(),
            match r {
                Ok(()) => old(self)@.available == old(self)@.total && final(self)@ == (SpoolModel {
                    complete: true,
                    ..old(self)@
                }),
                Err(e) => old(self)@.available != old(self)@.total && final(self)@ == old(self)@
                    && e@ == short_text(
                    "媒体上传提前结束（"@,
                    old(self)@.available,
                    old(self)@.total,
                ),
            },
    {
        if self.available != self.total {
            return Err(short_message("媒体上传提前结束（", self.available, self.total));
        }
        self.complete = true;
        Ok(())
    }

    /// Notes a failure, unless the transfer has ended well.
    pub fn fail_upload(&mut self, error: String)
        requires
            old(self).well_formed(),
        ensures
            final(self).well_formed(),
            final(self)@ == if old(self)@.complete {
                old(self)@
            } else {
                SpoolModel { error: Some(error@), ..old(self)@ }
            },
    {
        if !self.complete {
            self.error = Some(error);
        }
    }

    pub fn total(&self) -> (r: u64)
        ensures
            r == self@.total,
    {
        self.total
    }

    pub fn content_type(&self) -> (r: &str)
        ensures
            r@ == self@.content_type,
    {
        self.content_type.as_str()
    }

    /// How much is there, and of how much.
    pub fn progress(&self) -> (r: (u64, u64))
        ensures
            r == (self@.available, self@.total),
    {
        (self.available, self.total)
    }

    /// Hands the file over: it is not removed with this state.
    pub fn persist(&mut self)
        ensures
            final(self)@ == (SpoolModel { persistent: true, ..old(self)@ }),
    {
        self.persistent = true;
    }

    pub fn cancel(&mut self)
        ensures
            final(self)@ == (SpoolModel { cancelled: true, ..old(self)@ }),
    {
        self.cancelled = true;
    }

    /// What a reader gets who asks from `start`.
    pub fn window(&self, start: u64, requested_end: Option<u64>) -> (r: Result<RangeWindow, String>)
        requires
            self.well_formed(),
            requested_end matches Some(end) ==> start <= end,
        ensures
            match r {
                Ok(w) => {
                    &&& start < self@.total
                    &&& w.start == start
                    &&& w.desired_end == window_end(self@.total, start, requested_end)
                    &&& w.minimum == window_minimum(
                        start,
                        window_end(self@.total, start, requested_end) - start + 1,
                    )
                    &&& start <= w.desired_end < self@.total
                },
                Err(e) => start >= self@.total && e@ == "请求范围超过媒体长度"@,
            },
    {
        if start >= self.total {
            return Err("请求范围超过媒体长度".to_owned());
        }
        let reach: u64 = if start <= u64::MAX - (LOCAL_RANGE_CHUNK_BYTES - 1) {
            start + (LOCAL_RANGE_CHUNK_BYTES - 1)
        } else {
            u64::MAX
        };
        let wanted: u64 = match requested_end {
            Some(end) => end,
            None => reach,
        };
        let desired_end: u64 = lesser(lesser(wanted, reach), self.total - 1);
        let length: u64 = desired_end - start + 1;
        let minimum: u64 = lesser(
            length,
            if start == 0 {
                65_536
            } else {
                262_144
            },
        );
        Ok(RangeWindow { start, desired_end, minimum })
    }

    /// Whether the part of a window can be handed out now.
    pub fn poll_range(&self, window: RangeWindow) -> (r: RangePoll)
        requires
            self.well_formed(),
            window.start <= window.desired_end,
        ensures
            match r {
                RangePoll::Failed(e) => self@.error == Some(e@),
                RangePoll::Ready(end) => {
                    &&& self@.error is None
                    &&& self@.available > window.start
                    &&& self@.complete || self@.available - window.start >= window.minimum
                    &&& end == smaller(window.desired_end as int, self@.available - 1)
                },
                RangePoll::Wait => {
                    &&& self@.error is None
                    &&& !(self@.available > window.start && (self@.complete || self@.available
                        - window.start >= window.minimum))
                },
            },
    {
        if let Some(error) = &self.error {
            return RangePoll::Failed(error.clone());
        }
        if self.available > window.start && (self.complete || self.available - window.start
            >= window.minimum) {
            RangePoll::Ready(lesser(window.desired_end, self.available - 1))
        } else {
            RangePoll::Wait
        }
    }

    /// Whether the whole file is there.
    pub fn poll_complete(&self) -> (r: CompletePoll)
        ensures
            match r {
                CompletePoll::Failed(e) => self@.error == Some(e@),
                CompletePoll::Done => self@.error is None && self@.complete,
                CompletePoll::Wait => self@.error is None && !self@.complete,
            },
    {
        if let Some(error) = &self.error {
            return CompletePoll::Failed(error.clone());
        }
        if self.complete {
            CompletePoll::Done
        } else {
            CompletePoll::Wait
        }
    }

    /// Ends the transfer of a stream.
    pub fn end_pump(&mut self, result: Result<(), String>)
        requires
            old(self).well_formed(),
        ensures
            final(self).well_formed(),
            final(self)@ == old(self)@.after_pump(result),
            final(self)@ == match result {
                Ok(()) => if old(self)@.available == old(self)@.total {
                    SpoolModel { complete: true, ..old(self)@ }
                } else {
                    SpoolModel {
                        error: Some(
                            short_text(
                                "YouTube GVS 媒体流提前结束（"@,
                                old(self)@.available,
                                old(self)@.total,
                            ),
                        ),
                        ..old(self)@
                    }
                },
                Err(e) => SpoolModel { error: Some(e@), ..old(self)@ },
            },
    {
        match result {
            Ok(()) => {
                if self.available == self.total {
                    self.complete = true;
                } else {
                    let e = short_message(
                        "YouTube GVS 媒体流提前结束（",
                        self.available,
                        self.total,
                    );
                    self.error = Some(e);
                }
            },
            Err(e) => {
                self.error = Some(e);
            },
        }
    }
}

/// What a reader gets lies within what has arrived, begins where it was asked to, and never goes
/// beyond what was asked for or what is handed out at once.
pub proof fn reads_stay_within_what_arrived(
    spool: SpoolModel,
    start: u64,
    requested_end: Option<u64>,
    end: int,
)
    requires
        spool.well_formed(),
        start < spool.total,
        requested_end matches Some(e) ==> start <= e,
        spool.available > start,
        end == smaller(window_end(spool.total, start, requested_end), spool.available - 1),
    ensures
        start <= end < spool.available,
        end < spool.total,
        end - start < LOCAL_RANGE_CHUNK_BYTES,
        requested_end matches Some(e) ==> end <= e,
{
}

/// A complete file serves every request that begins within it.
pub proof fn a_complete_file_serves_every_read(spool: SpoolModel, start: u64)
    requires
        spool.well_formed(),
        spool.complete,
        start < spool.total,
    ensures
        spool.available > start,
{
}

/// The pieces of an upload that are admitted never add up to more than was announced.
pub proof fn uploads_never_overrun(spool: SpoolModel, length: nat)
    requires
        spool.well_formed(),
        piece_refusal(spool, length) is None,
    ensures
        spool.available + length <= spool.total,
        !spool.complete,
        spool.error is None,
{
}

/// What the transfer of a stream does next.
pub enum PumpAction {
    /// Read the next piece of the reply.
    Read,
    /// Wait so many milliseconds, then ask this address for this range.
    Connect(u64, String, String),
    /// All of it is there: close the file.
    Flush,
    Fail(String),
}

/// What came of it.
pub enum PumpEvent {
    /// So many bytes were read and written.
    Piece(u64),
    /// The reply ended.
    Ended,
    /// The reply to a request for the rest.
    Connected(MediaHead),
    /// Reading, writing or connecting failed.
    Broken(String),
}

/// The transfer of the rest of a stream.
pub struct PumpRun {
    pub urls: Vec<String>,
    pub attempts: u32,
    pub token_index: usize,
}

#[verifier::ext_equal]
pub struct PumpModel {
    pub urls: Seq<Seq<char>>,
    pub attempts: int,
    pub token_index: int,
}

impl View for PumpRun {
    type V = PumpModel;

    open spec fn view(&self) -> PumpModel {
        PumpModel {
            urls: texts(self.urls@),
            attempts: self.attempts as int,
            token_index: self.token_index as int,
        }
    }
}

pub enum PumpWant {
    Read,
    Connect(int, Seq<char>, Seq<char>),
    Flush,
    Fail(Seq<char>),
}

pub open spec fn want_of(action: PumpAction) -> PumpWant {
    match action {
        PumpAction::Read => PumpWant::Read,
        PumpAction::Connect(wait, url, range) => PumpWant::Connect(wait as int, url@, range@),
        PumpAction::Flush => PumpWant::Flush,
        PumpAction::Fail(e) => PumpWant::Fail(e@),
    }
}

/// Reading on, unless the transfer has been cancelled.
pub open spec fn read_on(spool: SpoolModel) -> PumpWant {
    if spool.cancelled {
        PumpWant::Fail("媒体会话已取消"@)
    } else {
        PumpWant::Read
    }
}

/// The pause before the attempt with this number: 150 ms doubled once for each, at most four times.
pub open spec fn pause_of(attempt: int) -> int {
    if attempt <= 1 {
        300
    } else if attempt == 2 {
        600
    } else if attempt == 3 {
        1200
    } else {
        2400
    }
}

/// The address for the next request: each request takes the next one, and the last one stays.
pub open spec fn next_url(urls: Seq<Seq<char>>, index: int) -> Seq<char> {
    if 0 <= index < urls.len() {
        urls[index]
    } else {
        urls.last()
    }
}

pub open spec fn added(available: u64, length: u64) -> u64 {
    if available + length > u64::MAX {
        u64::MAX
    } else {
        (available + length) as u64
    }
}

/// What an event makes of the transfer and of the file.
pub open spec fn pump_step(run: PumpModel, spool: SpoolModel, event: PumpEvent) -> (
    PumpModel,
    SpoolModel,
    PumpWant,
) {
    match event {
        PumpEvent::Piece(length) => {
            let next = SpoolModel { available: added(spool.available, length), ..spool };
            if next.available > spool.total {
                (run, next, PumpWant::Fail("YouTube GVS 返回内容超过声明长度"@))
            } else {
                (run, next, read_on(next))
            }
        },
        PumpEvent::Ended => if spool.available >= spool.total {
            (run, spool, PumpWant::Flush)
        } else {
            let tried = PumpModel { attempts: run.attempts + 1, ..run };
            if tried.attempts > 8 {
                (
                    tried,
                    spool,
                    PumpWant::Fail("YouTube GVS 媒体流续传失败次数过多"@),
                )
            } else {
                let moved = PumpModel { token_index: run.token_index + 1, ..tried };
                if run.urls.len() == 0 {
                    (
                        moved,
                        spool,
                        PumpWant::Fail("YouTube GVS 证明数量不足，无法继续读取整轨"@),
                    )
                } else {
                    (
                        moved,
                        spool,
                        PumpWant::Connect(
                            pause_of(tried.attempts),
                            next_url(run.urls, moved.token_index),
                            range_text(spool.available, piece_end(spool.available, spool.total)),
                        ),
                    )
                }
            }
        },
        PumpEvent::Connected(head) => if is_refusal(head.status) {
            (run, spool, read_on(spool))
        } else {
            match continuation_of(
                head.status,
                head.status_text@,
                text_of(head.content_range),
                spool.available,
                spool.total,
            ) {
                Err(reason) => (run, spool, PumpWant::Fail(reason)),
                Ok(()) => (PumpModel { attempts: 0, ..run }, spool, read_on(spool)),
            }
        },
        PumpEvent::Broken(reason) => (run, spool, PumpWant::Fail(reason@)),
    }
}

impl PumpRun {
    /// The transfer of what the first piece left over.
    pub fn begin(urls: Vec<String>, spool: &ProtectedMediaSpool) -> (r: (Self, PumpAction))
        ensures
            r.0@ == (PumpModel { urls: texts(urls@), attempts: 0, token_index: 0 }),
            want_of(r.1) == read_on(spool@),
    {
        let run = PumpRun { urls, attempts: 0, token_index: 0 };
        let action = run.read_on(spool);
        (run, action)
    }

    fn read_on(&self, spool: &ProtectedMediaSpool) -> (r: PumpAction)
        ensures
            want_of(r) == read_on(spool@),
    {
        if spool.cancelled {
            PumpAction::Fail("媒体会话已取消".to_owned())
        } else {
            PumpAction::Read
        }
    }

    /// Takes in what came of the last action. A reply that ends early is continued; a refusal of
    /// the continuation is tried again, with a longer pause each time.
    pub fn step(&mut self, spool: &mut ProtectedMediaSpool, event: PumpEvent) -> (r: PumpAction)
        requires
            old(self).attempts <= 8,
            old(self).token_index < usize::MAX,
        ensures
            (final(self)@, final(spool)@, want_of(r)) == pump_step(old(self)@, old(spool)@, event),
    {
        match event {
            PumpEvent::Piece(length) => {
                let total: u64 = spool.total;
                if length > u64::MAX - spool.available {
                    spool.available = u64::MAX;
                } else {
                    spool.available = spool.available + length;
                }
                if spool.available > total {
                    PumpAction::Fail("YouTube GVS 返回内容超过声明长度".to_owned())
                } else {
                    self.read_on(spool)
                }
            },
            PumpEvent::Ended => {
                if spool.available >= spool.total {
                    return PumpAction::Flush;
                }
                self.attempts = self.attempts + 1;
                if self.attempts > 8 {
                    return PumpAction::Fail("YouTube GVS 媒体流续传失败次数过多".to_owned());
                }
                let pause: u64 = if self.attempts <= 1 {
                    300
                } else if self.attempts == 2 {
                    600
                } else if self.attempts == 3 {
                    1200
                } else {
                    2400
                };
                let range = gvs_range(spool.available, spool.total);
                self.token_index = self.token_index + 1;
                assert(texts(self.urls@).len() == self.urls@.len());
                if self.urls.len() == 0 {
                    return PumpAction::Fail(
                        "YouTube GVS 证明数量不足，无法继续读取整轨".to_owned(),
                    );
                }
                let at: usize = if self.token_index < self.urls.len() {
                    self.token_index
                } else {
                    self.urls.len() - 1
                };
                assert(texts(self.urls@)[at as int] == self.urls@[at as int]@);
                PumpAction::Connect(pause, self.urls[at].clone(), range)
            },
            PumpEvent::Connected(head) => {
                if head.status == 401 || head.status == 403 {
                    return self.read_on(spool);
                }
                match validate_continuation(&head, spool.available, spool.total) {
                    Err(e) => PumpAction::Fail(e),
                    Ok(()) => {
                        self.attempts = 0;
                        self.read_on(spool)
                    },
                }
            },
            PumpEvent::Broken(reason) => PumpAction::Fail(reason),
        }
    }
}

/// However a transfer goes, it asks for the rest only from where the file ends, and at most eight
/// times in a row.
pub proof fn a_transfer_continues_where_the_file_ends(
    run: PumpModel,
    spool: SpoolModel,
    event: PumpEvent,
)
    requires
        pump_step(run, spool, event).2 is Connect,
        run.attempts >= 0,
    ensures
        ({
            let (next, after, want) = pump_step(run, spool, event);
            &&& after == spool
            &&& spool.available < spool.total
            &&& next.attempts == run.attempts + 1
            &&& next.attempts <= 8
            &&& want->Connect_2 == range_text(
                spool.available,
                piece_end(spool.available, spool.total),
            )
        }),
{
}

/// The name of the file of a session: a mark, a number, and the extension of the media.
pub open spec fn spool_name(n: u64, extension: Seq<char>) -> Seq<char> {
    let bare = strip_front(extension, '.');
    "ytm-"@ + id_text(n) + "."@ + if bare.len() == 0 {
        "m4a"@
    } else {
        bare
    }
}

pub fn spool_name_of(n: u64, extension: &str) -> (r: String)
    ensures
        r@ == spool_name(n, extension@),
{
    let v = crate::text::chars_of(extension);
    let mut i: usize = 0;
    assert(v@.skip(0) =~= v@);
    while i < v.len() && v[i] == '.'
        invariant
            i <= v.len(),
            strip_front(v@, '.') == strip_front(v@.skip(i as int), '.'),
        decreases v.len() - i,
    {
        assert(v@.skip(i as int).drop_first() =~= v@.skip(i + 1));
        i += 1;
    }
    let bare = crate::text::copy_chars(v.as_slice(), i, v.len());
    assert(bare@ =~= v@.skip(i as int));
    let mut r = "ytm-".to_owned();
    r.append(id_of(n).as_str());
    r.append(".");
    if bare.len() == 0 {
        r.append("m4a");
    } else {
        r.append(crate::text::string_of(bare.as_slice()).as_str());
    }
    r
}

/// A fresh name for the file of a session.
pub fn spool_path(extension: &str) -> (r: String)
    ensures
        exists|n: u64| r@ == #[trigger] spool_name(n, extension@),
{
    spool_name_of(random_u64(), extension)
}

/// Whether a file was left by an earlier session.
pub fn is_stale_spool(name: &str) -> (r: bool)
    ensures
        r == "ytm-"@.is_prefix_of(name@),
{
    has_prefix(name, "ytm-")
}

} // verus!
