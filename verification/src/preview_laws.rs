//! What a player gets for a request, and what is kept of a track that is fetched.

use vstd::prelude::*;

use crate::error::plain;
use crate::models::{Platform, Quality};
use crate::preview_cache::{
    background_renewal, FetchEvent, FetchModel, FetchSchedule, FetchStage, FetchWant, InlineCapture,
    ScheduleAction, ScheduleEvent, ScheduleStage,
};
use crate::preview_policy::{
    after_begin, after_claim, after_end, first_two, fresh_context, next_lower, refresh_fits,
    same_media, sending, ContextModel, EntityModel,
};
use crate::preview_requests::{
    preview_step, request_refusal, session_of, source_want, PreviewEvent, PreviewModel, PreviewWant,
};
use crate::preview_stream::{
    CacheSchedule, Capture, StreamEvent, StreamModel, StreamStage, StreamWant,
};
use crate::ranges::{range_of, PreviewCacheSegment};
use crate::tickets::{after_renewal, after_use, TicketModel};
use crate::urls::UrlModel;

verus! {

/// Two replies are parts of one media where they agree in path, type and length, and their
/// validators are equal or one of them is not known; it does not matter which of them comes first.
pub proof fn one_media_agrees_with_itself(a: EntityModel, b: EntityModel)
    ensures
        same_media(a, b) <==> a.path == b.path && a.mime == b.mime && a.total == b.total && (
        a.validator is None || b.validator is None || a.validator->0 == b.validator->0),
        same_media(a, b) == same_media(b, a),
        same_media(a, a),
{
}

/// An attempt has two retries; each claim takes one, until there is none.
pub proof fn an_attempt_has_two_retries(id: Seq<char>)
    ensures
        ({
            let c0 = fresh_context(id);
            let c1 = after_claim(c0);
            let c2 = after_claim(c1);
            &&& c0.retries == 2 && c1.retries == 1 && c2.retries == 0 && after_claim(c2) == c2
            &&& !c0.rate_limited && c0.entity is None && c0.attempt_id == id
        }),
{
}

/// Of the alternatives of an address the first two are kept, in their order.
pub proof fn two_alternatives_are_kept(v: Seq<Seq<char>>)
    ensures
        first_two(v).len() == (if v.len() < 2 {
            v.len()
        } else {
            2
        }),
        forall|i: int| 0 <= i < first_two(v).len() ==> #[trigger] first_two(v)[i] == v[i],
{
}

/// New media takes the place of the old one exactly where its quality is the one that was asked for
/// or unknown, its type does not contradict the known one, and its path is the one that has been
/// playing.
pub proof fn new_media_fits_the_old(
    context: ContextModel,
    requested: Quality,
    actual: Option<Quality>,
    mime: Option<Seq<char>>,
    url: Option<UrlModel>,
)
    ensures
        refresh_fits(context, requested, actual, mime, url) <==> {
            &&& actual is None || actual->0 == requested
            &&& context.mime is None || mime is None || context.mime->0 == mime->0
            &&& context.entity is None || (url is Some && url->0.path == context.entity->0.path)
        },
{
}

/// Beginning and ending a reply count its media up and down by one, and no other media.
pub proof fn replies_are_counted(active: Map<Seq<char>, usize>, key: Seq<char>, other: Seq<char>)
    requires
        sending(active, key) < usize::MAX,
        other != key,
    ensures
        sending(after_begin(active, key), key) == sending(active, key) + 1,
        sending(after_begin(active, key), other) == sending(active, other),
        sending(after_end(active, key), key) == (if sending(active, key) > 0 {
            sending(active, key) - 1
        } else {
            0
        }),
        sending(after_end(active, key), other) == sending(active, other),
        after_end(after_begin(active, key), key).contains_key(key) <==> sending(active, key) > 0,
{
}

/// What is kept is sent; what is not kept, or cannot be sent, is fetched from its source, after what
/// was kept has been dropped.
pub proof fn what_is_kept_is_sent(run: StreamModel)
    ensures
        run.after(StreamEvent::Looked(true)).1 is ServeCached,
        !(run.after(StreamEvent::Looked(false)).1 is ServeCached),
        run.after(StreamEvent::Served(true)).1 is Sent && run.after(
            StreamEvent::Served(true),
        ).0.stage == StreamStage::Ended,
        run.after(StreamEvent::Served(false)).1 is Invalidate,
        run.after(StreamEvent::Invalidated) == run.after(StreamEvent::Looked(false)),
{
}

/// A track whose address is known is asked there, with the range of the client; one whose file
/// grows is read there, from the first byte of the range on; one without an address gets one first,
/// where the platform can be asked and the address is not one of a browser session.
pub proof fn a_track_is_asked_where_it_is(run: StreamModel)
    requires
        run.well_formed(),
    ensures
        ({
            let (after, want) = run.after(StreamEvent::Looked(false));
            let t = run.ticket;
            let has_source = !t.cached && (t.url.len() > 0 || t.protected_spool is Some);
            &&& has_source && run.spool_total is None ==> want == StreamWant::Request(
                t.url,
                run.range,
            ) && after.stage == StreamStage::Asking
            &&& has_source && run.spool_total is Some && run.range is None ==> want
                == StreamWant::ReadSpool(0, None)
            &&& has_source && run.spool_total is Some && run.range is Some ==> match range_of(
                run.range->0,
                run.spool_total->0,
            ) {
                Some(found) => want == StreamWant::ReadSpool(found.0, Some(found.1)),
                None => want matches StreamWant::Fail(e) && e == plain(416, "试听范围无效"@),
            }
            &&& !has_source ==> (want is AskProvider <==> run.settings.platform_known && !(
            t.source.platform == Platform::Ytm && t.browser_resolved))
            &&& !has_source ==> want is AskProvider || want is Fail
            &&& after.ticket == t && after.range == run.range
        }),
{
}

/// An address that the platform gave is asked next; a platform that gives none ends the request.
pub proof fn a_new_address_is_asked(run: StreamModel, url: String, now: u64, e: crate::error::ApiError)
    requires
        run.spool_total is None,
    ensures
        ({
            let (after, want) = run.after(StreamEvent::Offered(Ok(Some(url)), now));
            &&& want == StreamWant::Request(url@, run.range)
            &&& after.ticket.url == url@ && !after.ticket.cached && after.ticket.last_used_at == now
            &&& after.ticket.source == run.ticket.source && after.ticket.quality
                == run.ticket.quality
        }),
        run.after(StreamEvent::Offered(Ok(None), now)).1 matches StreamWant::Fail(x) && x == plain(
            422,
            "这个平台暂时无法刷新试听地址"@,
        ),
        run.after(StreamEvent::Offered(Err(e), now)).1 == StreamWant::Fail(e@),
{
}

/// A refusal of access or an absence costs a new address the first time and ends the request after
/// that; so does a reply that is no sound. A sound that comes with success is passed on, with its
/// own status, length and part.
pub proof fn a_reply_is_judged_by_what_it_is(
    run: StreamModel,
    status: u16,
    status_text: Seq<char>,
    length: Option<Seq<char>>,
    range: Option<Seq<char>>,
    mime: Option<Seq<char>>,
)
    requires
        run.settings.platform_known,
        !(run.ticket.source.platform == Platform::Ytm && run.ticket.browser_resolved),
    ensures
        ({
            let (after, want) = run.judged(status, status_text, length, range, mime);
            let refused = status == 401 || status == 403 || status == 404 || status == 410;
            &&& refused && run.stage == StreamStage::Asking ==> want is AskProvider && after.stage
                == StreamStage::StatusRenewal
            &&& refused && run.stage != StreamStage::Asking ==> want is Fail
            &&& !refused && !(200 <= status <= 299) ==> want is Fail && after.stage
                == StreamStage::Ended
            &&& 200 <= status <= 299 && mime is Some ==> {
                &&& after.stage == StreamStage::Ended
                &&& want matches StreamWant::PassOn(r) && r.status == status && r.content_type
                    == mime->0 && r.content_length == length && r.content_range == range
            }
            &&& 200 <= status <= 299 && mime is None && run.stage != StreamStage::AskingLast
                ==> want is AskProvider && after.stage == StreamStage::TypeRenewal
            &&& 200 <= status <= 299 && mime is None && run.stage == StreamStage::AskingLast
                ==> want is Fail
        }),
{
}

/// A track that is played goes into the cache where the cache is on: at once on a line of its own,
/// and when nobody plays it where the line is shared or the address belongs to a session.
pub proof fn a_played_track_is_kept_in_its_time(run: StreamModel, s: PreviewCacheSegment)
    requires
        s.start <= s.end < s.total,
    ensures
        run.schedule() is None <==> !run.settings.cache_enabled,
        run.schedule() == Some(CacheSchedule::WhenIdle) <==> run.settings.cache_enabled && (
        run.ticket.browser_resolved || run.settings.mobile),
        run.schedule() == Some(CacheSchedule::Soon) <==> run.settings.cache_enabled
            && !run.ticket.browser_resolved && !run.settings.mobile,
        run.capture(None) is None,
        run.settings.cache_enabled && !run.settings.mobile ==> run.capture(Some(s)) is None,
        run.settings.cache_enabled && run.settings.mobile && s.start == 0 && s.end == s.total - 1
            ==> run.capture(Some(s)) == Some(Capture::Whole(s.total)),
        !run.settings.cache_enabled || (run.settings.mobile && !(s.start == 0 && s.end == s.total
            - 1)) ==> (run.capture(Some(s)) matches Some(Capture::Session(p)) && p.start == s.start
            && p.expected == s.end - s.start + 1 && p.total == s.total && p.reaches_end == (s.end
            == s.total - 1)),
{
}

/// A request is refused before anything is looked up only where its platform is not known or one
/// of its tokens is not one; tokens count for protected tracks alone.
pub proof fn a_request_needs_a_platform(
    provider_known: bool,
    platform: Platform,
    po_token: Option<Seq<char>>,
    po_tokens: Seq<Seq<char>>,
)
    ensures
        !provider_known ==> request_refusal(provider_known, platform, po_token, po_tokens) is Some,
        provider_known && platform != Platform::Ytm ==> request_refusal(
            provider_known,
            platform,
            po_token,
            po_tokens,
        ) is None,
        provider_known && po_token is None && po_tokens.len() == 0 ==> request_refusal(
            provider_known,
            platform,
            po_token,
            po_tokens,
        ) is None,
        provider_known && platform == Platform::Ytm && po_token is Some && !crate::ytm::is_po_token(
            po_token->0,
        ) ==> request_refusal(provider_known, platform, po_token, po_tokens) is Some,
{
}

/// A request ends in a ticket for the very track and quality that were asked for: for what is kept,
/// without an address; for what the platform gave, with it; for a protected stream, with the file
/// that was opened. What is kept of a protected track in a form that cannot be decoded is dropped.
pub proof fn a_request_ends_in_its_ticket(
    model: PreviewModel,
    mime: String,
    url: String,
    reason: String,
    spool: u64,
    now: u64,
)
    ensures
        ({
            let (after, want) = preview_step(model, PreviewEvent::Found(Some(mime)), now);
            let webm = model.source.platform == Platform::Ytm && crate::protected_media::declared_type(
                Some(mime@),
            ) == "audio/webm"@;
            &&& webm ==> want is Invalidate
            &&& !webm ==> (want matches PreviewWant::Issue(t) && t.cached && t.url.len() == 0
                && t.protected_spool is None && t.source == model.source && t.quality
                == model.quality && t.cache_key == Some(model.cache_key) && t.last_used_at == now)
        }),
        preview_step(model, PreviewEvent::Offered(Ok(Some(url))), now).1 matches PreviewWant::Issue(t)
            && !t.cached && t.url == url@ && t.protected_spool is None && t.source == model.source
            && t.quality == model.quality && t.last_used_at == now,
        preview_step(model, PreviewEvent::Opened(Ok(spool)), now).1 matches PreviewWant::Issue(t)
            && !t.cached && t.protected_spool == Some(spool) && t.source == model.source
            && t.quality == model.quality && (model.protected_url is Some ==> t.url
            == model.protected_url->0),
        preview_step(model, PreviewEvent::Offered(Ok(None)), now).1 == PreviewWant::Fail(
            plain(422, "这个平台不支持歌曲试听"@),
        ),
        preview_step(model, PreviewEvent::Opened(Err(reason)), now).1 == PreviewWant::Fail(
            plain(502, reason@),
        ),
        preview_step(model, PreviewEvent::Found(None), now) == preview_step(
            model,
            PreviewEvent::Invalidated,
            now,
        ),
{
}

/// A track that is not protected, or that comes without a session, is asked of the platform; half a
/// session is refused.
pub proof fn half_a_session_is_refused(model: PreviewModel)
    ensures
        model.source.platform != Platform::Ytm ==> source_want(model) is AskProvider,
        model.po_token is None && model.resolved_url is None ==> source_want(model) is AskProvider,
        model.source.platform == Platform::Ytm && (model.po_token is Some) != (
        model.resolved_url is Some) ==> source_want(model) is Fail,
        model.source.platform == Platform::Ytm && model.po_token is Some && model.resolved_url
            is Some ==> source_want(model) is Open || source_want(model) is Fail,
{
}

/// Only the ticket of a protected stream that is being fetched has a session.
pub proof fn a_session_is_of_a_protected_stream(ticket: Option<TicketModel>)
    ensures
        session_of(ticket) is Ok <==> {
            &&& ticket is Some && ticket->0.source.platform == Platform::Ytm
            &&& ticket->0.browser_resolved && !ticket->0.cached && ticket->0.protected_spool is Some
        },
        session_of(ticket) matches Ok(spool) ==> ticket->0.protected_spool == Some(spool),
        ticket is None ==> (session_of(ticket) matches Err(e) && e == plain(
            404,
            "YouTube SABR 媒体会话不存在"@,
        )),
{
}

/// A part that arrives counts with its bytes and is written; the fetch goes on where the part ended
/// as it said, from the byte behind it.
pub proof fn a_fetch_goes_on_where_it_ended(model: FetchModel, s: PreviewCacheSegment, wanted: bool)
    requires
        model.segment == Some(s),
        s.start <= s.end < s.total,
        model.parts_left > 0,
    ensures
        ({
            let (after, want) = model.after(FetchEvent::PartEnded, wanted);
            let whole = model.received == s.end - s.start + 1;
            &&& !whole ==> want is Fail && after.stage == FetchStage::Ended
            &&& whole && s.end == s.total - 1 ==> want is Commit && after.offset == s.total
            &&& whole && s.end < s.total - 1 && wanted ==> want == FetchWant::Request(
                model.url,
                (s.end + 1) as u64,
            ) && after.offset == s.end + 1 && after.received == 0 && after.parts_left
                == model.parts_left - 1 && after.segment is None
            &&& whole && s.end < s.total - 1 && !wanted ==> want is Stop
        }),
{
}

/// A reply is taken where it is sound, begins where the file ends and states the length that was
/// stated before; otherwise the fetch gets one new address, or ends.
pub proof fn a_part_fits_the_file(
    model: FetchModel,
    status: u16,
    status_text: Seq<char>,
    length: Option<Seq<char>>,
    range: Option<Seq<char>>,
    content_type: Option<Seq<char>>,
)
    ensures
        ({
            let (after, want) = model.replied(status, status_text, length, range, content_type);
            let refused = status == 401 || status == 403 || status == 404 || status == 410;
            let mime = crate::ranges::passed_mime(content_type, model.type_hint);
            let part = crate::ranges::segment_of(status, length, range);
            let fits = !refused && mime is Some && part is Some && part->0.start == model.offset && (
            model.expected_total is None || model.expected_total->0 == part->0.total);
            &&& fits ==> after.segment == part && after.expected_total == Some(part->0.total)
                && after.received == 0 && after.offset == model.offset
            &&& fits && model.writer_open ==> want is Read && after.stage == FetchStage::Reading
            &&& fits && !model.writer_open ==> want == FetchWant::OpenWriter(
                mime->0,
                part->0.total,
            ) && after.stage == FetchStage::Opening
            &&& !fits ==> want is Renew || want is Fail
            &&& (refused || mime is None) && model.renewals_left > 0 ==> want is Renew
                && after.renewals_left == model.renewals_left - 1
            &&& (refused || mime is None) && model.renewals_left == 0 ==> want is Fail
        }),
{
}

/// What has been written is told to the waveform every half a mebibyte; where the cache does not go
/// on, the fetch stops.
pub proof fn the_waveform_is_told_now_and_then(model: FetchModel, written: u64, wanted: bool)
    requires
        model.observed <= written,
    ensures
        model.after(FetchEvent::Written(false, written), wanted).1 is Stop,
        ({
            let (after, want) = model.after(FetchEvent::Written(true, written), wanted);
            &&& after.written == written && after.observed == model.observed
            &&& written - model.observed >= 512 * 1024 <==> want is Publish
            &&& written - model.observed < 512 * 1024 <==> want is Read
        }),
        model.after(FetchEvent::Published(true), wanted).0.observed == model.written,
        model.after(FetchEvent::Published(false), wanted).0.observed == model.observed,
        model.after(FetchEvent::Published(true), wanted).1 is Read,
        model.after(FetchEvent::Committed, wanted).1 is Stop,
        model.after(FetchEvent::WriterOpened(false), wanted).1 is Stop,
        model.after(FetchEvent::WriterOpened(true), wanted).1 is Read && model.after(
            FetchEvent::WriterOpened(true),
            wanted,
        ).0.writer_open,
{
}

/// In the background the address of a session stays; any other track gets the one that the platform
/// offers.
pub proof fn a_session_keeps_its_address(
    ticket: TicketModel,
    offered: Result<Option<Seq<char>>, Seq<char>>,
)
    ensures
        background_renewal(ticket, false, offered) is Err,
        ticket.source.platform == Platform::Ytm && ticket.browser_resolved && ticket.url.len() > 0
            ==> background_renewal(ticket, true, offered) == Ok::<Seq<char>, Seq<char>>(ticket.url),
        !(ticket.source.platform == Platform::Ytm && ticket.browser_resolved) ==> {
            &&& offered matches Ok(Some(url)) ==> background_renewal(ticket, true, offered) == Ok::<
                Seq<char>,
                Seq<char>,
            >(url)
            &&& offered matches Ok(None) ==> background_renewal(ticket, true, offered) is Err
            &&& offered matches Err(e) ==> background_renewal(ticket, true, offered) == Err::<
                Seq<char>,
                Seq<char>,
            >(e)
        },
{
}

/// Each quality has the next one below it, down to the lowest, which has none.
pub proof fn qualities_go_down_step_by_step(q: Quality)
    ensures
        next_lower(None) is None,
        next_lower(Some(q)) is None <==> q == Quality::Q128,
        next_lower(next_lower(next_lower(Some(Quality::Flac)))) is None,
        next_lower(next_lower(Some(Quality::Flac))) == Some(Quality::Q128),
        next_lower(Some(q)) != Some(q),
        next_lower(Some(q)) != Some(Quality::Flac),
{
}

/// A ticket that is used lives on from that moment, as it was; one that has outlived its time goes.
/// No other ticket changes.
pub proof fn a_used_ticket_lives_on(
    m: Map<Seq<char>, TicketModel>,
    token: Seq<char>,
    other: Seq<char>,
    url: Seq<char>,
    now: u64,
    ttl: u64,
)
    requires
        ttl > 0,
        m.contains_key(token),
        other != token,
    ensures
        ({
            let a = after_use(m, token, now, ttl);
            let b = after_renewal(m, token, url, now, ttl);
            let alive = now < m[token].last_used_at + ttl;
            &&& alive <==> a.contains_key(token)
            &&& alive <==> b.contains_key(token)
            &&& alive ==> a[token].last_used_at == now && a[token].url == m[token].url
                && a[token].source == m[token].source && a[token].quality == m[token].quality
                && a[token].cached == m[token].cached
            &&& alive ==> b[token].last_used_at == now && b[token].url == url && !b[token].cached
                && b[token].source == m[token].source && b[token].quality == m[token].quality
            &&& a.contains_key(other) == m.contains_key(other) && b.contains_key(other)
                == m.contains_key(other)
            &&& m.contains_key(other) ==> a[other] == m[other] && b[other] == m[other]
        }),
{
}

/// On the way into the cache a track is put off while it plays, looked after from time to time, given
/// its place, led by the player for a moment, and fetched once a slot is free, unless it is kept by
/// then. Whatever is not to be had ends it.
pub proof fn a_fetch_waits_its_turn(schedule: FetchSchedule)
    ensures
        schedule.stage == ScheduleStage::Deferring ==> schedule.after(
            ScheduleEvent::Answer(true),
        ).1 == ScheduleAction::Look(6_000),
        schedule.stage == ScheduleStage::Deferred ==> schedule.after(
            ScheduleEvent::Looked { valid: true, idle: false, still_valid: true },
        ) == (schedule, ScheduleAction::Look(2_000)),
        schedule.stage == ScheduleStage::Deferred ==> schedule.after(
            ScheduleEvent::Looked { valid: true, idle: true, still_valid: true },
        ).1 == ScheduleAction::Reserve,
        schedule.stage == ScheduleStage::Reserving ==> schedule.after(
            ScheduleEvent::Answer(true),
        ).1 == ScheduleAction::Look(400),
        schedule.stage == ScheduleStage::Leading ==> schedule.after(
            ScheduleEvent::Looked { valid: true, idle: true, still_valid: true },
        ).1 == ScheduleAction::TakeSlot,
        schedule.stage == ScheduleStage::Leading ==> (schedule.after(
            ScheduleEvent::Looked { valid: true, idle: false, still_valid: true },
        ).1 == ScheduleAction::TakeSlot <==> !schedule.mobile),
        schedule.stage == ScheduleStage::Waiting ==> schedule.after(ScheduleEvent::Answer(true)).1
            == ScheduleAction::Lookup,
        schedule.stage == ScheduleStage::Looking ==> schedule.after(ScheduleEvent::Answer(true)).1
            == ScheduleAction::Observe && schedule.after(ScheduleEvent::Answer(false)).1
            == ScheduleAction::Fetch,
        schedule.stage != ScheduleStage::Looking ==> schedule.after(ScheduleEvent::Answer(false)).1
            == ScheduleAction::Stop,
{
}

/// A reply on its way to the player and into the cache is refused where it begins like a page, or is
/// longer than it said.
pub proof fn a_passing_reply_is_as_long_as_it_said(
    capture: InlineCapture,
    bytes: Seq<u8>,
    written: u64,
)
    ensures
        capture.passed + bytes.len() > capture.total ==> crate::preview_cache::piece_refusal(
            capture,
            bytes,
            written,
        ) is Some,
        written > 0 && capture.passed + bytes.len() <= capture.total
            ==> crate::preview_cache::piece_refusal(capture, bytes, written) is None,
{
}

} // verus!
