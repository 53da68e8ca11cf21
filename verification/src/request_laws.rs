//! What requests are taken for, and which addresses are trusted.

use vstd::prelude::*;

use crate::error::{attempt_of, hex_digits, plain, ErrorModel};
use crate::models::{Platform, SongSourceModel, TaskState, VideoRequestModel};
use crate::one_library_sync::column_count;
use crate::preview_requests::{extension_for, prepared_url, query_byte, query_bytes, streams_of};
use crate::requests::{
    collection_refusal, folder_query, harmonic_count, has_list, link_kind, lists_without,
    removal_refusal, search_kind, unresolved_text, visible_settings, window_of, LabSettings,
    LinkEvent, LinkModel, PlaylistModel, ResolveKind, SearchKind, TrackOrder,
};
use crate::text::{all_space, parsed_u64, trimmed};
use crate::text_laws::{hex_reads_back, hex_value, pow16, trimming_takes_the_white_space_around};
use crate::urls::{first_value, host_of, is_googlevideo_host, last_value, UrlModel};
use crate::video_requests::{
    download_refusal, resolve_request, source_request, video_platform_of, vj_settled,
    with_video_defaults, SourceOptions, VideoSettings, VjModel,
};
use crate::ytm::{
    failure_text, fresh_url, is_player_request, is_po_token, preflight, proxy_target, sabr_url,
    stream_url, PlayerRequest,
};

verus! {

/// The value of a key is that of the pair which has it: of the first one, or of the last one.
pub proof fn a_key_has_its_value(query: Seq<(Seq<char>, Seq<char>)>, key: Seq<char>, k: int)
    requires
        0 <= k < query.len(),
        query[k].0 == key,
    ensures
        (forall|j: int| 0 <= j < k ==> (#[trigger] query[j]).0 != key) ==> first_value(query, key)
            == Some(query[k].1),
        (forall|j: int| k < j < query.len() ==> (#[trigger] query[j]).0 != key) ==> last_value(
            query,
            key,
        ) == Some(query[k].1),
    decreases query.len(),
{
    if k > 0 {
        let rest = query.drop_first();
        a_key_has_its_value(rest, key, k - 1);
        if forall|j: int| 0 <= j < k ==> (#[trigger] query[j]).0 != key {
            assert forall|j: int| 0 <= j < k - 1 implies (#[trigger] rest[j]).0 != key by {
                assert(rest[j] == query[j + 1]);
            }
            assert(query[0].0 != key);
        }
    }
    if k < query.len() - 1 {
        let front = query.drop_last();
        a_key_has_its_value(front, key, k);
        if forall|j: int| k < j < query.len() ==> (#[trigger] query[j]).0 != key {
            assert forall|j: int| k < j < front.len() implies (#[trigger] front[j]).0 != key by {
                assert(front[j] == query[j]);
            }
            assert(query[query.len() - 1].0 != key);
        }
    }
}

/// A key that no pair has has no value.
pub proof fn a_missing_key_has_no_value(query: Seq<(Seq<char>, Seq<char>)>, key: Seq<char>)
    requires
        forall|j: int| 0 <= j < query.len() ==> (#[trigger] query[j]).0 != key,
    ensures
        first_value(query, key) is None,
        last_value(query, key) is None,
    decreases query.len(),
{
    if query.len() > 0 {
        let rest = query.drop_first();
        let front = query.drop_last();
        assert forall|j: int| 0 <= j < rest.len() implies (#[trigger] rest[j]).0 != key by {
            assert(rest[j] == query[j + 1]);
        }
        assert forall|j: int| 0 <= j < front.len() implies (#[trigger] front[j]).0 != key by {
            assert(front[j] == query[j]);
        }
        assert(query[0].0 != key && query[query.len() - 1].0 != key);
        a_missing_key_has_no_value(rest, key);
        a_missing_key_has_no_value(front, key);
    }
}

/// The video host is `googlevideo.com` and what lies below it; a host that only ends in these
/// letters is another one.
pub proof fn the_video_host_is_a_domain(below: Seq<char>, host: Seq<char>)
    ensures
        is_googlevideo_host("googlevideo.com"@),
        is_googlevideo_host(below + ".googlevideo.com"@),
        host.len() < 15 ==> !is_googlevideo_host(host),
        host.len() > 15 && host[host.len() - 16] != '.' ==> !is_googlevideo_host(host),
{
    reveal_strlit("googlevideo.com");
    reveal_strlit(".googlevideo.com");
    let h = below + ".googlevideo.com"@;
    assert(".googlevideo.com"@ =~= h.subrange(h.len() - 16, h.len() as int));
    if host.len() > 15 && host[host.len() - 16] != '.' {
        if ".googlevideo.com"@.is_suffix_of(host) {
            assert(host.subrange(host.len() - 16, host.len() as int)[0] == host[host.len() - 16]);
            assert(".googlevideo.com"@[0] == '.');
        }
    }
}

/// A proof of playback is of 80 to 2048 letters, digits, hyphens, underscores and equals signs.
pub proof fn a_proof_of_playback_is_plain(s: Seq<char>)
    ensures
        is_po_token(s) ==> 80 <= s.len() <= 2048 && !s.contains(' ') && !s.contains('&')
            && !s.contains('\n') && !s.contains('/') && !s.contains('%'),
        (80 <= s.len() <= 2048 && forall|i: int|
            0 <= i < s.len() ==> ('a' <= #[trigger] s[i] && s[i] <= 'z')) ==> is_po_token(s),
        s.len() < 80 || s.len() > 2048 ==> !is_po_token(s),
{
}

/// An address for a protected request is taken as it is written in its normal form, exactly where
/// it is short, on one line, and a plain address of the video host over TLS.
pub proof fn a_protected_address_is_plain(value: Seq<char>, url: UrlModel)
    ensures
        sabr_url(value, Some(url)) is Ok <==> {
            &&& value.len() > 0 && crate::text::byte_count(value) <= 8192
            &&& !value.contains('\r') && !value.contains('\n')
            &&& url.scheme == "https"@ && url.port == Some(443u16)
            &&& is_googlevideo_host(host_of(url)) && url.path == "/videoplayback"@
            &&& url.username.len() == 0 && !url.has_password && !url.has_fragment
        },
        sabr_url(value, Some(url)) is Ok ==> sabr_url(value, Some(url)) == Ok::<
            Seq<char>,
            ErrorModel,
        >(url.text),
        sabr_url(value, None) is Err,
{
}

/// An address of sound is taken in its normal form, exactly where it is short, on one line, lies on
/// the video host, carries the token it came with and says that it is sound.
pub proof fn an_address_of_sound_carries_its_token(value: Seq<char>, token: Seq<char>, url: UrlModel)
    ensures
        stream_url(value, token, Some(url)) is Ok <==> {
            &&& crate::text::byte_count(value) <= 16 * 1024
            &&& !value.contains('\r') && !value.contains('\n')
            &&& url.scheme == "https"@ && is_googlevideo_host(host_of(url)) && url.path
                == "/videoplayback"@
            &&& last_value(url.query, "pot"@) == Some(token)
            &&& last_value(url.query, "mime"@) is Some && "audio/"@.is_prefix_of(
                last_value(url.query, "mime"@)->0,
            )
        },
        stream_url(value, token, Some(url)) is Ok ==> stream_url(value, token, Some(url)) == Ok::<
            Seq<char>,
            ErrorModel,
        >(url.text),
        stream_url(value, token, None) is Err,
{
}

/// An address is fresh exactly where it expires more than a minute from now.
pub proof fn an_address_is_fresh_for_a_minute(url: UrlModel, text: Seq<char>, now: u64)
    ensures
        fresh_url(Some(url), text, now) is Ok <==> {
            &&& last_value(url.query, "expire"@) is Some
            &&& parsed_u64(last_value(url.query, "expire"@)->0) is Some
            &&& parsed_u64(last_value(url.query, "expire"@)->0)->0 - now > 60
        },
        fresh_url(Some(url), text, now) is Ok ==> fresh_url(Some(url), text, now) == Ok::<
            Seq<char>,
            ErrorModel,
        >(text),
        fresh_url(None, text, now) is Err,
{
}

/// A request that is passed on has a body of one byte to one mebibyte, and an address.
pub proof fn a_passed_request_has_a_body(
    body_bytes: usize,
    header: Option<Seq<char>>,
    parsed: Option<UrlModel>,
)
    ensures
        body_bytes == 0 || body_bytes > 1024 * 1024 || header is None ==> proxy_target(
            body_bytes,
            header,
            parsed,
        ) is Err,
        1 <= body_bytes <= 1024 * 1024 && header is Some ==> proxy_target(body_bytes, header, parsed)
            == sabr_url(header->0, parsed),
{
}

/// A trial request tells that access is refused, that it failed otherwise, or that what came is no
/// sound.
pub proof fn a_trial_tells_what_is_wrong(status: u16, status_text: Seq<char>, kind: Seq<char>)
    ensures
        status == 401 || status == 403 ==> (preflight(status, status_text, None) matches Err(e)
            && e == plain(401, "YouTube Music GVS 授权被拒绝（上游 "@ + status_text + "）"@)),
        status != 401 && status != 403 && (status < 200 || status > 299) ==> preflight(
            status,
            status_text,
            None,
        ) is Err,
        200 <= status <= 299 ==> preflight(status, status_text, None) is Ok,
        200 <= status <= 299 && crate::protected_media::declared_type(Some(kind)) == "text/html"@
            ==> preflight(status, status_text, Some(kind)) is Err,
        200 <= status <= 299 && "audio/"@.is_prefix_of(
            crate::protected_media::declared_type(Some(kind)),
        ) ==> preflight(status, status_text, Some(kind)) is Ok,
{
    reveal_strlit("text/html");
    reveal_strlit("audio/");
    reveal_strlit("application/octet-stream");
    assert("text/html"@.len() == 9 && "text/html"@[0] == 't' && "audio/"@[0] == 'a');
    assert("application/octet-stream"@.len() == 24);
}

/// A message is cut to five hundred characters, and is never blank.
pub proof fn a_message_is_short_and_says_something(error: Seq<char>)
    ensures
        all_space(error) ==> failure_text(error) == "YouTube SABR 媒体会话失败"@,
        !all_space(error) && trimmed(error).len() <= 500 ==> failure_text(error) == trimmed(error),
        trimmed(error).len() > 500 ==> failure_text(error) == trimmed(error).take(500),
{
    trimming_takes_the_white_space_around(error);
}

/// A collection is searched where its key is not blank, it is no song, and the platform is there
/// and has such collections.
pub proof fn a_collection_needs_its_key(
    key: Seq<char>,
    kind: SearchKind,
    available: bool,
    supported: bool,
)
    ensures
        collection_refusal(key, kind, available, supported) is Ok <==> !all_space(key) && kind
            != SearchKind::Song && available && supported,
        !all_space(key) && kind != SearchKind::Song && !available ==> collection_refusal(
            key,
            kind,
            available,
            supported,
        ) == Err::<(), ErrorModel>(plain(404, "平台不可用"@)),
{
    trimming_takes_the_white_space_around(key);
}

/// The lists that are added are those whose key is not there yet, all of them and in their order.
pub proof fn only_new_lists_are_added(lists: Seq<PlaylistModel>, others: Seq<PlaylistModel>)
    ensures
        forall|x: PlaylistModel| #[trigger]
            lists_without(lists, others).contains(x) <==> lists.contains(x) && forall|i: int|
                0 <= i < others.len() ==> (#[trigger] others[i]).key != x.key,
        (forall|k: int|
            0 <= k < lists.len() ==> !has_list(others, (#[trigger] lists[k]).key)) ==> lists_without(
            lists,
            others,
        ) == lists,
    decreases lists.len(),
{
    if lists.len() > 0 {
        let front = lists.drop_last();
        let last = lists.last();
        let before = lists_without(front, others);
        let all = lists_without(lists, others);
        only_new_lists_are_added(front, others);
        assert forall|x: PlaylistModel| #[trigger]
            all.contains(x) <==> lists.contains(x) && forall|i: int|
                0 <= i < others.len() ==> (#[trigger] others[i]).key != x.key by {
            if all.contains(x) {
                let i = choose|i: int| 0 <= i < all.len() && all[i] == x;
                if i < before.len() {
                    assert(before[i] == x);
                    assert(before.contains(x));
                    let k = choose|k: int| 0 <= k < front.len() && front[k] == x;
                    assert(lists[k] == x);
                } else {
                    assert(lists[lists.len() - 1] == x);
                    assert(!has_list(others, x.key));
                }
            }
            if lists.contains(x) && (forall|i: int|
                0 <= i < others.len() ==> (#[trigger] others[i]).key != x.key) {
                let k = choose|k: int| 0 <= k < lists.len() && lists[k] == x;
                assert(!has_list(others, x.key));
                if k < front.len() {
                    assert(front[k] == x);
                    assert(front.contains(x));
                    assert(before.contains(x));
                    let i = choose|i: int| 0 <= i < before.len() && before[i] == x;
                    assert(all[i] == x);
                } else {
                    assert(all[all.len() - 1] == x);
                }
            }
        }
        if forall|k: int| 0 <= k < lists.len() ==> !has_list(others, (#[trigger] lists[k]).key) {
            assert forall|k: int| 0 <= k < front.len() implies !has_list(
                others,
                (#[trigger] front[k]).key,
            ) by {
                assert(front[k] == lists[k]);
            }
            assert(!has_list(others, lists[lists.len() - 1].key));
            assert(all =~= lists);
        }
    }
}

/// A search for the owner of a link ends with the platform that opens it, and otherwise asks the
/// next one; the last failure is what is told.
pub proof fn a_link_is_opened_by_one_platform(search: LinkModel, reason: Seq<char>)
    requires
        search.next < search.platforms.len(),
    ensures
        search.after(LinkEvent::Opened).opened && search.after(LinkEvent::Opened).next
            == search.next,
        ({
            let u = search.after(LinkEvent::Unknown);
            u.next == search.next + 1 && u.opened == search.opened && u.last_error
                == search.last_error
        }),
        search.after(LinkEvent::Failed(reason)).last_error == reason,
{
}

/// What a link or a search leads to is listed as what it is.
pub proof fn an_entry_is_listed_as_what_it_is(a: ResolveKind, b: ResolveKind, s: SearchKind, t: SearchKind)
    ensures
        link_kind(a) == link_kind(b) ==> a == b,
        search_kind(s) == search_kind(t) ==> s == t,
        link_kind(ResolveKind::Playlist) == search_kind(SearchKind::Playlist),
        link_kind(ResolveKind::Album) == search_kind(SearchKind::Album),
{
}

/// Only a task that has ended can be removed.
pub proof fn only_ended_tasks_are_removed(state: Option<TaskState>)
    ensures
        removal_refusal(state) is Ok <==> state is Some && !(state->0 == TaskState::Queued || state->0
            == TaskState::Running || state->0 == TaskState::Processing || state->0
            == TaskState::Paused),
        state is None ==> removal_refusal(state) == Err::<(), ErrorModel>(plain(404, "任务不存在"@)),
{
}

/// Tracks come in parts of one to a thousand, two hundred where nothing is said, and from the first
/// one on where nothing else is said.
pub proof fn tracks_come_in_parts(o: TrackOrder)
    ensures
        ({
            let w = window_of(o);
            &&& 1 <= w.limit <= 1000 && w.offset >= 0
            &&& o.limit is None ==> w.limit == 200
            &&& o.limit is Some && 1 <= o.limit->0 <= 1000 ==> w.limit == o.limit->0
            &&& o.limit is Some && o.limit->0 > 1000 ==> w.limit == 1000
            &&& o.limit is Some && o.limit->0 < 1 ==> w.limit == 1
            &&& o.offset is None ==> w.offset == 0
            &&& o.offset is Some && o.offset->0 >= 0 ==> w.offset == o.offset->0
            &&& o.offset is Some && o.offset->0 < 0 ==> w.offset == 0
            &&& o.sort is Some ==> w.sort == o.sort->0@
            &&& o.order is Some ==> w.order == o.order->0@
            &&& o.sort2 is Some ==> w.sort2 == o.sort2->0@
            &&& o.order2 is Some ==> w.order2 == o.order2->0@
        }),
{
}

/// One name stands for everything outside the roots; any other is the folder itself.
pub proof fn one_name_means_outside(folder: Seq<char>, outside: Seq<char>, roots: Seq<Seq<char>>)
    ensures
        trimmed(folder) == outside ==> folder_query(folder, outside, roots) == (""@, roots),
        trimmed(folder) != outside ==> folder_query(folder, outside, roots).0 == folder
            && folder_query(folder, outside, roots).1.len() == 0,
{
}

/// The platform of a video is the one that is named; else the address of the one site tells it, and
/// every other address is of the other site.
pub proof fn a_video_has_its_platform(platform: Option<Platform>, url: Option<UrlModel>, raw: Seq<char>)
    ensures
        platform is Some ==> video_platform_of(platform, url) == platform->0,
        platform is None && (url is None || url->0.host is None) ==> video_platform_of(platform, url)
            == Platform::Bilibili,
        platform is None && url is Some && url->0.host is Some && (host_of(url->0) == "youtu.be"@
            || host_of(url->0) == "youtube.com"@) ==> video_platform_of(platform, url)
            == Platform::Youtube,
        platform is None && url is Some && host_of(url->0) == "music.youtube.com"@
            ==> video_platform_of(platform, url) == Platform::Bilibili,
        all_space(raw) ==> resolve_request(raw, platform) is Err,
        !all_space(raw) ==> (resolve_request(raw, platform) matches Ok(r) && r.0 == trimmed(raw)),
{
    trimming_takes_the_white_space_around(raw);
    reveal_strlit("youtu.be");
    reveal_strlit("youtube.com");
    reveal_strlit("music.youtube.com");
    assert("youtu.be"@.len() == 8 && "youtube.com"@.len() == 11 && "music.youtube.com"@.len() == 17);
}

/// What an order for a video leaves open comes from the settings; its offset stays within ten
/// minutes, and everything else stays as it was ordered.
pub proof fn an_order_takes_its_defaults(req: VideoRequestModel, settings: VideoSettings)
    ensures
        ({
            let r = with_video_defaults(req, settings);
            &&& req.max_height > 0 ==> r.max_height == req.max_height
            &&& req.max_height <= 0 ==> r.max_height == settings.max_height
            &&& r.transcode <==> req.transcode || settings.transcode
            &&& -600_000 <= r.offset_ms <= 600_000
            &&& -600_000 <= req.offset_ms <= 600_000 ==> r.offset_ms == req.offset_ms
            &&& req.offset_ms > 600_000 ==> r.offset_ms == 600_000
            &&& req.offset_ms < -600_000 ==> r.offset_ms == -600_000
            &&& r.url == req.url && r.bvid == req.bvid && r.platform == req.platform && r.audio_only
                == req.audio_only && r.dest_dir == req.dest_dir && r.title == req.title
        }),
{
}

/// A video is ordered by its address or its key, from a platform that has videos.
pub proof fn a_video_is_ordered_by_address_or_key(req: VideoRequestModel)
    ensures
        download_refusal(req) is Ok <==> (!all_space(req.url) || !all_space(req.bvid)) && (
        req.platform == Platform::Bilibili || req.platform == Platform::Youtube),
{
    trimming_takes_the_white_space_around(req.url);
    trimming_takes_the_white_space_around(req.bvid);
}

/// A video that a search found is ordered by its key, with what its entry says, and the settings
/// where it says nothing.
pub proof fn a_found_video_is_ordered_by_its_key(
    source: SongSourceModel,
    artist: Seq<char>,
    options: SourceOptions,
    settings: VideoSettings,
    dest_dir: Seq<char>,
)
    ensures
        ({
            let r = source_request(source, artist, options, settings, dest_dir);
            &&& r.platform == Platform::Youtube && r.bvid == source.key && r.title == source.title
                && r.cover == source.cover && r.artist == artist && r.dest_dir == dest_dir
            &&& options.max_height is Some ==> r.max_height == options.max_height->0
            &&& options.max_height is None ==> r.max_height == settings.max_height
            &&& options.transcode is Some ==> r.transcode == options.transcode->0
            &&& options.transcode is None ==> r.transcode == settings.transcode
            &&& r.audio_only <==> options.audio_only is Some && options.audio_only->0
            &&& r.offset_ms == 0 && r.page_index == 0
        }),
{
}

/// A mix is exported from a folder, in one of three qualities (the best one where none is named),
/// with a fade of at most two minutes or thirty-two bars; a fade in bars goes before one in
/// seconds, and whole bars mean beats.
pub proof fn a_mix_is_exported_as_it_is_asked(req: VjModel)
    ensures
        vj_settled(req) is Ok <==> {
            &&& req.folder.len() > 0
            &&& all_space(req.quality) || trimmed(req.quality) == "1080p"@ || trimmed(req.quality)
                == "720p"@ || trimmed(req.quality) == "480p"@
            &&& req.fade_us is Some && 0 <= req.fade_us->0 <= 120 * 1_000_000
            &&& req.fade_bars <= 32
        },
        vj_settled(req) matches Ok(r) ==> {
            &&& all_space(req.quality) ==> r.quality == "1080p"@
            &&& !all_space(req.quality) ==> r.quality == trimmed(req.quality)
            &&& req.fade_bars > 0 ==> r.fade_us == Some(0i64)
            &&& req.fade_bars == 0 ==> r.fade_us == req.fade_us
            &&& r.snap_nearest_beat <==> req.snap_nearest_beat || req.snap_whole_bar
            &&& r.track_ids == req.track_ids && r.folder == req.folder && r.fade_bars
                == req.fade_bars && r.snap_whole_bar == req.snap_whole_bar
        },
{
    trimming_takes_the_white_space_around(req.quality);
    reveal_strlit("");
    reveal_strlit("1080p");
    reveal_strlit("720p");
    reveal_strlit("480p");
    assert("1080p"@.len() == 5 && "720p"@.len() == 4 && "480p"@.len() == 4);
    assert(""@ =~= Seq::empty());
    if all_space(req.quality) {
        assert(trimmed(req.quality) =~= ""@);
    }
}

/// Nothing of a query is lost in an address: letters, digits and four marks stand for themselves, a
/// plus sign for a space, and a percent sign with two digits for any other byte.
pub proof fn a_byte_of_a_query_reads_back(b: u8)
    ensures
        ({
            let t = query_byte(b);
            ||| t.len() == 1 && t[0] == '+' && b == 32
            ||| t.len() == 1 && t[0] as u32 == b as u32 && t[0] != '+' && t[0] != '%' && t[0] != '&'
                && t[0] != '=' && t[0] != '#'
            ||| t.len() == 3 && t[0] == '%' && hex_value(t.skip(1)) == b
        }),
{
    let t = query_byte(b);
    reveal_with_fuel(pow16, 3);
    hex_reads_back(b as nat, 2, true);
    let h = hex_tail(b);
    if t.len() == 3 {
        assert(t.skip(1) =~= h);
    }
}

spec fn hex_tail(b: u8) -> Seq<char> {
    crate::text::hex(b as nat, 2, true)
}

/// A query is written byte after byte.
pub proof fn a_query_is_written_byte_after_byte(a: Seq<u8>, b: Seq<u8>)
    ensures
        query_bytes(a + b) == query_bytes(a) + query_bytes(b),
        query_bytes(Seq::empty()).len() == 0,
    decreases b.len(),
{
    if b.len() > 0 {
        a_query_is_written_byte_after_byte(a, b.drop_last());
        assert((a + b).drop_last() =~= a + b.drop_last());
        assert(query_bytes(a + b) =~= query_bytes(a) + query_bytes(b));
    } else {
        assert(a + b =~= a);
        assert(query_bytes(a) + query_bytes(b) =~= query_bytes(a));
    }
}

/// A protected player is asked for by a session of its platform: with a proof of playback or
/// without one, with its visitor, in short lines, and with a signature of five digits or more.
pub proof fn a_player_is_asked_for_in_short_lines(request: PlayerRequest)
    ensures
        is_player_request(request) ==> {
            &&& request.platform == Platform::Ytm
            &&& request.po_token is Some ==> 80 <= request.po_token->0@.len() <= 2048
            &&& request.visitor_data@.len() > 0
            &&& crate::text::byte_count(request.visitor_data@) <= 4096
            &&& crate::text::byte_count(request.data_sync_id@) <= 512
            &&& crate::text::byte_count(request.player_url@) <= 4096
            &&& !request.visitor_data@.contains('\n') && !request.visitor_data@.contains('\r')
            &&& !request.data_sync_id@.contains('\n') && !request.data_sync_id@.contains('\r')
            &&& !request.player_url@.contains('\n') && !request.player_url@.contains('\r')
            &&& 10_000 <= request.signature_timestamp <= 100_000
        },
        request.platform == Platform::Ytm && (request.po_token is None || is_po_token(
            request.po_token->0@,
        )) && request.visitor_data@.len() > 0 && crate::text::byte_count(request.visitor_data@)
            <= 4096 && !request.visitor_data@.contains('\n') && !request.visitor_data@.contains('\r')
            && crate::text::byte_count(request.data_sync_id@) <= 512
            && !request.data_sync_id@.contains('\n') && !request.data_sync_id@.contains('\r')
            && crate::text::byte_count(request.player_url@) <= 4096 && !request.player_url@.contains(
            '\n',
        ) && !request.player_url@.contains('\r') && 10_000 <= request.signature_timestamp
            && request.signature_timestamp <= 100_000 ==> is_player_request(request),
{
}

/// A prepared download is fetched from an address of its platform that carries its proof and is
/// still fresh.
pub proof fn a_prepared_download_has_a_fresh_address(
    platform: Option<Platform>,
    proof_text: Seq<char>,
    url: Seq<char>,
    now: u64,
)
    ensures
        prepared_url(platform, proof_text, url, now) is Ok ==> platform == Some(Platform::Ytm)
            && is_po_token(proof_text) && stream_url(url, proof_text, crate::urls::url_of(url)) is Ok,
        platform is None ==> prepared_url(platform, proof_text, url, now) == Err::<
            Seq<char>,
            ErrorModel,
        >(plain(404, "任务不存在"@)),
        platform is Some && platform->0 != Platform::Ytm ==> prepared_url(
            platform,
            proof_text,
            url,
            now,
        ) is Err,
        platform == Some(Platform::Ytm) && !is_po_token(proof_text) ==> prepared_url(
            platform,
            proof_text,
            url,
            now,
        ) is Err,
{
}

/// The alternatives of a stream are taken in their order, each at an address that carries its own
/// token; one that does not refuses the request.
pub proof fn every_alternative_carries_its_token(
    urls: Seq<Seq<char>>,
    tokens: Seq<Seq<char>>,
    count: nat,
    k: int,
)
    requires
        0 <= k < count,
    ensures
        streams_of(urls, tokens, count) matches Ok(list) ==> list.len() == count && stream_url(
            urls[k],
            tokens[k],
            crate::urls::url_of(urls[k]),
        ) == Ok::<Seq<char>, ErrorModel>(list[k]),
        stream_url(urls[k], tokens[k], crate::urls::url_of(urls[k])) is Err ==> streams_of(
            urls,
            tokens,
            count,
        ) is Err,
    decreases count,
{
    if k < count - 1 {
        every_alternative_carries_its_token(urls, tokens, (count - 1) as nat, k);
    } else {
        lemma_streams_len(urls, tokens, (count - 1) as nat);
    }
}

proof fn lemma_streams_len(urls: Seq<Seq<char>>, tokens: Seq<Seq<char>>, count: nat)
    ensures
        streams_of(urls, tokens, count) matches Ok(list) ==> list.len() == count,
    decreases count,
{
    if count > 0 {
        lemma_streams_len(urls, tokens, (count - 1) as nat);
    }
}

/// The extension of a stream's file follows the type that its address states.
pub proof fn a_stream_is_named_by_its_type(before: Seq<char>, after: Seq<char>)
    ensures
        extension_for(before + "mime=audio%2Fwebm"@ + after) == "webm"@,
        extension_for(before + "mime=audio/webm"@ + after) == "webm"@,
        before.len() < 15 ==> extension_for(before) == "m4a"@,
{
    reveal_strlit("mime=audio%2Fwebm");
    reveal_strlit("mime=audio/webm");
    crate::text_laws::a_part_occurs_where_it_stands(before, "mime=audio%2Fwebm"@, after);
    crate::text_laws::a_part_occurs_where_it_stands(before, "mime=audio/webm"@, after);
    assert("mime=audio%2Fwebm"@.len() == 17 && "mime=audio/webm"@.len() == 15);
}

/// A message on a link says why it could not be opened, where that is known.
pub proof fn a_message_says_why(last_error: Seq<char>)
    ensures
        last_error.len() > 0 ==> last_error.is_suffix_of(unresolved_text(last_error)),
        last_error.len() == 0 ==> unresolved_text(last_error) == "无法识别的链接"@,
{
    let t = "无法识别的链接："@ + last_error;
    assert(t.subrange(t.len() - last_error.len(), t.len() as int) =~= last_error);
}

/// An attempt number that is sent back is made of the hexadecimal digits of the client's, in their
/// order: a number that is plain and short is sent back as it is.
pub proof fn a_plain_attempt_is_sent_back(s: Seq<char>)
    requires
        forall|i: int|
            0 <= i < s.len() ==> (('0' <= #[trigger] s[i] && s[i] <= '9') || ('a' <= s[i] && s[i]
                <= 'f') || ('A' <= s[i] && s[i] <= 'F')),
    ensures
        hex_digits(s) == s,
        s.len() <= 32 ==> attempt_of(s) == s,
        s.len() > 32 ==> attempt_of(s) == s.take(32),
    decreases s.len(),
{
    if s.len() > 0 {
        let front = s.drop_last();
        assert forall|i: int| 0 <= i < front.len() implies (('0' <= #[trigger] front[i] && front[i]
            <= '9') || ('a' <= front[i] && front[i] <= 'f') || ('A' <= front[i] && front[i] <= 'F')) by {
            assert(front[i] == s[i]);
        }
        a_plain_attempt_is_sent_back(front);
        assert(s[s.len() - 1] == s.last());
        assert(front.push(s.last()) =~= s);
    } else {
        assert(hex_digits(s) =~= s);
    }
}

/// A number that is asked for counts within its limits: of tracks that go well with another one, from
/// one to two hundred; of columns, from sixty-four to the most there are.
pub proof fn a_number_stays_within_its_limits(asked: usize, most: usize)
    requires
        64 <= most,
    ensures
        1 <= harmonic_count(asked) <= 200,
        1 <= asked <= 200 ==> harmonic_count(asked) == asked,
        asked > 200 ==> harmonic_count(asked) == 200,
        64 <= column_count(asked, most) <= most,
        64 <= asked <= most ==> column_count(asked, most) == asked,
        asked > most ==> column_count(asked, most) == most,
{
}

/// A build without the experiments shows them off; one with them shows what is set.
pub proof fn experiments_are_off_without_them(settings: LabSettings)
    ensures
        visible_settings(settings, true) == settings,
        !visible_settings(settings, false).experimental_dj_mode,
        !visible_settings(settings, false).experimental_one_library,
{
}

/// Every host below the video site's domain is of that site, but for the one of its music.
pub proof fn hosts_below_the_site_are_of_it(below: Seq<char>, url: UrlModel)
    requires
        url.host is Some,
        host_of(url) == below + ".youtube.com"@,
        host_of(url) != "music.youtube.com"@,
    ensures
        video_platform_of(None, Some(url)) == Platform::Youtube,
{
    let t = below + ".youtube.com"@;
    let back = ".youtube.com"@;
    assert(t.subrange(t.len() - back.len(), t.len() as int) =~= back);
}

/// A host that ends in another letter than the site's domains is of the other site.
pub proof fn other_hosts_are_of_the_other_site(url: UrlModel)
    requires
        url.host is Some,
        host_of(url).len() > 0,
        host_of(url).last() != 'm',
        host_of(url).last() != 'e',
    ensures
        video_platform_of(None, Some(url)) == Platform::Bilibili,
{
    reveal_strlit("youtu.be");
    reveal_strlit("youtube.com");
    reveal_strlit(".youtube.com");
    let host = host_of(url);
    let back = ".youtube.com"@;
    assert("youtu.be"@.last() == 'e' && "youtube.com"@.last() == 'm' && back.last() == 'm');
    if back.is_suffix_of(host) {
        let cut = host.subrange(host.len() - back.len(), host.len() as int);
        assert(cut[back.len() - 1] == host[host.len() - 1]);
    }
}

} // verus!
