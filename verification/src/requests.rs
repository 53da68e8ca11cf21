//! Checks of requests that need no state of their own.

use vstd::prelude::*;

use crate::error::{bad, check_result, plain, text_result, ApiError, ErrorModel};
use crate::models::{text_of, texts, Platform, TaskState};
use crate::text::{same, trim, trimmed};

verus! {

// ---------------------------------------------------------------- accounts

/// A platform by its name; `found` holds what the name stands for.
pub fn parse_platform(name: &str, found: Option<Platform>) -> (r: Result<Platform, ApiError>)
    ensures
        match r {
            Ok(p) => found == Some(p),
            Err(e) => found is None && e@ == plain(404, "平台不可用："@ + name@),
        },
{
    match found {
        Some(p) => Ok(p),
        None => {
            let mut detail = "平台不可用：".to_owned();
            detail.append(name);
            Err(ApiError::not_found(detail))
        },
    }
}

/// The two parts of a login that comes back from another site; both have to be there.
pub fn oauth_callback(oauth_state: &str, code: &str) -> (r: Result<(String, String), ApiError>)
    ensures
        match r {
            Ok(v) => v.0@ == trimmed(oauth_state@) && v.1@ == trimmed(code@) && v.0@.len() > 0
                && v.1@.len() > 0,
            Err(e) => (trimmed(oauth_state@).len() == 0 || trimmed(code@).len() == 0) && e@ == bad(
                "SoundCloud OAuth 回调缺少 state 或 code"@,
            ),
        },
{
    let s = trim(oauth_state);
    let c = trim(code);
    if s.as_str().is_empty() || c.as_str().is_empty() {
        return Err(
            ApiError::bad_request("SoundCloud OAuth 回调缺少 state 或 code".to_owned()),
        );
    }
    Ok((s, c))
}

/// The browser whose session is taken over, and its profile.
pub fn browser_login(browser: &str, profile: &Option<String>) -> (r: Result<
    (String, Option<String>),
    ApiError,
>)
    ensures
        match r {
            Ok(v) => v.0@ == trimmed(browser@) && v.0@.len() > 0 && text_of(v.1) == (match *profile {
                Some(p) => Some(trimmed(p@)),
                None => None,
            }),
            Err(e) => trimmed(browser@).len() == 0 && e@ == bad("请选择浏览器"@),
        },
{
    let name = trim(browser);
    if name.as_str().is_empty() {
        return Err(ApiError::bad_request("请选择浏览器".to_owned()));
    }
    let chosen = match profile {
        Some(p) => Some(trim(p.as_str())),
        None => None,
    };
    Ok((name, chosen))
}

// ---------------------------------------------------------------- collections and lists

/// What a search can look for.
#[derive(Clone, Copy, Debug, PartialEq, Eq, Structural)]
pub enum SearchKind {
    Song,
    Playlist,
    Artist,
    Album,
    Radio,
}

pub open spec fn collects(kind: SearchKind) -> bool {
    kind != SearchKind::Song
}

pub open spec fn collection_refusal(
    key: Seq<char>,
    kind: SearchKind,
    available: bool,
    supported: bool,
) -> Result<(), ErrorModel> {
    if trimmed(key).len() == 0 || !collects(kind) {
        Err(bad("集合来源参数不完整"@))
    } else if !available {
        Err(plain(404, "平台不可用"@))
    } else if !supported {
        Err(bad("这个平台不支持该集合搜索"@))
    } else {
        Ok(())
    }
}

/// Whether a collection can be opened: it is named, and its platform is there and knows its kind.
pub fn check_collection(key: &str, kind: SearchKind, available: bool, supported: bool) -> (r: Result<
    (),
    ApiError,
>)
    ensures
        check_result(r) == collection_refusal(key@, kind, available, supported),
{
    if trim(key).as_str().is_empty() || kind == SearchKind::Song {
        return Err(ApiError::bad_request("集合来源参数不完整".to_owned()));
    }
    if !available {
        return Err(ApiError::not_found("平台不可用".to_owned()));
    }
    if !supported {
        return Err(ApiError::bad_request("这个平台不支持该集合搜索".to_owned()));
    }
    Ok(())
}

/// A list of a platform.
pub struct StreamPlaylist {
    pub platform: Platform,
    pub key: String,
    pub title: String,
    pub cover: String,
    pub count: u64,
    pub is_favorite: bool,
    pub origin: String,
}

#[verifier::ext_equal]
pub struct PlaylistModel {
    pub platform: Platform,
    pub key: Seq<char>,
    pub title: Seq<char>,
    pub cover: Seq<char>,
    pub count: u64,
    pub is_favorite: bool,
    pub origin: Seq<char>,
}

impl View for StreamPlaylist {
    type V = PlaylistModel;

    open spec fn view(&self) -> PlaylistModel {
        PlaylistModel {
            platform: self.platform,
            key: self.key@,
            title: self.title@,
            cover: self.cover@,
            count: self.count,
            is_favorite: self.is_favorite,
            origin: self.origin@,
        }
    }
}

impl Clone for StreamPlaylist {
    fn clone(&self) -> (r: Self)
        ensures
            r@ == self@,
    {
        StreamPlaylist {
            platform: self.platform,
            key: self.key.clone(),
            title: self.title.clone(),
            cover: self.cover.clone(),
            count: self.count,
            is_favorite: self.is_favorite,
            origin: self.origin.clone(),
        }
    }
}

pub open spec fn playlist_views(v: Seq<StreamPlaylist>) -> Seq<PlaylistModel> {
    v.map_values(|p: StreamPlaylist| p@)
}

/// A list of this key is among others.
pub open spec fn has_list(lists: Seq<PlaylistModel>, key: Seq<char>) -> bool {
    exists|i: int| 0 <= i < lists.len() && (#[trigger] lists[i]).key == key
}

/// The lists that are not among others.
pub open spec fn lists_without(lists: Seq<PlaylistModel>, others: Seq<PlaylistModel>) -> Seq<
    PlaylistModel,
>
    decreases lists.len(),
{
    if lists.len() == 0 {
        Seq::empty()
    } else if has_list(others, lists.last().key) {
        lists_without(lists.drop_last(), others)
    } else {
        lists_without(lists.drop_last(), others).push(lists.last())
    }
}

fn holds_list(lists: &Vec<StreamPlaylist>, key: &str) -> (r: bool)
    ensures
        r == has_list(playlist_views(lists@), key@),
{
    let ghost model = playlist_views(lists@);
    let mut i: usize = 0;
    while i < lists.len()
        invariant
            i <= lists@.len(),
            model == playlist_views(lists@),
            forall|j: int| 0 <= j < i ==> (#[trigger] model[j]).key != key@,
        decreases lists@.len() - i,
    {
        assert(model[i as int] == lists@[i as int]@);
        if same(lists[i].key.as_str(), key) {
            return true;
        }
        i += 1;
    }
    false
}

/// The lists of the video site without those that the music site claims: the same list shows up on
/// both.
pub fn exclude_music_playlists_from_youtube(
    video_playlists: &Vec<StreamPlaylist>,
    music_playlists: &Vec<StreamPlaylist>,
) -> (r: Vec<StreamPlaylist>)
    ensures
        playlist_views(r@) == lists_without(
            playlist_views(video_playlists@),
            playlist_views(music_playlists@),
        ),
{
    let ghost model = playlist_views(video_playlists@);
    let ghost music = playlist_views(music_playlists@);
    let mut r: Vec<StreamPlaylist> = Vec::new();
    let mut i: usize = 0;
    assert(playlist_views(r@) =~= lists_without(model.take(0), music));
    while i < video_playlists.len()
        invariant
            i <= video_playlists@.len(),
            model == playlist_views(video_playlists@),
            music == playlist_views(music_playlists@),
            playlist_views(r@) == lists_without(model.take(i as int), music),
        decreases video_playlists@.len() - i,
    {
        assert(model.take(i + 1).drop_last() =~= model.take(i as int));
        assert(model.take(i + 1).last() == video_playlists@[i as int]@);
        if !holds_list(music_playlists, video_playlists[i].key.as_str()) {
            let ghost before = playlist_views(r@);
            r.push(video_playlists[i].clone());
            assert(playlist_views(r@) =~= before.push(video_playlists@[i as int]@));
        }
        i += 1;
    }
    assert(model.take(i as int) =~= model);
    r
}

/// Every list that is shown is of the platform it is shown for.
pub open spec fn unmixed(platforms: Seq<Platform>, platform: Platform) -> bool {
    forall|i: int| 0 <= i < platforms.len() ==> #[trigger] platforms[i] == platform
}

pub fn is_unmixed(platforms: &Vec<Platform>, platform: Platform) -> (r: bool)
    ensures
        r == unmixed(platforms@, platform),
{
    let mut i: usize = 0;
    while i < platforms.len()
        invariant
            i <= platforms@.len(),
            forall|j: int| 0 <= j < i ==> #[trigger] platforms@[j] == platform,
        decreases platforms@.len() - i,
    {
        if platforms[i] != platform {
            return false;
        }
        i += 1;
    }
    true
}

/// Refuses the lists of a platform where another one's are among them.
pub fn check_playlists(platforms: &Vec<Platform>, platform: Platform) -> (r: Result<(), ApiError>)
    ensures
        check_result(r) == (if unmixed(platforms@, platform) {
            Ok(())
        } else {
            Err(plain(500, "平台目录返回了混合来源，已拒绝展示"@))
        }),
{
    if is_unmixed(platforms, platform) {
        return Ok(());
    }
    Err(ApiError::new(500, "平台目录返回了混合来源，已拒绝展示".to_owned()))
}

/// A list has to be named.
pub fn check_playlist_key(key: &str) -> (r: Result<(), ApiError>)
    ensures
        check_result(r) == (if trimmed(key@).len() == 0 {
            Err(bad("歌单来源缺少 key"@))
        } else {
            Ok(())
        }),
{
    if trim(key).as_str().is_empty() {
        return Err(ApiError::bad_request("歌单来源缺少 key".to_owned()));
    }
    Ok(())
}

/// Refuses a list whose songs are not all of its platform.
pub fn check_playlist(own: Platform, songs: &Vec<Platform>, platform: Platform) -> (r: Result<
    (),
    ApiError,
>)
    ensures
        check_result(r) == (if own == platform && unmixed(songs@, platform) {
            Ok(())
        } else {
            Err(plain(500, "平台歌单返回了混合来源，已拒绝展示"@))
        }),
{
    if own == platform && is_unmixed(songs, platform) {
        return Ok(());
    }
    Err(ApiError::new(500, "平台歌单返回了混合来源，已拒绝展示".to_owned()))
}

// ---------------------------------------------------------------- links and texts

/// Why a link could not be opened.
pub open spec fn unresolved_text(last_error: Seq<char>) -> Seq<char> {
    if last_error.len() == 0 {
        "无法识别的链接"@
    } else {
        "无法识别的链接："@ + last_error
    }
}

pub fn unresolved_detail(last_error: &str) -> (r: String)
    ensures
        r@ == unresolved_text(last_error@),
{
    if last_error.is_empty() {
        return "无法识别的链接".to_owned();
    }
    let mut r = "无法识别的链接：".to_owned();
    r.append(last_error);
    r
}

/// A link that is to be opened.
pub fn link_request(raw: &str) -> (r: Result<String, ApiError>)
    ensures
        text_result(r) == (if trimmed(raw@).len() == 0 {
            Err(bad("链接不能为空"@))
        } else {
            Ok(trimmed(raw@))
        }),
{
    let url = trim(raw);
    if url.as_str().is_empty() {
        return Err(ApiError::bad_request("链接不能为空".to_owned()));
    }
    Ok(url)
}

/// What a platform makes of a link.
pub enum LinkAnswer {
    Opened,
    /// It is not one of the platform's.
    Unknown,
    Failed(String),
}

pub enum LinkEvent {
    Opened,
    Unknown,
    Failed(Seq<char>),
}

pub open spec fn link_event(a: LinkAnswer) -> LinkEvent {
    match a {
        LinkAnswer::Opened => LinkEvent::Opened,
        LinkAnswer::Unknown => LinkEvent::Unknown,
        LinkAnswer::Failed(reason) => LinkEvent::Failed(reason@),
    }
}

/// Asks one platform after the other. One that fails does not stop the search: the link may belong
/// to the next one.
pub struct LinkSearch {
    pub platforms: Vec<Platform>,
    pub next: usize,
    pub opened: bool,
    pub last_error: String,
}

#[verifier::ext_equal]
pub struct LinkModel {
    pub platforms: Seq<Platform>,
    pub next: nat,
    pub opened: bool,
    pub last_error: Seq<char>,
}

impl View for LinkSearch {
    type V = LinkModel;

    open spec fn view(&self) -> LinkModel {
        LinkModel {
            platforms: self.platforms@,
            next: self.next as nat,
            opened: self.opened,
            last_error: self.last_error@,
        }
    }
}

impl LinkModel {
    pub open spec fn after(self, event: LinkEvent) -> LinkModel {
        match event {
            LinkEvent::Opened => LinkModel { opened: true, ..self },
            LinkEvent::Unknown => LinkModel { next: self.next + 1, ..self },
            LinkEvent::Failed(reason) => LinkModel {
                next: self.next + 1,
                last_error: reason,
                ..self
            },
        }
    }
}

impl LinkSearch {
    pub fn begin(platforms: Vec<Platform>) -> (r: Self)
        ensures
            r@ == (LinkModel {
                platforms: platforms@,
                next: 0,
                opened: false,
                last_error: ""@,
            }),
    {
        LinkSearch { platforms, next: 0, opened: false, last_error: "".to_owned() }
    }

    /// The platform to ask next.
    pub fn next_platform(&self) -> (r: Option<Platform>)
        ensures
            r == (if !self@.opened && self@.next < self@.platforms.len() {
                Some(self@.platforms[self@.next as int])
            } else {
                None
            }),
    {
        if !self.opened && self.next < self.platforms.len() {
            Some(self.platforms[self.next])
        } else {
            None
        }
    }

    pub fn answer(&mut self, answer: LinkAnswer)
        requires
            !old(self)@.opened,
            old(self)@.next < old(self)@.platforms.len(),
        ensures
            final(self)@ == old(self)@.after(link_event(answer)),
    {
        let total: usize = self.platforms.len();
        assert(self.next < total);
        match answer {
            LinkAnswer::Opened => {
                self.opened = true;
            },
            LinkAnswer::Unknown => {
                self.next = self.next + 1;
            },
            LinkAnswer::Failed(reason) => {
                self.last_error = reason;
                self.next = self.next + 1;
            },
        }
    }
}

/// A platform that fails does not end the search for a link's owner.
pub proof fn a_failing_platform_stops_nothing(search: LinkModel, reason: Seq<char>)
    requires
        !search.opened,
        search.next < search.platforms.len(),
    ensures
        search.after(LinkEvent::Failed(reason)).next == search.next + 1,
        !search.after(LinkEvent::Failed(reason)).opened,
        search.after(LinkEvent::Failed(reason)).platforms == search.platforms,
{
}

/// What a link leads to.
#[derive(Clone, Copy, Debug, PartialEq, Eq, Structural)]
pub enum ResolveKind {
    Song,
    Playlist,
    Album,
    Unknown,
}

/// What an entry of a pasted text turned out to be.
#[derive(Clone, Copy, Debug, PartialEq, Eq, Structural)]
pub enum IntakeKind {
    Search,
    Song,
    Playlist,
    Artist,
    Album,
    Radio,
    Unknown,
    Error,
}

/// How an entry is listed, before its songs.
pub struct IntakeHead {
    pub entry: String,
    pub kind: IntakeKind,
    pub platform: Option<Platform>,
    pub title: String,
    pub error: String,
}

#[verifier::ext_equal]
pub struct IntakeModel {
    pub entry: Seq<char>,
    pub kind: IntakeKind,
    pub platform: Option<Platform>,
    pub title: Seq<char>,
    pub error: Seq<char>,
}

impl View for IntakeHead {
    type V = IntakeModel;

    open spec fn view(&self) -> IntakeModel {
        IntakeModel {
            entry: self.entry@,
            kind: self.kind,
            platform: self.platform,
            title: self.title@,
            error: self.error@,
        }
    }
}

/// An entry that failed.
pub fn intake_error(entry: &str, message: &str) -> (r: IntakeHead)
    ensures
        r@ == (IntakeModel {
            entry: entry@,
            kind: IntakeKind::Error,
            platform: None,
            title: ""@,
            error: message@,
        }),
{
    IntakeHead {
        entry: entry.to_owned(),
        kind: IntakeKind::Error,
        platform: None,
        title: "".to_owned(),
        error: message.to_owned(),
    }
}

/// There has to be something in a pasted text.
pub fn check_intake(entries: usize) -> (r: Result<(), ApiError>)
    ensures
        check_result(r) == (if entries == 0 {
            Err(bad("没有解析出任何关键词或链接"@))
        } else {
            Ok(())
        }),
{
    if entries == 0 {
        return Err(ApiError::bad_request("没有解析出任何关键词或链接".to_owned()));
    }
    Ok(())
}

pub open spec fn link_kind(kind: ResolveKind) -> IntakeKind {
    match kind {
        ResolveKind::Song => IntakeKind::Song,
        ResolveKind::Playlist => IntakeKind::Playlist,
        ResolveKind::Album => IntakeKind::Album,
        ResolveKind::Unknown => IntakeKind::Unknown,
    }
}

/// How a link is listed.
pub struct OpenedLink {
    pub kind: ResolveKind,
    pub platform: Platform,
    pub title: String,
}

/// How a link of a pasted text is listed. One that nobody knows is an error, with its reason.
pub fn intake_link(entry: &str, opened: &Option<OpenedLink>, last_error: &str) -> (r: IntakeHead)
    ensures
        r@ == (match *opened {
            Some(o) => IntakeModel {
                entry: entry@,
                kind: link_kind(o.kind),
                platform: Some(o.platform),
                title: o.title@,
                error: ""@,
            },
            None => IntakeModel {
                entry: entry@,
                kind: IntakeKind::Error,
                platform: None,
                title: ""@,
                error: unresolved_text(last_error@),
            },
        }),
{
    match opened {
        Some(o) => IntakeHead {
            entry: entry.to_owned(),
            kind: match o.kind {
                ResolveKind::Song => IntakeKind::Song,
                ResolveKind::Playlist => IntakeKind::Playlist,
                ResolveKind::Album => IntakeKind::Album,
                ResolveKind::Unknown => IntakeKind::Unknown,
            },
            platform: Some(o.platform),
            title: o.title.clone(),
            error: "".to_owned(),
        },
        None => {
            let reason = unresolved_detail(last_error);
            intake_error(entry, reason.as_str())
        },
    }
}

pub open spec fn search_kind(kind: SearchKind) -> IntakeKind {
    match kind {
        SearchKind::Song => IntakeKind::Search,
        SearchKind::Playlist => IntakeKind::Playlist,
        SearchKind::Artist => IntakeKind::Artist,
        SearchKind::Album => IntakeKind::Album,
        SearchKind::Radio => IntakeKind::Radio,
    }
}

/// How the words of a pasted text are listed.
pub fn intake_search(entry: &str, kind: SearchKind) -> (r: IntakeHead)
    ensures
        r@ == (IntakeModel {
            entry: entry@,
            kind: search_kind(kind),
            platform: None,
            title: entry@,
            error: ""@,
        }),
{
    IntakeHead {
        entry: entry.to_owned(),
        kind: match kind {
            SearchKind::Song => IntakeKind::Search,
            SearchKind::Playlist => IntakeKind::Playlist,
            SearchKind::Artist => IntakeKind::Artist,
            SearchKind::Album => IntakeKind::Album,
            SearchKind::Radio => IntakeKind::Radio,
        },
        platform: None,
        title: entry.to_owned(),
        error: "".to_owned(),
    }
}

// ---------------------------------------------------------------- downloads

/// Why the preparation of a download failed, in the words of the one who tried, or in general ones.
pub fn preparation_failure(error: &str) -> (r: String)
    ensures
        r@ == (if trimmed(error@).len() == 0 {
            "下载来源准备失败"@
        } else {
            trimmed(error@)
        }),
{
    let message = trim(error);
    if message.as_str().is_empty() {
        "下载来源准备失败".to_owned()
    } else {
        message
    }
}

/// Whether a download needs to be prepared from outside.
pub fn check_prepared_platform(platform: Platform) -> (r: Result<(), ApiError>)
    ensures
        check_result(r) == (if platform == Platform::Ytm {
            Ok(())
        } else {
            Err(bad("当前平台不需要外部媒体准备"@))
        }),
{
    if platform == Platform::Ytm {
        return Ok(());
    }
    Err(ApiError::bad_request("当前平台不需要外部媒体准备".to_owned()))
}

pub open spec fn removal_refusal(state: Option<TaskState>) -> Result<(), ErrorModel> {
    match state {
        None => Err(plain(404, "任务不存在"@)),
        Some(s) => if s == TaskState::Done || s == TaskState::Failed || s == TaskState::Canceled {
            Ok(())
        } else {
            Err(bad("只能移除已结束的任务；请先取消"@))
        },
    }
}

/// Whether a task can be taken off the list: it has to have ended.
pub fn check_removal(state: Option<TaskState>) -> (r: Result<(), ApiError>)
    ensures
        check_result(r) == removal_refusal(state),
{
    match state {
        None => Err(ApiError::not_found("任务不存在".to_owned())),
        Some(s) => if s == TaskState::Done || s == TaskState::Failed || s == TaskState::Canceled {
            Ok(())
        } else {
            Err(ApiError::bad_request("只能移除已结束的任务；请先取消".to_owned()))
        },
    }
}

// ---------------------------------------------------------------- tracks

/// The order and the part of the tracks that a request asks for.
pub struct TrackOrder {
    pub sort: Option<String>,
    pub order: Option<String>,
    pub sort2: Option<String>,
    pub order2: Option<String>,
    pub limit: Option<i64>,
    pub offset: Option<i64>,
}

/// The order and the part of the tracks, with nothing left open.
pub struct TrackWindow {
    pub sort: String,
    pub order: String,
    pub sort2: String,
    pub order2: String,
    pub limit: i64,
    pub offset: i64,
}

#[verifier::ext_equal]
pub struct WindowModel {
    pub sort: Seq<char>,
    pub order: Seq<char>,
    pub sort2: Seq<char>,
    pub order2: Seq<char>,
    pub limit: i64,
    pub offset: i64,
}

impl View for TrackWindow {
    type V = WindowModel;

    open spec fn view(&self) -> WindowModel {
        WindowModel {
            sort: self.sort@,
            order: self.order@,
            sort2: self.sort2@,
            order2: self.order2@,
            limit: self.limit,
            offset: self.offset,
        }
    }
}

pub open spec fn text_or(s: Option<String>, other: Seq<char>) -> Seq<char> {
    match s {
        Some(s) => s@,
        None => other,
    }
}

pub open spec fn window_of(o: TrackOrder) -> WindowModel {
    let limit = match o.limit {
        Some(n) => n,
        None => 200,
    };
    WindowModel {
        sort: text_or(o.sort, "added_at"@),
        order: text_or(o.order, "desc"@),
        sort2: text_or(o.sort2, ""@),
        order2: text_or(o.order2, "asc"@),
        limit: if limit < 1 {
            1
        } else if limit > 1000 {
            1000
        } else {
            limit
        },
        offset: match o.offset {
            Some(n) => if n < 0 {
                0
            } else {
                n
            },
            None => 0,
        },
    }
}

fn or_text(s: &Option<String>, other: &str) -> (r: String)
    ensures
        r@ == text_or(*s, other@),
{
    match s {
        Some(s) => s.clone(),
        None => other.to_owned(),
    }
}

/// Fills in what a request for tracks leaves open.
pub fn track_window(o: &TrackOrder) -> (r: TrackWindow)
    ensures
        r@ == window_of(*o),
{
    let limit: i64 = match o.limit {
        Some(n) => if n < 1 {
            1
        } else if n > 1000 {
            1000
        } else {
            n
        },
        None => 200,
    };
    let offset: i64 = match o.offset {
        Some(n) => if n < 0 {
            0
        } else {
            n
        },
        None => 0,
    };
    TrackWindow {
        sort: or_text(&o.sort, "added_at"),
        order: or_text(&o.order, "desc"),
        sort2: or_text(&o.sort2, ""),
        order2: or_text(&o.order2, "asc"),
        limit,
        offset,
    }
}

/// Which folder a request for tracks means: one name stands for everything outside the roots.
pub open spec fn folder_query(folder: Seq<char>, outside: Seq<char>, roots: Seq<Seq<char>>) -> (
    Seq<char>,
    Seq<Seq<char>>,
) {
    if trimmed(folder) == outside {
        (""@, roots)
    } else {
        (folder, Seq::empty())
    }
}

pub fn track_folder(folder: &str, outside: &str, roots: &Vec<String>) -> (r: (String, Vec<String>))
    ensures
        (r.0@, texts(r.1@)) == folder_query(folder@, outside@, texts(roots@)),
{
    if same(trim(folder).as_str(), outside) {
        ("".to_owned(), crate::models::clone_texts(roots))
    } else {
        let none: Vec<String> = Vec::new();
        assert(texts(none@) =~= Seq::<Seq<char>>::empty());
        (folder.to_owned(), none)
    }
}

/// How many tracks that go well with another one are listed.
pub open spec fn harmonic_count(asked: usize) -> usize {
    if asked < 1 {
        1
    } else if asked > 200 {
        200
    } else {
        asked
    }
}

/// How many tracks that go well with another one are listed: one at least, and no more than two
/// hundred.
pub fn harmonic_limit(asked: usize) -> (r: usize)
    ensures
        r == harmonic_count(asked),
        r == (if asked < 1 {
            1
        } else if asked > 200 {
            200
        } else {
            asked
        }),
{
    if asked < 1 {
        1
    } else if asked > 200 {
        200
    } else {
        asked
    }
}

/// A track that is asked for has to be known.
pub fn check_track(known: bool) -> (r: Result<(), ApiError>)
    ensures
        check_result(r) == (if known {
            Ok(())
        } else {
            Err(plain(404, "曲目不存在"@))
        }),
{
    if known {
        Ok(())
    } else {
        Err(ApiError::not_found("曲目不存在".to_owned()))
    }
}

// ---------------------------------------------------------------- settings

/// The switches for what is still being tried out.
#[derive(Clone, Copy, Debug, PartialEq, Eq, Structural)]
pub struct LabSettings {
    pub experimental_dj_mode: bool,
    pub experimental_one_library: bool,
}

/// The switches as they are shown and kept.
pub open spec fn visible_settings(settings: LabSettings, labs: bool) -> LabSettings {
    if labs {
        settings
    } else {
        LabSettings { experimental_dj_mode: false, experimental_one_library: false }
    }
}

/// The switches as they are shown and kept: a build without the experiments has them off, whatever
/// an older file says.
pub fn build_visible_settings(settings: LabSettings, labs: bool) -> (r: LabSettings)
    ensures
        r == visible_settings(settings, labs),
        r == (if labs {
            settings
        } else {
            LabSettings { experimental_dj_mode: false, experimental_one_library: false }
        }),
{
    if labs {
        settings
    } else {
        LabSettings { experimental_dj_mode: false, experimental_one_library: false }
    }
}

/// What a change of the settings does to streams that are being kept.
#[derive(Clone, Copy, Debug, PartialEq, Eq, Structural)]
pub struct CacheEffects {
    pub cancel_writes: bool,
    pub clear_waveforms: bool,
}

/// What a change of the settings does to streams that are being kept: into a folder that is left,
/// nothing more is written.
pub fn cache_effects(folder_changed: bool, enabled: bool) -> (r: CacheEffects)
    ensures
        r.cancel_writes == folder_changed,
        r.clear_waveforms == (folder_changed || !enabled),
{
    CacheEffects { cancel_writes: folder_changed, clear_waveforms: folder_changed || !enabled }
}

} // verus!
