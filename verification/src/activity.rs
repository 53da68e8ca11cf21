//! What the activity log says of a request.

use vstd::prelude::*;

use crate::auth::Method;
use crate::text::{
    drop_prefix, drop_prefixes, has_prefix, has_suffix, same, without_prefix, without_prefixes,
};

verus! {

#[derive(Clone, Copy, PartialEq, Eq, Debug, Structural)]
pub enum ActivityCategory {
    Network,
    User,
    Analysis,
}

#[derive(Clone, Copy, PartialEq, Eq, Debug, Structural)]
pub enum ActivityLevel {
    Info,
    Warn,
    Error,
}

/// What a request does, in the words of the log.
#[derive(Clone, Copy)]
pub struct Activity {
    pub category: ActivityCategory,
    pub action: &'static str,
    pub target: &'static str,
    /// Only failures are worth a line.
    pub only_failures: bool,
}

#[verifier::ext_equal]
pub struct ActivityModel {
    pub category: ActivityCategory,
    pub action: Seq<char>,
    pub target: Seq<char>,
    pub only_failures: bool,
}

impl View for Activity {
    type V = ActivityModel;

    open spec fn view(&self) -> ActivityModel {
        ActivityModel {
            category: self.category,
            action: self.action@,
            target: self.target@,
            only_failures: self.only_failures,
        }
    }
}

pub open spec fn activity_view(a: Option<Activity>) -> Option<ActivityModel> {
    match a {
        Some(a) => Some(a@),
        None => None,
    }
}

/// A call to an outside service.
pub open spec fn network(action: Seq<char>, target: Seq<char>) -> Option<ActivityModel> {
    Some(
        ActivityModel { category: ActivityCategory::Network, action, target, only_failures: false },
    )
}

/// Something that the user did.
pub open spec fn user(action: Seq<char>) -> Option<ActivityModel> {
    Some(
        ActivityModel {
            category: ActivityCategory::User,
            action,
            target: ""@,
            only_failures: false,
        },
    )
}

/// Analysis, of which only failures are logged.
pub open spec fn analysis(action: Seq<char>) -> Option<ActivityModel> {
    Some(
        ActivityModel {
            category: ActivityCategory::Analysis,
            action,
            target: ""@,
            only_failures: true,
        },
    )
}

fn network_activity(action: &'static str, target: &'static str) -> (r: Option<Activity>)
    ensures
        activity_view(r) == network(action@, target@),
{
    Some(Activity { category: ActivityCategory::Network, action, target, only_failures: false })
}

fn user_activity(action: &'static str) -> (r: Option<Activity>)
    ensures
        activity_view(r) == user(action@),
{
    Some(Activity { category: ActivityCategory::User, action, target: "", only_failures: false })
}

fn analysis_activity(action: &'static str) -> (r: Option<Activity>)
    ensures
        activity_view(r) == analysis(action@),
{
    Some(Activity { category: ActivityCategory::Analysis, action, target: "", only_failures: true })
}

/// The operations on folders.
pub open spec fn folder_activity(action: Seq<char>) -> Option<ActivityModel> {
    if action == "create"@ {
        user("创建本地文件夹"@)
    } else if action == "rename"@ {
        user("重命名本地文件夹"@)
    } else if action == "delete"@ {
        user("删除本地文件夹"@)
    } else if action == "forget"@ {
        user("从曲库移出文件夹"@)
    } else if action == "init"@ {
        user("初始化本地文件夹"@)
    } else if action == "upgrade"@ {
        user("升级文件夹元数据"@)
    } else if action == "move"@ {
        user("移动本地文件夹"@)
    } else if action == "merge"@ {
        user("合并本地文件夹"@)
    } else if action == "order"@ {
        user("调整本地文件夹顺序"@)
    } else if action == "undo"@ {
        user("撤回本地文件操作"@)
    } else if action == "apply"@ {
        user("复制或移动本地文件"@)
    } else {
        None
    }
}

fn folder_activity_of(action: &str) -> (r: Option<Activity>)
    ensures
        activity_view(r) == folder_activity(action@),
{
    if same(action, "create") {
        user_activity("创建本地文件夹")
    } else if same(action, "rename") {
        user_activity("重命名本地文件夹")
    } else if same(action, "delete") {
        user_activity("删除本地文件夹")
    } else if same(action, "forget") {
        user_activity("从曲库移出文件夹")
    } else if same(action, "init") {
        user_activity("初始化本地文件夹")
    } else if same(action, "upgrade") {
        user_activity("升级文件夹元数据")
    } else if same(action, "move") {
        user_activity("移动本地文件夹")
    } else if same(action, "merge") {
        user_activity("合并本地文件夹")
    } else if same(action, "order") {
        user_activity("调整本地文件夹顺序")
    } else if same(action, "undo") {
        user_activity("撤回本地文件操作")
    } else if same(action, "apply") {
        user_activity("复制或移动本地文件")
    } else {
        None
    }
}

/// The routes that are named in full.
pub open spec fn named_activity(method: Method, route: Seq<char>) -> Option<ActivityModel> {
    if method == Method::Post && route == "/search"@ {
        network("搜索 API"@, "已启用音乐平台"@)
    } else if method == Method::Post && route == "/search/collection"@ {
        network("集合展开 API"@, "音乐平台"@)
    } else if method == Method::Post && route == "/search/cover"@ {
        network("在线封面 API"@, "音乐平台图片服务"@)
    } else if method == Method::Post && route == "/lyrics"@ {
        network("歌词 API"@, "音乐平台"@)
    } else if method == Method::Post && route == "/resolve"@ {
        network("链接解析 API"@, "音乐平台"@)
    } else if method == Method::Post && route == "/intake"@ {
        network("批量检索 API"@, "音乐平台"@)
    } else if method == Method::Post && route == "/downloads"@ {
        network("下载 API"@, "音乐平台"@)
    } else if method == Method::Post && route == "/downloads/start"@ {
        network("启动下载 API"@, "音乐平台"@)
    } else if method == Method::Post && route == "/video/download"@ {
        network("视频下载 API"@, "视频平台"@)
    } else if method == Method::Post && route == "/video/resolve"@ {
        network("视频解析 API"@, "视频平台"@)
    } else if method == Method::Post && route == "/video/calibrate"@ {
        network("视频校准 API"@, "bilibili.com"@)
    } else if method == Method::Post && route == "/song/preview"@ {
        network("在线预览 API"@, "音乐平台"@)
    } else if method == Method::Post && route == "/song/preview/ytm/sabr/spools"@ {
        network("在线预览 API"@, "music.youtube.com"@)
    } else if method == Method::Post && route == "/video/youtube/hls/begin"@ {
        network("视频在线播放 API"@, "youtube.com"@)
    } else if method == Method::Get && route == "/accounts"@ {
        network("账号状态 API"@, "已连接音乐平台"@)
    } else if method == Method::Get && route == "/update/check"@ {
        network("更新检查 API"@, "github.com"@)
    } else if method == Method::Post && route == "/library/tracks/delete"@ {
        user("批量删除本地曲目"@)
    } else if method == Method::Post && route == "/library/scan"@ {
        user("扫描本地曲库"@)
    } else if method == Method::Delete && route == "/song/cache"@ {
        user("清理在线媒体缓存"@)
    } else {
        None
    }
}

fn named_activity_of(method: Method, route: &str) -> (r: Option<Activity>)
    ensures
        activity_view(r) == named_activity(method, route@),
{
    if method == Method::Post && same(route, "/search") {
        network_activity("搜索 API", "已启用音乐平台")
    } else if method == Method::Post && same(route, "/search/collection") {
        network_activity("集合展开 API", "音乐平台")
    } else if method == Method::Post && same(route, "/search/cover") {
        network_activity("在线封面 API", "音乐平台图片服务")
    } else if method == Method::Post && same(route, "/lyrics") {
        network_activity("歌词 API", "音乐平台")
    } else if method == Method::Post && same(route, "/resolve") {
        network_activity("链接解析 API", "音乐平台")
    } else if method == Method::Post && same(route, "/intake") {
        network_activity("批量检索 API", "音乐平台")
    } else if method == Method::Post && same(route, "/downloads") {
        network_activity("下载 API", "音乐平台")
    } else if method == Method::Post && same(route, "/downloads/start") {
        network_activity("启动下载 API", "音乐平台")
    } else if method == Method::Post && same(route, "/video/download") {
        network_activity("视频下载 API", "视频平台")
    } else if method == Method::Post && same(route, "/video/resolve") {
        network_activity("视频解析 API", "视频平台")
    } else if method == Method::Post && same(route, "/video/calibrate") {
        network_activity("视频校准 API", "bilibili.com")
    } else if method == Method::Post && same(route, "/song/preview") {
        network_activity("在线预览 API", "音乐平台")
    } else if method == Method::Post && same(route, "/song/preview/ytm/sabr/spools") {
        network_activity("在线预览 API", "music.youtube.com")
    } else if method == Method::Post && same(route, "/video/youtube/hls/begin") {
        network_activity("视频在线播放 API", "youtube.com")
    } else if method == Method::Get && same(route, "/accounts") {
        network_activity("账号状态 API", "已连接音乐平台")
    } else if method == Method::Get && same(route, "/update/check") {
        network_activity("更新检查 API", "github.com")
    } else if method == Method::Post && same(route, "/library/tracks/delete") {
        user_activity("批量删除本地曲目")
    } else if method == Method::Post && same(route, "/library/scan") {
        user_activity("扫描本地曲库")
    } else if method == Method::Delete && same(route, "/song/cache") {
        user_activity("清理在线媒体缓存")
    } else {
        None
    }
}

/// The routes that are known by how they begin or end, in the order in which they are tried.
pub open spec fn family_activity(method: Method, route: Seq<char>) -> Option<ActivityModel> {
    if method == Method::Post && "/accounts/"@.is_prefix_of(route) {
        network("账号 API"@, "音乐平台"@)
    } else if method == Method::Get && "/stream/playlists/"@.is_prefix_of(route) {
        network("在线歌单 API"@, "音乐平台"@)
    } else if method == Method::Post && route == "/stream/playlist"@ {
        network("在线歌单内容 API"@, "音乐平台"@)
    } else if method == Method::Post && route == "/stream/playlist/remove-track"@ {
        network("在线歌单移除 API"@, "音乐平台"@)
    } else if method == Method::Post && "/downloads/"@.is_prefix_of(route) && "/retry"@.is_suffix_of(route) {
        network("重试下载 API"@, "音乐平台"@)
    } else if "/library/analyze"@.is_prefix_of(route) || "/library/duplicates/analyze"@.is_prefix_of(route) || "/library/waveforms/upgrade"@.is_prefix_of(route) || "/library/waveform/"@.is_prefix_of(route) {
        analysis("分析请求异常"@)
    } else if method == Method::Delete && "/library/tracks/"@.is_prefix_of(route) {
        user("删除本地曲目"@)
    } else if method == Method::Patch && "/library/tracks/"@.is_prefix_of(route) {
        user("修改本地曲目信息"@)
    } else if method == Method::Put && "/library/cover/"@.is_prefix_of(route) {
        user("更换本地封面"@)
    } else if method == Method::Put && "/library/lyrics/"@.is_prefix_of(route) {
        user("保存本地歌词"@)
    } else if method == Method::Post && "/library/tracks/"@.is_prefix_of(route) && "/write-tags"@.is_suffix_of(route) {
        user("写入本地文件标签"@)
    } else if method == Method::Post && "/library/tracks/"@.is_prefix_of(route) && "/reread-tags"@.is_suffix_of(route) {
        user("重读本地文件标签"@)
    } else if method == Method::Post && "/library/folders/"@.is_prefix_of(route) {
        folder_activity(without_prefixes(route, "/library/folders/"@))
    } else if method == Method::Delete && (route == "/cache/media"@ || route == "/cache/waveform"@ || route == "/cache/lyrics"@ || route == "/cache/basic"@) {
        user("清理本地存储"@)
    } else if method == Method::Post && "/cancel"@.is_suffix_of(route) && "/downloads/"@.is_prefix_of(route) {
        user("取消下载任务"@)
    } else if method == Method::Delete && "/downloads/"@.is_prefix_of(route) {
        user("移除下载记录"@)
    } else if method == Method::Post && route == "/downloads/cancel-all"@ {
        user("取消全部下载任务"@)
    } else if method == Method::Post && route == "/downloads/clear"@ {
        user("清理下载记录"@)
    } else {
        None
    }
}

fn family_activity_of(method: Method, route: &str) -> (r: Option<Activity>)
    ensures
        activity_view(r) == family_activity(method, route@),
{
    if method == Method::Post && has_prefix(route, "/accounts/") {
        network_activity("账号 API", "音乐平台")
    } else if method == Method::Get && has_prefix(route, "/stream/playlists/") {
        network_activity("在线歌单 API", "音乐平台")
    } else if method == Method::Post && same(route, "/stream/playlist") {
        network_activity("在线歌单内容 API", "音乐平台")
    } else if method == Method::Post && same(route, "/stream/playlist/remove-track") {
        network_activity("在线歌单移除 API", "音乐平台")
    } else if method == Method::Post && has_prefix(route, "/downloads/") && has_suffix(route, "/retry") {
        network_activity("重试下载 API", "音乐平台")
    } else if has_prefix(route, "/library/analyze") || has_prefix(route, "/library/duplicates/analyze") || has_prefix(route, "/library/waveforms/upgrade") || has_prefix(route, "/library/waveform/") {
        analysis_activity("分析请求异常")
    } else if method == Method::Delete && has_prefix(route, "/library/tracks/") {
        user_activity("删除本地曲目")
    } else if method == Method::Patch && has_prefix(route, "/library/tracks/") {
        user_activity("修改本地曲目信息")
    } else if method == Method::Put && has_prefix(route, "/library/cover/") {
        user_activity("更换本地封面")
    } else if method == Method::Put && has_prefix(route, "/library/lyrics/") {
        user_activity("保存本地歌词")
    } else if method == Method::Post && has_prefix(route, "/library/tracks/") && has_suffix(route, "/write-tags") {
        user_activity("写入本地文件标签")
    } else if method == Method::Post && has_prefix(route, "/library/tracks/") && has_suffix(route, "/reread-tags") {
        user_activity("重读本地文件标签")
    } else if method == Method::Post && has_prefix(route, "/library/folders/") {
        folder_activity_of(drop_prefixes(route, "/library/folders/").as_str())
    } else if method == Method::Delete && (same(route, "/cache/media") || same(route, "/cache/waveform") || same(route, "/cache/lyrics") || same(route, "/cache/basic")) {
        user_activity("清理本地存储")
    } else if method == Method::Post && has_suffix(route, "/cancel") && has_prefix(route, "/downloads/") {
        user_activity("取消下载任务")
    } else if method == Method::Delete && has_prefix(route, "/downloads/") {
        user_activity("移除下载记录")
    } else if method == Method::Post && same(route, "/downloads/cancel-all") {
        user_activity("取消全部下载任务")
    } else if method == Method::Post && same(route, "/downloads/clear") {
        user_activity("清理下载记录")
    } else {
        None
    }
}

/// What a request does; nothing for requests that leave no trace in the log.
pub open spec fn activity_of(method: Method, path: Seq<char>) -> Option<ActivityModel> {
    let route = without_prefix(path, "/api"@);
    if named_activity(method, route) is Some {
        named_activity(method, route)
    } else {
        family_activity(method, route)
    }
}

/// What a request does.
pub fn http_activity(method: Method, path: &str) -> (r: Option<Activity>)
    ensures
        activity_view(r) == activity_of(method, path@),
{
    let route = drop_prefix(path, "/api");
    let named = named_activity_of(method, route.as_str());
    if named.is_some() {
        named
    } else {
        family_activity_of(method, route.as_str())
    }
}

/// One line of the log.
pub struct ActivityDraft {
    pub activity: Activity,
    pub level: ActivityLevel,
    pub status: u16,
    pub duration_ms: u64,
    pub count: u32,
}

pub open spec fn is_success(status: u16) -> bool {
    200 <= status < 300
}

pub open spec fn level_of(status: u16) -> ActivityLevel {
    if status == 429 {
        ActivityLevel::Warn
    } else if is_success(status) {
        ActivityLevel::Info
    } else {
        ActivityLevel::Error
    }
}

/// The line that a finished request leaves. A client that keeps its own record says so in a header,
/// and then no line is written.
pub fn activity_draft(
    already_recorded: bool,
    method: Method,
    path: &str,
    status: u16,
    elapsed_ms: u128,
) -> (r: Option<ActivityDraft>)
    ensures
        match (activity_of(method, path@), r) {
            (Some(a), Some(draft)) => {
                &&& !already_recorded
                &&& !(a.only_failures && is_success(status))
                &&& draft.activity@ == a
                &&& draft.level == level_of(status)
                &&& draft.status == status
                &&& draft.duration_ms == if elapsed_ms <= u64::MAX {
                    elapsed_ms as u64
                } else {
                    u64::MAX
                }
                &&& draft.count == 1
            },
            (Some(a), None) => already_recorded || (a.only_failures && is_success(status)),
            (None, r) => r is None,
        },
{
    if already_recorded {
        return None;
    }
    match http_activity(method, path) {
        Some(activity) => {
            let success: bool = 200 <= status && status < 300;
            if activity.only_failures && success {
                return None;
            }
            let level = if status == 429 {
                ActivityLevel::Warn
            } else if success {
                ActivityLevel::Info
            } else {
                ActivityLevel::Error
            };
            let duration_ms: u64 = if elapsed_ms <= 0xffff_ffff_ffff_ffff {
                elapsed_ms as u64
            } else {
                u64::MAX
            };
            Some(ActivityDraft { activity, level, status, duration_ms, count: 1 })
        },
        None => None,
    }
}

} // verus!
