//! Requests for videos: which platform serves them, what a request leaves open, and what is refused.

use vstd::prelude::*;

use crate::error::{bad, check_result, plain, text_result, ApiError, ErrorModel};
use crate::json::{json_flag, json_flag_of, json_integer, json_integer_of};
use crate::models::{
    Platform, Quality, SongSource, SongSourceModel, VideoDownloadRequest, VideoRequestModel,
};
use crate::text::{file_name, file_name_of, has_suffix, same, trim, trimmed};
use crate::urls::{host_of, lower_host, parse_url, url_of, url_view, ParsedUrl, UrlModel};

verus! {

// ---------------------------------------------------------------- where a video comes from

/// An address of the video site; the music site is another one.
pub open spec fn is_youtube_address(url: Option<UrlModel>) -> bool {
    url matches Some(u) && u.host is Some && host_of(u) != "music.youtube.com"@ && (host_of(u)
        == "youtu.be"@ || host_of(u) == "youtube.com"@ || ".youtube.com"@.is_suffix_of(host_of(u)))
}

/// The platform of a video: the one that is named, or the one that the address tells.
pub open spec fn video_platform_of(platform: Option<Platform>, url: Option<UrlModel>) -> Platform {
    match platform {
        Some(p) => p,
        None => if is_youtube_address(url) {
            Platform::Youtube
        } else {
            Platform::Bilibili
        },
    }
}

pub fn video_platform(platform: Option<Platform>, url: &Option<ParsedUrl>) -> (r: Platform)
    ensures
        r == video_platform_of(platform, url_view(*url)),
{
    if let Some(p) = platform {
        return p;
    }
    if let Some(u) = url {
        if u.host.is_some() {
            let host = lower_host(u);
            let h = host.as_str();
            if !same(h, "music.youtube.com") && (same(h, "youtu.be") || same(h, "youtube.com")
                || has_suffix(h, ".youtube.com")) {
                return Platform::Youtube;
            }
        }
    }
    Platform::Bilibili
}

pub open spec fn resolve_request(raw: Seq<char>, platform: Option<Platform>) -> Result<
    (Seq<char>, Platform),
    ErrorModel,
> {
    let url = trimmed(raw);
    if url.len() == 0 {
        Err(bad("链接不能为空"@))
    } else {
        Ok((url, video_platform_of(platform, url_of(url))))
    }
}

/// The address and the platform of a video that is to be looked up.
pub fn video_resolve_request(raw: &str, platform: Option<Platform>) -> (r: Result<
    (String, Platform),
    ApiError,
>)
    ensures
        match r {
            Ok(v) => resolve_request(raw@, platform) == Ok::<(Seq<char>, Platform), ErrorModel>(
                (v.0@, v.1),
            ),
            Err(e) => resolve_request(raw@, platform) == Err::<(Seq<char>, Platform), ErrorModel>(
                e@,
            ),
        },
{
    let url = trim(raw);
    if url.as_str().is_empty() {
        return Err(ApiError::bad_request("链接不能为空".to_owned()));
    }
    let parsed = parse_url(url.as_str());
    let chosen = video_platform(platform, &parsed);
    Ok((url, chosen))
}

// ---------------------------------------------------------------- what a request leaves open

/// The settings for videos.
#[derive(Clone, Copy, Debug, PartialEq, Eq, Structural)]
pub struct VideoSettings {
    pub max_height: i64,
    pub transcode: bool,
}

pub open spec fn with_video_defaults(req: VideoRequestModel, settings: VideoSettings) -> VideoRequestModel {
    VideoRequestModel {
        max_height: if req.max_height <= 0 {
            settings.max_height
        } else {
            req.max_height
        },
        transcode: req.transcode || settings.transcode,
        offset_ms: if req.offset_ms < -600_000 {
            (-600_000) as i64
        } else if req.offset_ms > 600_000 {
            600_000
        } else {
            req.offset_ms
        },
        ..req
    }
}

/// Fills in what a request leaves open, and keeps its offset within ten minutes.
pub fn apply_video_defaults(req: &mut VideoDownloadRequest, settings: &VideoSettings)
    ensures
        final(req)@ == with_video_defaults(old(req)@, *settings),
{
    if req.max_height <= 0 {
        req.max_height = settings.max_height;
    }
    if !req.transcode {
        req.transcode = settings.transcode;
    }
    if req.offset_ms < -600_000 {
        req.offset_ms = -600_000;
    } else if req.offset_ms > 600_000 {
        req.offset_ms = 600_000;
    }
}

pub open spec fn download_refusal(req: VideoRequestModel) -> Result<(), ErrorModel> {
    if trimmed(req.url).len() == 0 && trimmed(req.bvid).len() == 0 {
        Err(bad("缺少视频链接或视频 ID"@))
    } else if req.platform != Platform::Bilibili && req.platform != Platform::Youtube {
        Err(bad("这个来源不是视频平台"@))
    } else {
        Ok(())
    }
}

/// Whether a video can be downloaded: it is named, and its platform has videos.
pub fn check_video_download(req: &VideoDownloadRequest) -> (r: Result<(), ApiError>)
    ensures
        check_result(r) == download_refusal(req@),
{
    if trim(req.url.as_str()).as_str().is_empty() && trim(req.bvid.as_str()).as_str().is_empty() {
        return Err(ApiError::bad_request("缺少视频链接或视频 ID".to_owned()));
    }
    if req.platform != Platform::Bilibili && req.platform != Platform::Youtube {
        return Err(ApiError::bad_request("这个来源不是视频平台".to_owned()));
    }
    Ok(())
}

// ---------------------------------------------------------------- songs that are videos

/// What a found video adds to its entry.
#[derive(Clone, Copy, Debug, PartialEq, Eq, Structural)]
pub struct SourceOptions {
    pub max_height: Option<i64>,
    pub audio_only: Option<bool>,
    pub transcode: Option<bool>,
}

pub open spec fn source_request(
    source: SongSourceModel,
    artist: Seq<char>,
    options: SourceOptions,
    settings: VideoSettings,
    dest_dir: Seq<char>,
) -> VideoRequestModel {
    VideoRequestModel {
        platform: Platform::Youtube,
        url: ""@,
        bvid: source.key,
        page_index: 0,
        page_count: 0,
        page_title: ""@,
        max_height: match options.max_height {
            Some(h) => h,
            None => settings.max_height,
        },
        audio_only: options.audio_only == Some(true),
        transcode: match options.transcode {
            Some(t) => t,
            None => settings.transcode,
        },
        offset_ms: 0,
        dest_dir,
        title: source.title,
        artist,
        cover: source.cover,
    }
}

/// The request for a video that was found among songs.
pub fn youtube_request(
    source: &SongSource,
    artist: &str,
    options: &SourceOptions,
    settings: &VideoSettings,
    dest_dir: &str,
) -> (r: VideoDownloadRequest)
    ensures
        r@ == source_request(source@, artist@, *options, *settings, dest_dir@),
{
    VideoDownloadRequest {
        platform: Platform::Youtube,
        url: "".to_owned(),
        bvid: source.key.clone(),
        page_index: 0,
        page_count: 0,
        page_title: "".to_owned(),
        max_height: match options.max_height {
            Some(h) => h,
            None => settings.max_height,
        },
        audio_only: match options.audio_only {
            Some(b) => b,
            None => false,
        },
        transcode: match options.transcode {
            Some(t) => t,
            None => settings.transcode,
        },
        offset_ms: 0,
        dest_dir: dest_dir.to_owned(),
        title: source.title.clone(),
        artist: artist.to_owned(),
        cover: source.cover.clone(),
    }
}

/// What the payload of a song says of its video.
pub open spec fn payload_options(payload: Seq<char>) -> SourceOptions {
    SourceOptions {
        max_height: json_integer_of(payload, "max_height"@),
        audio_only: json_flag_of(payload, "audio_only"@),
        transcode: json_flag_of(payload, "transcode"@),
    }
}

/// The request for a video that was found among songs, with what its payload says.
pub fn source_video_request(
    source: &SongSource,
    artist: &str,
    settings: &VideoSettings,
    dest_dir: &str,
) -> (r: VideoDownloadRequest)
    ensures
        r@ == source_request(
            source@,
            artist@,
            payload_options(source@.payload),
            *settings,
            dest_dir@,
        ),
{
    let options = SourceOptions {
        max_height: json_integer(source.payload.as_str(), "max_height"),
        audio_only: json_flag(source.payload.as_str(), "audio_only"),
        transcode: json_flag(source.payload.as_str(), "transcode"),
    };
    youtube_request(source, artist, &options, settings, dest_dir)
}

/// How a list of songs is downloaded.
#[derive(Clone, Copy, Debug, PartialEq, Eq, Structural)]
pub struct EnqueueSettings {
    pub quality: Quality,
    pub analyze: bool,
}

/// Begins the download of songs: there have to be some. What the request leaves open, the settings
/// fill in.
pub fn enqueue_request(
    count: usize,
    quality: Option<Quality>,
    analyze: Option<bool>,
    settings: &EnqueueSettings,
) -> (r: Result<EnqueueSettings, ApiError>)
    ensures
        match r {
            Ok(s) => count > 0 && s == (EnqueueSettings {
                quality: match quality {
                    Some(q) => q,
                    None => settings.quality,
                },
                analyze: match analyze {
                    Some(a) => a,
                    None => settings.analyze,
                },
            }),
            Err(e) => count == 0 && e@ == bad("没有要下载的曲目"@),
        },
{
    if count == 0 {
        return Err(ApiError::bad_request("没有要下载的曲目".to_owned()));
    }
    Ok(
        EnqueueSettings {
            quality: match quality {
                Some(q) => q,
                None => settings.quality,
            },
            analyze: match analyze {
                Some(a) => a,
                None => settings.analyze,
            },
        },
    )
}

/// Whether a song is downloaded as a video.
pub fn is_video_source(source: &SongSource) -> (r: bool)
    ensures
        r == (source@.platform == Platform::Youtube),
{
    source.platform == Platform::Youtube
}

// ---------------------------------------------------------------- mixes as videos

pub open spec fn vj_quality(raw: Seq<char>) -> Result<Seq<char>, ErrorModel> {
    let q = trimmed(raw);
    if q == "1080p"@ || q == "720p"@ || q == "480p"@ {
        Ok(q)
    } else if q == ""@ {
        Ok("1080p"@)
    } else {
        Err(bad("不支持的导出质量："@ + q))
    }
}

pub fn normalize_vj_quality(raw: &str) -> (r: Result<String, ApiError>)
    ensures
        text_result(r) == vj_quality(raw@),
{
    let q = trim(raw);
    if same(q.as_str(), "1080p") || same(q.as_str(), "720p") || same(q.as_str(), "480p") {
        return Ok(q);
    }
    if same(q.as_str(), "") {
        return Ok("1080p".to_owned());
    }
    let mut detail = "不支持的导出质量：".to_owned();
    detail.append(q.as_str());
    Err(ApiError::bad_request(detail))
}

/// A mix that is to be exported.
pub struct VjExportRequest {
    pub track_ids: Vec<i64>,
    pub folder: String,
    pub quality: String,
    /// The length of the fade in microseconds; nothing where it is no number.
    pub fade_us: Option<i64>,
    pub fade_bars: u32,
    pub snap_whole_bar: bool,
    pub snap_nearest_beat: bool,
}

#[verifier::ext_equal]
pub struct VjModel {
    pub track_ids: Seq<i64>,
    pub folder: Seq<char>,
    pub quality: Seq<char>,
    pub fade_us: Option<i64>,
    pub fade_bars: u32,
    pub snap_whole_bar: bool,
    pub snap_nearest_beat: bool,
}

impl View for VjExportRequest {
    type V = VjModel;

    open spec fn view(&self) -> VjModel {
        VjModel {
            track_ids: self.track_ids@,
            folder: self.folder@,
            quality: self.quality@,
            fade_us: self.fade_us,
            fade_bars: self.fade_bars,
            snap_whole_bar: self.snap_whole_bar,
            snap_nearest_beat: self.snap_nearest_beat,
        }
    }
}

/// A mix needs tracks.
pub fn check_vj_tracks(count: usize) -> (r: Result<(), ApiError>)
    ensures
        check_result(r) == (if count == 0 {
            Err(bad("没有要导出的曲目"@))
        } else {
            Ok(())
        }),
{
    if count == 0 {
        return Err(ApiError::bad_request("没有要导出的曲目".to_owned()));
    }
    Ok(())
}

/// A mix as it is exported: a fade in bars goes before one in seconds, and whole bars imply beats.
pub open spec fn vj_settled(req: VjModel) -> Result<VjModel, ErrorModel> {
    if req.folder.len() == 0 {
        Err(bad("缺少导出源文件夹"@))
    } else {
        match vj_quality(req.quality) {
            Err(e) => Err(e),
            Ok(quality) => if !(req.fade_us is Some && 0 <= req.fade_us->0 <= 120_000_000) {
                Err(bad("淡入淡出秒数应在 0 到 120 之间"@))
            } else if req.fade_bars > 32 {
                Err(bad("淡入淡出小节数不能超过 32"@))
            } else {
                Ok(
                    VjModel {
                        quality,
                        fade_us: if req.fade_bars > 0 {
                            Some(0)
                        } else {
                            req.fade_us
                        },
                        snap_nearest_beat: req.snap_nearest_beat || req.snap_whole_bar,
                        ..req
                    },
                )
            },
        }
    }
}

/// Checks and settles a mix whose folder is known to lie in the library.
pub fn settle_vj_export(req: VjExportRequest) -> (r: Result<VjExportRequest, ApiError>)
    ensures
        match r {
            Ok(v) => vj_settled(req@) == Ok::<VjModel, ErrorModel>(v@),
            Err(e) => vj_settled(req@) == Err::<VjModel, ErrorModel>(e@),
        },
{
    if req.folder.as_str().is_empty() {
        return Err(ApiError::bad_request("缺少导出源文件夹".to_owned()));
    }
    let quality = match normalize_vj_quality(req.quality.as_str()) {
        Ok(q) => q,
        Err(e) => {
            return Err(e);
        },
    };
    let fade_fits: bool = match req.fade_us {
        Some(f) => 0 <= f && f <= 120_000_000,
        None => false,
    };
    if !fade_fits {
        return Err(ApiError::bad_request("淡入淡出秒数应在 0 到 120 之间".to_owned()));
    }
    if req.fade_bars > 32 {
        return Err(ApiError::bad_request("淡入淡出小节数不能超过 32".to_owned()));
    }
    let fade_us = if req.fade_bars > 0 {
        Some(0)
    } else {
        req.fade_us
    };
    let snap_nearest_beat: bool = req.snap_nearest_beat || req.snap_whole_bar;
    Ok(VjExportRequest { quality, fade_us, snap_nearest_beat, ..req })
}

/// The name under which a folder's mix is listed.
pub open spec fn folder_label_of(folder: Seq<char>) -> Seq<char> {
    if file_name_of(folder).len() > 0 {
        file_name_of(folder)
    } else {
        folder
    }
}

pub fn folder_label(folder: &str) -> (r: String)
    ensures
        r@ == folder_label_of(folder@),
{
    let name = file_name(folder);
    if name.as_str().is_empty() {
        folder.to_owned()
    } else {
        name
    }
}

// ---------------------------------------------------------------- sound and picture in step

/// The track that a video is put in step with has to be there.
pub fn check_calibration_track(known: bool, is_file: bool) -> (r: Result<(), ApiError>)
    ensures
        check_result(r) == (if !known {
            Err(plain(404, "用于校准的本地曲目不存在"@))
        } else if !is_file {
            Err(plain(404, "用于校准的本地音频文件已丢失"@))
        } else {
            Ok(())
        }),
{
    if !known {
        return Err(ApiError::not_found("用于校准的本地曲目不存在".to_owned()));
    }
    if !is_file {
        return Err(ApiError::not_found("用于校准的本地音频文件已丢失".to_owned()));
    }
    Ok(())
}

/// The headers with which the sound of a video is fetched.
pub open spec fn calibration_header_text(cookies: Seq<char>) -> Seq<char> {
    let head = "Referer: https://www.bilibili.com/\r\nUser-Agent: Mozilla/5.0\r\n"@;
    if cookies.len() == 0 {
        head
    } else {
        head + "Cookie: "@ + cookies + "\r\n"@
    }
}

pub fn calibration_headers(cookies: &str) -> (r: String)
    ensures
        r@ == calibration_header_text(cookies@),
{
    let mut r = "Referer: https://www.bilibili.com/\r\nUser-Agent: Mozilla/5.0\r\n".to_owned();
    if !cookies.is_empty() {
        r.append("Cookie: ");
        r.append(cookies);
        r.append("\r\n");
    }
    r
}

} // verus!
