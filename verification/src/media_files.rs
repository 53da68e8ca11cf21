//! Serving the files of tracks: what is refused, and what is made of files that a player cannot
//! read.

use vstd::prelude::*;

use crate::error::{bad, check_result, plain, ApiError, ErrorModel};

verus! {

/// The file of a track that is played.
pub fn check_audio_track(known: bool, is_file: bool) -> (r: Result<(), ApiError>)
    ensures
        check_result(r) == (if !known {
            Err(plain(404, "曲目不存在"@))
        } else if !is_file {
            Err(plain(404, "音频文件已丢失"@))
        } else {
            Ok(())
        }),
{
    if !known {
        return Err(ApiError::not_found("曲目不存在".to_owned()));
    }
    if !is_file {
        return Err(ApiError::not_found("音频文件已丢失".to_owned()));
    }
    Ok(())
}

/// The file of a video that is played.
pub fn check_video_track(known: bool, is_file: bool, is_video: bool) -> (r: Result<(), ApiError>)
    ensures
        check_result(r) == (if !known {
            Err(plain(404, "曲目不存在"@))
        } else if !is_file {
            Err(plain(404, "视频文件已丢失"@))
        } else if !is_video {
            Err(bad("这不是视频曲目"@))
        } else {
            Ok(())
        }),
{
    if !known {
        return Err(ApiError::not_found("曲目不存在".to_owned()));
    }
    if !is_file {
        return Err(ApiError::not_found("视频文件已丢失".to_owned()));
    }
    if !is_video {
        return Err(ApiError::bad_request("这不是视频曲目".to_owned()));
    }
    Ok(())
}

/// What is done to get a file that a player can read.
pub enum ConvertStep {
    /// It is there already.
    UseKept,
    /// The tool is run: it copies the streams, or encodes them anew.
    Run { copy: bool },
    /// The new file gets its name.
    Publish,
    Fail(ApiError),
}

pub enum ConvertWant {
    UseKept,
    Run { copy: bool },
    Publish,
    Fail(ErrorModel),
}

pub open spec fn convert_want(s: ConvertStep) -> ConvertWant {
    match s {
        ConvertStep::UseKept => ConvertWant::UseKept,
        ConvertStep::Run { copy } => ConvertWant::Run { copy },
        ConvertStep::Publish => ConvertWant::Publish,
        ConvertStep::Fail(e) => ConvertWant::Fail(e@),
    }
}

pub open spec fn extract_start(kept: bool, has_tool: bool) -> ConvertWant {
    if kept {
        ConvertWant::UseKept
    } else if has_tool {
        ConvertWant::Run { copy: true }
    } else {
        ConvertWant::Fail(plain(500, "系统里没有 ffmpeg，视频音轨播放不了"@))
    }
}

/// Begins to take the sound out of a video.
pub fn begin_extract(kept: bool, has_tool: bool) -> (r: ConvertStep)
    ensures
        convert_want(r) == extract_start(kept, has_tool),
{
    if kept {
        return ConvertStep::UseKept;
    }
    if has_tool {
        return ConvertStep::Run { copy: true };
    }
    ConvertStep::Fail(
        ApiError::new(500, "系统里没有 ffmpeg，视频音轨播放不了".to_owned()),
    )
}

/// After a run: streams that cannot be copied are encoded anew, once.
pub open spec fn extract_next(copied: bool, made: bool) -> ConvertWant {
    if made {
        ConvertWant::Publish
    } else if copied {
        ConvertWant::Run { copy: false }
    } else {
        ConvertWant::Fail(plain(422, "抽不出音轨（文件可能损坏或没有音频流）"@))
    }
}

pub fn after_extract(copied: bool, made: bool) -> (r: ConvertStep)
    ensures
        convert_want(r) == extract_next(copied, made),
{
    if made {
        return ConvertStep::Publish;
    }
    if copied {
        return ConvertStep::Run { copy: false };
    }
    ConvertStep::Fail(
        ApiError::new(422, "抽不出音轨（文件可能损坏或没有音频流）".to_owned()),
    )
}

pub open spec fn video_start(kept: bool, has_tool: bool) -> ConvertWant {
    if kept {
        ConvertWant::UseKept
    } else if has_tool {
        ConvertWant::Run { copy: false }
    } else {
        ConvertWant::Fail(
            plain(415, "系统 WebView 不支持这个视频编码，且没有找到 FFmpeg 用于兼容转换"@),
        )
    }
}

/// Begins to make a video that every player can read.
pub fn begin_compatible_video(kept: bool, has_tool: bool) -> (r: ConvertStep)
    ensures
        convert_want(r) == video_start(kept, has_tool),
{
    if kept {
        return ConvertStep::UseKept;
    }
    if has_tool {
        return ConvertStep::Run { copy: false };
    }
    ConvertStep::Fail(
        ApiError::new(
            415,
            "系统 WebView 不支持这个视频编码，且没有找到 FFmpeg 用于兼容转换".to_owned(),
        ),
    )
}

pub open spec fn video_next(failure: Option<Seq<char>>, made: bool) -> ConvertWant {
    match failure {
        Some(reason) => ConvertWant::Fail(plain(422, "视频兼容转换失败："@ + reason)),
        None => if made {
            ConvertWant::Publish
        } else {
            ConvertWant::Fail(plain(422, "视频兼容转换没有产生有效文件"@))
        },
    }
}

/// After the run: an empty file is no video.
pub fn after_compatible_video(failure: &Option<String>, made: bool) -> (r: ConvertStep)
    ensures
        convert_want(r) == video_next(crate::models::text_of(*failure), made),
{
    match failure {
        Some(reason) => {
            let mut detail = "视频兼容转换失败：".to_owned();
            detail.append(reason.as_str());
            ConvertStep::Fail(ApiError::new(422, detail))
        },
        None => if made {
            ConvertStep::Publish
        } else {
            ConvertStep::Fail(
                ApiError::new(422, "视频兼容转换没有产生有效文件".to_owned()),
            )
        },
    }
}

// ---------------------------------------------------------------- separated sound

/// The track whose sound is taken apart has to have a file.
pub open spec fn stem_track(known: bool, path: Seq<char>, is_file: bool) -> Result<(), ErrorModel> {
    if !known {
        Err(plain(404, "曲目不存在"@))
    } else if crate::text::trimmed(path).len() == 0 || !is_file {
        Err(bad("曲目文件不存在，无法生成 STEM"@))
    } else {
        Ok(())
    }
}

pub fn check_stem_track(known: bool, path: &str, is_file: bool) -> (r: Result<(), ApiError>)
    ensures
        check_result(r) == stem_track(known, path@, is_file),
{
    if !known {
        return Err(ApiError::not_found("曲目不存在".to_owned()));
    }
    if crate::text::trim(path).as_str().is_empty() || !is_file {
        return Err(ApiError::bad_request("曲目文件不存在，无法生成 STEM".to_owned()));
    }
    Ok(())
}

/// When a file was changed, in nanoseconds since the epoch; nothing where it was before.
pub open spec fn mtime_of(since_epoch: Option<(u64, u32)>) -> Result<i64, ErrorModel> {
    match since_epoch {
        None => Err(bad("曲目时间戳无效"@)),
        Some(t) => {
            let nanos = t.0 * 1_000_000_000 + t.1;
            Ok(
                if nanos > i64::MAX {
                    i64::MAX
                } else {
                    nanos as i64
                },
            )
        },
    }
}

/// When a file was changed, in nanoseconds, as far as the number goes.
pub fn source_mtime(since_epoch: Option<(u64, u32)>) -> (r: Result<i64, ApiError>)
    ensures
        match r {
            Ok(n) => mtime_of(since_epoch) == Ok::<i64, ErrorModel>(n),
            Err(e) => mtime_of(since_epoch) == Err::<i64, ErrorModel>(e@),
        },
{
    match since_epoch {
        None => Err(ApiError::bad_request("曲目时间戳无效".to_owned())),
        Some(t) => {
            let nanos: i128 = t.0 as i128 * 1_000_000_000 + t.1 as i128;
            if nanos > i64::MAX as i128 {
                Ok(i64::MAX)
            } else {
                Ok(nanos as i64)
            }
        },
    }
}

} // verus!
