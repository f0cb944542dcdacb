//! Video metadata: the normalized `VideoInfo` record, lenient frame-rate
//! parsing, and the extraction of `VideoInfo` from what the inspection
//! service reports. Durations are held in milliseconds and frame rates in
//! hundredths of a frame per second, so every fallback rule is exact.
use vstd::prelude::*;
use vstd::string::{StrSliceExecFns, StringExecFns};
use crate::error::ThumbsdownError;
use crate::parse::{find_char, first_index_of, parse_scaled, spec_parse_scaled_u64};

verus! {

/// Normalized metadata of the source video, produced once per run and read
/// only afterwards.
pub struct VideoInfo {
    /// Base name of the source path, or "unknown" if the service gave none.
    pub filename: String,
    /// Duration in milliseconds: the container's, else the video stream's,
    /// else 0.
    pub duration_ms: u64,
    /// Pixel width of the video stream; 0 if absent.
    pub width: u32,
    /// Pixel height of the video stream; 0 if absent.
    pub height: u32,
    /// Codec name of the video stream, or "unknown" if absent.
    pub codec: String,
    /// Frame rate in hundredths of a frame per second; 0 if unparsable.
    pub fps_centi: u64,
}

/// One stream entry as the inspection service reports it; every field is
/// optional in the service's output.
pub struct StreamData {
    pub codec_type: Option<String>,
    pub codec_name: Option<String>,
    pub width: Option<u32>,
    pub height: Option<u32>,
    pub r_frame_rate: Option<String>,
    pub duration: Option<String>,
}

/// The format block of the inspection service's output.
pub struct FormatData {
    pub filename: Option<String>,
    pub duration: Option<String>,
}

/// Everything the inspection service reports about one file.
pub struct ProbeData {
    pub streams: Vec<StreamData>,
    pub format: FormatData,
}

/// The frame rate of a rational or plain-number string, in hundredths of a
/// frame per second, rounded half-up after the division. Each side is kept
/// to six fractional digits. For "N/D" the result is N/D scaled by 100, and
/// it is 0 when D is 0 or either side fails to parse (a number beyond what
/// 64 bits hold in millionths counts as unparsable); a plain unparsable
/// string is 0 too.
pub open spec fn spec_frame_rate_centi(s: Seq<char>) -> u64 {
    let slash = first_index_of(s, '/');
    if slash == -1 {
        match spec_parse_scaled_u64(s, 6) {
            Some(v) => (((v as nat) + 5000) / 10000) as u64,
            None => 0,
        }
    } else {
        match (spec_parse_scaled_u64(s.take(slash), 6), spec_parse_scaled_u64(s.skip(slash + 1), 6)) {
            (Some(n), Some(d)) => if d == 0 {
                0
            } else {
                let r = (200 * (n as nat) + d as nat) / (2 * (d as nat));
                if r > u64::MAX {
                    u64::MAX
                } else {
                    r as u64
                }
            },
            _ => 0,
        }
    }
}

/// Parses a frame-rate string, either "N/D" or a plain decimal number, into
/// hundredths of a frame per second, rounding half-up once after the
/// division; a zero denominator or an unparsable side falls back to 0,
/// never to an error.
pub fn parse_frame_rate(rate: &str) -> (r: u64)
    ensures
        r == spec_frame_rate_centi(rate@),
{
    let n = rate.unicode_len();
    match find_char(rate, '/') {
        None => {
            match parse_scaled(rate, 6) {
                Some(v) => {
                    let c: u128 = ((v as u128) + 5000) / 10000;
                    c as u64
                },
                None => 0,
            }
        },
        Some(i) => {
            let num = rate.substring_char(0, i);
            let den = rate.substring_char(i + 1, n);
            match (parse_scaled(num, 6), parse_scaled(den, 6)) {
                (Some(nv), Some(dv)) => {
                    if dv == 0 {
                        0
                    } else {
                        let wide: u128 = (200u128 * (nv as u128) + (dv as u128)) / (2u128 * (dv
                            as u128));
                        if wide > u64::MAX as u128 {
                            u64::MAX
                        } else {
                            wide as u64
                        }
                    }
                },
                _ => 0,
            }
        },
    }
}

/// The position just after the last '/' of `s`; 0 when there is no '/'.
pub open spec fn after_last_slash(s: Seq<char>) -> int
    decreases s.len(),
{
    if s.len() == 0 {
        0
    } else if s.last() == '/' {
        s.len() as int
    } else {
        after_last_slash(s.drop_last())
    }
}

/// Does `s` end in a character that path normalization ignores when naming
/// the final component: a separator, or the '.' of a trailing "." segment.
pub open spec fn end_ignorable(s: Seq<char>, end: int) -> bool {
    s[end - 1] == '/' || (s[end - 1] == '.' && (end == 1 || s[end - 2] == '/'))
}

/// `s` with trailing separators and trailing "." segments removed.
pub open spec fn strip_trailing(s: Seq<char>) -> Seq<char>
    decreases s.len(),
{
    if s.len() == 0 {
        s
    } else if end_ignorable(s, s.len() as int) {
        strip_trailing(s.drop_last())
    } else {
        s
    }
}

/// Is `s` exactly the parent-directory segment "..".
pub open spec fn is_parent_segment(s: Seq<char>) -> bool {
    s.len() == 2 && s[0] == '.' && s[1] == '.'
}

/// The base name of a path as the standard library names its final
/// component: trailing separators and "." segments are ignored, and the
/// result is what follows the last remaining '/'. The whole string stands in
/// when nothing remains or the final component is "..".
pub open spec fn spec_basename(s: Seq<char>) -> Seq<char> {
    let t = strip_trailing(s);
    if t.len() == 0 {
        s
    } else {
        let tail = t.skip(after_last_slash(t));
        if is_parent_segment(tail) {
            s
        } else {
            tail
        }
    }
}

/// A '/' at `k` with none after it pins `after_last_slash`.
proof fn lemma_after_last_slash_found(s: Seq<char>, k: int)
    requires
        0 <= k < s.len(),
        s[k] == '/',
        forall|j: int| k < j < s.len() ==> s[j] != '/',
    ensures
        after_last_slash(s) == k + 1,
    decreases s.len(),
{
    if k + 1 < s.len() {
        lemma_after_last_slash_found(s.drop_last(), k);
    }
}

/// A string without '/' has `after_last_slash` 0.
proof fn lemma_after_last_slash_absent(s: Seq<char>)
    requires
        forall|j: int| 0 <= j < s.len() ==> s[j] != '/',
    ensures
        after_last_slash(s) == 0,
    decreases s.len(),
{
    if s.len() > 0 {
        lemma_after_last_slash_absent(s.drop_last());
    }
}

/// Does position `end` of `s` end in a separator or a trailing "." segment.
fn end_is_ignorable(s: &str, end: usize) -> (r: bool)
    requires
        1 <= end <= s@.len(),
    ensures
        r == end_ignorable(s@, end as int),
{
    let c = s.get_char(end - 1);
    if c == '/' {
        true
    } else if c == '.' {
        if end == 1 {
            true
        } else {
            s.get_char(end - 2) == '/'
        }
    } else {
        false
    }
}

/// The base name of a path, as the standard library names its final
/// component: what follows the last '/' once trailing separators and "."
/// segments are ignored; the whole string when nothing remains or the final
/// component is "..".
pub fn basename(s: &str) -> (r: String)
    ensures
        r@ == spec_basename(s@),
{
    let n = s.unicode_len();
    let mut end: usize = n;
    proof {
        assert(s@.take(n as int) =~= s@);
    }
    while end > 0 && end_is_ignorable(s, end)
        invariant
            end <= n,
            n == s@.len(),
            strip_trailing(s@) == strip_trailing(s@.take(end as int)),
        decreases end,
    {
        proof {
            assert(s@.take(end as int).drop_last() =~= s@.take(end - 1));
        }
        end = end - 1;
    }
    let ghost t = s@.take(end as int);
    proof {
        assert(strip_trailing(s@) == t);
    }
    if end == 0 {
        return s.to_owned();
    }
    let mut j: usize = end;
    while j > 0
        invariant
            j <= end <= n,
            n == s@.len(),
            end >= 1,
            t == s@.take(end as int),
            strip_trailing(s@) == t,
            forall|k: int| j <= k < end ==> s@[k] != '/',
        decreases j,
    {
        if s.get_char(j - 1) == '/' {
            proof {
                lemma_after_last_slash_found(t, j - 1);
            }
            if end - j == 2 && s.get_char(j) == '.' && s.get_char(j + 1) == '.' {
                proof {
                    assert(is_parent_segment(t.skip(j as int)));
                }
                return s.to_owned();
            }
            let tail = s.substring_char(j, end);
            proof {
                assert(tail@ =~= t.skip(j as int));
            }
            return tail.to_owned();
        }
        j = j - 1;
    }
    proof {
        lemma_after_last_slash_absent(t);
    }
    if end == 2 && s.get_char(0) == '.' && s.get_char(1) == '.' {
        proof {
            assert(is_parent_segment(t.skip(0)));
        }
        return s.to_owned();
    }
    let tail = s.substring_char(0, end);
    proof {
        assert(tail@ =~= t.skip(0));
    }
    tail.to_owned()
}

/// Is this stream the video stream: its `codec_type` is "video".
pub open spec fn is_video_stream(st: StreamData) -> bool {
    st.codec_type matches Some(t) && t@ == "video"@
}

/// The index of the first video stream, or -1 if none.
pub open spec fn first_video_stream(streams: Seq<StreamData>) -> int
    decreases streams.len(),
{
    if streams.len() == 0 {
        -1
    } else if is_video_stream(streams[0]) {
        0
    } else if first_video_stream(streams.drop_first()) == -1 {
        -1
    } else {
        first_video_stream(streams.drop_first()) + 1
    }
}

/// Non-video streams before a video stream at `k` pin the first index.
proof fn lemma_first_video_found(streams: Seq<StreamData>, k: int)
    requires
        0 <= k < streams.len(),
        is_video_stream(streams[k]),
        forall|j: int| 0 <= j < k ==> !is_video_stream(streams[j]),
    ensures
        first_video_stream(streams) == k,
    decreases k,
{
    if k > 0 {
        lemma_first_video_found(streams.drop_first(), k - 1);
    }
}

/// With no video stream anywhere, the first index is -1.
proof fn lemma_first_video_absent(streams: Seq<StreamData>)
    requires
        forall|j: int| 0 <= j < streams.len() ==> !is_video_stream(streams[j]),
    ensures
        first_video_stream(streams) == -1,
    decreases streams.len(),
{
    if streams.len() > 0 {
        lemma_first_video_absent(streams.drop_first());
    }
}

/// A duration string parsed to milliseconds, if present and parsable.
pub open spec fn spec_opt_millis(s: Option<String>) -> Option<u64> {
    match s {
        Some(d) => spec_parse_scaled_u64(d@, 3),
        None => None,
    }
}

/// The duration rule: the container's duration, else the stream's, else 0.
pub open spec fn spec_duration_ms(format: FormatData, stream: StreamData) -> u64 {
    match spec_opt_millis(format.duration) {
        Some(v) => v,
        None => match spec_opt_millis(stream.duration) {
            Some(v) => v,
            None => 0,
        },
    }
}

/// The filename rule: the base name of the reported path, else "unknown".
pub open spec fn spec_filename(format: FormatData) -> Seq<char> {
    match format.filename {
        Some(f) => spec_basename(f@),
        None => "unknown"@,
    }
}

/// Builds the normalized `VideoInfo` from what the inspection service
/// reported for `path`: the first stream whose `codec_type` is "video"
/// supplies the stream fields, with each absent field falling back to 0 or
/// "unknown"; fails exactly when no stream is a video stream.
pub fn extract_info(path: &String, data: &ProbeData) -> (r: Result<
    VideoInfo,
    ThumbsdownError,
>)
    ensures
        r is Err <==> first_video_stream(data.streams@) == -1,
        r matches Err(e) ==> e matches ThumbsdownError::NoVideoStream(p) && p@ == path@,
        r matches Ok(info) ==> ({
            let st = data.streams@[first_video_stream(data.streams@)];
            &&& info.filename@ == spec_filename(data.format)
            &&& info.duration_ms == spec_duration_ms(data.format, st)
            &&& info.width == (match st.width {
                Some(w) => w,
                None => 0u32,
            })
            &&& info.height == (match st.height {
                Some(h) => h,
                None => 0u32,
            })
            &&& info.codec@ == (match st.codec_name {
                Some(c) => c@,
                None => "unknown"@,
            })
            &&& info.fps_centi == (match st.r_frame_rate {
                Some(rr) => spec_frame_rate_centi(rr@),
                None => 0u64,
            })
        }),
{
    let vid = String::from_str("video");
    let n = data.streams.len();
    let mut k: usize = 0;
    while k < n
        invariant
            k <= n,
            n == data.streams@.len(),
            vid@ == "video"@,
            forall|j: int| 0 <= j < k ==> !is_video_stream(data.streams@[j]),
        decreases n - k,
    {
        let found = match &data.streams[k].codec_type {
            Some(t) => *t == vid,
            None => false,
        };
        if found {
            proof {
                lemma_first_video_found(data.streams@, k as int);
            }
            let st = &data.streams[k];
            let filename = match &data.format.filename {
                Some(f) => basename(f.as_str()),
                None => String::from_str("unknown"),
            };
            let stream_ms: u64 = match &st.duration {
                Some(d) => match parse_scaled(d.as_str(), 3) {
                    Some(v) => v,
                    None => 0,
                },
                None => 0,
            };
            let duration_ms: u64 = match &data.format.duration {
                Some(d) => match parse_scaled(d.as_str(), 3) {
                    Some(v) => v,
                    None => stream_ms,
                },
                None => stream_ms,
            };
            let width = match st.width {
                Some(w) => w,
                None => 0,
            };
            let height = match st.height {
                Some(h) => h,
                None => 0,
            };
            let codec = match &st.codec_name {
                Some(c) => c.clone(),
                None => String::from_str("unknown"),
            };
            let fps_centi = match &st.r_frame_rate {
                Some(rr) => parse_frame_rate(rr.as_str()),
                None => 0,
            };
            return Ok(VideoInfo { filename, duration_ms, width, height, codec, fps_centi });
        }
        k = k + 1;
    }
    proof {
        lemma_first_video_absent(data.streams@);
    }
    Err(ThumbsdownError::NoVideoStream(path.clone()))
}

/// The scratch file name of the frame captured for sample `index`:
/// "frame-" then the index zero-padded to eight digits, then ".png".
pub fn frame_filename(index: u32) -> (r: String)
    ensures
        r@ == "frame-"@ + crate::numfmt::dec_digits_padded(index as nat, 8) + ".png"@,
{
    let mut s = String::new();
    s.append("frame-");
    let digits = crate::numfmt::u64_to_dec_padded(index as u64, 8);
    s.append(digits.as_str());
    s.append(".png");
    proof {
        assert(s@ =~= "frame-"@ + crate::numfmt::dec_digits_padded(index as nat, 8) + ".png"@);
    }
    s
}

/// The pre-flight decision on whether the two external services can be run
/// at all: a missing inspection service is reported first, then a missing
/// capture service; with both runnable the check passes.
pub fn check_dependencies(ffprobe_runs: bool, ffmpeg_runs: bool) -> (r: Result<
    (),
    ThumbsdownError,
>)
    ensures
        r is Ok <==> ffprobe_runs && ffmpeg_runs,
        !ffprobe_runs ==> (r matches Err(e) && e matches ThumbsdownError::FfprobeNotFound),
        ffprobe_runs && !ffmpeg_runs ==> (r matches Err(e)
            && e matches ThumbsdownError::FfmpegNotFound),
{
    if !ffprobe_runs {
        return Err(ThumbsdownError::FfprobeNotFound);
    }
    if !ffmpeg_runs {
        return Err(ThumbsdownError::FfmpegNotFound);
    }
    Ok(())
}

/// The decision on the inspection service's exit for `path`: a non-success
/// exit becomes `FfprobeFailed` carrying the path and the service's own
/// diagnostic text verbatim; a success passes.
pub fn probe_status(success: bool, path: &String, diagnostic: &String) -> (r: Result<
    (),
    ThumbsdownError,
>)
    ensures
        r is Ok <==> success,
        !success ==> (r matches Err(e) && e matches ThumbsdownError::FfprobeFailed {
            path: p,
            reason,
        } && p@ == path@ && reason@ == diagnostic@),
{
    if success {
        Ok(())
    } else {
        Err(ThumbsdownError::FfprobeFailed { path: path.clone(), reason: diagnostic.clone() })
    }
}

/// The decision on the capture service's exit at one timestamp: a
/// non-success exit becomes `FrameCaptureFailed` carrying the timestamp and
/// the reported exit status; a success passes.
pub fn capture_status(success: bool, time_ms: u64, status_text: &String) -> (r: Result<
    (),
    ThumbsdownError,
>)
    ensures
        r is Ok <==> success,
        !success ==> (r matches Err(e) && e matches ThumbsdownError::FrameCaptureFailed {
            time_ms: t,
            reason,
        } && t == time_ms && reason@ == "ffmpeg exited with "@ + status_text@),
{
    if success {
        Ok(())
    } else {
        let mut reason = String::new();
        reason.append("ffmpeg exited with ");
        reason.append(status_text.as_str());
        proof {
            assert(reason@ =~= "ffmpeg exited with "@ + status_text@);
        }
        Err(ThumbsdownError::FrameCaptureFailed { time_ms, reason })
    }
}

} // verus!
