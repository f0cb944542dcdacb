//! The failure taxonomy of the pipeline: one variant per failure kind, each
//! carrying only the structured context its diagnostic line needs, and the
//! verified rendering of that line.
use vstd::prelude::*;
use vstd::string::StringExecFns;
use crate::numfmt::{dec_digits, dec_digits_padded, millis_to_dec};

verus! {

/// One failure of the run; every error is fatal and is rendered as a single
/// diagnostic line.
pub enum ThumbsdownError {
    /// The input video file does not exist.
    InputNotFound(String),
    /// The output file already exists and overwriting was not asked for.
    OutputExists(String),
    /// The named scratch directory does not exist.
    TempDirNotFound(String),
    /// The video inspection service cannot be run at all.
    FfprobeNotFound,
    /// The frame capture service cannot be run at all.
    FfmpegNotFound,
    /// The inspection service failed on this path, with its own diagnostic.
    FfprobeFailed { path: String, reason: String },
    /// No stream of the source is a video stream.
    NoVideoStream(String),
    /// The capture service failed at this timestamp, in milliseconds.
    FrameCaptureFailed { time_ms: u64, reason: String },
    /// An image could not be decoded or processed.
    ImageError(String),
    /// The font could not be parsed.
    FontError(String),
    /// A file could not be read or written.
    Io(String),
    /// The inspection service's output was not the expected structure.
    Json(String),
}

impl ThumbsdownError {
    /// The diagnostic line for this failure.
    pub open spec fn message_spec(self) -> Seq<char> {
        match self {
            ThumbsdownError::InputNotFound(p) => "input video file does not exist: "@ + p@,
            ThumbsdownError::OutputExists(p) => "output file already exists: "@ + p@
                + " (use -f to overwrite)"@,
            ThumbsdownError::TempDirNotFound(p) => "temp directory does not exist: "@ + p@,
            ThumbsdownError::FfprobeNotFound => "ffprobe not found on PATH (install ffmpeg)"@,
            ThumbsdownError::FfmpegNotFound => "ffmpeg not found on PATH (install ffmpeg)"@,
            ThumbsdownError::FfprobeFailed { path, reason } => "ffprobe failed for "@ + path@
                + ": "@ + reason@,
            ThumbsdownError::NoVideoStream(p) => "no video stream found in "@ + p@,
            ThumbsdownError::FrameCaptureFailed { time_ms, reason } =>
                "ffmpeg frame capture failed at "@ + dec_digits(time_ms as nat / 1000)
                + seq!['.'] + dec_digits_padded(time_ms as nat % 1000, 3) + "s: "@ + reason@,
            ThumbsdownError::ImageError(m) => "image processing error: "@ + m@,
            ThumbsdownError::FontError(m) => "font loading error: "@ + m@,
            ThumbsdownError::Io(m) => "io error: "@ + m@,
            ThumbsdownError::Json(m) => "json parse error: "@ + m@,
        }
    }

    /// Renders the diagnostic line for this failure.
    pub fn message(&self) -> (r: String)
        ensures
            r@ == self.message_spec(),
    {
        let mut s = String::new();
        match self {
            ThumbsdownError::InputNotFound(p) => {
                s.append("input video file does not exist: ");
                s.append(p.as_str());
            },
            ThumbsdownError::OutputExists(p) => {
                s.append("output file already exists: ");
                s.append(p.as_str());
                s.append(" (use -f to overwrite)");
            },
            ThumbsdownError::TempDirNotFound(p) => {
                s.append("temp directory does not exist: ");
                s.append(p.as_str());
            },
            ThumbsdownError::FfprobeNotFound => {
                s.append("ffprobe not found on PATH (install ffmpeg)");
            },
            ThumbsdownError::FfmpegNotFound => {
                s.append("ffmpeg not found on PATH (install ffmpeg)");
            },
            ThumbsdownError::FfprobeFailed { path, reason } => {
                s.append("ffprobe failed for ");
                s.append(path.as_str());
                s.append(": ");
                s.append(reason.as_str());
            },
            ThumbsdownError::NoVideoStream(p) => {
                s.append("no video stream found in ");
                s.append(p.as_str());
            },
            ThumbsdownError::FrameCaptureFailed { time_ms, reason } => {
                s.append("ffmpeg frame capture failed at ");
                let t = millis_to_dec(*time_ms);
                s.append(t.as_str());
                s.append("s: ");
                s.append(reason.as_str());
            },
            ThumbsdownError::ImageError(m) => {
                s.append("image processing error: ");
                s.append(m.as_str());
            },
            ThumbsdownError::FontError(m) => {
                s.append("font loading error: ");
                s.append(m.as_str());
            },
            ThumbsdownError::Io(m) => {
                s.append("io error: ");
                s.append(m.as_str());
            },
            ThumbsdownError::Json(m) => {
                s.append("json parse error: ");
                s.append(m.as_str());
            },
        }
        proof {
            assert(s@ =~= self.message_spec());
        }
        s
    }
}

/// The pipeline's result type.
pub type ThumbsdownResult<T> = Result<T, ThumbsdownError>;

} // verus!
