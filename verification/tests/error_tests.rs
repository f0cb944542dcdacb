use thumbsdown::error::ThumbsdownError;

#[test]
fn error_messages_are_descriptive() {
    let err = ThumbsdownError::InputNotFound("video.mp4".to_string());
    assert!(err.message().contains("video.mp4"));
    assert!(err.message().contains("does not exist"));
}

#[test]
fn output_exists_suggests_force_flag() {
    let err = ThumbsdownError::OutputExists("out.png".to_string());
    assert!(err.message().contains("-f"));
}

#[test]
fn ffprobe_not_found_suggests_install() {
    let err = ThumbsdownError::FfprobeNotFound;
    assert!(err.message().contains("install ffmpeg"));
}

#[test]
fn frame_capture_message_renders_timestamp() {
    let err = ThumbsdownError::FrameCaptureFailed {
        time_ms: 12_500,
        reason: "ffmpeg exited with 1".to_string(),
    };
    assert_eq!(
        err.message().as_str(),
        "ffmpeg frame capture failed at 12.500s: ffmpeg exited with 1"
    );
}

#[test]
fn each_failure_kind_renders_its_own_line() {
    let probe = ThumbsdownError::FfprobeFailed {
        path: "clip.mkv".to_string(),
        reason: "boom".to_string(),
    };
    assert_eq!(probe.message().as_str(), "ffprobe failed for clip.mkv: boom");
    assert_eq!(
        ThumbsdownError::FfmpegNotFound.message().as_str(),
        "ffmpeg not found on PATH (install ffmpeg)"
    );
    assert_eq!(
        ThumbsdownError::NoVideoStream("a.gif".to_string()).message().as_str(),
        "no video stream found in a.gif"
    );
    assert_eq!(
        ThumbsdownError::TempDirNotFound("/tmp/x".to_string()).message().as_str(),
        "temp directory does not exist: /tmp/x"
    );
    assert_eq!(
        ThumbsdownError::ImageError("bad frame".to_string()).message().as_str(),
        "image processing error: bad frame"
    );
    assert_eq!(
        ThumbsdownError::FontError("bad font".to_string()).message().as_str(),
        "font loading error: bad font"
    );
    assert_eq!(
        ThumbsdownError::Io("disk full".to_string()).message().as_str(),
        "io error: disk full"
    );
    assert_eq!(
        ThumbsdownError::Json("truncated".to_string()).message().as_str(),
        "json parse error: truncated"
    );
}
