use thumbsdown::video::{basename, capture_status, check_dependencies, extract_info, frame_filename, parse_frame_rate, probe_status, FormatData, ProbeData, StreamData};

#[test]
fn parse_frame_rate_fraction() {
    // 30000/1001 is 29.97 to two decimals.
    assert_eq!(parse_frame_rate("30000/1001"), 2997);
}

#[test]
fn parse_frame_rate_simple_fraction() {
    assert_eq!(parse_frame_rate("25/1"), 2500);
}

#[test]
fn parse_frame_rate_zero_denominator() {
    assert_eq!(parse_frame_rate("30/0"), 0);
}

#[test]
fn parse_frame_rate_plain_number() {
    assert_eq!(parse_frame_rate("24"), 2400);
}

#[test]
fn parse_frame_rate_garbage() {
    assert_eq!(parse_frame_rate("abc"), 0);
}

#[test]
fn parse_frame_rate_decimal_number() {
    assert_eq!(parse_frame_rate("24.5"), 2450);
}

#[test]
fn parse_frame_rate_unparsable_side_is_zero() {
    // Either side failing to parse makes the whole rational fall back to 0.
    assert_eq!(parse_frame_rate("30/xyz"), 0);
    assert_eq!(parse_frame_rate("xyz/30"), 0);
    assert_eq!(parse_frame_rate("xyz/abc"), 0);
}

#[test]
fn basename_takes_final_component() {
    assert_eq!(basename("/path/to/video.mp4").as_str(), "video.mp4");
    assert_eq!(basename("video.mp4").as_str(), "video.mp4");
}

#[test]
fn frame_filename_is_zero_padded() {
    assert_eq!(frame_filename(1).as_str(), "frame-00000001.png");
    assert_eq!(frame_filename(12345678).as_str(), "frame-12345678.png");
}

fn probe_fixture() -> ProbeData {
    ProbeData {
        streams: vec![
            StreamData {
                codec_type: Some("audio".to_string()),
                codec_name: Some("aac".to_string()),
                width: None,
                height: None,
                r_frame_rate: None,
                duration: None,
            },
            StreamData {
                codec_type: Some("video".to_string()),
                codec_name: Some("h264".to_string()),
                width: Some(1920),
                height: Some(1080),
                r_frame_rate: Some("30000/1001".to_string()),
                duration: Some("120.5".to_string()),
            },
        ],
        format: FormatData {
            filename: Some("/path/to/video.mp4".to_string()),
            duration: Some("120.5".to_string()),
        },
    }
}

#[test]
fn extract_info_reads_first_video_stream() {
    let path = "/path/to/video.mp4".to_string();
    let info = match extract_info(&path, &probe_fixture()) {
        Ok(info) => info,
        Err(_) => panic!("expected metadata"),
    };
    assert_eq!(info.width, 1920);
    assert_eq!(info.height, 1080);
    assert_eq!(info.codec.as_str(), "h264");
    assert_eq!(info.fps_centi, 2997);
    assert_eq!(info.duration_ms, 120_500);
    assert_eq!(info.filename.as_str(), "video.mp4");
}

#[test]
fn extract_info_falls_back_to_stream_duration() {
    let mut data = probe_fixture();
    data.format.duration = None;
    data.streams[1].duration = Some("7.25".to_string());
    let path = "x.mp4".to_string();
    let info = extract_info(&path, &data).ok().unwrap();
    assert_eq!(info.duration_ms, 7250);
}

#[test]
fn extract_info_uses_fallbacks_for_absent_fields() {
    let data = ProbeData {
        streams: vec![StreamData {
            codec_type: Some("video".to_string()),
            codec_name: None,
            width: None,
            height: None,
            r_frame_rate: None,
            duration: None,
        }],
        format: FormatData { filename: None, duration: None },
    };
    let path = "x.mp4".to_string();
    let info = extract_info(&path, &data).ok().unwrap();
    assert_eq!(info.codec.as_str(), "unknown");
    assert_eq!(info.filename.as_str(), "unknown");
    assert_eq!(info.width, 0);
    assert_eq!(info.height, 0);
    assert_eq!(info.fps_centi, 0);
    assert_eq!(info.duration_ms, 0);
}

#[test]
fn extract_info_fails_without_video_stream() {
    let data = ProbeData {
        streams: vec![StreamData {
            codec_type: Some("audio".to_string()),
            codec_name: Some("aac".to_string()),
            width: None,
            height: None,
            r_frame_rate: None,
            duration: None,
        }],
        format: FormatData { filename: None, duration: None },
    };
    let path = "song.mp3".to_string();
    let err = match extract_info(&path, &data) {
        Err(e) => e,
        Ok(_) => panic!("expected failure"),
    };
    let msg = err.message();
    assert!(msg.contains("no video stream"));
    assert!(msg.contains("song.mp3"));
}

#[test]
fn parse_frame_rate_trailing_dot_and_bare_fraction() {
    assert_eq!(parse_frame_rate("120."), 12000);
    assert_eq!(parse_frame_rate(".5"), 50);
    assert_eq!(parse_frame_rate("."), 0);
}

#[test]
fn parse_frame_rate_rounds_extra_fraction_digits() {
    // round(23.976 * 100) / 100 is 23.98.
    assert_eq!(parse_frame_rate("23.976"), 2398);
}

#[test]
fn parse_frame_rate_rounds_once_after_division() {
    // round((N/D) * 100) / 100, at full precision of the sides.
    assert_eq!(parse_frame_rate("23.976/1"), 2398);
    assert_eq!(parse_frame_rate("24000/1001"), 2398);
}

#[test]
fn basename_follows_file_name_semantics() {
    // Trailing separators and "." segments are ignored; a final ".." keeps
    // the whole string, as the standard library's file_name falls back.
    assert_eq!(basename("/a/b/").as_str(), "b");
    assert_eq!(basename("a/.").as_str(), "a");
    assert_eq!(basename("a/..").as_str(), "a/..");
    assert_eq!(basename("..").as_str(), "..");
    assert_eq!(basename("/").as_str(), "/");
    assert_eq!(basename("a/...").as_str(), "...");
}

#[test]
fn dependency_check_names_the_missing_service() {
    assert!(check_dependencies(true, true).is_ok());
    let probe_missing = match check_dependencies(false, true) {
        Err(e) => e,
        Ok(_) => panic!("expected an error"),
    };
    assert!(probe_missing.message().contains("ffprobe not found"));
    let ffmpeg_missing = match check_dependencies(true, false) {
        Err(e) => e,
        Ok(_) => panic!("expected an error"),
    };
    assert!(ffmpeg_missing.message().contains("ffmpeg not found"));
}

#[test]
fn probe_status_carries_the_diagnostic() {
    assert!(probe_status(true, &"v.mp4".to_string(), &String::new()).is_ok());
    let err = match probe_status(false, &"v.mp4".to_string(), &"boom".to_string()) {
        Err(e) => e,
        Ok(_) => panic!("expected an error"),
    };
    assert_eq!(err.message().as_str(), "ffprobe failed for v.mp4: boom");
}

#[test]
fn capture_status_carries_the_exit_status() {
    assert!(capture_status(true, 0, &String::new()).is_ok());
    let err = match capture_status(false, 12_500, &"exit status: 1".to_string()) {
        Err(e) => e,
        Ok(_) => panic!("expected an error"),
    };
    assert_eq!(
        err.message().as_str(),
        "ffmpeg frame capture failed at 12.500s: ffmpeg exited with exit status: 1"
    );
}
