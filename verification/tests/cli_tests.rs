use thumbsdown::cli::{validate, Args};
use thumbsdown::error::ThumbsdownError;

fn args_with(video: String, output: String, temp: Option<String>, force: bool) -> Args {
    Args {
        video,
        start: 1,
        thumbs: 20,
        columns: 5,
        output,
        temp,
        width: 320,
        verbose: false,
        force,
    }
}

fn expect_err(r: Result<(), ThumbsdownError>) -> ThumbsdownError {
    match r {
        Err(e) => e,
        Ok(_) => panic!("expected an error"),
    }
}

#[test]
fn validate_rejects_missing_video() {
    let args = args_with(
        "nonexistent_video.mp4".to_string(),
        "out.png".to_string(),
        None,
        false,
    );
    let err = expect_err(validate(&args));
    assert!(err.message().contains("does not exist"));
}

#[test]
fn validate_rejects_existing_output_without_force() {
    let video = tempfile::NamedTempFile::new().expect("tempfile");
    let output = tempfile::NamedTempFile::new().expect("tempfile");
    let args = args_with(
        video.path().to_string_lossy().into_owned(),
        output.path().to_string_lossy().into_owned(),
        None,
        false,
    );
    let err = expect_err(validate(&args));
    assert!(err.message().contains("already exists"));
}

#[test]
fn validate_allows_force_overwrite() {
    let video = tempfile::NamedTempFile::new().expect("tempfile");
    let output = tempfile::NamedTempFile::new().expect("tempfile");
    let args = args_with(
        video.path().to_string_lossy().into_owned(),
        output.path().to_string_lossy().into_owned(),
        None,
        true,
    );
    assert!(validate(&args).is_ok());
}

#[test]
fn validate_rejects_nonexistent_temp_dir() {
    let video = tempfile::NamedTempFile::new().expect("tempfile");
    let args = args_with(
        video.path().to_string_lossy().into_owned(),
        "out.png".to_string(),
        Some("/nonexistent_dir_xyz".to_string()),
        false,
    );
    let err = expect_err(validate(&args));
    assert!(err.message().contains("does not exist"));
}

#[test]
fn validate_accepts_existing_temp_dir() {
    let video = tempfile::NamedTempFile::new().expect("tempfile");
    let dir = tempfile::tempdir().expect("tempdir");
    let args = args_with(
        video.path().to_string_lossy().into_owned(),
        "out.png".to_string(),
        Some(dir.path().to_string_lossy().into_owned()),
        false,
    );
    assert!(validate(&args).is_ok());
}
