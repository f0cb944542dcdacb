//! The run's configuration record and its validation: the input must exist,
//! the output must not pre-exist unless overwriting is forced, and a named
//! scratch directory must exist. The disk is consulted through two trusted
//! queries; the decision taken on their answers is verified.
use vstd::prelude::*;
use crate::error::ThumbsdownError;

verus! {

/// The configuration of one run, as the command line front end hands it in.
pub struct Args {
    /// Path to the video file.
    pub video: String,
    /// Start time in seconds.
    pub start: u64,
    /// Number of thumbnails to generate.
    pub thumbs: u32,
    /// Number of columns in the grid.
    pub columns: u32,
    /// Output file path.
    pub output: String,
    /// Scratch directory override; the system default when absent.
    pub temp: Option<String>,
    /// Thumbnail width in pixels.
    pub width: u32,
    /// Verbose output.
    pub verbose: bool,
    /// Overwrite an existing output file.
    pub force: bool,
}

/// Relies on std::path::Path::exists: whether something exists at this path
/// on disk right now. The answer depends on the file system, so nothing is
/// assumed of it.
#[verifier::external_body]
fn path_exists(p: &String) -> bool {
    std::path::Path::new(p.as_str()).exists()
}

/// Relies on std::path::Path::is_dir: whether this path names a directory on
/// disk right now. The answer depends on the file system, so nothing is
/// assumed of it.
#[verifier::external_body]
fn path_is_dir(p: &String) -> bool {
    std::path::Path::new(p.as_str()).is_dir()
}

/// The validation decision on what the disk reported: a missing input is
/// rejected first, then an existing output without `force`, then a named
/// scratch directory that is no directory; any other configuration passes.
/// `temp_is_dir` is read only when a scratch directory was named.
pub fn check_config(
    args: &Args,
    video_exists: bool,
    output_exists: bool,
    temp_is_dir: bool,
) -> (r: Result<(), ThumbsdownError>)
    ensures
        r is Ok <==> video_exists && (!output_exists || args.force) && (args.temp is None
            || temp_is_dir),
        !video_exists ==> (r matches Err(e) && e matches ThumbsdownError::InputNotFound(p)
            && p@ == args.video@),
        video_exists && output_exists && !args.force ==> (r matches Err(e)
            && e matches ThumbsdownError::OutputExists(p) && p@ == args.output@),
        video_exists && (!output_exists || args.force) && args.temp is Some && !temp_is_dir ==> (
        r matches Err(e) && e matches ThumbsdownError::TempDirNotFound(p) && p@
            == args.temp->0@),
{
    if !video_exists {
        return Err(ThumbsdownError::InputNotFound(args.video.clone()));
    }
    if output_exists && !args.force {
        return Err(ThumbsdownError::OutputExists(args.output.clone()));
    }
    match &args.temp {
        Some(t) => {
            if !temp_is_dir {
                return Err(ThumbsdownError::TempDirNotFound(t.clone()));
            }
        },
        None => {},
    }
    Ok(())
}

/// Validates the configuration against the disk, before any scratch storage
/// is created or any external service invoked. Whatever the disk reports, an
/// error can only be the rejection the decision rule assigns to that report,
/// carrying the path it is about.
pub fn validate(args: &Args) -> (r: Result<(), ThumbsdownError>)
    ensures
        r matches Err(e) ==> ({
            ||| (e matches ThumbsdownError::InputNotFound(p) && p@ == args.video@)
            ||| (e matches ThumbsdownError::OutputExists(p) && p@ == args.output@ && !args.force)
            ||| (e matches ThumbsdownError::TempDirNotFound(p) && args.temp is Some && p@
                == args.temp->0@)
        }),
{
    let video_exists = path_exists(&args.video);
    let output_exists = path_exists(&args.output);
    let temp_is_dir = match &args.temp {
        Some(t) => path_is_dir(t),
        None => true,
    };
    check_config(args, video_exists, output_exists, temp_is_dir)
}

} // verus!
