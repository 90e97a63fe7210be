//! Small service helpers: the hello message, file-path manipulation, and
//! validation of incoming files against the configured limits.

use vstd::prelude::*;

use crate::settings::{Settings, Size};
use crate::storage::spec_last_dot;

verus! {

/// The plain greeting of the service's root endpoint.
pub fn get_hello_message() -> (r: String)
    ensures
        r@ == "Hello"@,
{
    String::from_str("Hello")
}

/// Insert `modif` into a file path right before its last dot, turning
/// `dir/name.ext` into `dir/name<modif>.ext`.
pub fn modify_filepath(filepath: &str, modif: &str) -> (r: String)
    requires
        spec_last_dot(filepath@) >= 0,
    ensures
        r@ == filepath@.take(spec_last_dot(filepath@)) + modif@ + filepath@.skip(
            spec_last_dot(filepath@),
        ),
{
    let n = filepath.unicode_len();
    let k = match crate::storage::find_last_dot(filepath) {
        Some(k) => k,
        None => {
            proof {
                assert(false);
            }
            0
        },
    };
    let head = filepath.substring_char(0, k);
    let tail = filepath.substring_char(k, n);
    let mut out = String::from_str(head);
    out.append(modif);
    out.append(tail);
    out
}

/// The path a stored upload is written to: the upload directory, a slash,
/// and the unique filename.
pub fn create_unique_filepath(settings: &Settings, unique_filename: &str) -> (r: String)
    ensures
        r@ == settings.upload_dir@ + "/"@ + unique_filename@,
{
    let mut out = settings.upload_dir.clone();
    out.append("/");
    out.append(unique_filename);
    out
}

/// Errors of validating an image file against the configured limits.
#[derive(Debug, Clone, Copy, PartialEq, Eq, Structural)]
pub enum ProcessingFileError {
    WidthTooSmall { actual: u32, min: u32 },
    HeightTooSmall { actual: u32, min: u32 },
    WidthTooBig { actual: u32, max: u32 },
    HeightTooBig { actual: u32, max: u32 },
    OtherError,
}

/// Errors of accepting an uploaded file.
#[derive(Debug, Clone, Copy, PartialEq, Eq, Structural)]
pub enum InputFileError {
    FileEmpty,
    FileTooBig { actual: usize, limit: usize },
    FileNoname,
    FileNotSaved,
}

/// Accept an uploaded file: it must be non-empty, within the configured
/// byte limit, and carry a filename.  The checks run in that order.
pub fn validate_input_file(file_size: usize, image_max_bytes: usize, has_filename: bool) -> (r:
    Result<(), InputFileError>)
    ensures
        r is Ok <==> 0 < file_size <= image_max_bytes && has_filename,
        r matches Err(e) ==> e == (if file_size == 0 {
            InputFileError::FileEmpty
        } else if file_size > image_max_bytes {
            InputFileError::FileTooBig { actual: file_size, limit: image_max_bytes }
        } else {
            InputFileError::FileNoname
        }),
{
    if file_size == 0 {
        Err(InputFileError::FileEmpty)
    } else if file_size > image_max_bytes {
        Err(InputFileError::FileTooBig { actual: file_size, limit: image_max_bytes })
    } else if !has_filename {
        Err(InputFileError::FileNoname)
    } else {
        Ok(())
    }
}

/// Check decoded dimensions against the configured guards: strictly above
/// the minima and at most the maxima, width before height.
pub fn validate_src_img_size(min_size: Size<u32>, max_size: Size<u32>, width: u32, height: u32) -> (
    r: Result<(), ProcessingFileError>)
    ensures
        r is Ok <==> min_size.width < width <= max_size.width && min_size.height < height
            <= max_size.height,
        r matches Err(e) ==> e == (if width <= min_size.width {
            ProcessingFileError::WidthTooSmall { actual: width, min: min_size.width }
        } else if width > max_size.width {
            ProcessingFileError::WidthTooBig { actual: width, max: max_size.width }
        } else if height <= min_size.height {
            ProcessingFileError::HeightTooSmall { actual: height, min: min_size.height }
        } else {
            ProcessingFileError::HeightTooBig { actual: height, max: max_size.height }
        }),
{
    if width <= min_size.width {
        Err(ProcessingFileError::WidthTooSmall { actual: width, min: min_size.width })
    } else if width > max_size.width {
        Err(ProcessingFileError::WidthTooBig { actual: width, max: max_size.width })
    } else if height <= min_size.height {
        Err(ProcessingFileError::HeightTooSmall { actual: height, min: min_size.height })
    } else if height > max_size.height {
        Err(ProcessingFileError::HeightTooBig { actual: height, max: max_size.height })
    } else {
        Ok(())
    }
}

} // verus!
