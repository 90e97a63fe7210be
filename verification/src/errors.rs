//! Error taxonomy of the service and the text each error presents to a
//! client.  Rendering is verified down to the exact character sequence,
//! including the decimal dimensions quoted by the size errors.

use vstd::prelude::*;

use crate::processing::ProcessingError;
use crate::storage::ImageStorageServiceError;

verus! {

/// Errors of an image upload.
#[derive(Debug, Clone, Copy, PartialEq, Eq, Structural)]
pub enum UploadImageError {
    /// The upload carried no image data.
    ImageEmpty,
    /// The upload named an empty filename.
    FilenameEmpty,
    /// The decoded image is wider than the configured maximum.
    ImageTooWide { max: u32, actual: u32 },
    /// The decoded image is higher than the configured maximum.
    ImageTooHigh { max: u32, actual: u32 },
    /// The upload named no filename at all.
    FilenameMissing,
}

/// Any error a service operation can surface.
#[derive(Debug, Clone, Copy, PartialEq, Eq, Structural)]
pub enum AppError {
    UploadImage(UploadImageError),
    ImageStorageServiceError(ImageStorageServiceError),
    ProcessingError(ProcessingError),
}

/// Errors of the palette-extraction flow as a client sees them.
#[derive(Debug, Clone, Copy, PartialEq, Eq, Structural)]
pub enum PaletteExtractError {
    ImageNotExist,
    Timeouted,
}

/// Relies on String::push: appends exactly one character.
#[verifier::external_body]
fn string_push_char(s: &mut String, c: char)
    ensures
        final(s)@ == old(s)@.push(c),
{
    s.push(c);
}

/// The digit character for a value below ten.
pub open spec fn spec_digit_char(d: int) -> char {
    if d == 0 {
        '0'
    } else if d == 1 {
        '1'
    } else if d == 2 {
        '2'
    } else if d == 3 {
        '3'
    } else if d == 4 {
        '4'
    } else if d == 5 {
        '5'
    } else if d == 6 {
        '6'
    } else if d == 7 {
        '7'
    } else if d == 8 {
        '8'
    } else {
        '9'
    }
}

/// The decimal text of a number: most significant digit first, no leading
/// zeros (except for zero itself).
pub open spec fn spec_dec(v: nat) -> Seq<char>
    decreases v,
{
    if v < 10 {
        seq![spec_digit_char(v as int)]
    } else {
        spec_dec(v / 10).push(spec_digit_char((v % 10) as int))
    }
}

fn digit_char(d: u32) -> (c: char)
    requires
        d < 10,
    ensures
        c == spec_digit_char(d as int),
{
    if d == 0 {
        '0'
    } else if d == 1 {
        '1'
    } else if d == 2 {
        '2'
    } else if d == 3 {
        '3'
    } else if d == 4 {
        '4'
    } else if d == 5 {
        '5'
    } else if d == 6 {
        '6'
    } else if d == 7 {
        '7'
    } else if d == 8 {
        '8'
    } else {
        '9'
    }
}

/// Render a number in decimal.
pub fn u32_to_dec_string(v: u32) -> (r: String)
    ensures
        r@ == spec_dec(v as nat),
    decreases v,
{
    let d = digit_char(v % 10);
    if v < 10 {
        let mut s = String::new();
        string_push_char(&mut s, d);
        s
    } else {
        let mut s = u32_to_dec_string(v / 10);
        string_push_char(&mut s, d);
        s
    }
}

/// The client-visible text of an upload error.
pub open spec fn spec_upload_error_text(e: UploadImageError) -> Seq<char> {
    match e {
        UploadImageError::ImageEmpty => "ImageEmpty"@,
        UploadImageError::FilenameEmpty => "FilenameEmpty"@,
        UploadImageError::ImageTooWide { max, actual } => "Image too wide max="@ + spec_dec(
            max as nat,
        ) + ", actual="@ + spec_dec(actual as nat),
        UploadImageError::ImageTooHigh { max, actual } => "Image too high max="@ + spec_dec(
            max as nat,
        ) + ", actual="@ + spec_dec(actual as nat),
        UploadImageError::FilenameMissing => "FilenameMissing"@,
    }
}

impl UploadImageError {
    /// The client-visible text; size errors quote the actual and maximal
    /// dimension.
    pub fn message(&self) -> (r: String)
        ensures
            r@ == spec_upload_error_text(*self),
    {
        match self {
            UploadImageError::ImageEmpty => String::from_str("ImageEmpty"),
            UploadImageError::FilenameEmpty => String::from_str("FilenameEmpty"),
            UploadImageError::ImageTooWide { max, actual } => {
                let mut s = String::from_str("Image too wide max=");
                let m = u32_to_dec_string(*max);
                s.append(m.as_str());
                s.append(", actual=");
                let a = u32_to_dec_string(*actual);
                s.append(a.as_str());
                s
            },
            UploadImageError::ImageTooHigh { max, actual } => {
                let mut s = String::from_str("Image too high max=");
                let m = u32_to_dec_string(*max);
                s.append(m.as_str());
                s.append(", actual=");
                let a = u32_to_dec_string(*actual);
                s.append(a.as_str());
                s
            },
            UploadImageError::FilenameMissing => String::from_str("FilenameMissing"),
        }
    }
}

/// The client-visible text of a storage error.
pub open spec fn spec_storage_error_text(e: ImageStorageServiceError) -> Seq<char> {
    match e {
        ImageStorageServiceError::FilenameStemMissing => "FilenameStemMissing"@,
        ImageStorageServiceError::FilenameExtensionMissing => "FilenameExtensionMissing"@,
        ImageStorageServiceError::ImageNotFound => "ImageNotFound"@,
    }
}

/// The client-visible text of a processing error.
pub open spec fn spec_processing_error_text(e: ProcessingError) -> Seq<char> {
    match e {
        ProcessingError::Busy => "Busy"@,
        ProcessingError::ServiceFailed => "Service failed"@,
        ProcessingError::NotAvailable => "Not available"@,
    }
}

/// The client-visible text of any service error.
pub open spec fn spec_app_error_text(e: AppError) -> Seq<char> {
    match e {
        AppError::UploadImage(u) => spec_upload_error_text(u),
        AppError::ImageStorageServiceError(s) => spec_storage_error_text(s),
        AppError::ProcessingError(p) => spec_processing_error_text(p),
    }
}

impl AppError {
    /// The client-visible text of this error.
    pub fn message(&self) -> (r: String)
        ensures
            r@ == spec_app_error_text(*self),
    {
        match self {
            AppError::UploadImage(u) => u.message(),
            AppError::ImageStorageServiceError(s) => match s {
                ImageStorageServiceError::FilenameStemMissing => String::from_str(
                    "FilenameStemMissing",
                ),
                ImageStorageServiceError::FilenameExtensionMissing => String::from_str(
                    "FilenameExtensionMissing",
                ),
                ImageStorageServiceError::ImageNotFound => String::from_str("ImageNotFound"),
            },
            AppError::ProcessingError(p) => match p {
                ProcessingError::Busy => String::from_str("Busy"),
                ProcessingError::ServiceFailed => String::from_str("Service failed"),
                ProcessingError::NotAvailable => String::from_str("Not available"),
            },
        }
    }

    /// The HTTP status the error maps to: invalid input is 400, an unknown
    /// image 404, a saturated or still-working service 102, an internal
    /// failure 500.
    pub fn status_code(&self) -> (r: u16)
        ensures
            r == match *self {
                AppError::UploadImage(_) => 400u16,
                AppError::ImageStorageServiceError(s) => (
                if s == ImageStorageServiceError::ImageNotFound {
                    404u16
                } else {
                    400u16
                }),
                AppError::ProcessingError(p) => (
                if p == ProcessingError::ServiceFailed {
                    500u16
                } else {
                    102u16
                }),
            },
    {
        match self {
            AppError::UploadImage(_) => 400,
            AppError::ImageStorageServiceError(s) => match s {
                ImageStorageServiceError::ImageNotFound => 404,
                _ => 400,
            },
            AppError::ProcessingError(p) => match p {
                ProcessingError::ServiceFailed => 500,
                _ => 102,
            },
        }
    }
}

} // verus!
