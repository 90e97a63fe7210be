//! The value types the service hands back to its clients.

use std::sync::Arc;
use vstd::prelude::*;

use crate::dmc::{DmcBom, PaletteDmc};
use crate::storage::ImageId;

verus! {

/// Outcome of a successful upload: the stored image's identifier and its
/// decoded dimensions.
#[derive(Debug)]
pub struct UploadImageResult {
    pub id: ImageId,
    pub width: u32,
    pub height: u32,
}

impl UploadImageResult {
    pub fn new(id: ImageId, width: u32, height: u32) -> (r: UploadImageResult)
        ensures
            r.id == id,
            r.width == width,
            r.height == height,
    {
        UploadImageResult { id, width, height }
    }
}

/// The reference palette, shared with the caller.
#[derive(Debug)]
pub struct GetPaletteResult {
    pub palette: Arc<PaletteDmc>,
}

/// Upload outcome in the identifier-only form.
#[derive(Debug)]
pub struct ImageUploadResult {
    pub new_filename: String,
}

/// Whether an extraction order was admitted.
#[derive(Debug, Clone, Copy, PartialEq, Eq, Structural)]
pub struct StartPaletteExtractionResult {
    pub was_started: bool,
}

/// Outcome of polling an extraction: the bill of materials once the work is
/// done, nothing while it is still pending.
#[derive(Debug)]
pub struct FinishPaletteExtractionResult {
    pub result: Option<DmcBom>,
}

} // verus!
