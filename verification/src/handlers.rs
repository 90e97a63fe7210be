//! The request-facing facade: the service state and the protocol-neutral
//! operations the HTTP layer calls.  Validation order, error selection and
//! the effect of each operation on the stores are pinned down exactly.

use std::sync::Arc;
use vstd::prelude::*;

use crate::dmc::PaletteDmc;
use crate::errors::{AppError, UploadImageError};
use crate::image::Img;
use crate::processing::{ProcessingError, WorkDispatcher, WORK_ORDERS_QUEUE_CAP};
use crate::requests::ExtractQueryMaxColorsCount;
use crate::results::{FinishPaletteExtractionResult, GetPaletteResult, UploadImageResult};
use crate::storage::{
    spec_filename_splits, spec_id_of, ImageId, ImageStorageMeta, ImageStorageService,
    ImageStorageServiceError,
};
use crate::worker::{Work, WorkId, WorkResult};

verus! {

/// Relies on Arc::clone: the new handle shares the same palette; nothing is
/// copied.
#[verifier::external_body]
fn clone_palette_handle(p: &Arc<PaletteDmc>) -> (r: Arc<PaletteDmc>)
    ensures
        *r == **p,
{
    Arc::clone(p)
}

/// The bill of materials a finished work result carries.
pub open spec fn spec_result_bom(r: WorkResult) -> Seq<crate::dmc::BomEntry> {
    match r {
        WorkResult::PaletteExtract { dmc_bom } => dmc_bom@,
        WorkResult::ImageDither { dmc_bom, .. } => dmc_bom@,
    }
}

/// The status line of the running service.
pub fn overall_status() -> (r: String)
    ensures
        r@ == "<h1>Diamonds imager is running!</h1>"@,
{
    String::from_str("<h1>Diamonds imager is running!</h1>")
}

/// The service state: the configured dimension guards, the reference
/// palette, the image store, and the work dispatcher.
pub struct AppData {
    pub image_max_width: u32,
    pub image_max_height: u32,
    pub palette_dmc_full: Arc<PaletteDmc>,
    pub image_storage_service: ImageStorageService,
    pub processing_runner_service: WorkDispatcher,
}

impl AppData {
    /// The palette is non-empty and valid, and store and dispatcher keep
    /// their invariants.
    pub open spec fn wf(&self) -> bool {
        &&& (*self.palette_dmc_full).spec_elements().len() > 0
        &&& (*self.palette_dmc_full).wf()
        &&& self.image_storage_service.wf()
        &&& self.processing_runner_service.wf()
    }

    /// A fresh service around a loaded palette.
    pub fn new(image_max_width: u32, image_max_height: u32, palette: PaletteDmc) -> (d: AppData)
        requires
            palette.wf(),
            palette.spec_elements().len() > 0,
        ensures
            d.wf(),
            d.image_max_width == image_max_width,
            d.image_max_height == image_max_height,
            (*d.palette_dmc_full) == palette,
            d.image_storage_service.spec_entries().len() == 0,
            d.processing_runner_service.spec_orders().len() == 0,
            d.processing_runner_service.spec_results().len() == 0,
            d.processing_runner_service.spec_issued().len() == 0,
    {
        AppData {
            image_max_width,
            image_max_height,
            palette_dmc_full: Arc::new(palette),
            image_storage_service: ImageStorageService::new(),
            processing_runner_service: WorkDispatcher::new(),
        }
    }

    /// Store an uploaded, already decoded image.  The filename must be
    /// non-empty and split into stem and extension; the image must respect
    /// the configured maxima.  The checks run in that order and the first
    /// failure is reported.  Success returns the stored identifier — built
    /// from the filename's stem and extension — with the image's dimensions.
    pub fn upload_image(&mut self, filename: String, image: Img) -> (r: Result<
        UploadImageResult,
        AppError,
    >)
        requires
            old(self).wf(),
            image.wf(),
        ensures
            final(self).wf(),
            final(self).image_max_width == old(self).image_max_width,
            final(self).image_max_height == old(self).image_max_height,
            final(self).palette_dmc_full == old(self).palette_dmc_full,
            final(self).processing_runner_service == old(self).processing_runner_service,
            r is Ok <==> filename@.len() > 0 && image.spec_width() <= old(self).image_max_width
                && image.spec_height() <= old(self).image_max_height && spec_filename_splits(
                filename@,
            ),
            r matches Err(e) ==> final(self).image_storage_service == old(
                self,
            ).image_storage_service && e == (if filename@.len() == 0 {
                AppError::UploadImage(UploadImageError::FilenameEmpty)
            } else if image.spec_width() > old(self).image_max_width {
                AppError::UploadImage(
                    UploadImageError::ImageTooWide {
                        max: old(self).image_max_width,
                        actual: image.spec_width(),
                    },
                )
            } else if image.spec_height() > old(self).image_max_height {
                AppError::UploadImage(
                    UploadImageError::ImageTooHigh {
                        max: old(self).image_max_height,
                        actual: image.spec_height(),
                    },
                )
            } else {
                AppError::ImageStorageServiceError(
                    ImageStorageServiceError::FilenameExtensionMissing,
                )
            }),
            r matches Ok(u) ==> {
                &&& u.width == image.spec_width()
                &&& u.height == image.spec_height()
                &&& spec_id_of(filename@, u.id@)
                &&& final(self).image_storage_service.spec_contains_id(u.id@)
                &&& *final(self).image_storage_service.spec_get(u.id@).image == image
                &&& final(self).image_storage_service.spec_get(u.id@).meta.filename@ == filename@
                &&& final(self).image_storage_service.spec_get(u.id@).meta.upload_time == final(self).image_storage_service.spec_get(u.id@).meta.last_touch_time
                &&& forall|o: Seq<char>|
                    o != u.id@ ==> (final(self).image_storage_service.spec_contains_id(o) <==> old(
                        self,
                    ).image_storage_service.spec_contains_id(o))
            },
    {
        if filename.as_str().is_empty() {
            return Err(AppError::UploadImage(UploadImageError::FilenameEmpty));
        }
        let width = image.width();
        let height = image.height();
        if width > self.image_max_width {
            return Err(
                AppError::UploadImage(
                    UploadImageError::ImageTooWide { max: self.image_max_width, actual: width },
                ),
            );
        }
        if height > self.image_max_height {
            return Err(
                AppError::UploadImage(
                    UploadImageError::ImageTooHigh { max: self.image_max_height, actual: height },
                ),
            );
        }
        match self.image_storage_service.insert_image(filename, image) {
            Ok(id) => Ok(UploadImageResult { id, width, height }),
            Err(e) => Err(AppError::ImageStorageServiceError(e)),
        }
    }

    /// The metadata of a stored image; `ImageNotFound` otherwise.
    pub fn get_image_meta(&self, id: &ImageId) -> (r: Result<ImageStorageMeta, AppError>)
        requires
            self.wf(),
        ensures
            r is Ok <==> self.image_storage_service.spec_contains_id(id@),
            r matches Ok(m) ==> m == self.image_storage_service.spec_get(id@).meta,
            r matches Err(e) ==> e == AppError::ImageStorageServiceError(
                ImageStorageServiceError::ImageNotFound,
            ),
    {
        match self.image_storage_service.get_image_meta(id) {
            Ok(m) => Ok(m),
            Err(e) => Err(AppError::ImageStorageServiceError(e)),
        }
    }

    /// Remove a stored image.  Afterwards the identifier is unbound: a
    /// lookup or a second removal of the same identifier fails with
    /// `ImageNotFound`.
    pub fn delete_image(&mut self, id: &ImageId) -> (r: Result<(), AppError>)
        requires
            old(self).wf(),
        ensures
            final(self).wf(),
            final(self).image_max_width == old(self).image_max_width,
            final(self).image_max_height == old(self).image_max_height,
            final(self).palette_dmc_full == old(self).palette_dmc_full,
            final(self).processing_runner_service == old(self).processing_runner_service,
            r is Ok <==> old(self).image_storage_service.spec_contains_id(id@),
            r matches Err(e) ==> e == AppError::ImageStorageServiceError(
                ImageStorageServiceError::ImageNotFound,
            ) && final(self).image_storage_service == old(self).image_storage_service,
            !final(self).image_storage_service.spec_contains_id(id@),
            forall|o: Seq<char>|
                o != id@ ==> (final(self).image_storage_service.spec_contains_id(o) <==> old(
                    self,
                ).image_storage_service.spec_contains_id(o)),
            forall|o: Seq<char>|
                o != id@ && old(self).image_storage_service.spec_contains_id(o) ==> final(self).image_storage_service.spec_get(o) == old(self).image_storage_service.spec_get(o),
    {
        match self.image_storage_service.remove_image(id) {
            Ok(()) => Ok(()),
            Err(e) => Err(AppError::ImageStorageServiceError(e)),
        }
    }

    /// A shared handle to the full reference palette.
    pub fn get_full_dmc_palette(&self) -> (r: GetPaletteResult)
        ensures
            *r.palette == *self.palette_dmc_full,
    {
        GetPaletteResult { palette: clone_palette_handle(&self.palette_dmc_full) }
    }

    /// Order a palette extraction for a stored image.  The stored buffer is
    /// shared with the work item, not copied; a later removal of the image
    /// does not disturb the work.  Fails with `ImageNotFound` for an unknown
    /// identifier and `Busy` when the order queue is full.
    pub fn start_extracting_dmc_palette(
        &mut self,
        id: &ImageId,
        query: &ExtractQueryMaxColorsCount,
    ) -> (r: Result<WorkId, AppError>)
        requires
            old(self).wf(),
        ensures
            final(self).wf(),
            final(self).image_max_width == old(self).image_max_width,
            final(self).image_max_height == old(self).image_max_height,
            final(self).palette_dmc_full == old(self).palette_dmc_full,
            final(self).image_storage_service == old(self).image_storage_service,
            r is Ok <==> old(self).image_storage_service.spec_contains_id(id@) && old(
                self,
            ).processing_runner_service.spec_orders().len() < WORK_ORDERS_QUEUE_CAP && old(
                self,
            ).processing_runner_service.spec_next_id() < WorkId::MAX,
            r matches Err(e) ==> final(self).processing_runner_service == old(
                self,
            ).processing_runner_service && e == (
            if !old(self).image_storage_service.spec_contains_id(id@) {
                AppError::ImageStorageServiceError(ImageStorageServiceError::ImageNotFound)
            } else {
                AppError::ProcessingError(ProcessingError::Busy)
            }),
            r matches Ok(wid) ==> {
                let d0 = old(self).processing_runner_service;
                let d1 = final(self).processing_runner_service;
                &&& wid == d0.spec_next_id()
                &&& d1.spec_next_id() == d0.spec_next_id() + 1
                &&& d1.spec_issued() == d0.spec_issued().push(wid)
                &&& d1.spec_orders().len() == d0.spec_orders().len() + 1
                &&& d1.spec_orders() == d0.spec_orders().push(d1.spec_orders().last())
                &&& d1.spec_orders().last().id == wid
                &&& d1.spec_orders().last().work matches Work::PaletteExtract {
                    palette_dmc,
                    src_image,
                    max_colors,
                } && *palette_dmc == *old(self).palette_dmc_full && *src_image == *old(
                    self,
                ).image_storage_service.spec_get(id@).image && max_colors == query.max_colors
                &&& d1.spec_results() == d0.spec_results()
            },
    {
        let element = match self.image_storage_service.access_image(id) {
            Ok(el) => el,
            Err(e) => {
                return Err(AppError::ImageStorageServiceError(e));
            },
        };
        let src_image = crate::storage::clone_image_handle(&element.image);
        let palette_dmc = clone_palette_handle(&self.palette_dmc_full);
        let work = Work::PaletteExtract { palette_dmc, src_image, max_colors: query.max_colors };
        match self.processing_runner_service.enque_work(work) {
            Ok(wid) => Ok(wid),
            Err(_) => Err(AppError::ProcessingError(ProcessingError::Busy)),
        }
    }

    /// Poll for a finished extraction.  While the work is still running the
    /// result field stays empty; once retrieved, the work identifier is
    /// retired and a second poll of it stays empty forever.
    pub fn poll_finish_extracting_dmc_palette(&mut self, work_id: WorkId) -> (r:
        FinishPaletteExtractionResult)
        requires
            old(self).wf(),
        ensures
            final(self).wf(),
            final(self).image_max_width == old(self).image_max_width,
            final(self).image_max_height == old(self).image_max_height,
            final(self).palette_dmc_full == old(self).palette_dmc_full,
            final(self).image_storage_service == old(self).image_storage_service,
            r.result is Some <==> old(self).processing_runner_service.spec_has_result(work_id),
            r.result matches Some(bom) ==> {
                &&& exists|i: int|
                    0 <= i < old(self).processing_runner_service.spec_results().len() && (
                    #[trigger] old(self).processing_runner_service.spec_results()[i]).id == work_id
                        && bom@ == spec_result_bom(
                        old(self).processing_runner_service.spec_results()[i].work_result,
                    )
                &&& !final(self).processing_runner_service.spec_has_result(work_id)
                &&& final(self).processing_runner_service.spec_claimed(work_id)
            },
            r.result is None ==> final(self).processing_runner_service == old(
                self,
            ).processing_runner_service,
    {
        match self.processing_runner_service.get_work_result(work_id) {
            Ok(res) => {
                proof {
                    let i = choose|i: int|
                        0 <= i < old(self).processing_runner_service.spec_results().len() && (
                        #[trigger] old(self).processing_runner_service.spec_results()[i]).id
                            == work_id && old(
                            self,
                        ).processing_runner_service.spec_results()[i].work_result == res;
                    assert(old(self).processing_runner_service.spec_results()[i].id == work_id);
                }
                match res {
                    WorkResult::PaletteExtract { dmc_bom } => FinishPaletteExtractionResult {
                        result: Some(dmc_bom),
                    },
                    WorkResult::ImageDither { dithered_image: _, dmc_bom } => {
                        FinishPaletteExtractionResult { result: Some(dmc_bom) }
                    },
                }
            },
            Err(_) => FinishPaletteExtractionResult { result: None },
        }
    }
}

} // verus!
