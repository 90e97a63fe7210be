//! Work items, work results and the worker model.  A worker owns a bounded
//! inbound queue of tagged work items; running an item produces the tagged
//! result the dispatcher collects.  The cooperative plumbing that feeds a
//! worker and carries its results lives outside the library; the queue
//! discipline and the work bodies are verified here.

use std::sync::Arc;
use vstd::prelude::*;

use crate::dmc::{
    spec_bom_counts, spec_bom_pairs, spec_count_unmapped, spec_sort_desc, spec_sum_bom, DmcBom,
    PaletteDmc,
};
use crate::image::Img;

verus! {

/// Capacity of a worker's inbound queue.
pub const WORKER_INPUT_QUEUE_CAP: usize = 8;

/// Identifier for a piece of work; the dispatcher makes them unique.
pub type WorkId = u64;

/// A unit of work a worker can process.
pub enum Work {
    /// Extract the bill of materials of an image against a DMC palette,
    /// optionally capped to the most frequent entries.
    PaletteExtract { palette_dmc: Arc<PaletteDmc>, src_image: Arc<Img>, max_colors: Option<usize> },
    /// Dither an image to a DMC palette and compute the bill of materials of
    /// the result.
    ImageDither { palette_dmc: Arc<PaletteDmc>, src_image: Arc<Img> },
}

impl Work {
    /// The carried palette is non-empty and the carried image well formed.
    pub open spec fn wf(&self) -> bool {
        match self {
            Work::PaletteExtract { palette_dmc, src_image, .. } => (**palette_dmc).spec_elements().len() > 0
                && (**src_image).wf(),
            Work::ImageDither { palette_dmc, src_image } => (**palette_dmc).spec_elements().len()
                > 0 && (**src_image).wf(),
        }
    }
}

/// A work item tagged with its identifier.
pub struct WorkWrapped {
    pub id: WorkId,
    pub work: Work,
}

/// The outcome of a completed work item.
pub enum WorkResult {
    PaletteExtract { dmc_bom: DmcBom },
    ImageDither { dithered_image: Img, dmc_bom: DmcBom },
}

/// A work result tagged with its originating identifier.
pub struct WorkResultWrapped {
    pub id: WorkId,
    pub work_result: WorkResult,
}

/// The result a work item must produce: for an extraction, the (possibly
/// capped) bill of materials of the source image; for a dithering, an image
/// of the same dimensions made of palette colors only, with its bill of
/// materials, whose counts sum to the pixel count.
pub open spec fn spec_work_result(work: Work, r: WorkResult) -> bool {
    match work {
        Work::PaletteExtract { palette_dmc, src_image, max_colors } => {
            let full = spec_bom_pairs(
                spec_bom_counts((*src_image).spec_pixels(), (*palette_dmc).spec_colors()),
                (*palette_dmc).spec_elements(),
            );
            &&& r matches WorkResult::PaletteExtract { dmc_bom }
            &&& match max_colors {
                Option::None => (r->PaletteExtract_dmc_bom)@ == full,
                Option::Some(k) => (r->PaletteExtract_dmc_bom)@ == spec_sort_desc(full).take(
                    if (k as int) < full.len() {
                        k as int
                    } else {
                        full.len() as int
                    },
                ),
            }
        },
        Work::ImageDither { palette_dmc, src_image } => {
            &&& r matches WorkResult::ImageDither { dithered_image, dmc_bom }
            &&& {
                let out = r->ImageDither_dithered_image;
                let bom = r->ImageDither_dmc_bom;
                &&& out.wf()
                &&& out.spec_width() == (*src_image).spec_width()
                &&& out.spec_height() == (*src_image).spec_height()
                &&& forall|k: int|
                    0 <= k < out.spec_pixels().len() ==> (*palette_dmc).spec_colors().contains(
                        #[trigger] out.spec_pixels()[k],
                    )
                &&& bom@ == spec_bom_pairs(
                    spec_bom_counts(out.spec_pixels(), (*palette_dmc).spec_colors()),
                    (*palette_dmc).spec_elements(),
                )
                &&& spec_count_unmapped(out.spec_pixels(), (*palette_dmc).spec_colors()) == 0
                &&& spec_sum_bom(bom@) == out.spec_pixels().len()
            }
        },
    }
}

/// A worker: an integer identity and a bounded inbound queue of work items.
pub struct Worker {
    pub id: u32,
    inbound: Vec<WorkWrapped>,
}

impl Worker {
    pub closed spec fn spec_inbound(&self) -> Seq<WorkWrapped> {
        self.inbound@
    }

    pub closed spec fn spec_id(&self) -> u32 {
        self.id
    }

    /// The queue respects its capacity and every queued item is well formed.
    pub open spec fn wf(&self) -> bool {
        &&& self.spec_inbound().len() <= WORKER_INPUT_QUEUE_CAP
        &&& forall|i: int|
            0 <= i < self.spec_inbound().len() ==> (#[trigger] self.spec_inbound()[i]).work.wf()
    }

    /// A fresh worker with an empty inbound queue.
    pub fn new(id: u32) -> (w: Worker)
        ensures
            w.wf(),
            w.spec_id() == id,
            w.spec_inbound().len() == 0,
    {
        Worker { id, inbound: Vec::new() }
    }

    /// How many items wait in the inbound queue.
    pub fn queued_count(&self) -> (n: usize)
        ensures
            n == self.spec_inbound().len(),
    {
        self.inbound.len()
    }

    /// Attempt to enqueue a work item without waiting.  On a full queue the
    /// item is handed back so the caller can try another worker.
    pub fn try_enque_work(&mut self, work_wrapped: WorkWrapped) -> (r: Result<(), WorkWrapped>)
        requires
            old(self).wf(),
            work_wrapped.work.wf(),
        ensures
            final(self).wf(),
            final(self).spec_id() == old(self).spec_id(),
            old(self).spec_inbound().len() < WORKER_INPUT_QUEUE_CAP ==> r is Ok
                && final(self).spec_inbound() == old(self).spec_inbound().push(work_wrapped),
            old(self).spec_inbound().len() >= WORKER_INPUT_QUEUE_CAP ==> (r matches Err(w) && w
                == work_wrapped) && final(self).spec_inbound() == old(self).spec_inbound(),
    {
        if self.inbound.len() < WORKER_INPUT_QUEUE_CAP {
            self.inbound.push(work_wrapped);
            Ok(())
        } else {
            Err(work_wrapped)
        }
    }

    /// Take the oldest queued item, if any.
    pub fn take_next(&mut self) -> (r: Option<WorkWrapped>)
        requires
            old(self).wf(),
        ensures
            final(self).wf(),
            final(self).spec_id() == old(self).spec_id(),
            r is Some <==> old(self).spec_inbound().len() > 0,
            r matches Some(w) ==> w == old(self).spec_inbound().first()
                && final(self).spec_inbound() == old(self).spec_inbound().drop_first(),
            r is None ==> *final(self) == *old(self),
    {
        if self.inbound.len() == 0 {
            None
        } else {
            let w = self.inbound.remove(0);
            proof {
                assert(self.spec_inbound() =~= old(self).spec_inbound().drop_first());
            }
            Some(w)
        }
    }

    /// Run one work item to completion.  Work bodies are total: a non-empty
    /// palette and a well-formed image always yield a result.
    pub fn do_work(work: Work) -> (r: WorkResult)
        requires
            work.wf(),
        ensures
            spec_work_result(work, r),
    {
        match work {
            Work::PaletteExtract { palette_dmc, src_image, max_colors } => {
                let dmc_bom = palette_dmc.find_subset_matching_image(&src_image, max_colors);
                WorkResult::PaletteExtract { dmc_bom }
            },
            Work::ImageDither { palette_dmc, src_image } => {
                let (dithered_image, dmc_bom) = crate::dither::image_dither_using_dmc_palette(
                    &palette_dmc,
                    &src_image,
                );
                WorkResult::ImageDither { dithered_image, dmc_bom }
            },
        }
    }

    /// Retire the worker; its queue and identity are dropped.
    pub fn shutdown(self) {
    }
}

} // verus!
