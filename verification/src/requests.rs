//! The query parameters the service accepts.

use vstd::prelude::*;

verus! {

/// Optional cap on the number of colors a palette extraction reports.
#[derive(Debug, Clone, Copy, PartialEq, Eq, Structural)]
pub struct ExtractQueryMaxColorsCount {
    pub max_colors: Option<usize>,
}

} // verus!
