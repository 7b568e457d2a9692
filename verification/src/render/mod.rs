//! The Typst documents: the PDF of each year's list, and a preview image of
//! each card.

pub mod compile;
pub mod pdf;
pub mod previews;
pub mod typst;

use vstd::prelude::*;

verus! {

/// The resolution, in pixels per inch, at which card previews are rendered.
pub const PREVIEW_PPI: u16 = 72;

} // verus!
