//! Errors that stop a run before any series is rendered.
use vstd::prelude::*;

verus! {

/// Why a run cannot be rendered.
#[derive(Clone, Copy, PartialEq, Eq, Structural, Debug)]
pub enum RenderError {
    /// An ingested source holds fewer points than the run needs.
    TooFewPoints { source: usize, found: usize, needed: usize },
    /// The query window is empty or reversed, or its snapped end does not fit an `i64`.
    BadQueryWindow,
    /// A dimension or the points-per-column count is zero, or the grids are too large.
    BadConfig,
}

} // verus!
