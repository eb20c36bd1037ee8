//! Provenance of a document boundary hypothesis.

use vstd::prelude::*;

verus! {

/// Which detector produced a document boundary.
#[derive(Debug, Clone, Copy, PartialEq, Eq, Structural)]
pub enum DetectionSource {
    Contour,
    Hough,
    Fused,
}

} // verus!
