//! Verified core of the Cirdean document scanner: the integer decisions of
//! boundary detection (bounded Hough lines, the intersection graph, its
//! four-cycles, contour border selection, edge-pixel tests, spatial
//! deduplication, gutter centring), the auto-capture state machine, and the
//! device, media-type and sample choices of the native camera probe. Scores,
//! coordinates and confidences are floating point and are computed by the
//! caller.

pub mod book;
pub mod camera_probe;
pub mod candidates;
pub mod capture;
pub mod contours;
pub mod cycles;
pub mod detection;
pub mod frame;
pub mod graph;
pub mod lines;

use vstd::prelude::*;

verus! {

} // verus!
