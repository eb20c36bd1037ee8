//! Outer borders of the foreground in an edge map: the contour candidates of
//! the fast detector.

use vstd::prelude::*;
use image::GrayImage;
use imageproc::contours::{find_contours, BorderType};
use crate::frame::GrayFrame;

verus! {

/// A border of an 8-connected foreground region: its pixels in tracing order,
/// and whether it borders the enclosing background (outer) or a hole.
pub struct Border {
    pub points: Vec<(i32, i32)>,
    pub outer: bool,
}

/// Borders as plain values.
pub open spec fn border_values(borders: Seq<Border>) -> Seq<(Seq<(i32, i32)>, bool)> {
    borders.map_values(|b: Border| (b.points@, b.outer))
}

/// The borders that imageproc's border following (Suzuki and Abe) traces in a
/// frame of the given size and samples, non-zero samples being foreground:
/// each as its points and whether it is an outer border.
pub uninterp spec fn traced_borders(width: u32, height: u32, pixels: Seq<u8>) -> Seq<(Seq<(i32, i32)>, bool)>;

/// Sizes for which border following neither converts a coordinate beyond
/// `i32` nor numbers more borders than an `i32` holds: fewer pixels than
/// `i32::MAX`.
pub open spec fn border_sizes_fit(width: u32, height: u32) -> bool {
    (width as int) * (height as int) < i32::MAX
}

/// Calls `imageproc::contours::find_contours::<i32>` on the frame. Claimed:
/// the borders, each reduced to its points and whether it is an outer border,
/// are the fixed function `traced_borders` of the frame's size and samples
/// (the algorithm is integer-only and reads nothing else). What the borders
/// are is not stated.
#[verifier::external_body]
fn find_borders(edge_map: &GrayFrame) -> (borders: Vec<Border>)
    requires
        border_sizes_fit(edge_map.frame_width(), edge_map.frame_height()),
    ensures
        border_values(borders@) == traced_borders(edge_map.frame_width(), edge_map.frame_height(), edge_map.samples()),
{
    let image = GrayImage::from_raw(edge_map.width(), edge_map.height(), edge_map.pixels().clone())
        .expect("a frame holds width * height samples");
    find_contours::<i32>(&image)
        .into_iter()
        .map(|contour| Border {
            points: contour.points.iter().map(|point| (point.x, point.y)).collect(),
            outer: matches!(contour.border_type, BorderType::Outer),
        })
        .collect()
}

/// A border worth approximating by a quadrilateral: an outer border of at
/// least four points.
pub open spec fn candidate_border(border: (Seq<(i32, i32)>, bool)) -> bool {
    border.1 && border.0.len() >= 4
}

/// The candidate borders among `borders`, in order.
pub open spec fn candidate_borders(borders: Seq<(Seq<(i32, i32)>, bool)>) -> Seq<(Seq<(i32, i32)>, bool)>
    decreases borders.len(),
{
    if borders.len() == 0 {
        seq![]
    } else {
        let earlier = candidate_borders(borders.drop_last());
        if candidate_border(borders.last()) {
            earlier.push(borders.last())
        } else {
            earlier
        }
    }
}

/// Law: the candidates are exactly the outer borders of at least four points,
/// whatever their length, in the order they were traced.
pub proof fn lemma_candidates_are_long_outer_borders(borders: Seq<(Seq<(i32, i32)>, bool)>)
    ensures
        candidate_borders(borders) == borders.filter(
            |border: (Seq<(i32, i32)>, bool)| border.1 && border.0.len() >= 4,
        ),
    decreases borders.len(),
{
    reveal(Seq::filter);
    if borders.len() > 0 {
        lemma_candidates_are_long_outer_borders(borders.drop_last());
    }
}

/// Law: every outer border of at least four points is a candidate, and every
/// candidate is one of the borders, outer and of at least four points.
pub proof fn lemma_long_outer_borders_are_kept(borders: Seq<(Seq<(i32, i32)>, bool)>)
    ensures
        forall|i: int|
            0 <= i < borders.len() && borders[i].1 && borders[i].0.len() >= 4 ==> candidate_borders(
                borders,
            ).contains(#[trigger] borders[i]),
        forall|border: (Seq<(i32, i32)>, bool)|
            #[trigger] candidate_borders(borders).contains(border) ==> border.1 && border.0.len() >= 4
                && borders.contains(border),
    decreases borders.len(),
{
    if borders.len() > 0 {
        let earlier = borders.drop_last();
        lemma_long_outer_borders_are_kept(earlier);
        let kept = candidate_borders(borders);
        assert forall|i: int|
            0 <= i < borders.len() && borders[i].1 && borders[i].0.len() >= 4 implies kept.contains(
            #[trigger] borders[i],
        ) by {
            if i < borders.len() - 1 {
                assert(earlier[i] == borders[i]);
                let k = choose|k: int| 0 <= k < candidate_borders(earlier).len() && candidate_borders(earlier)[k] == earlier[i];
                if candidate_border(borders.last()) {
                    assert(kept[k] == borders[i]);
                }
            } else {
                assert(kept[kept.len() - 1] == borders[i]);
            }
        }
        assert forall|border: (Seq<(i32, i32)>, bool)| #[trigger] kept.contains(border) implies border.1
            && border.0.len() >= 4 && borders.contains(border) by {
            let k = choose|k: int| 0 <= k < kept.len() && kept[k] == border;
            if k < candidate_borders(earlier).len() {
                assert(candidate_borders(earlier)[k] == border);
                assert(candidate_borders(earlier).contains(border));
                let j = choose|j: int| 0 <= j < earlier.len() && earlier[j] == border;
                assert(borders[j] == border);
            } else {
                assert(borders[borders.len() - 1] == border);
            }
        }
    }
}

/// The candidate borders among `traced`, in their order.
pub fn keep_candidates(traced: Vec<Border>) -> (kept: Vec<Border>)
    ensures
        border_values(kept@) == candidate_borders(border_values(traced@)),
{
    let mut traced = traced;
    let ghost all = border_values(traced@);
    let mut kept: Vec<Border> = Vec::new();
    assert(border_values(kept@) =~= candidate_borders(all.take(0)));
    let total = traced.len();
    let mut i: usize = 0;
    // Take the borders from the front, in order, keeping the candidates.
    while i < total
        invariant
            0 <= i <= total,
            total == all.len(),
            border_values(traced@) == all.skip(i as int),
            border_values(kept@) == candidate_borders(all.take(i as int)),
        decreases total - i,
    {
        let ghost before = traced@;
        proof {
            assert(before.len() == all.skip(i as int).len());
            assert(border_values(before)[0] == all.skip(i as int)[0]);
        }
        let border = traced.remove(0);
        proof {
            assert(border_values(traced@) =~= border_values(before).skip(1));
            assert(all.skip(i + 1) =~= all.skip(i as int).skip(1));
            assert((border.points@, border.outer) == all[i as int]);
            assert(all.take(i + 1).drop_last() =~= all.take(i as int));
            assert(all.take(i + 1).last() == all[i as int]);
        }
        if border.outer && border.points.len() >= 4 {
            kept.push(border);
            assert(border_values(kept@) =~= candidate_borders(all.take(i + 1)));
        }
        i = i + 1;
    }
    assert(all.take(total as int) =~= all);
    kept
}

/// The outer borders of at least four points in the edge map, in tracing order.
pub fn outer_borders(edge_map: &GrayFrame) -> (borders: Vec<Border>)
    requires
        border_sizes_fit(edge_map.frame_width(), edge_map.frame_height()),
    ensures
        border_values(borders@) == candidate_borders(
            traced_borders(edge_map.frame_width(), edge_map.frame_height(), edge_map.samples()),
        ),
{
    keep_candidates(find_borders(edge_map))
}

} // verus!
