//! Bounded Hough line extraction: vote thresholds rise until the number of
//! detected lines is manageable.

use vstd::prelude::*;
use image::GrayImage;
use imageproc::hough::{LineDetectionOptions, PolarLine};
use crate::frame::GrayFrame;

verus! {

/// imageproc's `PolarLine`, carried through opaquely.
#[verifier::external_type_specification]
#[verifier::external_body]
pub struct ExPolarLine(PolarLine);

/// `lines` is an answer that imageproc's Hough transform gave for a frame of
/// the given size and samples at the given vote threshold and suppression
/// radius. Nothing else is known of it: the transform tabulates angles with
/// `f32::sin_cos`, whose rounding may differ between platforms, so two
/// answers for the same arguments are not claimed to be equal.
pub uninterp spec fn hough_answer(
    width: u32,
    height: u32,
    pixels: Seq<u8>,
    vote_threshold: u32,
    suppression_radius: u32,
    lines: Seq<PolarLine>,
) -> bool;

/// Sizes for which imageproc's Hough transform stays within `u32`: the
/// squared diagonal `width * width + height * height` fits, and so do the
/// suppression windows over its accumulator, which has `2 * r + 1` columns
/// (`r` the integer square root of the squared diagonal) and 180 rows, each
/// window reaching `suppression_radius` beyond a cell.
pub open spec fn hough_sizes_fit(width: u32, height: u32, suppression_radius: u32) -> bool {
    let squared_diagonal = width as int * width as int + height as int * height as int;
    &&& squared_diagonal <= u32::MAX
    &&& suppression_radius + 180 <= u32::MAX
    &&& forall|r: int|
        0 <= r && #[trigger] (r * r) <= squared_diagonal ==> suppression_radius + 2 * r + 1 <= u32::MAX
}

/// Calls `imageproc::hough::detect_lines` on the frame with the given options.
/// Claimed: the answer satisfies `hough_answer` for the frame's size and
/// samples and the two options, which says only that it was the transform's
/// answer to exactly these arguments. What the lines are is not stated.
#[verifier::external_body]
fn detect_lines(edge_map: &GrayFrame, vote_threshold: u32, suppression_radius: u32) -> (lines: Vec<
    PolarLine,
>)
    requires
        hough_sizes_fit(edge_map.frame_width(), edge_map.frame_height(), suppression_radius),
    ensures
        hough_answer(
            edge_map.frame_width(),
            edge_map.frame_height(),
            edge_map.samples(),
            vote_threshold,
            suppression_radius,
            lines@,
        ),
{
    let image = GrayImage::from_raw(edge_map.width(), edge_map.height(), edge_map.pixels().clone())
        .expect("a frame holds width * height samples");
    imageproc::hough::detect_lines(&image, LineDetectionOptions { vote_threshold, suppression_radius })
}

/// The Hough search settings that bound the number of lines.
#[derive(Debug, Clone, Copy, PartialEq, Eq)]
pub struct LineSearch {
    pub vote_thresholds: [u32; 3],
    pub suppression_radius: u32,
    pub maximum_lines: usize,
}

/// A vote threshold for a preview whose longer side is `long_side`, when
/// thresholds are tuned for `preview_long_side`: proportionally lower for a
/// smaller preview (rounded down, and at least 1), unchanged otherwise.
pub open spec fn scaled_threshold(threshold: u32, long_side: u32, preview_long_side: u32) -> u32 {
    if preview_long_side == 0 || long_side >= preview_long_side {
        threshold
    } else {
        let scaled = threshold as int * long_side as int / preview_long_side as int;
        if scaled < 1 {
            1
        } else {
            scaled as u32
        }
    }
}

/// The vote thresholds scaled to the preview's size: a preview smaller than
/// the one the thresholds are tuned for has proportionally shorter lines,
/// which gather proportionally fewer votes.
pub fn scaled_vote_thresholds(thresholds: [u32; 3], long_side: u32, preview_long_side: u32) -> (scaled: [u32; 3])
    ensures
        forall|k: int| 0 <= k < 3 ==> #[trigger] scaled@[k] == scaled_threshold(
            thresholds@[k],
            long_side,
            preview_long_side,
        ),
{
    if preview_long_side == 0 || long_side >= preview_long_side {
        return thresholds;
    }
    let mut scaled = thresholds;
    let mut k: usize = 0;
    while k < 3
        invariant
            0 <= k <= 3,
            0 < preview_long_side,
            long_side < preview_long_side,
            forall|j: int| 0 <= j < k ==> #[trigger] scaled@[j] == scaled_threshold(
                thresholds@[j],
                long_side,
                preview_long_side,
            ),
            forall|j: int| k <= j < 3 ==> #[trigger] scaled@[j] == thresholds@[j],
        decreases 3 - k,
    {
        proof {
            assert(thresholds@[k as int] as int * long_side as int <= u64::MAX) by (nonlinear_arith)
                requires
                    thresholds@[k as int] <= u32::MAX,
                    long_side <= u32::MAX,
            ;
        }
        let product = thresholds[k] as u64 * long_side as u64;
        let quotient = product / preview_long_side as u64;
        proof {
            assert(quotient <= thresholds@[k as int]) by (nonlinear_arith)
                requires
                    quotient == (thresholds@[k as int] as int * long_side as int) / preview_long_side as int,
                    long_side < preview_long_side,
                    0 < preview_long_side,
            ;
        }
        let value = if quotient < 1 {
            1
        } else {
            quotient as u32
        };
        scaled[k] = value;
        k = k + 1;
    }
    scaled
}

/// Twice the longer side of the frame, saturating: the highest vote
/// threshold tried after the configured ones.
pub open spec fn vote_ceiling(edge_map: GrayFrame) -> u32 {
    let long_side = if edge_map.frame_width() >= edge_map.frame_height() {
        edge_map.frame_width()
    } else {
        edge_map.frame_height()
    };
    if long_side as int * 2 > u32::MAX {
        u32::MAX
    } else {
        (long_side * 2) as u32
    }
}

/// The vote threshold of the `k`-th detection: the three configured ones,
/// then 50 more each time, saturating.
pub open spec fn scheduled_threshold(search: LineSearch, k: nat) -> u32
    decreases k,
{
    if k < 3 {
        search.vote_thresholds[k as int]
    } else {
        scheduled_threshold(search, (k - 1) as nat).saturating_add(50)
    }
}

/// After `k` answers the search asks again: the last answer had too many
/// lines, and, past the configured thresholds, the next threshold has not
/// passed the ceiling.
pub open spec fn asks_again(edge_map: GrayFrame, search: LineSearch, answers: Seq<Seq<PolarLine>>, k: nat) -> bool {
    &&& answers[k - 1].len() > search.maximum_lines
    &&& (k < 3 || scheduled_threshold(search, k) <= vote_ceiling(edge_map))
}

/// The search asked the transform for `answers`, one per scheduled threshold
/// and in that order, stopped exactly when `asks_again` failed, and returned
/// the last answer cut to `maximum_lines`.
pub open spec fn line_search_outcome(
    edge_map: GrayFrame,
    search: LineSearch,
    answers: Seq<Seq<PolarLine>>,
    lines: Seq<PolarLine>,
) -> bool {
    let n = answers.len();
    let last = answers[n - 1];
    &&& n >= 1
    &&& forall|k: int|
        0 <= k < n ==> hough_answer(
            edge_map.frame_width(),
            edge_map.frame_height(),
            edge_map.samples(),
            scheduled_threshold(search, k as nat),
            search.suppression_radius,
            #[trigger] answers[k],
        )
    &&& forall|k: int| 1 <= k < n ==> #[trigger] asks_again(edge_map, search, answers, k as nat)
    &&& !asks_again(edge_map, search, answers, n)
    &&& lines == if last.len() > search.maximum_lines {
        last.take(search.maximum_lines as int)
    } else {
        last
    }
}

/// Hough lines of the edge map, found at the lowest configured vote threshold
/// that keeps their number manageable, raising the threshold further when
/// none does.
pub fn bounded_lines(edge_map: &GrayFrame, search: LineSearch) -> (lines: Vec<PolarLine>)
    requires
        hough_sizes_fit(edge_map.frame_width(), edge_map.frame_height(), search.suppression_radius),
    ensures
        exists|answers: Seq<Seq<PolarLine>>| line_search_outcome(*edge_map, search, answers, lines@),
        lines@.len() <= search.maximum_lines,
{
    let ghost mut answers: Seq<Seq<PolarLine>> = Seq::empty();
    let mut last_lines: Vec<PolarLine> = Vec::new();
    let mut index: usize = 0;
    while index < 3
        invariant
            0 <= index <= 3,
            hough_sizes_fit(edge_map.frame_width(), edge_map.frame_height(), search.suppression_radius),
            answers.len() == index,
            forall|k: int|
                0 <= k < index ==> hough_answer(
                    edge_map.frame_width(),
                    edge_map.frame_height(),
                    edge_map.samples(),
                    scheduled_threshold(search, k as nat),
                    search.suppression_radius,
                    #[trigger] answers[k],
                ),
            forall|k: int| 0 <= k < index ==> (#[trigger] answers[k]).len() > search.maximum_lines,
            index > 0 ==> last_lines@ == answers[index - 1],
        decreases 3 - index,
    {
        let lines = detect_lines(edge_map, search.vote_thresholds[index], search.suppression_radius);
        let ghost before = answers;
        proof {
            answers = answers.push(lines@);
        }
        if lines.len() <= search.maximum_lines {
            assert forall|k: int| 1 <= k < answers.len() implies #[trigger] asks_again(
                *edge_map,
                search,
                answers,
                k as nat,
            ) by {
                assert(answers[k - 1] == before[k - 1]);
            }
            assert(line_search_outcome(*edge_map, search, answers, lines@));
            return lines;
        }
        last_lines = lines;
        index = index + 1;
    }
    let mut threshold = search.vote_thresholds[2].saturating_add(50);
    let long_side = if edge_map.width() >= edge_map.height() {
        edge_map.width()
    } else {
        edge_map.height()
    };
    let ceiling = if long_side > u32::MAX / 2 {
        u32::MAX
    } else {
        long_side * 2
    };
    proof {
        assert(long_side < 0x10000) by (nonlinear_arith)
            requires
                long_side as int * long_side as int <= u32::MAX,
        ;
        assert(threshold == scheduled_threshold(search, 3));
        assert forall|k: int| 1 <= k < answers.len() implies #[trigger] asks_again(
            *edge_map,
            search,
            answers,
            k as nat,
        ) by {
            assert(answers[k - 1].len() > search.maximum_lines);
        }
    }
    while last_lines.len() > search.maximum_lines && threshold <= ceiling
        invariant
            hough_sizes_fit(edge_map.frame_width(), edge_map.frame_height(), search.suppression_radius),
            ceiling == vote_ceiling(*edge_map),
            ceiling < u32::MAX,
            answers.len() >= 3,
            threshold == scheduled_threshold(search, answers.len()),
            last_lines@ == answers[answers.len() - 1],
            forall|k: int|
                0 <= k < answers.len() ==> hough_answer(
                    edge_map.frame_width(),
                    edge_map.frame_height(),
                    edge_map.samples(),
                    scheduled_threshold(search, k as nat),
                    search.suppression_radius,
                    #[trigger] answers[k],
                ),
            forall|k: int| 1 <= k < answers.len() ==> #[trigger] asks_again(*edge_map, search, answers, k as nat),
        decreases u32::MAX - threshold,
    {
        proof {
            assert(asks_again(*edge_map, search, answers, answers.len()));
        }
        let ghost before = answers;
        last_lines = detect_lines(edge_map, threshold, search.suppression_radius);
        proof {
            answers = answers.push(last_lines@);
            assert forall|k: int| 1 <= k < answers.len() implies #[trigger] asks_again(
                *edge_map,
                search,
                answers,
                k as nat,
            ) by {
                if k < before.len() {
                    assert(asks_again(*edge_map, search, before, k as nat));
                    assert(answers[k - 1] == before[k - 1]);
                } else {
                    assert(answers[k - 1] == before[before.len() - 1]);
                }
            }
        }
        threshold = threshold.saturating_add(50);
    }
    let ghost last = last_lines@;
    assert(!asks_again(*edge_map, search, answers, answers.len()));
    last_lines.truncate(search.maximum_lines);
    proof {
        if last.len() > search.maximum_lines {
            assert(last_lines@ =~= last.take(search.maximum_lines as int));
        } else {
            assert(last_lines@ =~= last);
        }
        assert(line_search_outcome(*edge_map, search, answers, last_lines@));
    }
    last_lines
}

} // verus!
