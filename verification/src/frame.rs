//! Row-major 8-bit grayscale frames, and the neighbourhood test that edge
//! support scoring applies to edge maps.

use vstd::prelude::*;

verus! {

/// A grayscale frame: `height` rows of `width` 8-bit samples, stored row by row.
pub struct GrayFrame {
    width: u32,
    height: u32,
    pixels: Vec<u8>,
}

impl GrayFrame {
    #[verifier::type_invariant]
    spec fn sized(self) -> bool {
        self.pixels@.len() == self.width as int * self.height as int
    }

    pub closed spec fn frame_width(self) -> u32 {
        self.width
    }

    pub closed spec fn frame_height(self) -> u32 {
        self.height
    }

    /// The samples, row after row.
    pub closed spec fn samples(self) -> Seq<u8> {
        self.pixels@
    }

    /// The sample in column `x` of row `y`.
    pub open spec fn sample(self, x: int, y: int) -> u8 {
        self.samples()[y * self.frame_width() + x]
    }

    /// A frame of the given size, or `None` when `pixels` does not hold exactly
    /// `width * height` samples.
    pub fn new(width: u32, height: u32, pixels: Vec<u8>) -> (frame: Option<GrayFrame>)
        ensures
            frame is Some <==> pixels@.len() == width as int * height as int,
            frame matches Some(f) ==> f.frame_width() == width && f.frame_height() == height
                && f.samples() == pixels@,
    {
        proof {
            assert(width as int * height as int <= u64::MAX) by (nonlinear_arith)
                requires
                    width <= u32::MAX,
                    height <= u32::MAX,
            ;
        }
        let expected = width as u64 * height as u64;
        if pixels.len() as u64 == expected {
            Some(GrayFrame { width, height, pixels })
        } else {
            None
        }
    }

    pub fn width(&self) -> (w: u32)
        ensures
            w == self.frame_width(),
    {
        self.width
    }

    pub fn height(&self) -> (h: u32)
        ensures
            h == self.frame_height(),
    {
        self.height
    }

    pub fn pixels(&self) -> (p: &Vec<u8>)
        ensures
            p@ == self.samples(),
            p@.len() == self.frame_width() as int * self.frame_height() as int,
    {
        proof {
            use_type_invariant(self);
        }
        &self.pixels
    }

    /// The sample in column `x` of row `y`.
    pub fn get_pixel(&self, x: u32, y: u32) -> (value: u8)
        requires
            x < self.frame_width(),
            y < self.frame_height(),
        ensures
            value == self.sample(x as int, y as int),
    {
        proof {
            use_type_invariant(self);
            assert(y as int * self.width as int + x < self.width as int * self.height as int
                && y as int * self.width as int <= y as int * self.width as int + x)
                by (nonlinear_arith)
                requires
                    x < self.width,
                    y < self.height,
            ;
        }
        let stored = self.pixels.len();
        let index = y as usize * self.width as usize + x as usize;
        assert(index < stored);
        self.pixels[index]
    }
}

/// The sample at `(sx, sy)` lies inside the frame and is non-zero. The
/// frame's width and height are compared as `i32` values, wrapping as Rust's
/// `as` conversion does.
pub open spec fn edge_at(edge_map: GrayFrame, sx: int, sy: int) -> bool {
    &&& 0 <= sx < (edge_map.frame_width() as i32)
    &&& 0 <= sy < (edge_map.frame_height() as i32)
    &&& edge_map.sample(sx, sy) > 0
}

/// Some sample within `radius` of `(x, y)`, in both axes, is an edge.
pub open spec fn edge_near(edge_map: GrayFrame, x: int, y: int, radius: int) -> bool {
    exists|dx: int, dy: int|
        -radius <= dx <= radius && -radius <= dy <= radius && #[trigger] edge_at(edge_map, x + dx, y + dy)
}

/// The square is scanned row by row, left to right, in `i32` coordinates:
/// negating the radius and reaching its first corner must stay in range, and
/// a coordinate past `i32::MAX` must not be reached before an edge is found
/// (past the right end of the first row, or below `i32::MAX` in a later row).
pub open spec fn scan_in_range(edge_map: GrayFrame, x: int, y: int, radius: int) -> bool {
    &&& radius > i32::MIN
    &&& radius >= 0 ==> x - radius >= i32::MIN && y - radius >= i32::MIN
    &&& radius >= 0 && x + radius > i32::MAX ==> exists|dx: int|
        -radius <= dx <= i32::MAX - x && #[trigger] edge_at(edge_map, x + dx, y - radius)
    &&& radius >= 0 && x + radius <= i32::MAX && y + radius > i32::MAX ==> exists|dx: int, dy: int|
        -radius <= dx <= radius && -radius <= dy <= i32::MAX - y && #[trigger] edge_at(
            edge_map,
            x + dx,
            y + dy,
        )
}

/// Whether an edge pixel lies in the `(2 * radius + 1)`-square centred on `(x, y)`.
pub fn has_edge_near(edge_map: &GrayFrame, x: i32, y: i32, radius: i32) -> (found: bool)
    requires
        scan_in_range(*edge_map, x as int, y as int, radius as int),
    ensures
        found == edge_near(*edge_map, x as int, y as int, radius as int),
{
    let width = #[verifier::truncate] (edge_map.width() as i32);
    let height = #[verifier::truncate] (edge_map.height() as i32);
    if radius < 0 {
        return false;
    }
    let r = radius as i64;
    let mut offset_y: i64 = -r;
    while offset_y <= r
        invariant
            0 <= r <= i32::MAX,
            r == radius,
            -r <= offset_y <= r + 1,
            width == edge_map.frame_width() as i32,
            height == edge_map.frame_height() as i32,
            forall|dx: int, dy: int|
                -r <= dx <= r && -r <= dy < offset_y ==> !#[trigger] edge_at(*edge_map, x + dx, y + dy),
        decreases r + 1 - offset_y,
    {
        let mut offset_x: i64 = -r;
        while offset_x <= r
            invariant
                0 <= r <= i32::MAX,
                r == radius,
                -r <= offset_y <= r,
                -r <= offset_x <= r + 1,
                width == edge_map.frame_width() as i32,
                height == edge_map.frame_height() as i32,
                forall|dx: int, dy: int|
                    -r <= dx <= r && -r <= dy < offset_y ==> !#[trigger] edge_at(*edge_map, x + dx, y + dy),
                forall|dx: int| -r <= dx < offset_x ==> !#[trigger] edge_at(*edge_map, x + dx, y + offset_y),
            decreases r + 1 - offset_x,
        {
            let sample_x = x as i64 + offset_x;
            let sample_y = y as i64 + offset_y;
            if sample_x >= 0 && sample_x < width as i64 && sample_y >= 0 && sample_y < height as i64 {
                if edge_map.get_pixel(sample_x as u32, sample_y as u32) > 0 {
                    assert(edge_at(*edge_map, x + offset_x, y + offset_y));
                    return true;
                }
            }
            offset_x = offset_x + 1;
        }
        offset_y = offset_y + 1;
    }
    false
}

} // verus!
