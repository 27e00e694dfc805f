use vstd::arithmetic::div_mod::lemma_fundamental_div_mod_converse;
use vstd::prelude::*;

verus! {

/// The sub-sample at position `k` of an `aa` by `aa` grid: the grid is walked
/// with the horizontal offset in the outer loop and the vertical one inside.
pub open spec fn grid_cell(aa: int, k: int) -> (usize, usize) {
    ((k / aa) as usize, (k % aa) as usize)
}

/// The pixel at position `k` of the output stream of an image `width` pixels
/// wide and `height` high: rows from the top one (`y == height - 1`) down,
/// each row from left to right.
pub open spec fn raster_pixel(width: int, height: int, k: int) -> (usize, usize) {
    ((k % width) as usize, (height - 1 - k / width) as usize)
}

proof fn lemma_grid_index(q: int, d: int, r: int)
    requires
        0 <= q,
        0 <= r < d,
    ensures
        (q * d + r) / d == q,
        (q * d + r) % d == r,
{
    lemma_fundamental_div_mod_converse(q * d + r, d, q, r);
}

/// The `aa * aa` sub-sample offsets `(ax, ay)` of one pixel, each in `0..aa`,
/// in the order in which they are resolved and summed.
pub fn subsample_grid(aa: usize) -> (r: Vec<(usize, usize)>)
    requires
        aa * aa <= usize::MAX,
    ensures
        r@.len() == aa * aa,
        forall|k: int| 0 <= k < r@.len() ==> #[trigger] r@[k] == grid_cell(aa as int, k),
{
    let mut r: Vec<(usize, usize)> = Vec::new();
    let mut ax: usize = 0;
    while ax < aa
        invariant
            ax <= aa,
            aa * aa <= usize::MAX,
            r@.len() == ax * aa,
            forall|k: int| 0 <= k < r@.len() ==> #[trigger] r@[k] == grid_cell(aa as int, k),
        decreases aa - ax,
    {
        let mut ay: usize = 0;
        while ay < aa
            invariant
                ax < aa,
                ay <= aa,
                aa * aa <= usize::MAX,
                r@.len() == ax * aa + ay,
                forall|k: int| 0 <= k < r@.len() ==> #[trigger] r@[k] == grid_cell(aa as int, k),
            decreases aa - ay,
        {
            proof {
                lemma_grid_index(ax as int, aa as int, ay as int);
            }
            r.push((ax, ay));
            ay = ay + 1;
        }
        proof {
            assert((ax + 1) * aa == ax * aa + aa) by (nonlinear_arith);
        }
        ax = ax + 1;
    }
    r
}

/// Every pixel `(x, y)` of a `width` by `height` image, in the order in which
/// the pixels are emitted.
pub fn pixel_order(width: usize, height: usize) -> (r: Vec<(usize, usize)>)
    requires
        width * height <= usize::MAX,
    ensures
        r@.len() == width * height,
        forall|k: int|
            0 <= k < r@.len() ==> #[trigger] r@[k] == raster_pixel(width as int, height as int, k),
{
    let mut r: Vec<(usize, usize)> = Vec::new();
    let mut row: usize = 0;
    while row < height
        invariant
            row <= height,
            width * height <= usize::MAX,
            r@.len() == row * width,
            forall|k: int|
                0 <= k < r@.len() ==> #[trigger] r@[k] == raster_pixel(
                    width as int,
                    height as int,
                    k,
                ),
        decreases height - row,
    {
        let y: usize = height - 1 - row;
        let mut x: usize = 0;
        while x < width
            invariant
                row < height,
                y == height - 1 - row,
                x <= width,
                width * height <= usize::MAX,
                r@.len() == row * width + x,
                forall|k: int|
                    0 <= k < r@.len() ==> #[trigger] r@[k] == raster_pixel(
                        width as int,
                        height as int,
                        k,
                    ),
            decreases width - x,
        {
            proof {
                lemma_grid_index(row as int, width as int, x as int);
            }
            r.push((x, y));
            x = x + 1;
        }
        proof {
            assert((row + 1) * width == row * width + width) by (nonlinear_arith);
        }
        row = row + 1;
    }
    proof {
        assert(height * width == width * height) by (nonlinear_arith);
    }
    r
}

/// Where sub-sample `sub` of pixel `pixel` lies along one image axis, as the
/// fraction `num / den` of the image's extent `extent` on that axis, with
/// `aa` sub-samples per pixel along the axis.
pub fn sample_position(pixel: usize, sub: usize, aa: usize, extent: usize) -> (r: (usize, usize))
    requires
        pixel < extent,
        sub < aa,
        extent * aa <= usize::MAX,
    ensures
        r.0 == pixel * aa + sub,
        r.1 == extent * aa,
        r.0 < r.1,
{
    proof {
        assert(pixel * aa + sub < extent * aa) by (nonlinear_arith)
            requires
                pixel < extent,
                sub < aa,
        ;
    }
    (pixel * aa + sub, extent * aa)
}

/// An 8-bit channel value for a channel already scaled to `0..=255` and
/// rounded down: levels out of range are clamped rather than wrapped.
pub fn quantize_channel(level: i64) -> (r: u8)
    ensures
        level < 0 ==> r == 0,
        level > 255 ==> r == 255,
        0 <= level <= 255 ==> r == level,
{
    if level < 0 {
        0
    } else if level > 255 {
        255
    } else {
        level as u8
    }
}

} // verus!
