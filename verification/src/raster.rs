//! Grayscale rasters and the exact integer scans the analysis layers build on.
//!
//! Every quantity here is an integer. The residual of an interior pixel is
//! kept at four times its value (`4·c − (l + r + u + d)`), so that the quarter
//! steps of the local-mean residual stay exact.

use vstd::prelude::*;
use vstd::arithmetic::div_mod::{lemma_fundamental_div_mod, lemma_fundamental_div_mod_converse};
use vstd::arithmetic::mul::lemma_mul_inequality;
use crate::config::{HYBRID_MIN_DIM, HYBRID_TILE_MAX, HYBRID_TILE_MIN, PRNU_BLOCK_SIZE};

verus! {

/// Mathematical model of a grayscale raster: row-major 8-bit samples.
pub struct GrayImageView {
    pub width: nat,
    pub height: nat,
    pub pixels: Seq<u8>,
}

/// The sample at column `x`, row `y`.
pub open spec fn px(v: GrayImageView, x: int, y: int) -> int {
    v.pixels[y * v.width + x] as int
}

/// A raster model is well formed when it holds exactly one sample per cell.
pub open spec fn raster_wf(v: GrayImageView) -> bool {
    v.pixels.len() == v.width * v.height
}

/// Single-channel 8-bit raster, row-major.
pub struct GrayImage {
    width: u32,
    height: u32,
    pixels: Vec<u8>,
}

impl GrayImage {
    #[verifier::type_invariant]
    spec fn inv(self) -> bool {
        self.pixels@.len() == self.width as nat * self.height as nat
    }
}

impl View for GrayImage {
    type V = GrayImageView;

    closed spec fn view(&self) -> GrayImageView {
        GrayImageView { width: self.width as nat, height: self.height as nat, pixels: self.pixels@ }
    }
}

proof fn lemma_index_in_bounds(x: int, y: int, w: int, h: int)
    requires
        0 <= x < w,
        0 <= y < h,
    ensures
        0 <= y * w + x < w * h,
{
    assert(y * w + x < w * h) by (nonlinear_arith)
        requires
            0 <= x < w,
            0 <= y < h,
    ;
    assert(0 <= y * w) by (nonlinear_arith)
        requires
            0 <= x < w,
            0 <= y,
    ;
}

impl GrayImage {
    /// Builds a raster from its samples; `None` when the sample count is not
    /// `width * height`.
    pub fn new(width: u32, height: u32, pixels: Vec<u8>) -> (res: Option<GrayImage>)
        ensures
            res is Some <==> pixels@.len() == width as nat * height as nat,
            res matches Some(img) ==> img@ == (GrayImageView {
                width: width as nat,
                height: height as nat,
                pixels: pixels@,
            }),
            res matches Some(img) ==> raster_wf(img@),
    {
        assert((width as int) * (height as int) <= 0xFFFF_FFFFint * 0xFFFF_FFFFint) by (nonlinear_arith)
            requires
                width <= 0xFFFF_FFFFint,
                height <= 0xFFFF_FFFFint,
        ;
        let cells: u64 = (width as u64) * (height as u64);
        if pixels.len() as u64 == cells {
            Some(GrayImage { width, height, pixels })
        } else {
            None
        }
    }

    pub fn width(&self) -> (w: u32)
        ensures
            w == self@.width,
    {
        self.width
    }

    pub fn height(&self) -> (h: u32)
        ensures
            h == self@.height,
    {
        self.height
    }

    /// The row-major samples.
    pub fn pixels(&self) -> (p: &[u8])
        ensures
            p@ == self@.pixels,
            raster_wf(self@),
    {
        proof {
            use_type_invariant(self);
        }
        self.pixels.as_slice()
    }

    /// The sample at column `x`, row `y`.
    pub fn get_pixel(&self, x: u32, y: u32) -> (p: u8)
        requires
            x < self@.width,
            y < self@.height,
        ensures
            p as int == px(self@, x as int, y as int),
            raster_wf(self@),
    {
        proof {
            use_type_invariant(self);
            lemma_index_in_bounds(x as int, y as int, self.width as int, self.height as int);
        }
        let n = self.pixels.len();
        assert((y as int) * (self.width as int) + (x as int) < (n as int));
        let i: usize = (y as usize) * (self.width as usize) + (x as usize);
        self.pixels[i]
    }
}


// ─── Interior scan ──────────────────────────────────────────────────────────

pub open spec fn abs(a: int) -> int {
    if a < 0 { -a } else { a }
}

/// Four times the difference between a sample and the mean of its four
/// neighbours.
pub open spec fn residual4(v: GrayImageView, x: int, y: int) -> int {
    4 * px(v, x, y) - (px(v, x - 1, y) + px(v, x + 1, y) + px(v, x, y - 1) + px(v, x, y + 1))
}

/// Width of the interior (the raster without its border), zero when the
/// raster is narrower or shorter than three samples.
pub open spec fn interior_width(v: GrayImageView) -> nat {
    if v.width >= 3 && v.height >= 3 { (v.width - 2) as nat } else { 0 }
}

pub open spec fn interior_height(v: GrayImageView) -> nat {
    if v.width >= 3 && v.height >= 3 { (v.height - 2) as nat } else { 0 }
}

pub open spec fn interior_count(v: GrayImageView) -> nat {
    interior_width(v) * interior_height(v)
}

/// Column of the `k`-th interior sample in row-major order.
pub open spec fn cell_x(v: GrayImageView, k: int) -> int {
    k % (interior_width(v) as int) + 1
}

/// Row of the `k`-th interior sample in row-major order.
pub open spec fn cell_y(v: GrayImageView, k: int) -> int {
    k / (interior_width(v) as int) + 1
}

/// `f(0) + f(1) + … + f(n − 1)`.
pub open spec fn sum_to(f: spec_fn(int) -> int, n: int) -> int
    decreases n,
{
    if n <= 0 { 0 } else { sum_to(f, n - 1) + f(n - 1) }
}

/// Residual of the `k`-th interior sample, four times scaled.
pub open spec fn residual_at(v: GrayImageView, k: int) -> int {
    residual4(v, cell_x(v, k), cell_y(v, k))
}

pub open spec fn noise_term(v: GrayImageView) -> spec_fn(int) -> int {
    |k: int| abs(residual_at(v, k))
}

pub open spec fn edge_term(v: GrayImageView) -> spec_fn(int) -> int {
    |k: int|
        abs(px(v, cell_x(v, k), cell_y(v, k)) - px(v, cell_x(v, k) + 1, cell_y(v, k)))
            + abs(px(v, cell_x(v, k), cell_y(v, k)) - px(v, cell_x(v, k), cell_y(v, k) + 1))
}

/// Whether the `k`-th interior sample lies on an 8×8 block boundary.
pub open spec fn on_block_boundary(v: GrayImageView, k: int) -> bool {
    cell_x(v, k) % 8 == 0 || cell_y(v, k) % 8 == 0
}

pub open spec fn left_delta(v: GrayImageView, k: int) -> int {
    abs(px(v, cell_x(v, k), cell_y(v, k)) - px(v, cell_x(v, k) - 1, cell_y(v, k)))
}

pub open spec fn boundary_delta_term(v: GrayImageView) -> spec_fn(int) -> int {
    |k: int| if on_block_boundary(v, k) { left_delta(v, k) } else { 0 }
}

pub open spec fn boundary_count_term(v: GrayImageView) -> spec_fn(int) -> int {
    |k: int| if on_block_boundary(v, k) { 1int } else { 0int }
}

pub open spec fn inner_delta_term(v: GrayImageView) -> spec_fn(int) -> int {
    |k: int| if on_block_boundary(v, k) { 0 } else { left_delta(v, k) }
}

pub open spec fn inner_count_term(v: GrayImageView) -> spec_fn(int) -> int {
    |k: int| if on_block_boundary(v, k) { 0int } else { 1int }
}

/// Exact integer aggregates of one pass over the interior of a raster.
pub struct PixelStats {
    /// Σ |4·c − (l + r + u + d)| over the interior.
    pub noise_sum: u128,
    /// Σ (|c − r| + |c − d|) over the interior.
    pub edge_sum: u128,
    /// Number of interior samples.
    pub pixel_count: u128,
    /// Σ |c − l| over interior samples on an 8×8 block boundary.
    pub boundary_sum: u128,
    pub boundary_count: u128,
    /// Σ |c − l| over the other interior samples.
    pub inner_sum: u128,
    pub inner_count: u128,
    /// Residuals of the interior, four times scaled, row-major.
    pub residual: Vec<i32>,
    pub residual_width: usize,
    pub residual_height: usize,
}

/// What one pass over the interior of `v` yields.
pub open spec fn pixel_stats_match(v: GrayImageView, s: PixelStats) -> bool {
    let n = interior_count(v) as int;
    &&& s.residual_width == interior_width(v)
    &&& s.residual_height == interior_height(v)
    &&& s.residual@.len() == n
    &&& forall|k: int| 0 <= k < n ==> #[trigger] s.residual@[k] as int == residual_at(v, k)
    &&& s.pixel_count == n
    &&& s.noise_sum == sum_to(noise_term(v), n)
    &&& s.edge_sum == sum_to(edge_term(v), n)
    &&& s.boundary_sum == sum_to(boundary_delta_term(v), n)
    &&& s.boundary_count == sum_to(boundary_count_term(v), n)
    &&& s.inner_sum == sum_to(inner_delta_term(v), n)
    &&& s.inner_count == sum_to(inner_count_term(v), n)
}

proof fn lemma_cell(v: GrayImageView, k: int, x: int, y: int)
    requires
        interior_width(v) > 0,
        1 <= x <= interior_width(v),
        y >= 1,
        k == (y - 1) * (interior_width(v) as int) + (x - 1),
    ensures
        cell_x(v, k) == x,
        cell_y(v, k) == y,
{
    lemma_fundamental_div_mod_converse(k, interior_width(v) as int, y - 1, x - 1);
}

fn abs_diff(a: i32, b: i32) -> (d: u128)
    requires
        0 <= a <= 255,
        0 <= b <= 255,
    ensures
        d == abs(a - b),
        d <= 255,
{
    if a < b { (b - a) as u128 } else { (a - b) as u128 }
}

/// One pass over the interior of `gray`: residual map and the exact sums that
/// the noise, edge and block-artifact scores are normalised from.
pub fn compute_pixel_stats_and_residual(gray: &GrayImage) -> (res: PixelStats)
    ensures
        pixel_stats_match(gray@, res),
{
    proof {
        use_type_invariant(gray);
    }
    let width = gray.width;
    let height = gray.height;
    if width < 3 || height < 3 {
        return PixelStats {
            noise_sum: 0,
            edge_sum: 0,
            pixel_count: 0,
            boundary_sum: 0,
            boundary_count: 0,
            inner_sum: 0,
            inner_count: 0,
            residual: Vec::new(),
            residual_width: 0,
            residual_height: 0,
        };
    }
    let ghost v = gray@;
    let ghost iw = interior_width(v) as int;
    let npix = gray.pixels.len();
    let inner_w = (width - 2) as usize;
    let inner_h = (height - 2) as usize;
    let mut residual: Vec<i32> = Vec::new();
    let mut noise_sum: u128 = 0;
    let mut edge_sum: u128 = 0;
    let mut boundary_sum: u128 = 0;
    let mut boundary_count: u128 = 0;
    let mut inner_sum: u128 = 0;
    let mut inner_count: u128 = 0;

    let mut y: u32 = 1;
    while y < height - 1
        invariant
            gray@ == v,
            v.width == width,
            v.height == height,
            raster_wf(v),
            v.pixels.len() == npix,
            3 <= width,
            3 <= height,
            iw == width - 2,
            1 <= y <= height - 1,
            residual@.len() == (y - 1) * iw,
            forall|k: int| 0 <= k < residual@.len() ==> #[trigger] residual@[k] as int == residual_at(v, k),
            noise_sum == sum_to(noise_term(v), residual@.len() as int),
            edge_sum == sum_to(edge_term(v), residual@.len() as int),
            boundary_sum == sum_to(boundary_delta_term(v), residual@.len() as int),
            boundary_count == sum_to(boundary_count_term(v), residual@.len() as int),
            inner_sum == sum_to(inner_delta_term(v), residual@.len() as int),
            inner_count == sum_to(inner_count_term(v), residual@.len() as int),
            noise_sum <= 1020 * residual@.len(),
            edge_sum <= 510 * residual@.len(),
            boundary_sum + inner_sum <= 255 * residual@.len(),
            boundary_count + inner_count == residual@.len(),
        decreases height - 1 - y,
    {
        let mut x: u32 = 1;
        while x < width - 1
            invariant
                gray@ == v,
                v.width == width,
                v.height == height,
                raster_wf(v),
                v.pixels.len() == npix,
                3 <= width,
                3 <= height,
                iw == width - 2,
                1 <= y < height - 1,
                1 <= x <= width - 1,
                residual@.len() == (y - 1) * iw + (x - 1),
                forall|k: int| 0 <= k < residual@.len() ==> #[trigger] residual@[k] as int == residual_at(v, k),
                noise_sum == sum_to(noise_term(v), residual@.len() as int),
                edge_sum == sum_to(edge_term(v), residual@.len() as int),
                boundary_sum == sum_to(boundary_delta_term(v), residual@.len() as int),
                boundary_count == sum_to(boundary_count_term(v), residual@.len() as int),
                inner_sum == sum_to(inner_delta_term(v), residual@.len() as int),
                inner_count == sum_to(inner_count_term(v), residual@.len() as int),
                noise_sum <= 1020 * residual@.len(),
                edge_sum <= 510 * residual@.len(),
                boundary_sum + inner_sum <= 255 * residual@.len(),
                boundary_count + inner_count == residual@.len(),
            decreases width - 1 - x,
        {
            let ghost k = residual@.len() as int;
            proof {
                lemma_cell(v, k, x as int, y as int);
                assert(k < (width as int) * (height as int)) by (nonlinear_arith)
                    requires
                        k == (y - 1) * (width - 2) + (x - 1),
                        1 <= x < width - 1,
                        1 <= y < height - 1,
                ;
                assert(k < usize::MAX);
            }
            let center = gray.get_pixel(x, y) as i32;
            let left = gray.get_pixel(x - 1, y) as i32;
            let right = gray.get_pixel(x + 1, y) as i32;
            let up = gray.get_pixel(x, y - 1) as i32;
            let down = gray.get_pixel(x, y + 1) as i32;

            let r4: i32 = 4 * center - (left + right + up + down);
            let noise_term_k: u128 = if r4 < 0 { (-r4) as u128 } else { r4 as u128 };
            noise_sum = noise_sum + noise_term_k;
            edge_sum = edge_sum + abs_diff(center, right) + abs_diff(center, down);

            let neighbor_delta = abs_diff(center, left);
            if x % 8 == 0 || y % 8 == 0 {
                boundary_sum = boundary_sum + neighbor_delta;
                boundary_count = boundary_count + 1;
            } else {
                inner_sum = inner_sum + neighbor_delta;
                inner_count = inner_count + 1;
            }
            residual.push(r4);
            proof {
                assert(residual_at(v, k) == r4);
                assert(sum_to(noise_term(v), k + 1) == sum_to(noise_term(v), k) + noise_term(v)(k));
                assert(sum_to(edge_term(v), k + 1) == sum_to(edge_term(v), k) + edge_term(v)(k));
                assert(sum_to(boundary_delta_term(v), k + 1) == sum_to(boundary_delta_term(v), k) + boundary_delta_term(v)(k));
                assert(sum_to(boundary_count_term(v), k + 1) == sum_to(boundary_count_term(v), k) + boundary_count_term(v)(k));
                assert(sum_to(inner_delta_term(v), k + 1) == sum_to(inner_delta_term(v), k) + inner_delta_term(v)(k));
                assert(sum_to(inner_count_term(v), k + 1) == sum_to(inner_count_term(v), k) + inner_count_term(v)(k));
            }
            x = x + 1;
        }
        proof {
            assert((y - 1) * iw + iw == y * iw) by (nonlinear_arith);
        }
        y = y + 1;
    }
    proof {
        assert(residual@.len() == interior_count(v)) by (nonlinear_arith)
            requires
                residual@.len() == (height - 2) * iw,
                interior_count(v) == iw * (height - 2),
        ;
    }
    PixelStats {
        noise_sum,
        edge_sum,
        pixel_count: residual.len() as u128,
        boundary_sum,
        boundary_count,
        inner_sum,
        inner_count,
        residual,
        residual_width: inner_w,
        residual_height: inner_h,
    }
}

/// Central differences at the `k`-th interior sample: right minus left, and
/// below minus above.
pub open spec fn gradient_at(v: GrayImageView, k: int) -> (int, int) {
    let x = cell_x(v, k);
    let y = cell_y(v, k);
    (px(v, x + 1, y) - px(v, x - 1, y), px(v, x, y + 1) - px(v, x, y - 1))
}

/// The gradient of every interior sample, row-major.
pub fn gradient_field(gray: &GrayImage) -> (res: Vec<(i32, i32)>)
    ensures
        res@.len() == interior_count(gray@),
        forall|k: int|
            0 <= k < res@.len() ==> (#[trigger] res@[k]).0 as int == gradient_at(gray@, k).0 && res@[k].1 as int
                == gradient_at(gray@, k).1,
{
    proof {
        use_type_invariant(gray);
    }
    let width = gray.width;
    let height = gray.height;
    let mut field: Vec<(i32, i32)> = Vec::new();
    if width < 3 || height < 3 {
        return field;
    }
    let ghost v = gray@;
    let ghost iw = interior_width(v) as int;
    let npix = gray.pixels.len();
    let mut y: u32 = 1;
    while y < height - 1
        invariant
            gray@ == v,
            v.width == width,
            v.height == height,
            raster_wf(v),
            v.pixels.len() == npix,
            3 <= width,
            3 <= height,
            iw == width - 2,
            1 <= y <= height - 1,
            field@.len() == (y - 1) * iw,
            forall|k: int|
                0 <= k < field@.len() ==> (#[trigger] field@[k]).0 as int == gradient_at(v, k).0 && field@[k].1 as int
                    == gradient_at(v, k).1,
        decreases height - 1 - y,
    {
        let mut x: u32 = 1;
        while x < width - 1
            invariant
                gray@ == v,
                v.width == width,
                v.height == height,
                raster_wf(v),
                v.pixels.len() == npix,
                3 <= width,
                3 <= height,
                iw == width - 2,
                1 <= y < height - 1,
                1 <= x <= width - 1,
                field@.len() == (y - 1) * iw + (x - 1),
                forall|k: int|
                    0 <= k < field@.len() ==> (#[trigger] field@[k]).0 as int == gradient_at(v, k).0 && field@[k].1 as int
                        == gradient_at(v, k).1,
            decreases width - 1 - x,
        {
            let ghost k = field@.len() as int;
            proof {
                lemma_cell(v, k, x as int, y as int);
                assert(k < (width as int) * (height as int)) by (nonlinear_arith)
                    requires
                        k == (y - 1) * (width - 2) + (x - 1),
                        1 <= x < width - 1,
                        1 <= y < height - 1,
                ;
            }
            let gx = gray.get_pixel(x + 1, y) as i32 - gray.get_pixel(x - 1, y) as i32;
            let gy = gray.get_pixel(x, y + 1) as i32 - gray.get_pixel(x, y - 1) as i32;
            field.push((gx, gy));
            x = x + 1;
        }
        proof {
            assert((y - 1) * iw + iw == y * iw) by (nonlinear_arith);
        }
        y = y + 1;
    }
    proof {
        assert(field@.len() == interior_count(v)) by (nonlinear_arith)
            requires
                field@.len() == (height - 2) * iw,
                interior_count(v) == iw * (height - 2),
        ;
    }
    field
}

/// The interior residual map (four times scaled) and its dimensions.
pub fn compute_residual_map(gray: &GrayImage) -> (res: (Vec<i32>, usize, usize))
    ensures
        res.1 == interior_width(gray@),
        res.2 == interior_height(gray@),
        res.0@.len() == interior_count(gray@),
        forall|k: int| 0 <= k < res.0@.len() ==> #[trigger] res.0@[k] as int == residual_at(gray@, k),
{
    let stats = compute_pixel_stats_and_residual(gray);
    (stats.residual, stats.residual_width, stats.residual_height)
}


// ─── Rectangle sums ─────────────────────────────────────────────────────────

/// `g(x0, y) + g(x0 + 1, y) + … + g(x0 + n − 1, y)`.
pub open spec fn row_sum(g: spec_fn(int, int) -> int, x0: int, y: int, n: int) -> int
    decreases n,
{
    if n <= 0 { 0 } else { row_sum(g, x0, y, n - 1) + g(x0 + n - 1, y) }
}

/// Sum of `g` over the `cols × rows` rectangle whose top-left cell is `(x0, y0)`.
pub open spec fn rect_sum(g: spec_fn(int, int) -> int, x0: int, y0: int, cols: int, rows: int) -> int
    decreases rows,
{
    if rows <= 0 { 0 } else { rect_sum(g, x0, y0, cols, rows - 1) + row_sum(g, x0, y0 + rows - 1, cols) }
}

pub open spec fn sample_fn(v: GrayImageView) -> spec_fn(int, int) -> int {
    |x: int, y: int| px(v, x, y)
}

pub open spec fn sample_sq_fn(v: GrayImageView) -> spec_fn(int, int) -> int {
    |x: int, y: int| px(v, x, y) * px(v, x, y)
}

/// Sum and sum of squares of the samples of the `block × block` square at
/// block column `bi`, block row `bj`.
pub open spec fn block_moment(v: GrayImageView, block: int, bi: int, bj: int) -> (int, int) {
    (
        rect_sum(sample_fn(v), bi * block, bj * block, block, block),
        rect_sum(sample_sq_fn(v), bi * block, bj * block, block, block),
    )
}

proof fn lemma_tiles_cover(total: int, tile: int)
    requires
        tile > 0,
        total >= 0,
    ensures
        (total / tile) * tile <= total,
        total / tile >= 0,
{
    lemma_fundamental_div_mod(total, tile);
    vstd::arithmetic::div_mod::lemma_mod_pos_bound(total, tile);
    vstd::arithmetic::div_mod::lemma_div_pos_is_pos(total, tile);
    assert(tile * (total / tile) == (total / tile) * tile) by (nonlinear_arith);
}

proof fn lemma_grid_index_bound(bi: int, bj: int, bx: int, by: int, tile: int, w: int, h: int)
    requires
        0 <= bi < bx,
        0 <= bj < by,
        tile > 0,
        bx * tile <= w,
        by * tile <= h,
    ensures
        bj * bx + bi < w * h,
{
    assert(bj * bx + bi < bx * by) by (nonlinear_arith)
        requires
            0 <= bi < bx,
            0 <= bj < by,
    ;
    assert(bx * by <= w * h) by (nonlinear_arith)
        requires
            0 < bx,
            0 < by,
            tile > 0,
            bx * tile <= w,
            by * tile <= h,
    ;
}

proof fn lemma_tiles_fit(total: int, tile: int, i: int)
    requires
        tile > 0,
        total >= 0,
        0 <= i < total / tile,
    ensures
        (i + 1) * tile <= total,
        i * tile >= 0,
{
    lemma_fundamental_div_mod(total, tile);
    lemma_mul_inequality(i + 1, total / tile, tile);
    assert(i * tile >= 0) by (nonlinear_arith)
        requires
            i >= 0,
            tile > 0,
    ;
}

fn block_sums(gray: &GrayImage, x0: u32, y0: u32, block: u32) -> (res: (u128, u128))
    requires
        x0 as int + block as int <= gray@.width,
        y0 as int + block as int <= gray@.height,
    ensures
        res.0 == rect_sum(sample_fn(gray@), x0 as int, y0 as int, block as int, block as int),
        res.1 == rect_sum(sample_sq_fn(gray@), x0 as int, y0 as int, block as int, block as int),
{
    proof {
        use_type_invariant(gray);
    }
    let ghost v = gray@;
    let ghost g = sample_fn(v);
    let ghost gq = sample_sq_fn(v);
    let mut sum: u128 = 0;
    let mut sum_sq: u128 = 0;
    let mut r: u32 = 0;
    while r < block
        invariant
            gray@ == v,
            g == sample_fn(v),
            gq == sample_sq_fn(v),
            x0 as int + block as int <= v.width,
            y0 as int + block as int <= v.height,
            v.width <= u32::MAX,
            v.height <= u32::MAX,
            r <= block,
            sum == rect_sum(g, x0 as int, y0 as int, block as int, r as int),
            sum_sq == rect_sum(gq, x0 as int, y0 as int, block as int, r as int),
            sum <= 255 * (r * block),
            sum_sq <= 65025 * (r * block),
        decreases block - r,
    {
        let mut c: u32 = 0;
        let ghost row_base_sum = sum;
        let ghost row_base_sq = sum_sq;
        while c < block
            invariant
                gray@ == v,
                g == sample_fn(v),
                gq == sample_sq_fn(v),
                x0 as int + block as int <= v.width,
                y0 as int + block as int <= v.height,
                v.width <= u32::MAX,
                v.height <= u32::MAX,
                r < block,
                c <= block,
                row_base_sum == rect_sum(g, x0 as int, y0 as int, block as int, r as int),
                row_base_sq == rect_sum(gq, x0 as int, y0 as int, block as int, r as int),
                sum == row_base_sum + row_sum(g, x0 as int, y0 + r, c as int),
                sum_sq == row_base_sq + row_sum(gq, x0 as int, y0 + r, c as int),
                sum <= 255 * (r * block + c),
                sum_sq <= 65025 * (r * block + c),
            decreases block - c,
        {
            proof {
                assert((r as int) * (block as int) + (c as int) < 0x1_0000_0000_0000_0000int) by (nonlinear_arith)
                    requires
                        r < block,
                        c < block,
                        block <= u32::MAX,
                ;
            }
            let p = gray.get_pixel(x0 + c, y0 + r) as u128;
            proof {
                assert(p * p <= 65025) by (nonlinear_arith)
                    requires
                        p <= 255,
                ;
            }
            sum = sum + p;
            sum_sq = sum_sq + p * p;
            proof {
                assert(row_sum(g, x0 as int, y0 + r, c + 1) == row_sum(g, x0 as int, y0 + r, c as int) + g(x0 + c, y0 + r));
                assert(row_sum(gq, x0 as int, y0 + r, c + 1) == row_sum(gq, x0 as int, y0 + r, c as int) + gq(x0 + c, y0 + r));
            }
            c = c + 1;
        }
        proof {
            assert(rect_sum(g, x0 as int, y0 as int, block as int, r + 1) == rect_sum(g, x0 as int, y0 as int, block as int, r as int) + row_sum(g, x0 as int, y0 + r, block as int));
            assert(rect_sum(gq, x0 as int, y0 as int, block as int, r + 1) == rect_sum(gq, x0 as int, y0 as int, block as int, r as int) + row_sum(gq, x0 as int, y0 + r, block as int));
            assert((r as int) * (block as int) + (block as int) == (r as int + 1) * (block as int)) by (nonlinear_arith);
        }
        r = r + 1;
    }
    (sum, sum_sq)
}

/// Per-block sum and sum of squares of the samples, for every whole
/// `block × block` square of the raster, blocks in row-major order.
pub fn block_moments(gray: &GrayImage, block: usize) -> (res: Vec<(u128, u128)>)
    requires
        block > 0,
    ensures
        res@.len() == (gray@.width / block as nat) * (gray@.height / block as nat),
        forall|j: int|
            0 <= j < res@.len() ==> {
                let bx = (gray@.width / block as nat) as int;
                (#[trigger] res@[j]).0 == block_moment(gray@, block as int, j % bx, j / bx).0
                    && res@[j].1 == block_moment(gray@, block as int, j % bx, j / bx).1
            },
{
    let width = gray.width();
    let height = gray.height();
    let ghost v = gray@;
    let npix = gray.pixels().len();
    let blocks_x: usize = (width as usize) / block;
    let blocks_y: usize = (height as usize) / block;
    let mut out: Vec<(u128, u128)> = Vec::new();
    if blocks_x == 0 || blocks_y == 0 {
        proof {
            assert(blocks_x * blocks_y == 0) by (nonlinear_arith)
                requires
                    blocks_x == 0 || blocks_y == 0,
            ;
        }
        return out;
    }
    proof {
        lemma_tiles_fit(width as int, block as int, 0);
        lemma_tiles_cover(width as int, block as int);
        lemma_tiles_cover(height as int, block as int);
    }
    let b: u32 = block as u32;
    let mut bj: usize = 0;
    while bj < blocks_y
        invariant
            gray@ == v,
            v.width == width,
            v.height == height,
            raster_wf(v),
            npix == v.pixels.len(),
            b == block,
            block > 0,
            blocks_x == width as int / block as int,
            blocks_y == height as int / block as int,
            blocks_x * block <= width,
            blocks_y * block <= height,
            blocks_x > 0,
            bj <= blocks_y,
            out@.len() == bj * blocks_x,
            forall|j: int|
                0 <= j < out@.len() ==> (#[trigger] out@[j]).0 == block_moment(v, block as int, j % (blocks_x as int), j / (blocks_x as int)).0
                    && out@[j].1 == block_moment(v, block as int, j % (blocks_x as int), j / (blocks_x as int)).1,
        decreases blocks_y - bj,
    {
        let mut bi: usize = 0;
        while bi < blocks_x
            invariant
                gray@ == v,
                v.width == width,
                v.height == height,
                raster_wf(v),
                npix == v.pixels.len(),
                b == block,
                block > 0,
                blocks_x == width as int / block as int,
                blocks_y == height as int / block as int,
                blocks_x * block <= width,
                blocks_y * block <= height,
                blocks_x > 0,
                bj < blocks_y,
                bi <= blocks_x,
                out@.len() == bj * blocks_x + bi,
                forall|j: int|
                    0 <= j < out@.len() ==> (#[trigger] out@[j]).0 == block_moment(v, block as int, j % (blocks_x as int), j / (blocks_x as int)).0
                        && out@[j].1 == block_moment(v, block as int, j % (blocks_x as int), j / (blocks_x as int)).1,
            decreases blocks_x - bi,
        {
            proof {
                lemma_tiles_fit(width as int, block as int, bi as int);
                lemma_tiles_fit(height as int, block as int, bj as int);
                lemma_fundamental_div_mod_converse(out@.len() as int, blocks_x as int, bj as int, bi as int);
                lemma_grid_index_bound(bi as int, bj as int, blocks_x as int, blocks_y as int, block as int, width as int, height as int);
                assert(bi * block + block == (bi + 1) * block) by (nonlinear_arith);
                assert(bj * block + block == (bj + 1) * block) by (nonlinear_arith);
            }
            let x0: u32 = (bi * block) as u32;
            let y0: u32 = (bj * block) as u32;
            let m = block_sums(gray, x0, y0, b);
            out.push(m);
            bi = bi + 1;
        }
        proof {
            assert(bj * blocks_x + blocks_x == (bj + 1) * blocks_x) by (nonlinear_arith);
        }
        bj = bj + 1;
    }
    proof {
        assert(blocks_y * blocks_x == blocks_x * blocks_y) by (nonlinear_arith);
    }
    out
}

// ─── Hybrid-layer tiles ─────────────────────────────────────────────────────

/// `|r|` over a row-major grid of residuals of row length `w`.
pub open spec fn grid_abs_fn(r: Seq<i32>, w: int) -> spec_fn(int, int) -> int {
    |x: int, y: int| abs(r[y * w + x] as int)
}

/// Side of the square tiles of the hybrid layer for a residual whose smaller
/// side is `min_dim`: `min_dim / 8` clamped to the configured tile range.
pub open spec fn hybrid_tile_side(min_dim: int) -> int {
    if min_dim / 8 < HYBRID_TILE_MIN as int {
        HYBRID_TILE_MIN as int
    } else if min_dim / 8 > HYBRID_TILE_MAX as int {
        HYBRID_TILE_MAX as int
    } else {
        min_dim / 8
    }
}

/// The tiling of a residual map that the hybrid layer compares, with the sum
/// of absolute residuals of every tile (row-major).
pub struct TileGrid {
    pub tile: usize,
    pub blocks_x: usize,
    pub blocks_y: usize,
    pub abs_sums: Vec<u64>,
}

/// Tiles the `width × height` residual map for the hybrid layer. `None` when
/// the map is too small for the layer: its smaller side is below the
/// configured minimum, or fewer than two tiles fit along a side.
pub fn hybrid_tile_grid(residual: &[i32], width: usize, height: usize) -> (res: Option<TileGrid>)
    requires
        residual@.len() == width * height,
    ensures
        ({
            let min_dim = if width <= height { width as int } else { height as int };
            let tile = hybrid_tile_side(min_dim);
            match res {
                None => min_dim < HYBRID_MIN_DIM || width as int / tile < 2 || height as int / tile < 2,
                Some(grid) => {
                    &&& min_dim >= HYBRID_MIN_DIM
                    &&& grid.tile == tile
                    &&& grid.blocks_x == width as int / tile
                    &&& grid.blocks_y == height as int / tile
                    &&& grid.blocks_x >= 2
                    &&& grid.blocks_y >= 2
                    &&& grid.abs_sums@.len() == grid.blocks_x * grid.blocks_y
                    &&& forall|j: int|
                        0 <= j < grid.abs_sums@.len() ==> #[trigger] grid.abs_sums@[j] == rect_sum(
                            grid_abs_fn(residual@, width as int),
                            (j % (grid.blocks_x as int)) * tile,
                            (j / (grid.blocks_x as int)) * tile,
                            tile,
                            tile,
                        )
                }
            }
        }),
{
    let min_dim = if width <= height { width } else { height };
    if min_dim < HYBRID_MIN_DIM {
        return None;
    }
    let eighth = min_dim / 8;
    let tile: usize = if eighth < HYBRID_TILE_MIN {
        HYBRID_TILE_MIN
    } else if eighth > HYBRID_TILE_MAX {
        HYBRID_TILE_MAX
    } else {
        eighth
    };
    let blocks_x = width / tile;
    let blocks_y = height / tile;
    if blocks_x < 2 || blocks_y < 2 {
        return None;
    }
    let ghost g = grid_abs_fn(residual@, width as int);
    let n = residual.len();
    proof {
        lemma_tiles_cover(width as int, tile as int);
        lemma_tiles_cover(height as int, tile as int);
    }
    let mut sums: Vec<u64> = Vec::new();
    let mut bj: usize = 0;
    while bj < blocks_y
        invariant
            g == grid_abs_fn(residual@, width as int),
            residual@.len() == width * height,
            n == residual@.len(),
            12 <= tile <= 32,
            blocks_x == width / tile,
            blocks_y == height / tile,
            blocks_x * tile <= width,
            blocks_y * tile <= height,
            blocks_x >= 2,
            bj <= blocks_y,
            sums@.len() == bj * blocks_x,
            forall|j: int|
                0 <= j < sums@.len() ==> #[trigger] sums@[j] == rect_sum(
                    g,
                    (j % (blocks_x as int)) * tile,
                    (j / (blocks_x as int)) * tile,
                    tile as int,
                    tile as int,
                ),
        decreases blocks_y - bj,
    {
        let mut bi: usize = 0;
        while bi < blocks_x
            invariant
                g == grid_abs_fn(residual@, width as int),
                residual@.len() == width * height,
                n == residual@.len(),
                12 <= tile <= 32,
                blocks_x == width / tile,
                blocks_y == height / tile,
                blocks_x * tile <= width,
                blocks_y * tile <= height,
                blocks_x >= 2,
                bj < blocks_y,
                bi <= blocks_x,
                sums@.len() == bj * blocks_x + bi,
                forall|j: int|
                    0 <= j < sums@.len() ==> #[trigger] sums@[j] == rect_sum(
                        g,
                        (j % (blocks_x as int)) * tile,
                        (j / (blocks_x as int)) * tile,
                        tile as int,
                        tile as int,
                    ),
            decreases blocks_x - bi,
        {
            proof {
                lemma_tiles_fit(width as int, tile as int, bi as int);
                lemma_tiles_fit(height as int, tile as int, bj as int);
                lemma_fundamental_div_mod_converse(sums@.len() as int, blocks_x as int, bj as int, bi as int);
                lemma_grid_index_bound(bi as int, bj as int, blocks_x as int, blocks_y as int, tile as int, width as int, height as int);
                assert(bi * tile + tile == (bi + 1) * tile) by (nonlinear_arith);
                assert(bj * tile + tile == (bj + 1) * tile) by (nonlinear_arith);
            }
            let s = tile_abs_sum(residual, width, height, bi * tile, bj * tile, tile);
            sums.push(s);
            bi = bi + 1;
        }
        proof {
            assert(bj * blocks_x + blocks_x == (bj + 1) * blocks_x) by (nonlinear_arith);
        }
        bj = bj + 1;
    }
    proof {
        assert(blocks_y * blocks_x == blocks_x * blocks_y) by (nonlinear_arith);
    }
    Some(TileGrid { tile, blocks_x, blocks_y, abs_sums: sums })
}

fn tile_abs_sum(residual: &[i32], width: usize, height: usize, x0: usize, y0: usize, tile: usize) -> (s: u64)
    requires
        residual@.len() == width * height,
        x0 + tile <= width,
        y0 + tile <= height,
        tile <= 32,
    ensures
        s == rect_sum(grid_abs_fn(residual@, width as int), x0 as int, y0 as int, tile as int, tile as int),
{
    let ghost g = grid_abs_fn(residual@, width as int);
    let n = residual.len();
    let mut sum: u64 = 0;
    let mut r: usize = 0;
    while r < tile
        invariant
            g == grid_abs_fn(residual@, width as int),
            residual@.len() == width * height,
            n == residual@.len(),
            x0 + tile <= width,
            y0 + tile <= height,
            tile <= 32,
            r <= tile,
            sum == rect_sum(g, x0 as int, y0 as int, tile as int, r as int),
            sum <= 0x8000_0000 * (r * tile),
        decreases tile - r,
    {
        let mut c: usize = 0;
        let ghost base = sum;
        while c < tile
            invariant
                g == grid_abs_fn(residual@, width as int),
                residual@.len() == width * height,
                n == residual@.len(),
                x0 + tile <= width,
                y0 + tile <= height,
                tile <= 32,
                r < tile,
                c <= tile,
                base == rect_sum(g, x0 as int, y0 as int, tile as int, r as int),
                sum == base + row_sum(g, x0 as int, y0 + r, c as int),
                sum <= 0x8000_0000 * (r * tile + c),
            decreases tile - c,
        {
            proof {
                lemma_index_in_bounds((x0 + c) as int, (y0 + r) as int, width as int, height as int);
                assert((r as int) * (tile as int) + (c as int) < 1024) by (nonlinear_arith)
                    requires
                        r < tile,
                        c < tile,
                        tile <= 32,
                ;
            }
            let i: usize = (y0 + r) * width + (x0 + c);
            let val = residual[i];
            let a: u64 = if val < 0 { (0i64 - val as i64) as u64 } else { val as u64 };
            sum = sum + a;
            proof {
                assert(row_sum(g, x0 as int, y0 + r, c + 1) == row_sum(g, x0 as int, y0 + r, c as int) + g(x0 + c, y0 + r));
            }
            c = c + 1;
        }
        proof {
            assert(rect_sum(g, x0 as int, y0 as int, tile as int, r + 1) == rect_sum(g, x0 as int, y0 as int, tile as int, r as int) + row_sum(g, x0 as int, y0 + r, tile as int));
            assert((r as int) * (tile as int) + (tile as int) == (r as int + 1) * (tile as int)) by (nonlinear_arith);
        }
        r = r + 1;
    }
    sum
}

// ─── Physical-layer block pairs ─────────────────────────────────────────────

/// Two neighbouring square blocks of the residual map, by their top-left
/// cells, whose residuals the physical layer correlates.
#[derive(Debug, Clone, Copy, PartialEq, Eq, Structural)]
pub struct BlockPair {
    pub x0: usize,
    pub y0: usize,
    pub x1: usize,
    pub y1: usize,
}

/// The pairs a block starts: with its right neighbour, then with the block
/// below, each only when that neighbour exists.
pub open spec fn pairs_of_block(bx: int, by: int, blocks_x: int, blocks_y: int, block: int) -> Seq<BlockPair> {
    let right = if bx + 1 < blocks_x {
        seq![BlockPair { x0: (bx * block) as usize, y0: (by * block) as usize, x1: ((bx + 1) * block) as usize, y1: (by * block) as usize }]
    } else {
        Seq::empty()
    };
    if by + 1 < blocks_y {
        right.push(BlockPair { x0: (bx * block) as usize, y0: (by * block) as usize, x1: (bx * block) as usize, y1: ((by + 1) * block) as usize })
    } else {
        right
    }
}

/// Pairs started by the first `j` blocks in row-major order.
pub open spec fn pairs_upto(blocks_x: int, blocks_y: int, block: int, j: int) -> Seq<BlockPair>
    decreases j,
{
    if j <= 0 || blocks_x <= 0 {
        Seq::empty()
    } else {
        pairs_upto(blocks_x, blocks_y, block, j - 1) + pairs_of_block((j - 1) % blocks_x, (j - 1) / blocks_x, blocks_x, blocks_y, block)
    }
}

/// The block pairs of a `width × height` residual map: none when either side
/// holds fewer than two blocks' worth of cells.
pub open spec fn prnu_pairs(width: int, height: int) -> Seq<BlockPair> {
    let block = PRNU_BLOCK_SIZE as int;
    if width < 2 * block || height < 2 * block {
        Seq::empty()
    } else {
        pairs_upto(width / block, height / block, block, (width / block) * (height / block))
    }
}

/// Both blocks of the pair lie inside the map.
pub open spec fn pair_in_bounds(p: BlockPair, width: int, height: int, block: int) -> bool {
    &&& p.x0 + block <= width
    &&& p.x1 + block <= width
    &&& p.y0 + block <= height
    &&& p.y1 + block <= height
}

/// Neighbouring block pairs the physical layer correlates, in the order it
/// correlates them.
pub fn prnu_block_pairs(width: usize, height: usize) -> (res: Vec<BlockPair>)
    requires
        width * height <= usize::MAX,
    ensures
        res@ == prnu_pairs(width as int, height as int),
        forall|i: int| 0 <= i < res@.len() ==> pair_in_bounds(#[trigger] res@[i], width as int, height as int, PRNU_BLOCK_SIZE as int),
{
    let block = PRNU_BLOCK_SIZE;
    let mut out: Vec<BlockPair> = Vec::new();
    if width < block * 2 || height < block * 2 {
        return out;
    }
    let blocks_x = width / block;
    let blocks_y = height / block;
    proof {
        lemma_tiles_cover(width as int, block as int);
        lemma_tiles_cover(height as int, block as int);
        vstd::arithmetic::div_mod::lemma_div_is_ordered(2 * block as int, width as int, block as int);
        vstd::arithmetic::div_mod::lemma_div_by_multiple(2, block as int);
        assert(2int * (block as int) == (block as int) * 2) by (nonlinear_arith);
    }
    let ghost bxs = blocks_x as int;
    let ghost bys = blocks_y as int;
    let mut by: usize = 0;
    while by < blocks_y
        invariant
            block == PRNU_BLOCK_SIZE,
            width * height <= usize::MAX,
            blocks_x == width / block,
            blocks_y == height / block,
            blocks_x * block <= width,
            blocks_y * block <= height,
            blocks_x >= 2,
            by <= blocks_y,
            bxs == blocks_x,
            bys == blocks_y,
            out@ == pairs_upto(bxs, bys, block as int, by * bxs),
            out@.len() <= 2 * (by * bxs),
            forall|i: int| 0 <= i < out@.len() ==> pair_in_bounds(#[trigger] out@[i], width as int, height as int, block as int),
        decreases blocks_y - by,
    {
        let mut bx: usize = 0;
        while bx < blocks_x
            invariant
                block == PRNU_BLOCK_SIZE,
                width * height <= usize::MAX,
                blocks_x == width / block,
                blocks_y == height / block,
                blocks_x * block <= width,
                blocks_y * block <= height,
                blocks_x >= 2,
                by < blocks_y,
                bx <= blocks_x,
                bxs == blocks_x,
                bys == blocks_y,
                out@ == pairs_upto(bxs, bys, block as int, by * bxs + bx),
                out@.len() <= 2 * (by * bxs + bx),
                forall|i: int| 0 <= i < out@.len() ==> pair_in_bounds(#[trigger] out@[i], width as int, height as int, block as int),
            decreases blocks_x - bx,
        {
            let ghost j = by * bxs + bx;
            let ghost before = out@;
            proof {
                lemma_fundamental_div_mod_converse(j, bxs, by as int, bx as int);
                lemma_tiles_fit(width as int, block as int, bx as int);
                lemma_tiles_fit(height as int, block as int, by as int);
                assert(bx * block + block == (bx + 1) * block) by (nonlinear_arith);
                assert(by * block + block == (by + 1) * block) by (nonlinear_arith);
                assert(bx + 1 < blocks_x ==> (bx + 1) * block + block <= width) by (nonlinear_arith)
                    requires
                        blocks_x * block <= width,
                        block > 0,
                        bx < blocks_x,
                ;
                assert(by + 1 < blocks_y ==> (by + 1) * block + block <= height) by (nonlinear_arith)
                    requires
                        blocks_y * block <= height,
                        block > 0,
                        by < blocks_y,
                ;
                assert(by * bxs + bx < bxs * bys) by (nonlinear_arith)
                    requires
                        0 <= by < bys,
                        0 <= bx < bxs,
                ;
                assert(by * bxs + bx < (width as int) * (height as int) / 24) by (nonlinear_arith)
                    requires
                        by < blocks_y,
                        bx < blocks_x,
                        blocks_x * 24 <= width,
                        blocks_y * 24 <= height,
                        blocks_x >= 2,
                        by * bxs + bx < bxs * bys,
                        bxs == blocks_x,
                        bys == blocks_y,
                ;
                assert(out@.len() + 2 < usize::MAX);
            }
            let x0 = bx * block;
            let y0 = by * block;
            if bx + 1 < blocks_x {
                out.push(BlockPair { x0, y0, x1: (bx + 1) * block, y1: y0 });
            }
            if by + 1 < blocks_y {
                out.push(BlockPair { x0, y0, x1: x0, y1: (by + 1) * block });
            }
            proof {
                assert(out@ =~= before + pairs_of_block(bx as int, by as int, bxs, bys, block as int));
                assert(pairs_upto(bxs, bys, block as int, j + 1) == pairs_upto(bxs, bys, block as int, j) + pairs_of_block(j % bxs, j / bxs, bxs, bys, block as int));
            }
            bx = bx + 1;
        }
        proof {
            assert(by * bxs + bxs == (by + 1) * bxs) by (nonlinear_arith);
        }
        by = by + 1;
    }
    proof {
        assert(bys * bxs == bxs * bys) by (nonlinear_arith);
    }
    out
}

} // verus!
