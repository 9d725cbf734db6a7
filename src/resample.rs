//! Thumbnail geometry (fit or fill) and resampling: box-average shrinking
//! and nearest-neighbour stretching. The scale ratio is kept as an exact
//! fraction `ratio_num / ratio_den`.
use vstd::prelude::*;
use vstd::arithmetic::div_mod::{lemma_fundamental_div_mod, lemma_mod_pos_bound, lemma_div_is_ordered};
use crate::header::MAX_DIMENSION;

verus! {

/// Size of the thumbnail, the scale ratio, and where the visible window starts.
#[derive(Debug, Clone, Copy, PartialEq, Eq, Structural)]
pub struct ThumbnailGenerationInfo {
    pub width: usize,
    pub height: usize,
    /// Thumbnail size over source size is `ratio_num / ratio_den`.
    pub ratio_num: usize,
    pub ratio_den: usize,
    /// Offset of the visible window: in source pixels when shrinking, in
    /// thumbnail pixels when stretching.
    pub x_pixel_offset: usize,
    pub y_pixel_offset: usize,
}

/// The thumbnail plan for an `ow` x `oh` image and bounds `mw` x `mh`.
/// With `fill`, the thumbnail is exactly `mw` x `mh` and the less constrained
/// axis sets the ratio, the other being cropped around its centre; without,
/// the more constrained axis sets the ratio and the other is rounded.
pub open spec fn plan_of(ow: nat, oh: nat, mw: nat, mh: nat, fill: bool) -> ThumbnailGenerationInfo {
    if fill {
        if mw * oh > mh * ow {
            let d = mw * oh - mh * ow;
            ThumbnailGenerationInfo {
                width: mw as usize,
                height: mh as usize,
                ratio_num: mw as usize,
                ratio_den: ow as usize,
                x_pixel_offset: 0,
                y_pixel_offset: (if mw > ow { d / (2 * ow) as int } else { d / (2 * mw) as int }) as usize,
            }
        } else {
            let d = mh * ow - mw * oh;
            ThumbnailGenerationInfo {
                width: mw as usize,
                height: mh as usize,
                ratio_num: mh as usize,
                ratio_den: oh as usize,
                x_pixel_offset: (if mh > oh { d / (2 * oh) as int } else { d / (2 * mh) as int }) as usize,
                y_pixel_offset: 0,
            }
        }
    } else if mw * oh < mh * ow {
        ThumbnailGenerationInfo {
            width: mw as usize,
            height: ((2 * (mw * oh) + ow) as int / (2 * ow) as int) as usize,
            ratio_num: mw as usize,
            ratio_den: ow as usize,
            x_pixel_offset: 0,
            y_pixel_offset: 0,
        }
    } else {
        ThumbnailGenerationInfo {
            width: ((2 * (mh * ow) + oh) as int / (2 * oh) as int) as usize,
            height: mh as usize,
            ratio_num: mh as usize,
            ratio_den: oh as usize,
            x_pixel_offset: 0,
            y_pixel_offset: 0,
        }
    }
}

/// Index of byte `k` of pixel (x, y) in a buffer of rows of `w` pixels.
pub open spec fn pixel_index(w: nat, bpp: nat, x: nat, y: nat, k: nat) -> nat {
    y * (w * bpp) + x * bpp + k
}

/// Pixel coordinates (x, y, k) of byte `j` of a buffer of rows of `w` pixels.
pub open spec fn byte_x(j: int, w: nat, bpp: nat) -> nat {
    ((j % (w * bpp) as int) / bpp as int) as nat
}

pub open spec fn byte_y(j: int, w: nat, bpp: nat) -> nat {
    (j / (w * bpp) as int) as nat
}

pub open spec fn byte_k(j: int, w: nat, bpp: nat) -> nat {
    ((j % (w * bpp) as int) % bpp as int) as nat
}

pub open spec fn min_nat(a: nat, b: nat) -> nat {
    if a <= b { a } else { b }
}

/// The source coordinate that thumbnail coordinate `c` copies when stretching.
pub open spec fn stretch_source(c: nat, off: nat, num: nat, den: nat, limit: nat) -> nat {
    min_nat((((c + off) * den) as int / num as int) as nat, (limit - 1) as nat)
}

/// Nearest-neighbour stretch of an `ow` x `oh` image to the plan's size.
pub open spec fn stretched(src: Seq<u8>, ow: nat, oh: nat, bpp: nat, plan: ThumbnailGenerationInfo) -> Seq<u8> {
    Seq::new(
        (plan.height * (plan.width * bpp)) as nat,
        |j: int|
            {
                let sx = stretch_source(byte_x(j, plan.width as nat, bpp), plan.x_pixel_offset as nat, plan.ratio_num as nat, plan.ratio_den as nat, ow);
                let sy = stretch_source(byte_y(j, plan.width as nat, bpp), plan.y_pixel_offset as nat, plan.ratio_num as nat, plan.ratio_den as nat, oh);
                src[pixel_index(ow, bpp, sx, sy, byte_k(j, plan.width as nat, bpp)) as int]
            },
    )
}

/// First source offset whose scaled coordinate floor(t * num / den) reaches `c`.
pub open spec fn cell_start(c: nat, num: nat, den: nat) -> nat {
    ((c * den + num - 1) as int / num as int) as nat
}

/// Source coordinates [lo, hi) that fall into thumbnail cell `c`, clipped to the image.
pub open spec fn cell_lo(c: nat, off: nat, num: nat, den: nat, limit: nat) -> nat {
    min_nat(off + cell_start(c, num, den), limit)
}

pub open spec fn cell_hi(c: nat, off: nat, num: nat, den: nat, limit: nat) -> nat {
    min_nat(off + cell_start(c + 1, num, den), limit)
}

/// Sum of byte `k` over the pixels x0 <= x < x1 of row `y`.
pub open spec fn row_sum(src: Seq<u8>, w: nat, bpp: nat, k: nat, y: nat, x0: nat, x1: nat) -> nat
    decreases x1,
{
    if x1 <= x0 {
        0
    } else {
        (row_sum(src, w, bpp, k, y, x0, (x1 - 1) as nat) + src[pixel_index(w, bpp, (x1 - 1) as nat, y, k) as int]) as nat
    }
}

/// Sum of byte `k` over the rectangle [x0, x1) x [y0, y1).
pub open spec fn region_sum(src: Seq<u8>, w: nat, bpp: nat, k: nat, x0: nat, x1: nat, y0: nat, y1: nat) -> nat
    decreases y1,
{
    if y1 <= y0 {
        0
    } else {
        region_sum(src, w, bpp, k, x0, x1, y0, (y1 - 1) as nat) + row_sum(src, w, bpp, k, (y1 - 1) as nat, x0, x1)
    }
}

/// sum / count rounded to nearest (halves up); 0 for an empty cell.
pub open spec fn rounded_mean(sum: nat, count: nat) -> nat {
    if count == 0 {
        0
    } else {
        ((2 * sum + count) as int / (2 * count) as int) as nat
    }
}

/// Byte `k` of thumbnail cell (cx, cy) when shrinking: the rounded mean of
/// that byte over the source pixels whose scaled coordinates land in the cell.
pub open spec fn shrunk_byte(src: Seq<u8>, ow: nat, oh: nat, bpp: nat, plan: ThumbnailGenerationInfo, cx: nat, cy: nat, k: nat) -> u8 {
    let num = plan.ratio_num as nat;
    let den = plan.ratio_den as nat;
    let x0 = cell_lo(cx, plan.x_pixel_offset as nat, num, den, ow);
    let x1 = cell_hi(cx, plan.x_pixel_offset as nat, num, den, ow);
    let y0 = cell_lo(cy, plan.y_pixel_offset as nat, num, den, oh);
    let y1 = cell_hi(cy, plan.y_pixel_offset as nat, num, den, oh);
    let count = if x0 <= x1 && y0 <= y1 { (x1 - x0) * (y1 - y0) } else { 0 };
    rounded_mean(region_sum(src, ow, bpp, k, x0, x1, y0, y1), count as nat) as u8
}

/// Box-average shrink of an `ow` x `oh` image to the plan's size.
pub open spec fn shrunk(src: Seq<u8>, ow: nat, oh: nat, bpp: nat, plan: ThumbnailGenerationInfo) -> Seq<u8> {
    Seq::new(
        (plan.height * (plan.width * bpp)) as nat,
        |j: int|
            shrunk_byte(src, ow, oh, bpp, plan, byte_x(j, plan.width as nat, bpp), byte_y(j, plan.width as nat, bpp), byte_k(j, plan.width as nat, bpp)),
    )
}

/// The thumbnail's pixels: shrunk when the ratio is below one, stretched otherwise.
pub open spec fn resampled(src: Seq<u8>, ow: nat, oh: nat, bpp: nat, plan: ThumbnailGenerationInfo) -> Seq<u8> {
    if plan.ratio_num < plan.ratio_den {
        shrunk(src, ow, oh, bpp, plan)
    } else {
        stretched(src, ow, oh, bpp, plan)
    }
}

proof fn lemma_quotient_below(x: int, d: int, q: int)
    requires
        d > 0,
        0 <= x < d * (q + 1),
    ensures
        x / d <= q,
{
    lemma_fundamental_div_mod(x, d);
    lemma_mod_pos_bound(x, d);
    let qq = x / d;
    assert(qq <= q) by (nonlinear_arith)
        requires
            x == d * qq + x % d,
            0 <= x % d,
            x < d * (q + 1),
            d > 0,
    ;
}

/// Plans a thumbnail of an image within `max_width` x `max_height`.
pub fn compute_thumbnail_generation_info(orig_width: usize, orig_height: usize, max_width: usize, max_height: usize, zoom_to_fill: bool) -> (r: ThumbnailGenerationInfo)
    requires
        0 < orig_width <= MAX_DIMENSION,
        0 < orig_height <= MAX_DIMENSION,
        0 < max_width <= MAX_DIMENSION,
        0 < max_height <= MAX_DIMENSION,
    ensures
        r == plan_of(orig_width as nat, orig_height as nat, max_width as nat, max_height as nat, zoom_to_fill),
        r.width <= max_width,
        r.height <= max_height,
        0 < r.ratio_num <= MAX_DIMENSION,
        0 < r.ratio_den <= MAX_DIMENSION,
{
    let ow = orig_width as u64;
    let oh = orig_height as u64;
    let mw = max_width as u64;
    let mh = max_height as u64;
    assert(mw * oh <= 0x4000_0000_0000_0000u64 && mh * ow <= 0x4000_0000_0000_0000u64) by (nonlinear_arith)
        requires
            mw <= MAX_DIMENSION,
            oh <= MAX_DIMENSION,
            mh <= MAX_DIMENSION,
            ow <= MAX_DIMENSION,
    ;
    let wide: u64 = mw * oh;
    let tall: u64 = mh * ow;
    if zoom_to_fill {
        if wide > tall {
            let d: u64 = wide - tall;
            let y_off: u64 = if mw > ow { d / (2 * ow) } else { d / (2 * mw) };
            proof {
                vstd::arithmetic::div_mod::lemma_div_is_ordered_by_denominator(d as int, 1, (if mw > ow { 2 * ow } else { 2 * mw }) as int);
            }
            ThumbnailGenerationInfo {
                width: max_width,
                height: max_height,
                ratio_num: max_width,
                ratio_den: orig_width,
                x_pixel_offset: 0,
                y_pixel_offset: y_off as usize,
            }
        } else {
            let d: u64 = tall - wide;
            let x_off: u64 = if mh > oh { d / (2 * oh) } else { d / (2 * mh) };
            proof {
                vstd::arithmetic::div_mod::lemma_div_is_ordered_by_denominator(d as int, 1, (if mh > oh { 2 * oh } else { 2 * mh }) as int);
            }
            ThumbnailGenerationInfo {
                width: max_width,
                height: max_height,
                ratio_num: max_height,
                ratio_den: orig_height,
                x_pixel_offset: x_off as usize,
                y_pixel_offset: 0,
            }
        }
    } else if wide < tall {
        let height: u64 = (2 * wide + ow) / (2 * ow);
        proof {
            assert(2 * wide + ow < 2 * ow * (mh + 1)) by (nonlinear_arith)
                requires
                    wide < tall,
                    tall == mh * ow,
            ;
            lemma_quotient_below((2 * wide + ow) as int, (2 * ow) as int, mh as int);
        }
        ThumbnailGenerationInfo {
            width: max_width,
            height: height as usize,
            ratio_num: max_width,
            ratio_den: orig_width,
            x_pixel_offset: 0,
            y_pixel_offset: 0,
        }
    } else {
        let width: u64 = (2 * tall + oh) / (2 * oh);
        proof {
            assert(2 * tall + oh < 2 * oh * (mw + 1)) by (nonlinear_arith)
                requires
                    tall <= wide,
                    wide == mw * oh,
                    oh > 0,
            ;
            lemma_quotient_below((2 * tall + oh) as int, (2 * oh) as int, mw as int);
        }
        ThumbnailGenerationInfo {
            width: width as usize,
            height: max_height,
            ratio_num: max_height,
            ratio_den: orig_height,
            x_pixel_offset: 0,
            y_pixel_offset: 0,
        }
    }
}

proof fn lemma_pixel_index_bound(w: nat, h: nat, bpp: nat, x: nat, y: nat, k: nat)
    requires
        x < w,
        y < h,
        k < bpp,
    ensures
        pixel_index(w, bpp, x, y, k) < h * (w * bpp),
        x * bpp + k < w * bpp,
{
    assert(x * bpp + k < w * bpp) by (nonlinear_arith)
        requires
            x < w,
            k < bpp,
    ;
    assert(y * (w * bpp) + x * bpp + k < h * (w * bpp)) by (nonlinear_arith)
        requires
            y < h,
            x * bpp + k < w * bpp,
    ;
}

proof fn lemma_byte_coords(j: int, w: nat, h: nat, bpp: nat)
    requires
        0 <= j < h * (w * bpp),
        bpp > 0,
    ensures
        w * bpp > 0,
        byte_x(j, w, bpp) < w,
        byte_y(j, w, bpp) < h,
        byte_k(j, w, bpp) < bpp,
        j == pixel_index(w, bpp, byte_x(j, w, bpp), byte_y(j, w, bpp), byte_k(j, w, bpp)),
{
    assert(w * bpp > 0) by (nonlinear_arith)
        requires
            0 <= j < h * (w * bpp),
    ;
    let wb = (w * bpp) as int;
    lemma_fundamental_div_mod(j, wb);
    lemma_mod_pos_bound(j, wb);
    let rem = j % wb;
    lemma_fundamental_div_mod(rem, bpp as int);
    lemma_mod_pos_bound(rem, bpp as int);
    let y = j / wb;
    let x = rem / bpp as int;
    let k = rem % bpp as int;
    assert(y < h) by (nonlinear_arith)
        requires
            j < h * wb,
            j == wb * y + rem,
            rem >= 0,
            wb > 0,
    ;
    assert(0 <= y) by (nonlinear_arith)
        requires
            j >= 0,
            wb > 0,
            y == j / wb,
    ;
    assert(0 <= x < w) by (nonlinear_arith)
        requires
            0 <= rem < w * bpp,
            rem == bpp * x + k,
            0 <= k < bpp,
            bpp > 0,
    ;
    assert(j == y * wb + x * bpp + k) by (nonlinear_arith)
        requires
            j == wb * y + rem,
            rem == bpp * x + k,
    ;
}

/// The thumbnail's coordinate `c` mapped back to the source when stretching.
fn stretch_coordinate(c: usize, off: usize, num: usize, den: usize, limit: usize) -> (r: usize)
    requires
        0 < num <= MAX_DIMENSION,
        den <= MAX_DIMENSION,
        limit > 0,
    ensures
        r == stretch_source(c as nat, off as nat, num as nat, den as nat, limit as nat),
        r < limit,
{
    assert((c as u128 + off as u128) * den as u128 <= 0x1_0000_0000_0000_0000_0000_0000u128) by (nonlinear_arith)
        requires
            c as u128 + off as u128 <= 0x2_0000_0000_0000_0000u128,
            den <= MAX_DIMENSION,
    ;
    let s: u128 = (c as u128 + off as u128) * den as u128 / num as u128;
    if s < (limit - 1) as u128 {
        s as usize
    } else {
        limit - 1
    }
}

/// Nearest-neighbour stretch: each thumbnail pixel copies the source pixel
/// at floor((coordinate + offset) / ratio), clamped to the image.
pub fn stretch_image(orig_data: Vec<u8>, orig_width: usize, orig_height: usize, bytes_per_pixel: usize, plan: &ThumbnailGenerationInfo) -> (r: Vec<u8>)
    requires
        orig_data@.len() == orig_height * (orig_width * bytes_per_pixel),
        orig_width > 0,
        orig_height > 0,
        bytes_per_pixel > 0,
        0 < plan.ratio_num <= MAX_DIMENSION,
        plan.ratio_den <= MAX_DIMENSION,
        plan.width * bytes_per_pixel <= usize::MAX,
        plan.height * (plan.width * bytes_per_pixel) <= usize::MAX,
    ensures
        r@ == stretched(orig_data@, orig_width as nat, orig_height as nat, bytes_per_pixel as nat, *plan),
{
    let bpp = bytes_per_pixel;
    let ghost spec_out = stretched(orig_data@, orig_width as nat, orig_height as nat, bpp as nat, *plan);
    let n: usize = orig_data.len();
    assert(orig_width * bpp <= orig_height * (orig_width * bpp)) by (nonlinear_arith)
        requires orig_height > 0;
    let total: usize = plan.height * (plan.width * bpp);
    let mut out: Vec<u8> = Vec::with_capacity(total);
    let mut j: usize = 0;
    while j < total
        invariant
            orig_data@.len() == orig_height * (orig_width * bpp),
            n == orig_data@.len(),
            orig_width * bpp <= n,
            orig_width > 0,
            orig_height > 0,
            bpp > 0,
            0 < plan.ratio_num <= MAX_DIMENSION,
            plan.ratio_den <= MAX_DIMENSION,
            plan.width * bpp <= usize::MAX,
            total == plan.height * (plan.width * bpp),
            spec_out == stretched(orig_data@, orig_width as nat, orig_height as nat, bpp as nat, *plan),
            j <= total,
            out@.len() == j,
            forall|i: int| 0 <= i < j ==> #[trigger] out@[i] == spec_out[i],
        decreases total - j,
    {
        proof { lemma_byte_coords(j as int, plan.width as nat, plan.height as nat, bpp as nat); }
        let wb: usize = plan.width * bpp;
        let cy: usize = j / wb;
        let rem: usize = j % wb;
        let cx: usize = rem / bpp;
        let k: usize = rem % bpp;
        let sx = stretch_coordinate(cx, plan.x_pixel_offset, plan.ratio_num, plan.ratio_den, orig_width);
        let sy = stretch_coordinate(cy, plan.y_pixel_offset, plan.ratio_num, plan.ratio_den, orig_height);
        proof { lemma_pixel_index_bound(orig_width as nat, orig_height as nat, bpp as nat, sx as nat, sy as nat, k as nat); }
        let idx: usize = sy * (orig_width * bpp) + sx * bpp + k;
        out.push(orig_data[idx]);
        j = j + 1;
    }
    proof {
        assert(out@ =~= spec_out);
    }
    out
}

/// The source range [lo, hi) of thumbnail coordinate `c` when shrinking.
fn cell_bounds(c: usize, off: usize, num: usize, den: usize, limit: usize) -> (r: (usize, usize))
    requires
        0 < num <= MAX_DIMENSION,
        den <= MAX_DIMENSION,
        c < usize::MAX,
    ensures
        r.0 == cell_lo(c as nat, off as nat, num as nat, den as nat, limit as nat),
        r.1 == cell_hi(c as nat, off as nat, num as nat, den as nat, limit as nat),
        r.0 <= r.1 <= limit,
{
    assert((c as u128 + 1) * den as u128 <= 0x1_0000_0000_0000_0000_0000_0000u128) by (nonlinear_arith)
        requires
            c as u128 + 1 <= 0x1_0000_0000_0000_0000u128,
            den <= MAX_DIMENSION,
    ;
    assert(c as u128 * den as u128 <= (c as u128 + 1) * den as u128) by (nonlinear_arith);
    let start_lo: u128 = (c as u128 * den as u128 + num as u128 - 1) / num as u128;
    let start_hi: u128 = ((c as u128 + 1) * den as u128 + num as u128 - 1) / num as u128;
    proof {
        lemma_div_is_ordered((c * den + num - 1) as int, ((c + 1) * den + num - 1) as int, num as int);
        vstd::arithmetic::div_mod::lemma_div_is_ordered_by_denominator(((c + 1) * den + num - 1) as int, 1, num as int);
    }
    let lo: u128 = off as u128 + start_lo;
    let hi: u128 = off as u128 + start_hi;
    let lo_c: usize = if lo < limit as u128 { lo as usize } else { limit };
    let hi_c: usize = if hi < limit as u128 { hi as usize } else { limit };
    (lo_c, hi_c)
}

/// Sum of byte `k` over the source rectangle [x0, x1) x [y0, y1).
fn region_sum_exec(src: &Vec<u8>, w: usize, h: usize, bpp: usize, k: usize, x0: usize, x1: usize, y0: usize, y1: usize) -> (r: u128)
    requires
        src@.len() == h * (w * bpp),
        x0 <= x1 <= w,
        y0 <= y1 <= h,
        k < bpp,
    ensures
        r == region_sum(src@, w as nat, bpp as nat, k as nat, x0 as nat, x1 as nat, y0 as nat, y1 as nat),
        r <= 255 * ((x1 - x0) * (y1 - y0)),
{
    let n: usize = src.len();
    assert((x1 - x0) * (y1 - y0) <= h * (w * bpp)) by (nonlinear_arith)
        requires
            x0 <= x1 <= w,
            y0 <= y1 <= h,
            k < bpp,
    ;
    let mut sum: u128 = 0;
    let mut y: usize = y0;
    while y < y1
        invariant
            src@.len() == h * (w * bpp),
            n == src@.len(),
            x0 <= x1 <= w,
            y0 <= y <= y1 <= h,
            k < bpp,
            (x1 - x0) * (y1 - y0) <= n,
            sum == region_sum(src@, w as nat, bpp as nat, k as nat, x0 as nat, x1 as nat, y0 as nat, y as nat),
            sum <= 255 * ((x1 - x0) * (y - y0)),
        decreases y1 - y,
    {
        assert(w * bpp <= h * (w * bpp)) by (nonlinear_arith)
            requires y < h;
        let mut row: u128 = 0;
        let mut x: usize = x0;
        while x < x1
            invariant
                src@.len() == h * (w * bpp),
                n == src@.len(),
                x0 <= x <= x1 <= w,
                y < h,
                w * bpp <= n,
                k < bpp,
                row == row_sum(src@, w as nat, bpp as nat, k as nat, y as nat, x0 as nat, x as nat),
                row <= 255 * (x - x0),
            decreases x1 - x,
        {
            proof { lemma_pixel_index_bound(w as nat, h as nat, bpp as nat, x as nat, y as nat, k as nat); }
            let idx: usize = y * (w * bpp) + x * bpp + k;
            row = row + src[idx] as u128;
            x = x + 1;
        }
        assert(sum + row <= 255 * ((x1 - x0) * (y + 1 - y0))) by (nonlinear_arith)
            requires
                sum <= 255 * ((x1 - x0) * (y - y0)),
                row <= 255 * (x1 - x0),
        ;
        assert((x1 - x0) * (y + 1 - y0) <= (x1 - x0) * (y1 - y0)) by (nonlinear_arith)
            requires
                y + 1 <= y1,
                x0 <= x1,
        ;
        sum = sum + row;
        y = y + 1;
    }
    sum
}

fn rounded_mean_exec(sum: u128, count: u128) -> (r: u8)
    requires
        sum <= 255 * count,
        count <= usize::MAX,
    ensures
        r == rounded_mean(sum as nat, count as nat),
{
    if count == 0 {
        0
    } else {
        proof {
            lemma_quotient_below((2 * sum + count) as int, (2 * count) as int, 255);
        }
        ((2 * sum + count) / (2 * count)) as u8
    }
}

/// Box-average shrink: each thumbnail byte is the rounded mean of that byte
/// over the source pixels (x, y) of the visible window with
/// floor((x - x offset) * ratio), floor((y - y offset) * ratio) equal to its cell.
pub fn shrink_image(orig_data: Vec<u8>, orig_width: usize, orig_height: usize, bytes_per_pixel: usize, plan: &ThumbnailGenerationInfo) -> (r: Vec<u8>)
    requires
        orig_data@.len() == orig_height * (orig_width * bytes_per_pixel),
        orig_width > 0,
        orig_height > 0,
        bytes_per_pixel > 0,
        0 < plan.ratio_num <= MAX_DIMENSION,
        plan.ratio_den <= MAX_DIMENSION,
        plan.width * bytes_per_pixel <= usize::MAX,
        plan.height * (plan.width * bytes_per_pixel) <= usize::MAX,
    ensures
        r@ == shrunk(orig_data@, orig_width as nat, orig_height as nat, bytes_per_pixel as nat, *plan),
{
    let bpp = bytes_per_pixel;
    let ghost spec_out = shrunk(orig_data@, orig_width as nat, orig_height as nat, bpp as nat, *plan);
    let n: usize = orig_data.len();
    let total: usize = plan.height * (plan.width * bpp);
    let mut out: Vec<u8> = Vec::with_capacity(total);
    let mut j: usize = 0;
    while j < total
        invariant
            orig_data@.len() == orig_height * (orig_width * bpp),
            n == orig_data@.len(),
            orig_width > 0,
            orig_height > 0,
            bpp > 0,
            0 < plan.ratio_num <= MAX_DIMENSION,
            plan.ratio_den <= MAX_DIMENSION,
            plan.width * bpp <= usize::MAX,
            total == plan.height * (plan.width * bpp),
            spec_out == shrunk(orig_data@, orig_width as nat, orig_height as nat, bpp as nat, *plan),
            j <= total,
            out@.len() == j,
            forall|i: int| 0 <= i < j ==> #[trigger] out@[i] == spec_out[i],
        decreases total - j,
    {
        proof { lemma_byte_coords(j as int, plan.width as nat, plan.height as nat, bpp as nat); }
        let wb: usize = plan.width * bpp;
        let cy: usize = j / wb;
        let rem: usize = j % wb;
        let cx: usize = rem / bpp;
        let k: usize = rem % bpp;
        let (x0, x1) = cell_bounds(cx, plan.x_pixel_offset, plan.ratio_num, plan.ratio_den, orig_width);
        let (y0, y1) = cell_bounds(cy, plan.y_pixel_offset, plan.ratio_num, plan.ratio_den, orig_height);
        let sum = region_sum_exec(&orig_data, orig_width, orig_height, bpp, k, x0, x1, y0, y1);
        proof {
            assert((x1 - x0) * (y1 - y0) <= orig_height * (orig_width * bpp)) by (nonlinear_arith)
                requires
                    x0 <= x1 <= orig_width,
                    y0 <= y1 <= orig_height,
                    bpp > 0,
            ;
        }
        let count: u128 = (x1 - x0) as u128 * (y1 - y0) as u128;
        let v = rounded_mean_exec(sum, count);
        out.push(v);
        j = j + 1;
    }
    proof {
        assert(out@ =~= spec_out);
    }
    out
}

/// Asking to fill a box of the image's own size gives a ratio of one, no
/// offsets, and the very same pixels.
pub proof fn lemma_identity_resample(src: Seq<u8>, w: nat, h: nat, bpp: nat)
    requires
        0 < w <= MAX_DIMENSION,
        0 < h <= MAX_DIMENSION,
        bpp > 0,
        src.len() == h * (w * bpp),
    ensures
        plan_of(w, h, w, h, true).ratio_num == plan_of(w, h, w, h, true).ratio_den,
        plan_of(w, h, w, h, true).width == w,
        plan_of(w, h, w, h, true).height == h,
        plan_of(w, h, w, h, true).x_pixel_offset == 0,
        plan_of(w, h, w, h, true).y_pixel_offset == 0,
        resampled(src, w, h, bpp, plan_of(w, h, w, h, true)) == src,
{
    let plan = plan_of(w, h, w, h, true);
    assert(w * h == h * w) by (nonlinear_arith);
    assert(plan.ratio_num == h && plan.ratio_den == h);
    assert(plan.x_pixel_offset == 0);
    let out = resampled(src, w, h, bpp, plan);
    assert(out == stretched(src, w, h, bpp, plan));
    assert forall|j: int| 0 <= j < src.len() implies out[j] == src[j] by {
        lemma_byte_coords(j, w, h, bpp);
        let cx = byte_x(j, w, bpp);
        let cy = byte_y(j, w, bpp);
        vstd::arithmetic::div_mod::lemma_div_multiples_vanish(cx as int, h as int);
        vstd::arithmetic::div_mod::lemma_div_multiples_vanish(cy as int, h as int);
        assert((cx * h) as int / h as int == cx) by {
            assert(cx * h == h * cx) by (nonlinear_arith);
        }
        assert((cy * h) as int / h as int == cy) by {
            assert(cy * h == h * cy) by (nonlinear_arith);
        }
        assert(stretch_source(cx, 0, h, h, w) == cx);
        assert(stretch_source(cy, 0, h, h, h) == cy);
    }
    assert(out =~= src);
}

proof fn lemma_cell_start_reached(t: nat, c: nat, num: nat, den: nat)
    requires
        num > 0,
    ensures
        cell_start(c, num, den) <= t <==> c * den <= t * num,
{
    let x = (c * den + num - 1) as int;
    let q = x / num as int;
    lemma_fundamental_div_mod(x, num as int);
    lemma_mod_pos_bound(x, num as int);
    let r = x % num as int;
    assert(q >= 0) by (nonlinear_arith)
        requires x >= 0, num > 0, q == x / num as int;
    if q <= t {
        assert(c * den <= t * num) by (nonlinear_arith)
            requires
                x == num * q + r,
                0 <= r < num,
                x == c * den + num - 1,
                q <= t,
                num > 0,
        ;
    }
    if c * den <= t * num {
        assert(q <= t) by (nonlinear_arith)
            requires
                x == num * q + r,
                0 <= r < num,
                x == c * den + num - 1,
                c * den <= t * num,
                num > 0,
        ;
    }
}

proof fn lemma_scaled_reaches(t: nat, c: nat, num: nat, den: nat)
    requires
        den > 0,
    ensures
        (t * num) as int / den as int >= c <==> c * den <= t * num,
{
    let x = (t * num) as int;
    let p = x / den as int;
    lemma_fundamental_div_mod(x, den as int);
    lemma_mod_pos_bound(x, den as int);
    let r = x % den as int;
    if p >= c {
        assert(c * den <= t * num) by (nonlinear_arith)
            requires
                x == den * p + r,
                0 <= r,
                x == t * num,
                p >= c,
                den > 0,
        ;
    }
    if c * den <= t * num {
        assert(p >= c) by (nonlinear_arith)
            requires
                x == den * p + r,
                r < den,
                x == t * num,
                c * den <= t * num,
                den > 0,
        ;
    }
}

/// The source range [cell_start(c), cell_start(c + 1)) of a shrunk cell is
/// exactly the set of offsets t whose scaled coordinate floor(t * ratio) is c.
pub proof fn lemma_cell_membership(t: nat, c: nat, num: nat, den: nat)
    requires
        num > 0,
        den > 0,
    ensures
        (cell_start(c, num, den) <= t && t < cell_start(c + 1, num, den)) <==> (t * num) as int / den as int == c,
{
    lemma_cell_start_reached(t, c, num, den);
    lemma_cell_start_reached(t, c + 1, num, den);
    lemma_scaled_reaches(t, c, num, den);
    lemma_scaled_reaches(t, c + 1, num, den);
}

} // verus!
