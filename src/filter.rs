//! Scanline prediction filters: the five PNG filter types, their inverse,
//! and the filter used when writing (type 0).
use vstd::prelude::*;
use vstd::arithmetic::div_mod::{lemma_fundamental_div_mod, lemma_fundamental_div_mod_converse, lemma_mod_pos_bound};
use crate::header::{PNGInfo, ParseError, MAX_DIMENSION, info_valid, bytes_per_pixel, row_stride, color_type_valid, compute_bytes_per_pixel};

verus! {

pub open spec fn abs_diff(x: int, y: int) -> int {
    if x >= y {
        x - y
    } else {
        y - x
    }
}

/// The Paeth predictor: whichever of a, b, c is closest to a + b - c,
/// ties going to a, then b.
pub open spec fn paeth(a: u8, b: u8, c: u8) -> u8 {
    let p = a + b - c;
    let pa = abs_diff(p, a as int);
    let pb = abs_diff(p, b as int);
    let pc = abs_diff(p, c as int);
    if pa <= pb && pa <= pc {
        a
    } else if pb <= pc {
        b
    } else {
        c
    }
}

/// The prediction that filter type `ft` adds back to a filtered byte, from the
/// left (a), upper (b) and upper-left (c) neighbours.
pub open spec fn prediction(ft: u8, a: u8, b: u8, c: u8) -> u8 {
    if ft == 1 {
        a
    } else if ft == 2 {
        b
    } else if ft == 3 {
        ((a + b) / 2) as u8
    } else if ft == 4 {
        paeth(a, b, c)
    } else {
        0
    }
}

/// Byte `x` of row `r` of the image reconstructed from `data`, a run of rows
/// each made of a filter-type byte and `stride` filtered bytes.
pub open spec fn unfiltered_byte(data: Seq<u8>, stride: nat, bpp: nat, r: nat, x: nat) -> u8
    decreases r, x,
{
    let ft = data[(r * (stride + 1)) as int];
    let f = data[(r * (stride + 1) + 1 + x) as int];
    let a = if bpp > 0 && x >= bpp {
        unfiltered_byte(data, stride, bpp, r, (x - bpp) as nat)
    } else {
        0u8
    };
    let b = if r > 0 {
        unfiltered_byte(data, stride, bpp, (r - 1) as nat, x)
    } else {
        0u8
    };
    let c = if r > 0 && bpp > 0 && x >= bpp {
        unfiltered_byte(data, stride, bpp, (r - 1) as nat, (x - bpp) as nat)
    } else {
        0u8
    };
    ((f + prediction(ft, a, b, c)) % 256) as u8
}

/// The `rows` x `stride` bytes reconstructed from a filtered stream.
pub open spec fn unfiltered(data: Seq<u8>, stride: nat, bpp: nat, rows: nat) -> Seq<u8> {
    Seq::new(rows * stride, |j: int| unfiltered_byte(data, stride, bpp, (j / stride as int) as nat, (j % stride as int) as nat))
}

/// The filter-type byte that starts row `r`.
pub open spec fn row_filter_type(data: Seq<u8>, stride: nat, r: int) -> u8 {
    data[r * (stride + 1)]
}

/// Every row of the stream starts with a known filter type (0 to 4).
pub open spec fn filter_types_known(data: Seq<u8>, stride: nat, rows: nat) -> bool {
    forall|r: int| 0 <= r < rows ==> #[trigger] row_filter_type(data, stride, r) <= 4
}

/// Byte `x` of row `r` of `pixels`, 0 outside the row grid's left and top edges.
pub open spec fn neighbour(pixels: Seq<u8>, stride: nat, r: int, x: int) -> u8 {
    if r >= 0 && x >= 0 {
        pixels[r * stride + x]
    } else {
        0u8
    }
}

/// `pixels` (rows x stride bytes) filtered with filter type `ft` on every row.
#[verifier::opaque]
pub open spec fn filtered_with_type(ft: u8, pixels: Seq<u8>, stride: nat, bpp: nat, rows: nat) -> Seq<u8> {
    Seq::new(
        rows * (stride + 1),
        |i: int|
            {
                let r = i / (stride + 1) as int;
                let q = i % (stride + 1) as int;
                if q == 0 {
                    ft
                } else {
                    let x = q - 1;
                    let p = prediction(
                        ft,
                        neighbour(pixels, stride, r, x - bpp),
                        neighbour(pixels, stride, r - 1, x),
                        neighbour(pixels, stride, r - 1, x - bpp),
                    );
                    ((pixels[r * stride + x] - p) % 256) as u8
                }
            },
    )
}

proof fn lemma_row_index(r: int, x: int, w: int, rows: int)
    requires
        0 <= r < rows,
        0 <= x < w,
    ensures
        (r * w + x) / w == r,
        (r * w + x) % w == x,
        0 <= r * w + x < rows * w,
{
    lemma_fundamental_div_mod_converse(r * w + x, w, r, x);
    assert(r * w + x < rows * w) by (nonlinear_arith)
        requires
            0 <= r < rows,
            0 <= x < w,
    ;
    assert(0 <= r * w) by (nonlinear_arith)
        requires
            0 <= r,
            0 <= x < w,
    ;
}

proof fn lemma_filtered_type_at(ft: u8, pixels: Seq<u8>, stride: nat, bpp: nat, rows: nat, r: nat)
    requires
        r < rows,
    ensures
        filtered_with_type(ft, pixels, stride, bpp, rows)[(r * (stride + 1)) as int] == ft,
{
    reveal(filtered_with_type);
    lemma_row_index(r as int, 0, (stride + 1) as int, rows as int);
}

proof fn lemma_add_sub_mod(v: u8, p: u8)
    ensures
        ((((v - p) % 256) as u8) + p) % 256 == v,
{
}

proof fn lemma_filtered_at(ft: u8, pixels: Seq<u8>, stride: nat, bpp: nat, rows: nat, r: nat, x: nat)
    requires
        pixels.len() == rows * stride,
        r < rows,
        x < stride,
    ensures
        ({
            let f = filtered_with_type(ft, pixels, stride, bpp, rows);
            &&& f[(r * (stride + 1) + 1 + x) as int] == ((pixels[(r * stride + x) as int] - prediction(
                ft,
                neighbour(pixels, stride, r as int, x - bpp),
                neighbour(pixels, stride, r - 1, x as int),
                neighbour(pixels, stride, r - 1, x - bpp),
            )) % 256) as u8
        }),
{
    reveal(filtered_with_type);
    let s1 = (stride + 1) as int;
    lemma_row_index(r as int, 0, s1, rows as int);
    lemma_row_index(r as int, 1 + x as int, s1, rows as int);
}

proof fn lemma_unfilter_filtered_byte(ft: u8, pixels: Seq<u8>, stride: nat, bpp: nat, rows: nat, r: nat, x: nat)
    requires
        ft <= 4,
        pixels.len() == rows * stride,
        r < rows,
        x < stride,
        bpp > 0,
    ensures
        unfiltered_byte(filtered_with_type(ft, pixels, stride, bpp, rows), stride, bpp, r, x) == pixels[(r * stride + x) as int],
    decreases r, x,
{
    let f = filtered_with_type(ft, pixels, stride, bpp, rows);
    lemma_filtered_at(ft, pixels, stride, bpp, rows, r, x);
    lemma_filtered_type_at(ft, pixels, stride, bpp, rows, r);
    let a = if x >= bpp {
        lemma_unfilter_filtered_byte(ft, pixels, stride, bpp, rows, r, (x - bpp) as nat);
        unfiltered_byte(f, stride, bpp, r, (x - bpp) as nat)
    } else {
        0u8
    };
    let b = if r > 0 {
        lemma_unfilter_filtered_byte(ft, pixels, stride, bpp, rows, (r - 1) as nat, x);
        unfiltered_byte(f, stride, bpp, (r - 1) as nat, x)
    } else {
        0u8
    };
    let c = if r > 0 && x >= bpp {
        lemma_unfilter_filtered_byte(ft, pixels, stride, bpp, rows, (r - 1) as nat, (x - bpp) as nat);
        unfiltered_byte(f, stride, bpp, (r - 1) as nat, (x - bpp) as nat)
    } else {
        0u8
    };
    assert(f[(r * (stride + 1)) as int] == ft);
    assert(a == neighbour(pixels, stride, r as int, x - bpp));
    assert(b == neighbour(pixels, stride, r - 1, x as int));
    assert(c == neighbour(pixels, stride, r - 1, x - bpp));
    let p = prediction(ft, a, b, c);
    let v = pixels[(r * stride + x) as int];
    assert(unfiltered_byte(f, stride, bpp, r, x) == ((f[(r * (stride + 1) + 1 + x) as int] + p) % 256) as u8);
    lemma_add_sub_mod(v, p);
}

/// Unfiltering undoes filtering with any of the five filter types: for every
/// pixel buffer and every type, reconstructing the filtered stream gives the
/// buffer back.
pub proof fn lemma_unfilter_inverts_filter(ft: u8, pixels: Seq<u8>, stride: nat, bpp: nat, rows: nat)
    requires
        ft <= 4,
        pixels.len() == rows * stride,
        bpp > 0,
    ensures
        unfiltered(filtered_with_type(ft, pixels, stride, bpp, rows), stride, bpp, rows) == pixels,
        filter_types_known(filtered_with_type(ft, pixels, stride, bpp, rows), stride, rows),
{
    let f = filtered_with_type(ft, pixels, stride, bpp, rows);
    let u = unfiltered(f, stride, bpp, rows);
    assert forall|j: int| 0 <= j < rows * stride implies u[j] == pixels[j] by {
        let r = j / stride as int;
        let x = j % stride as int;
        assert(stride > 0) by (nonlinear_arith)
            requires
                0 <= j < rows * stride,
        ;
        lemma_fundamental_div_mod(j, stride as int);
        lemma_mod_pos_bound(j, stride as int);
        assert(0 <= r < rows) by (nonlinear_arith)
            requires
                0 <= j < rows * stride,
                stride > 0,
                0 <= x < stride,
                j == stride * r + x,
        ;
        lemma_unfilter_filtered_byte(ft, pixels, stride, bpp, rows, r as nat, x as nat);
    }
    assert(u =~= pixels);
    assert forall|r: int| 0 <= r < rows implies #[trigger] row_filter_type(f, stride, r) <= 4 by {
        lemma_filtered_type_at(ft, pixels, stride, bpp, rows, r as nat);
    }
}

pub fn paeth_predictor(a: u8, b: u8, c: u8) -> (r: u8)
    ensures
        r == paeth(a, b, c),
{
    let p: i32 = a as i32 + b as i32 - c as i32;
    let pa: i32 = if p >= a as i32 { p - a as i32 } else { a as i32 - p };
    let pb: i32 = if p >= b as i32 { p - b as i32 } else { b as i32 - p };
    let pc: i32 = if p >= c as i32 { p - c as i32 } else { c as i32 - p };
    if pa <= pb && pa <= pc {
        a
    } else if pb <= pc {
        b
    } else {
        c
    }
}

fn predict(ft: u8, a: u8, b: u8, c: u8) -> (r: u8)
    ensures
        r == prediction(ft, a, b, c),
{
    if ft == 1 {
        a
    } else if ft == 2 {
        b
    } else if ft == 3 {
        ((a as u16 + b as u16) / 2) as u8
    } else if ft == 4 {
        paeth_predictor(a, b, c)
    } else {
        0
    }
}

proof fn lemma_row_bounds(r: int, x: int, stride: int, rows: int)
    requires
        0 <= r < rows,
        0 <= x < stride,
    ensures
        0 <= r * (stride + 1),
        r * (stride + 1) + 1 + x < rows * (stride + 1),
        rows * stride <= rows * (stride + 1),
        stride + 1 <= rows * (stride + 1),
{
    assert(stride + 1 <= rows * (stride + 1)) by (nonlinear_arith)
        requires
            1 <= rows,
            0 <= stride,
    ;
    assert(r * (stride + 1) + 1 + x < rows * (stride + 1)) by (nonlinear_arith)
        requires
            0 <= r < rows,
            0 <= x < stride,
    ;
    assert(0 <= r * (stride + 1)) by (nonlinear_arith)
        requires
            0 <= r,
            0 <= stride,
    ;
    assert(rows * stride <= rows * (stride + 1)) by (nonlinear_arith)
        requires
            0 <= rows,
    ;
}

/// Reconstructs `rows` scanlines of `stride` bytes from the filtered stream
/// held in `data[start..start + rows * (stride + 1)]`.
pub fn unfilter_scanlines(data: &Vec<u8>, start: usize, stride: usize, rows: usize, bpp: usize) -> (r: Result<Vec<u8>, ParseError>)
    requires
        start + rows * (stride + 1) <= data@.len(),
        bpp > 0,
    ensures
        ({
            let d = data@.subrange(start as int, start + rows * (stride + 1));
            &&& r is Ok <==> filter_types_known(d, stride as nat, rows as nat)
            &&& r is Ok ==> r->Ok_0@ == unfiltered(d, stride as nat, bpp as nat, rows as nat)
            &&& r is Err ==> r->Err_0 == ParseError::FORMAT
        }),
{
    let ghost d = data@.subrange(start as int, start + rows * (stride + 1));
    let n: usize = data.len();
    let mut row: usize = 0;
    let mut pos: usize = start;
    while row < rows
        invariant
            start + rows * (stride + 1) <= data@.len(),
            n == data@.len(),
            d == data@.subrange(start as int, start + rows * (stride + 1)),
            row <= rows,
            pos == start + row * (stride + 1),
            forall|rr: int| 0 <= rr < row ==> #[trigger] row_filter_type(d, stride as nat, rr) <= 4,
        decreases rows - row,
    {
        assert(row * (stride + 1) + stride + 1 <= rows * (stride + 1)) by (nonlinear_arith)
            requires
                row < rows,
        ;
        if data[pos] > 4 {
            assert(!filter_types_known(d, stride as nat, rows as nat)) by {
                assert(row_filter_type(d, stride as nat, row as int) > 4);
            }
            return Err(ParseError::FORMAT);
        }
        assert((row + 1) * (stride + 1) == row * (stride + 1) + stride + 1) by (nonlinear_arith);
        pos = pos + stride + 1;
        row = row + 1;
    }
    assert(rows * stride <= rows * (stride + 1)) by (nonlinear_arith);
    let total: usize = rows * stride;
    let mut out: Vec<u8> = Vec::with_capacity(total);
    let mut j: usize = 0;
    while j < total
        invariant
            start + rows * (stride + 1) <= data@.len(),
            n == data@.len(),
            d == data@.subrange(start as int, start + rows * (stride + 1)),
            total == rows * stride,
            bpp > 0,
            j <= total,
            out@.len() == j,
            forall|i: int| 0 <= i < j ==> #[trigger] out@[i] == unfiltered_byte(d, stride as nat, bpp as nat, (i / stride as int) as nat, (i % stride as int) as nat),
        decreases total - j,
    {
        assert(stride > 0) by (nonlinear_arith)
            requires
                j < total,
                total == rows * stride,
        ;
        let r: usize = j / stride;
        let x: usize = j % stride;
        proof {
            lemma_fundamental_div_mod(j as int, stride as int);
            assert(r < rows) by (nonlinear_arith)
                requires
                    j < rows * stride,
                    j == stride * r + x,
                    x < stride,
            ;
            lemma_row_bounds(r as int, x as int, stride as int, rows as int);
            assert(j - stride == (r - 1) * stride + x) by (nonlinear_arith)
                requires
                    j == stride * r + x,
            ;
        }
        let row_pos: usize = start + r * (stride + 1);
        let ft = data[row_pos];
        let f = data[row_pos + 1 + x];
        let a: u8 = if x >= bpp {
            proof { lemma_fundamental_div_mod_converse(j - bpp, stride as int, r as int, x - bpp); }
            out[j - bpp]
        } else {
            0
        };
        let b: u8 = if r > 0 {
            proof { lemma_fundamental_div_mod_converse(j - stride, stride as int, r - 1, x as int); }
            out[j - stride]
        } else {
            0
        };
        let c: u8 = if r > 0 && x >= bpp {
            proof { lemma_fundamental_div_mod_converse(j - stride - bpp, stride as int, r - 1, x - bpp); }
            out[j - stride - bpp]
        } else {
            0
        };
        let p = predict(ft, a, b, c);
        let v: u8 = ((f as u16 + p as u16) % 256) as u8;
        proof {
            lemma_fundamental_div_mod_converse(j as int, stride as int, r as int, x as int);
            assert(d[r * (stride + 1)] == ft);
            assert(d[r * (stride + 1) + 1 + x] == f);
            assert(v == unfiltered_byte(d, stride as nat, bpp as nat, r as nat, x as nat));
        }
        out.push(v);
        j = j + 1;
    }
    proof {
        assert(out@ =~= unfiltered(d, stride as nat, bpp as nat, rows as nat));
    }
    Ok(out)
}

/// Reconstructs a non-interlaced image from its decompressed stream, which must
/// hold exactly `height` rows of a filter-type byte and `width * bpp` bytes.
pub fn unfilter_data(info: &PNGInfo, data: Vec<u8>) -> (r: Result<Vec<u8>, ParseError>)
    requires
        info_valid(*info),
        bytes_per_pixel(*info) > 0,
    ensures
        ({
            let stride = row_stride(*info);
            &&& r is Ok <==> (data@.len() == info.height * (stride + 1) && filter_types_known(data@, stride, info.height as nat))
            &&& r is Ok ==> r->Ok_0@ == unfiltered(data@, stride, bytes_per_pixel(*info), info.height as nat)
            &&& r is Err ==> r->Err_0 == ParseError::FORMAT
        }),
{
    let bpp = compute_bytes_per_pixel(info);
    assert(bpp <= 8);
    assert(info.width as u128 * bpp as u128 <= 0x80_0000_0000u128) by (nonlinear_arith)
        requires info.width <= MAX_DIMENSION, bpp <= 8;
    let stride128: u128 = info.width as u128 * bpp as u128;
    assert(info.height as u128 * (stride128 + 1) <= 0x1_0000_0000_0000_0000_0000u128) by (nonlinear_arith)
        requires info.height <= MAX_DIMENSION, stride128 <= 0x80_0000_0000u128;
    let total128: u128 = info.height as u128 * (stride128 + 1);
    if total128 != data.len() as u128 {
        return Err(ParseError::FORMAT);
    }
    assert(stride128 <= total128) by (nonlinear_arith)
        requires total128 == info.height as u128 * (stride128 + 1), info.height > 0;
    let stride: usize = stride128 as usize;
    let r = unfilter_scanlines(&data, 0, stride, info.height, bpp);
    proof {
        assert(data@.subrange(0, data@.len() as int) =~= data@);
    }
    r
}

/// Writes every row with filter type 0, which leaves the bytes as they are.
pub fn filter_data(info: &PNGInfo, data: Vec<u8>) -> (r: Vec<u8>)
    requires
        color_type_valid(info.color_type),
        data@.len() == info.height * row_stride(*info),
        info.height * (row_stride(*info) + 1) <= usize::MAX,
    ensures
        r@ == filtered_with_type(0, data@, row_stride(*info), bytes_per_pixel(*info), info.height as nat),
{
    let bpp = compute_bytes_per_pixel(info);
    let n: usize = data.len();
    let ghost stride = row_stride(*info);
    assert(info.width * bpp <= info.height * (info.width * bpp + 1) || info.height == 0) by (nonlinear_arith)
        requires info.height >= 0;
    let mut out: Vec<u8> = Vec::new();
    let mut row: usize = 0;
    while row < info.height
        invariant
            bpp == bytes_per_pixel(*info),
            stride == info.width * bpp,
            data@.len() == info.height * stride,
            n == data@.len(),
            info.height * (stride + 1) <= usize::MAX,
            row <= info.height,
            out@.len() == row * (stride + 1),
            forall|i: int| 0 <= i < out@.len() ==> out@[i] == #[trigger] filtered_with_type(0, data@, stride as nat, bpp as nat, info.height as nat)[i],
        decreases info.height - row,
    {
        assert(info.width * bpp <= info.height * (info.width * bpp + 1)) by (nonlinear_arith)
            requires row < info.height;
        let s: usize = info.width * bpp;
        assert(row * (s + 1) + s + 1 <= info.height * (s + 1)) by (nonlinear_arith)
            requires row < info.height;
        assert(row * s + s <= info.height * s) by (nonlinear_arith)
            requires row < info.height;
        proof { lemma_filtered_type_at(0, data@, stride as nat, bpp as nat, info.height as nat, row as nat); }
        out.push(0u8);
        let base: usize = row * s;
        let mut x: usize = 0;
        while x < s
            invariant
                bpp == bytes_per_pixel(*info),
                s == stride,
                stride == info.width * bpp,
                data@.len() == info.height * stride,
                n == data@.len(),
                row < info.height,
                base == row * s,
                base + s <= data@.len(),
                x <= s,
                out@.len() == row * (stride + 1) + 1 + x,
                forall|i: int| 0 <= i < out@.len() ==> out@[i] == #[trigger] filtered_with_type(0, data@, stride as nat, bpp as nat, info.height as nat)[i],
            decreases s - x,
        {
            proof { lemma_filtered_at(0, data@, stride as nat, bpp as nat, info.height as nat, row as nat, x as nat); }
            out.push(data[base + x]);
            x = x + 1;
        }
        assert((row + 1) * (s + 1) == row * (s + 1) + s + 1) by (nonlinear_arith);
        row = row + 1;
    }
    proof {
        assert(out@ =~= filtered_with_type(0, data@, stride as nat, bpp as nat, info.height as nat)) by {
            reveal(filtered_with_type);
        }
    }
    out
}

} // verus!
