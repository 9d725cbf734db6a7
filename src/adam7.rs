//! Adam7 interlacing: the seven passes, their geometry, and the
//! reconstruction of a full-resolution image from an interlaced stream.
use vstd::prelude::*;
use vstd::arithmetic::div_mod::{lemma_fundamental_div_mod, lemma_fundamental_div_mod_converse, lemma_mod_mod, lemma_div_is_ordered, lemma_mod_pos_bound};
use crate::header::{PNGInfo, ParseError, MAX_DIMENSION, info_valid, bytes_per_pixel, compute_bytes_per_pixel};
use crate::filter::{unfiltered, unfiltered_byte, filter_types_known, unfilter_scanlines};

verus! {

pub const ADAM7_PASSES: usize = 7;

/// Column of the first pixel of pass `p`.
pub open spec fn h_offset(p: int) -> nat {
    if p == 1 { 4 } else if p == 3 { 2 } else if p == 5 { 1 } else { 0 }
}

/// Row of the first pixel of pass `p`.
pub open spec fn v_offset(p: int) -> nat {
    if p == 2 { 4 } else if p == 4 { 2 } else if p == 6 { 1 } else { 0 }
}

/// Distance between the columns of pass `p`.
pub open spec fn h_interval(p: int) -> nat {
    if p <= 1 { 8 } else if p <= 3 { 4 } else if p <= 5 { 2 } else { 1 }
}

/// Distance between the rows of pass `p`.
pub open spec fn v_interval(p: int) -> nat {
    if p <= 2 { 8 } else if p <= 4 { 4 } else { 2 }
}

/// Number of positions `off, off + interval, ...` below `size`.
pub open spec fn pass_extent(size: nat, off: nat, interval: nat) -> nat {
    if size > off {
        ((size - off - 1) / interval as int + 1) as nat
    } else {
        0
    }
}

pub open spec fn pass_width(p: int, w: nat) -> nat {
    pass_extent(w, h_offset(p), h_interval(p))
}

pub open spec fn pass_height(p: int, h: nat) -> nat {
    pass_extent(h, v_offset(p), v_interval(p))
}

/// Bytes of pass `p` in the interlaced stream: a filter byte per row, then its pixels.
pub open spec fn pass_len(p: int, w: nat, h: nat, bpp: nat) -> nat {
    if pass_width(p, w) > 0 && pass_height(p, h) > 0 {
        pass_height(p, h) * (pass_width(p, w) * bpp + 1)
    } else {
        0
    }
}

/// Where pass `p` starts in the interlaced stream.
pub open spec fn pass_start(p: int, w: nat, h: nat, bpp: nat) -> nat
    decreases p,
{
    if p <= 0 {
        0
    } else {
        pass_start(p - 1, w, h, bpp) + pass_len(p - 1, w, h, bpp)
    }
}

/// The bytes of pass `p` within the interlaced stream.
pub open spec fn pass_data(data: Seq<u8>, p: int, w: nat, h: nat, bpp: nat) -> Seq<u8> {
    data.subrange(pass_start(p, w, h, bpp) as int, (pass_start(p, w, h, bpp) + pass_len(p, w, h, bpp)) as int)
}

/// Pixel (x, y) belongs to pass `p`.
pub open spec fn in_pass(p: int, x: nat, y: nat) -> bool {
    x % h_interval(p) == h_offset(p) && y % v_interval(p) == v_offset(p)
}

/// The pass that holds pixel (x, y).
pub open spec fn pass_of(x: nat, y: nat) -> int {
    if y % 8 == 0 && x % 8 == 0 {
        0
    } else if y % 8 == 0 && x % 8 == 4 {
        1
    } else if y % 8 == 4 && x % 4 == 0 {
        2
    } else if y % 4 == 0 && x % 4 == 2 {
        3
    } else if y % 4 == 2 && x % 2 == 0 {
        4
    } else if y % 2 == 0 && x % 2 == 1 {
        5
    } else {
        6
    }
}

/// An interlaced stream holds exactly its seven passes, each with known filter types.
pub open spec fn interlaced_stream_ok(data: Seq<u8>, w: nat, h: nat, bpp: nat) -> bool {
    &&& data.len() == pass_start(7, w, h, bpp)
    &&& forall|p: int|
        0 <= p < 7 && pass_len(p, w, h, bpp) > 0 ==> filter_types_known(#[trigger] pass_data(data, p, w, h, bpp), pass_width(p, w) * bpp, pass_height(p, h))
}

/// Byte `k` of pixel (x, y) of the image carried by an interlaced stream: the
/// pixel is taken from its pass, unfiltered within that pass.
pub open spec fn deinterlaced_byte(data: Seq<u8>, w: nat, h: nat, bpp: nat, x: nat, y: nat, k: nat) -> u8 {
    let p = pass_of(x, y);
    let i = (x - h_offset(p)) / h_interval(p) as int;
    let r = (y - v_offset(p)) / v_interval(p) as int;
    unfiltered_byte(pass_data(data, p, w, h, bpp), pass_width(p, w) * bpp, bpp, r as nat, (i * bpp + k) as nat)
}

/// The full-resolution image (h rows of w pixels of bpp bytes) of an interlaced stream.
pub open spec fn deinterlaced(data: Seq<u8>, w: nat, h: nat, bpp: nat) -> Seq<u8> {
    Seq::new(
        h * (w * bpp),
        |j: int|
            {
                let rem = j % (w * bpp) as int;
                deinterlaced_byte(data, w, h, bpp, (rem / bpp as int) as nat, (j / (w * bpp) as int) as nat, (rem % bpp as int) as nat)
            },
    )
}

/// The seven Adam7 passes cover every pixel of a w x h image exactly once:
/// each pixel lies in the pass `pass_of` names and in no other, at a place
/// inside that pass's own grid.
pub proof fn lemma_adam7_partition(x: nat, y: nat, w: nat, h: nat)
    requires
        x < w,
        y < h,
    ensures
        0 <= pass_of(x, y) < 7,
        in_pass(pass_of(x, y), x, y),
        forall|p: int| 0 <= p < 7 && #[trigger] in_pass(p, x, y) ==> p == pass_of(x, y),
        (x - h_offset(pass_of(x, y))) / (h_interval(pass_of(x, y)) as int) < pass_width(pass_of(x, y), w),
        (y - v_offset(pass_of(x, y))) / (v_interval(pass_of(x, y)) as int) < pass_height(pass_of(x, y), h),
{
    lemma_mod_mod(x as int, 4, 2);
    lemma_mod_mod(x as int, 2, 4);
    lemma_mod_mod(x as int, 2, 2);
    lemma_mod_mod(y as int, 4, 2);
    lemma_mod_mod(y as int, 2, 4);
    lemma_mod_mod(y as int, 2, 2);
    assert(x % 8 < 8 && y % 8 < 8);
    let p = pass_of(x, y);
    lemma_pass_index_bound(x, w, h_offset(p), h_interval(p));
    lemma_pass_index_bound(y, h, v_offset(p), v_interval(p));
}

proof fn lemma_pass_index_bound(x: nat, w: nat, off: nat, interval: nat)
    requires
        x < w,
        interval > 0,
        x % interval == off,
    ensures
        x >= off,
        (x - off) / (interval as int) < pass_extent(w, off, interval),
{
    lemma_fundamental_div_mod(x as int, interval as int);
    let xi = x as int;
    let ii = interval as int;
    assert(xi / ii >= 0) by (nonlinear_arith)
        requires
            xi >= 0,
            ii > 0,
    ;
    let q = xi / ii;
    assert(ii * q >= 0) by (nonlinear_arith)
        requires
            q >= 0,
            ii > 0,
    ;
    lemma_div_is_ordered(x - off, w - off - 1, interval as int);
}

pub proof fn lemma_pass_start_monotone(p: int, q: int, w: nat, h: nat, bpp: nat)
    requires
        0 <= p <= q,
    ensures
        pass_start(p, w, h, bpp) + (if p < q { pass_len(p, w, h, bpp) } else { 0 }) <= pass_start(q, w, h, bpp),
    decreases q - p,
{
    if p < q {
        lemma_pass_start_monotone(p, q - 1, w, h, bpp);
        if p < q - 1 {
            lemma_pass_start_monotone(p + 1, q, w, h, bpp);
        }
    }
}

/// Offsets and intervals (h_offset, v_offset, h_interval, v_interval) of pass `p`.
fn adam7_pass(p: usize) -> (r: (usize, usize, usize, usize))
    requires
        p < 7,
    ensures
        r.0 == h_offset(p as int),
        r.1 == v_offset(p as int),
        r.2 == h_interval(p as int),
        r.3 == v_interval(p as int),
{
    match p {
        0 => (0, 0, 8, 8),
        1 => (4, 0, 8, 8),
        2 => (0, 4, 4, 8),
        3 => (2, 0, 4, 4),
        4 => (0, 2, 2, 4),
        5 => (1, 0, 2, 2),
        _ => (0, 1, 1, 2),
    }
}

fn extent(size: usize, off: usize, interval: usize) -> (r: usize)
    requires
        interval > 0,
    ensures
        r == pass_extent(size as nat, off as nat, interval as nat),
        r <= size,
{
    if size > off {
        proof { vstd::arithmetic::div_mod::lemma_div_is_ordered_by_denominator((size - off - 1) as int, 1, interval as int); }
        (size - off - 1) / interval + 1
    } else {
        0
    }
}

fn pass_index(x: usize, y: usize) -> (r: usize)
    ensures
        r == pass_of(x as nat, y as nat),
{
    if y % 8 == 0 && x % 8 == 0 {
        0
    } else if y % 8 == 0 && x % 8 == 4 {
        1
    } else if y % 8 == 4 && x % 4 == 0 {
        2
    } else if y % 4 == 0 && x % 4 == 2 {
        3
    } else if y % 4 == 2 && x % 2 == 0 {
        4
    } else if y % 2 == 0 && x % 2 == 1 {
        5
    } else {
        6
    }
}

/// Reconstructs an Adam7-interlaced image: each pass is unfiltered on its own
/// grid, then every pixel is taken from the pass that holds it.
pub fn unfilter_interlaced_data(info: &PNGInfo, data: Vec<u8>) -> (r: Result<Vec<u8>, ParseError>)
    requires
        info_valid(*info),
        bytes_per_pixel(*info) > 0,
    ensures
        ({
            let w = info.width as nat;
            let h = info.height as nat;
            let bpp = bytes_per_pixel(*info);
            &&& r is Ok <==> (interlaced_stream_ok(data@, w, h, bpp) && h * (w * bpp) <= usize::MAX)
            &&& r is Ok ==> r->Ok_0@ == deinterlaced(data@, w, h, bpp)
            &&& r is Err ==> r->Err_0 == ParseError::FORMAT
        }),
{
    let bpp = compute_bytes_per_pixel(info);
    let w = info.width;
    let h = info.height;
    assert(bpp <= 8);
    let ghost wn = w as nat;
    let ghost hn = h as nat;
    let ghost bn = bpp as nat;
    let n: usize = data.len();
    let mut passes: Vec<Vec<u8>> = Vec::new();
    let mut start: usize = 0;
    let mut p: usize = 0;
    while p < ADAM7_PASSES
        invariant
            info_valid(*info),
            w == info.width,
            h == info.height,
            bpp == bytes_per_pixel(*info),
            0 < bpp <= 8,
            wn == w,
            hn == h,
            bn == bpp,
            n == data@.len(),
            p <= 7,
            start == pass_start(p as int, wn, hn, bn),
            start <= n,
            passes@.len() == p,
            forall|q: int| 0 <= q < p ==> (#[trigger] passes@[q])@ == unfiltered(pass_data(data@, q, wn, hn, bn), pass_width(q, wn) * bn, bn, pass_height(q, hn)),
            forall|q: int|
                0 <= q < p && pass_len(q, wn, hn, bn) > 0 ==> filter_types_known(#[trigger] pass_data(data@, q, wn, hn, bn), pass_width(q, wn) * bn, pass_height(q, hn)),
        decreases 7 - p,
    {
        let (ho, vo, hi, vi) = adam7_pass(p);
        let pw = extent(w, ho, hi);
        let ph = extent(h, vo, vi);
        if pw == 0 || ph == 0 {
            proof {
                assert(pass_len(p as int, wn, hn, bn) == 0);
                assert(pass_data(data@, p as int, wn, hn, bn) =~= Seq::<u8>::empty());
                assert(ph * (pw * bn) == 0) by (nonlinear_arith)
                    requires pw == 0 || ph == 0;
                assert(Seq::<u8>::empty() =~= unfiltered(pass_data(data@, p as int, wn, hn, bn), pass_width(p as int, wn) * bn, bn, pass_height(p as int, hn)));
            }
            passes.push(Vec::new());
        } else {
            assert(pw as u128 * bpp as u128 <= 0x4_0000_0000u128) by (nonlinear_arith)
                requires pw <= MAX_DIMENSION, bpp <= 8;
            let stride128: u128 = pw as u128 * bpp as u128;
            assert(ph as u128 * (stride128 + 1) <= 0x1_0000_0000_0000_0000_0000u128) by (nonlinear_arith)
                requires ph <= MAX_DIMENSION, stride128 <= 0x4_0000_0000u128;
            let len128: u128 = ph as u128 * (stride128 + 1);
            if start as u128 + len128 > n as u128 {
                proof {
                    lemma_pass_start_monotone(p as int, 7, wn, hn, bn);
                }
                return Err(ParseError::FORMAT);
            }
            assert(stride128 < len128) by (nonlinear_arith)
                requires len128 == ph as u128 * (stride128 + 1), ph >= 1;
            let stride: usize = stride128 as usize;
            let len: usize = len128 as usize;
            let unf = unfilter_scanlines(&data, start, stride, ph, bpp);
            match unf {
                Err(e) => {
                    return Err(e);
                },
                Ok(v) => {
                    passes.push(v);
                },
            }
            start = start + len;
        }
        p = p + 1;
    }
    if start != n {
        return Err(ParseError::FORMAT);
    }
    assert(w as u128 * bpp as u128 <= 0x4_0000_0000u128) by (nonlinear_arith)
        requires w <= MAX_DIMENSION, bpp <= 8;
    let wb128: u128 = w as u128 * bpp as u128;
    assert(h as u128 * wb128 <= 0x1_0000_0000_0000_0000_0000u128) by (nonlinear_arith)
        requires h <= MAX_DIMENSION, wb128 <= 0x4_0000_0000u128;
    let total128: u128 = h as u128 * wb128;
    if total128 > usize::MAX as u128 {
        return Err(ParseError::FORMAT);
    }
    assert(wb128 <= total128) by (nonlinear_arith)
        requires total128 == h as u128 * wb128, h >= 1;
    let wb: usize = wb128 as usize;
    let total: usize = total128 as usize;
    let mut out: Vec<u8> = Vec::with_capacity(total);
    let mut j: usize = 0;
    while j < total
        invariant
            info_valid(*info),
            w == info.width,
            h == info.height,
            bpp == bytes_per_pixel(*info),
            0 < bpp <= 8,
            wn == w,
            hn == h,
            bn == bpp,
            wb == w * bpp,
            total == h * wb,
            passes@.len() == 7,
            forall|q: int| 0 <= q < 7 ==> (#[trigger] passes@[q])@ == unfiltered(pass_data(data@, q, wn, hn, bn), pass_width(q, wn) * bn, bn, pass_height(q, hn)),
            j <= total,
            out@.len() == j,
            forall|i: int| 0 <= i < j ==> #[trigger] out@[i] == deinterlaced(data@, wn, hn, bn)[i],
        decreases total - j,
    {
        assert(wb > 0) by (nonlinear_arith)
            requires j < total, total == h * wb;
        let y: usize = j / wb;
        let rem: usize = j % wb;
        let x: usize = rem / bpp;
        let k: usize = rem % bpp;
        proof {
            lemma_fundamental_div_mod(j as int, wb as int);
            lemma_mod_pos_bound(j as int, wb as int);
            lemma_fundamental_div_mod(rem as int, bpp as int);
            lemma_mod_pos_bound(rem as int, bpp as int);
            assert(y < h) by (nonlinear_arith)
                requires j < h * wb, j == wb * y + rem, rem >= 0, wb > 0;
            assert(x < w) by (nonlinear_arith)
                requires rem < w * bpp, rem == bpp * x + k, k >= 0, bpp > 0;
            lemma_adam7_partition(x as nat, y as nat, wn, hn);
        }
        let p = pass_index(x, y);
        let (ho, vo, hi, vi) = adam7_pass(p);
        let pw = extent(w, ho, hi);
        let ph = extent(h, vo, vi);
        let i: usize = (x - ho) / hi;
        let rr: usize = (y - vo) / vi;
        proof {
            assert(i * bpp + k < pw * bpp) by (nonlinear_arith)
                requires i < pw, k < bpp;
            assert(rr * (pw * bpp) + i * bpp + k < ph * (pw * bpp)) by (nonlinear_arith)
                requires rr < ph, i * bpp + k < pw * bpp;
            assert(passes@[p as int]@.len() == ph * (pw * bpp));
            lemma_fundamental_div_mod_converse(rr * (pw * bpp) + i * bpp + k, (pw * bpp) as int, rr as int, i * bpp + k);
        }
        let plen: usize = passes[p].len();
        proof {
            assert(pw * bpp <= ph * (pw * bpp)) by (nonlinear_arith)
                requires rr < ph;
            assert(rr * (pw * bpp) <= ph * (pw * bpp)) by (nonlinear_arith)
                requires rr < ph;
        }
        let idx: usize = rr * (pw * bpp) + i * bpp + k;
        let v = passes[p][idx];
        proof {
            assert(out@.len() == j);
            assert(deinterlaced(data@, wn, hn, bn)[j as int] == deinterlaced_byte(data@, wn, hn, bn, x as nat, y as nat, k as nat));
        }
        out.push(v);
        j = j + 1;
    }
    proof {
        assert(out@ =~= deinterlaced(data@, wn, hn, bn));
    }
    Ok(out)
}

} // verus!
