//! The thumbnail pipeline: parse, inflate, unfilter (deinterlacing if
//! needed), expand the palette, plan, resample, refilter, deflate, write.
use vstd::prelude::*;
use crate::adam7::{deinterlaced, interlaced_stream_ok, unfilter_interlaced_data};
use crate::chunk::{MAX_CHUNK_DATA, idat_of, ihdr_of, parse_idat, parse_ihdr, parse_plte, plte_of, png_bytes, construct_png, lemma_written_png_parses};
use crate::codec::{compress_data, decompress_data, zlib_compressed, zlib_decompressed};
use crate::crc::CrcTable;
use crate::filter::{filter_data, filter_types_known, filtered_with_type, unfilter_data, unfiltered, lemma_unfilter_inverts_filter};
use crate::header::{
    PNGInfo, ParseError, INDEXED_COLOR, MAX_DIMENSION, TRUECOLOR, bytes_per_pixel, check_png_info_valid, compute_bytes_per_pixel,
    info_supported, info_valid, row_stride, FORCED_BIT_DEPTH, lemma_bytes_per_pixel_at_8_bits,
};
use crate::resample::{ThumbnailGenerationInfo, compute_thumbnail_generation_info, plan_of, resampled, shrink_image, stretch_image, lemma_identity_resample};

verus! {

/// Compression level used for every thumbnail.
pub const DEFAULT_COMPRESSION_LEVEL: u8 = 3;

/// Every index of `indices` names a whole RGB triple of `palette`.
pub open spec fn indices_in_palette(indices: Seq<u8>, palette: Seq<u8>) -> bool {
    forall|i: int| 0 <= i < indices.len() ==> 3 * (#[trigger] indices[i]) + 3 <= palette.len()
}

/// Each index replaced by its palette entry.
pub open spec fn deindexed(indices: Seq<u8>, palette: Seq<u8>) -> Seq<u8> {
    Seq::new(3 * indices.len(), |j: int| palette[3 * indices[j / 3] + j % 3])
}

/// Replaces each palette index by the RGB triple it names.
pub fn deindex_color(idat_data: Vec<u8>, plte_data: Vec<u8>) -> (r: Result<Vec<u8>, ParseError>)
    requires
        3 * idat_data@.len() <= usize::MAX,
    ensures
        r is Ok <==> indices_in_palette(idat_data@, plte_data@),
        r is Ok ==> r->Ok_0@ == deindexed(idat_data@, plte_data@),
        r is Err ==> r->Err_0 == ParseError::FORMAT,
{
    let n: usize = idat_data.len();
    let p: usize = plte_data.len();
    let mut color_data: Vec<u8> = Vec::with_capacity(3 * n);
    let mut i: usize = 0;
    while i < n
        invariant
            n == idat_data@.len(),
            p == plte_data@.len(),
            3 * n <= usize::MAX,
            i <= n,
            color_data@.len() == 3 * i,
            forall|q: int| 0 <= q < i ==> 3 * (#[trigger] idat_data@[q]) + 3 <= p,
            forall|j: int| 0 <= j < 3 * i ==> #[trigger] color_data@[j] == plte_data@[3 * idat_data@[j / 3] + j % 3],
        decreases n - i,
    {
        let index: usize = idat_data[i] as usize;
        if 3 * index + 3 > p {
            return Err(ParseError::FORMAT);
        }
        let base: usize = 3 * index;
        color_data.push(plte_data[base]);
        color_data.push(plte_data[base + 1]);
        color_data.push(plte_data[base + 2]);
        proof {
            assert forall|j: int| 3 * i <= j < 3 * i + 3 implies #[trigger] color_data@[j] == plte_data@[3 * idat_data@[j / 3] + j % 3] by {
                assert(j / 3 == i);
            }
        }
        i = i + 1;
    }
    proof {
        assert(color_data@ =~= deindexed(idat_data@, plte_data@));
    }
    Ok(color_data)
}

/// The header of the decoded pixels: indexed color becomes truecolor, and
/// interlacing is resolved.
pub open spec fn decoded_info(info: PNGInfo) -> PNGInfo {
    PNGInfo {
        color_type: if info.color_type == INDEXED_COLOR { TRUECOLOR } else { info.color_type },
        interlace_method: 0,
        ..info
    }
}

/// The stored pixels (indices, for indexed color) carried by a decompressed stream.
pub open spec fn stored_pixels_of(info: PNGInfo, inflated: Seq<u8>) -> Result<Seq<u8>, ParseError> {
    let w = info.width as nat;
    let h = info.height as nat;
    let bpp = bytes_per_pixel(info);
    if info.interlace_method == 1 {
        if interlaced_stream_ok(inflated, w, h, bpp) && h * (w * bpp) <= usize::MAX {
            Ok(deinterlaced(inflated, w, h, bpp))
        } else {
            Err(ParseError::FORMAT)
        }
    } else if inflated.len() == h * (row_stride(info) + 1) && filter_types_known(inflated, row_stride(info), h) {
        Ok(unfiltered(inflated, row_stride(info), bpp, h))
    } else {
        Err(ParseError::FORMAT)
    }
}

/// The decoded pixels (with the palette expanded) of a decompressed stream.
pub open spec fn pixels_of(info: PNGInfo, palette: Seq<u8>, inflated: Seq<u8>) -> Result<Seq<u8>, ParseError> {
    match stored_pixels_of(info, inflated) {
        Err(e) => Err(e),
        Ok(px) => if info.color_type != INDEXED_COLOR {
            Ok(px)
        } else if 3 * px.len() > usize::MAX {
            Err(ParseError::UNSUPPORTED)
        } else if indices_in_palette(px, palette) {
            Ok(deindexed(px, palette))
        } else {
            Err(ParseError::FORMAT)
        },
    }
}

/// Decodes the pixels of a supported image from its decompressed stream and its palette.
pub fn decode_pixels(info: &PNGInfo, plte_data: Vec<u8>, inflated: Vec<u8>) -> (r: Result<Vec<u8>, ParseError>)
    requires
        info_supported(*info),
    ensures
        match r {
            Ok(v) => pixels_of(*info, plte_data@, inflated@) == Ok::<Seq<u8>, ParseError>(v@),
            Err(e) => pixels_of(*info, plte_data@, inflated@) == Err::<Seq<u8>, ParseError>(e),
        },
        r is Ok ==> r->Ok_0@.len() == info.height * (info.width * bytes_per_pixel(decoded_info(*info))),
{
    let bpp = compute_bytes_per_pixel(info);
    assert(bpp > 0);
    let stored = if info.interlace_method == 1 {
        unfilter_interlaced_data(info, inflated)
    } else {
        unfilter_data(info, inflated)
    };
    let px = match stored {
        Ok(v) => v,
        Err(e) => {
            return Err(e);
        },
    };
    if info.color_type != INDEXED_COLOR {
        return Ok(px);
    }
    if px.len() > usize::MAX / 3 {
        return Err(ParseError::UNSUPPORTED);
    }
    proof {
        lemma_bytes_per_pixel_at_8_bits(*info);
        lemma_bytes_per_pixel_at_8_bits(decoded_info(*info));
        let w = info.width as nat;
        let h = info.height as nat;
        assert(3 * (h * (w * 1)) == h * (w * 3)) by (nonlinear_arith);
    }
    deindex_color(px, plte_data)
}

/// The plan for a thumbnail of a decoded image.
pub open spec fn thumbnail_plan(info: PNGInfo, max_width: nat, max_height: nat, zoom_to_fill: bool) -> ThumbnailGenerationInfo {
    plan_of(info.width as nat, info.height as nat, max_width, max_height, zoom_to_fill)
}

/// The header written for a thumbnail.
pub open spec fn thumbnail_info(info: PNGInfo, plan: ThumbnailGenerationInfo) -> PNGInfo {
    PNGInfo { width: plan.width, height: plan.height, ..info }
}

/// The thumbnail's scanlines, resampled and filtered with type 0.
pub open spec fn thumbnail_filtered(info: PNGInfo, pixels: Seq<u8>, max_width: nat, max_height: nat, zoom_to_fill: bool) -> Seq<u8> {
    let plan = thumbnail_plan(info, max_width, max_height, zoom_to_fill);
    let bpp = bytes_per_pixel(info);
    filtered_with_type(0, resampled(pixels, info.width as nat, info.height as nat, bpp, plan), (plan.width * bpp) as nat, bpp, plan.height as nat)
}

/// Thumbnail bounds a caller may ask for: positive, within the header's
/// limit, and small enough that the thumbnail's scanlines fit in memory.
pub open spec fn bounds_ok(max_width: nat, max_height: nat) -> bool {
    &&& 0 < max_width <= MAX_DIMENSION
    &&& 0 < max_height <= MAX_DIMENSION
    &&& max_width * max_height * 5 <= usize::MAX
}

/// Resamples decoded pixels to the thumbnail's size and filters them for writing.
pub fn thumbnail_scanlines(info: &PNGInfo, pixels: Vec<u8>, max_width: usize, max_height: usize, zoom_to_fill: bool) -> (r: (PNGInfo, Vec<u8>))
    requires
        info_supported(*info),
        info.color_type != INDEXED_COLOR,
        pixels@.len() == info.height * (info.width * bytes_per_pixel(*info)),
        bounds_ok(max_width as nat, max_height as nat),
    ensures
        r.0 == thumbnail_info(*info, thumbnail_plan(*info, max_width as nat, max_height as nat, zoom_to_fill)),
        r.1@ == thumbnail_filtered(*info, pixels@, max_width as nat, max_height as nat, zoom_to_fill),
        r.0.width <= max_width,
        r.0.height <= max_height,
{
    let bpp = compute_bytes_per_pixel(info);
    proof { lemma_bytes_per_pixel_at_8_bits(*info); }
    let plan = compute_thumbnail_generation_info(info.width, info.height, max_width, max_height, zoom_to_fill);
    assert(plan.width * bpp <= 4 * max_width) by (nonlinear_arith)
        requires
            plan.width <= max_width,
            bpp <= 4,
    ;
    assert(plan.height * (plan.width * bpp + 1) <= max_height * (4 * max_width + 1)) by (nonlinear_arith)
        requires
            plan.width * bpp <= 4 * max_width,
            plan.height <= max_height,
    ;
    assert(max_height * (4 * max_width + 1) <= max_width * max_height * 5) by (nonlinear_arith)
        requires
            max_width >= 1,
            max_height >= 1,
    ;
    assert(plan.height * (plan.width * bpp) <= plan.height * (plan.width * bpp + 1)) by (nonlinear_arith);
    assert(plan.width * bpp <= 0x4_0000_0000) by (nonlinear_arith)
        requires
            plan.width <= MAX_DIMENSION,
            bpp <= 4,
    ;
    assert(plan.width * bpp <= usize::MAX) by (nonlinear_arith)
        requires
            plan.width <= max_width,
            bpp <= 4,
            max_width * max_height * 5 <= usize::MAX,
            max_height >= 1,
    ;
    let resized = if plan.ratio_num < plan.ratio_den {
        shrink_image(pixels, info.width, info.height, bpp, &plan)
    } else {
        stretch_image(pixels, info.width, info.height, bpp, &plan)
    };
    let tinfo = PNGInfo { width: plan.width, height: plan.height, ..*info };
    assert(bytes_per_pixel(tinfo) == bpp);
    let filtered = filter_data(&tinfo, resized);
    (tinfo, filtered)
}

/// The header and decoded pixels of the PNG held in `raw`.
pub open spec fn decode_of(raw: Seq<u8>) -> Result<(PNGInfo, Seq<u8>), ParseError> {
    match ihdr_of(raw) {
        Err(e) => Err(e),
        Ok(info) => if !info_valid(info) {
            Err(ParseError::FORMAT)
        } else if !info_supported(info) {
            Err(ParseError::UNSUPPORTED)
        } else {
            let palette = if info.color_type == INDEXED_COLOR {
                plte_of(raw)
            } else {
                Ok(Seq::empty())
            };
            match palette {
                Err(e) => Err(e),
                Ok(plte) => match idat_of(raw) {
                    Err(e) => Err(e),
                    Ok(z) => match zlib_decompressed(z) {
                        None => Err(ParseError::FORMAT),
                        Some(inflated) => match pixels_of(info, plte, inflated) {
                            Err(e) => Err(e),
                            Ok(px) => Ok((info, px)),
                        },
                    },
                },
            }
        },
    }
}

/// What a thumbnail request on the bytes `raw` returns.
pub open spec fn thumbnail_of(raw: Seq<u8>, max_width: nat, max_height: nat, zoom_to_fill: bool) -> Result<Seq<u8>, ParseError> {
    match decode_of(raw) {
        Err(e) => Err(e),
        Ok((info, px)) => {
            let dinfo = decoded_info(info);
            let plan = thumbnail_plan(dinfo, max_width, max_height, zoom_to_fill);
            let compressed = zlib_compressed(
                thumbnail_filtered(dinfo, px, max_width, max_height, zoom_to_fill),
                DEFAULT_COMPRESSION_LEVEL,
            );
            if compressed.len() > MAX_CHUNK_DATA {
                Err(ParseError::UNSUPPORTED)
            } else {
                Ok(png_bytes(thumbnail_info(dinfo, plan), compressed))
            }
        },
    }
}

/// Re-encoding decoded pixels and decoding again gives the same pixels: for a
/// supported non-interlaced, non-indexed header and pixels of its size, the
/// PNG written with an IDAT stream that inflates to the type-0 filtered
/// scanlines decodes to that header and those pixels.
pub proof fn lemma_reencode_round_trip(info: PNGInfo, pixels: Seq<u8>, compressed: Seq<u8>)
    requires
        info_supported(info),
        info.interlace_method == 0,
        info.color_type != INDEXED_COLOR,
        pixels.len() == info.height * row_stride(info),
        0 < compressed.len() <= MAX_CHUNK_DATA,
        zlib_decompressed(compressed) == Some(filtered_with_type(0, pixels, row_stride(info), bytes_per_pixel(info), info.height as nat)),
    ensures
        decode_of(png_bytes(info, compressed)) == Ok::<(PNGInfo, Seq<u8>), ParseError>((info, pixels)),
{
    let stride = row_stride(info);
    let bpp = bytes_per_pixel(info);
    let h = info.height as nat;
    lemma_bytes_per_pixel_at_8_bits(info);
    lemma_written_png_parses(info, compressed);
    lemma_unfilter_inverts_filter(0, pixels, stride, bpp, h);
    let f = filtered_with_type(0, pixels, stride, bpp, h);
    assert(f.len() == h * (stride + 1)) by {
        reveal(filtered_with_type);
    }
    assert(stored_pixels_of(info, f) == Ok::<Seq<u8>, ParseError>(pixels));
}

/// A thumbnail that fills a box of the image's own size keeps the header,
/// scales by one, and carries the very same pixels.
pub proof fn lemma_identity_thumbnail(info: PNGInfo, pixels: Seq<u8>)
    requires
        info_supported(info),
        pixels.len() == info.height * row_stride(info),
    ensures
        thumbnail_plan(info, info.width as nat, info.height as nat, true).ratio_num
            == thumbnail_plan(info, info.width as nat, info.height as nat, true).ratio_den,
        thumbnail_info(info, thumbnail_plan(info, info.width as nat, info.height as nat, true)) == info,
        thumbnail_filtered(info, pixels, info.width as nat, info.height as nat, true)
            == filtered_with_type(0, pixels, row_stride(info), bytes_per_pixel(info), info.height as nat),
{
    lemma_bytes_per_pixel_at_8_bits(info);
    lemma_identity_resample(pixels, info.width as nat, info.height as nat, bytes_per_pixel(info));
}

#[verifier::rlimit(50)]
/// Generates a thumbnail of the PNG held in `raw_bytes`, within
/// `max_width` x `max_height`: filling that box exactly (cropping around the
/// centre) with `zoom_to_fill`, fitting inside it otherwise.
pub fn generate_thumbnail(raw_bytes: Vec<u8>, max_width: usize, max_height: usize, zoom_to_fill: bool) -> (r: Result<Vec<u8>, ParseError>)
    requires
        bounds_ok(max_width as nat, max_height as nat),
    ensures
        match r {
            Ok(v) => thumbnail_of(raw_bytes@, max_width as nat, max_height as nat, zoom_to_fill) == Ok::<Seq<u8>, ParseError>(v@),
            Err(e) => thumbnail_of(raw_bytes@, max_width as nat, max_height as nat, zoom_to_fill) == Err::<Seq<u8>, ParseError>(e),
        },
{
    let png_info = match parse_ihdr(&raw_bytes) {
        Ok(info) => info,
        Err(e) => {
            return Err(e);
        },
    };
    if !check_png_info_valid(&png_info) {
        return Err(ParseError::FORMAT);
    }
    if png_info.bit_depth != FORCED_BIT_DEPTH {
        return Err(ParseError::UNSUPPORTED);
    }
    let plte_data: Vec<u8> = if png_info.color_type == INDEXED_COLOR {
        match parse_plte(&raw_bytes) {
            Ok(data) => data,
            Err(e) => {
                return Err(e);
            },
        }
    } else {
        Vec::new()
    };
    let idat_data = match parse_idat(&raw_bytes) {
        Ok(data) => data,
        Err(e) => {
            return Err(e);
        },
    };
    let inflated = match decompress_data(&idat_data) {
        Some(data) => data,
        None => {
            return Err(ParseError::FORMAT);
        },
    };
    let pixels = match decode_pixels(&png_info, plte_data, inflated) {
        Ok(px) => px,
        Err(e) => {
            return Err(e);
        },
    };
    let dinfo = PNGInfo {
        color_type: if png_info.color_type == INDEXED_COLOR { TRUECOLOR } else { png_info.color_type },
        interlace_method: 0,
        ..png_info
    };
    let (tinfo, filtered) = thumbnail_scanlines(&dinfo, pixels, max_width, max_height, zoom_to_fill);
    let compressed = compress_data(&filtered, DEFAULT_COMPRESSION_LEVEL);
    if compressed.len() > MAX_CHUNK_DATA {
        return Err(ParseError::UNSUPPORTED);
    }
    let table = CrcTable::new();
    Ok(construct_png(&table, tinfo, compressed))
}

} // verus!
