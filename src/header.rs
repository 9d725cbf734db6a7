//! The image header (IHDR fields), its validity predicate and error kinds.
use vstd::prelude::*;

verus! {

pub const GREYSCALE: u8 = 0;
pub const TRUECOLOR: u8 = 2;
pub const INDEXED_COLOR: u8 = 3;
pub const GREYSCALE_WITH_ALPHA: u8 = 4;
pub const TRUECOLOR_WITH_ALPHA: u8 = 6;

/// The only bit depth whose pixels this library decodes.
pub const FORCED_BIT_DEPTH: u8 = 8;

/// Largest width or height a header may declare.
pub const MAX_DIMENSION: usize = 0x7fff_ffff;

/// Why a byte buffer could not be turned into a thumbnail.
#[derive(Debug, Clone, Copy, PartialEq, Eq, Structural)]
pub enum ParseError {
    /// The first eight bytes are not the PNG signature.
    SIGNATURE,
    /// A chunk runs past the end of the buffer, or a fixed-size chunk has the wrong size.
    LENGTH,
    /// A required chunk is not of the expected type.
    TYPE,
    /// A chunk stands in the wrong place.
    ORDER,
    /// A required chunk (IDAT, or PLTE for indexed color) is absent.
    MISSING,
    /// Corrupt data: compressed stream, filter byte, size of the pixel stream, palette index, header field.
    FORMAT,
    /// A valid image using a feature this library does not handle.
    UNSUPPORTED,
}

/// The fields of an IHDR chunk.
#[derive(Debug, Clone, Copy, PartialEq, Eq, Structural)]
pub struct PNGInfo {
    pub width: usize,
    pub height: usize,
    pub bit_depth: u8,
    pub color_type: u8,
    pub compression_method: u8,
    pub filter_method: u8,
    pub interlace_method: u8,
}

pub open spec fn color_type_valid(color_type: u8) -> bool {
    color_type == GREYSCALE || color_type == TRUECOLOR || color_type == INDEXED_COLOR
        || color_type == GREYSCALE_WITH_ALPHA || color_type == TRUECOLOR_WITH_ALPHA
}

/// The table of legal (bit depth, color type) pairs.
pub open spec fn bit_depth_valid(depth: u8, color_type: u8) -> bool {
    if color_type == GREYSCALE {
        depth == 1 || depth == 2 || depth == 4 || depth == 8 || depth == 16
    } else if color_type == INDEXED_COLOR {
        depth == 1 || depth == 2 || depth == 4 || depth == 8
    } else if color_type == TRUECOLOR || color_type == GREYSCALE_WITH_ALPHA || color_type
        == TRUECOLOR_WITH_ALPHA {
        depth == 8 || depth == 16
    } else {
        false
    }
}

pub open spec fn info_valid(info: PNGInfo) -> bool {
    &&& 0 < info.width <= MAX_DIMENSION
    &&& 0 < info.height <= MAX_DIMENSION
    &&& color_type_valid(info.color_type)
    &&& bit_depth_valid(info.bit_depth, info.color_type)
    &&& info.compression_method == 0
    &&& info.filter_method == 0
    &&& (info.interlace_method == 0 || info.interlace_method == 1)
}

/// A valid header whose pixels this library can decode: 8 bits per sample.
pub open spec fn info_supported(info: PNGInfo) -> bool {
    info_valid(info) && info.bit_depth == FORCED_BIT_DEPTH
}

/// Samples per stored pixel; an indexed pixel is a single palette index.
pub open spec fn channels_of(color_type: u8) -> nat {
    if color_type == GREYSCALE || color_type == INDEXED_COLOR {
        1
    } else if color_type == TRUECOLOR {
        3
    } else if color_type == GREYSCALE_WITH_ALPHA {
        2
    } else {
        4
    }
}

pub open spec fn bytes_per_pixel(info: PNGInfo) -> nat {
    ((info.bit_depth * channels_of(info.color_type)) / 8) as nat
}

/// Bytes in one row of pixels.
pub open spec fn row_stride(info: PNGInfo) -> nat {
    (info.width * bytes_per_pixel(info)) as nat
}

/// Number of samples per stored pixel.
pub fn channel_count(color_type: u8) -> (r: usize)
    requires
        color_type_valid(color_type),
    ensures
        r == channels_of(color_type),
{
    match color_type {
        GREYSCALE => 1,
        TRUECOLOR => 3,
        INDEXED_COLOR => 1,
        GREYSCALE_WITH_ALPHA => 2,
        _ => 4,
    }
}

pub fn check_color_type_valid(color_type: u8) -> (r: bool)
    ensures
        r == color_type_valid(color_type),
{
    match color_type {
        GREYSCALE => true,
        TRUECOLOR => true,
        INDEXED_COLOR => true,
        GREYSCALE_WITH_ALPHA => true,
        TRUECOLOR_WITH_ALPHA => true,
        _ => false,
    }
}

pub fn check_bit_depth_valid(depth: u8, color_type: u8) -> (r: bool)
    ensures
        r == bit_depth_valid(depth, color_type),
{
    match color_type {
        GREYSCALE => depth == 1 || depth == 2 || depth == 4 || depth == 8 || depth == 16,
        INDEXED_COLOR => depth == 1 || depth == 2 || depth == 4 || depth == 8,
        TRUECOLOR | GREYSCALE_WITH_ALPHA | TRUECOLOR_WITH_ALPHA => depth == 8 || depth == 16,
        _ => false,
    }
}

pub fn check_interlace_method_valid(method: u8) -> (r: bool)
    ensures
        r == (method == 0 || method == 1),
{
    let r = (method & !1u8) == 0;
    assert(r == (method == 0 || method == 1)) by (bit_vector)
        requires
            r == ((method & !1u8) == 0),
    ;
    r
}

/// The header validity predicate: dimensions, the (bit depth, color type)
/// table, compression and filter method 0, interlace method 0 or 1.
pub fn check_png_info_valid(info: &PNGInfo) -> (r: bool)
    ensures
        r == info_valid(*info),
{
    0 < info.width && info.width <= MAX_DIMENSION && 0 < info.height && info.height
        <= MAX_DIMENSION && check_color_type_valid(info.color_type) && check_bit_depth_valid(
        info.bit_depth,
        info.color_type,
    ) && info.compression_method == 0 && info.filter_method == 0
        && check_interlace_method_valid(info.interlace_method)
}

pub fn compute_bytes_per_pixel(info: &PNGInfo) -> (r: usize)
    requires
        color_type_valid(info.color_type),
    ensures
        r == bytes_per_pixel(*info),
{
    let channels = channel_count(info.color_type);
    assert(info.bit_depth as usize * channels <= 1020) by (nonlinear_arith)
        requires
            channels <= 4,
            info.bit_depth <= 255,
    ;
    let bits_per_pixel: usize = info.bit_depth as usize * channels;
    bits_per_pixel / 8
}

/// At 8 bits per sample a pixel takes one byte per sample.
pub proof fn lemma_bytes_per_pixel_at_8_bits(info: PNGInfo)
    requires
        info.bit_depth == 8,
    ensures
        bytes_per_pixel(info) == channels_of(info.color_type),
        1 <= bytes_per_pixel(info) <= 4,
{
    let c = channels_of(info.color_type);
    assert(c == 1 || c == 2 || c == 3 || c == 4);
    assert((8 * c) / 8 == c);
}

} // verus!
