use thumbnail_png::chunk::{construct_indexed_png, construct_png, parse_idat, parse_ihdr, parse_plte};
use thumbnail_png::crc::CrcTable;
use thumbnail_png::header::{PNGInfo, ParseError};
use thumbnail_png::png::{decode_pixels, deindex_color, generate_thumbnail};

fn info(width: usize, height: usize, bit_depth: u8, color_type: u8, interlace_method: u8) -> PNGInfo {
    PNGInfo {
        width,
        height,
        bit_depth,
        color_type,
        compression_method: 0,
        filter_method: 0,
        interlace_method,
    }
}

fn zlib(data: &[u8]) -> Vec<u8> {
    miniz_oxide::deflate::compress_to_vec_zlib(data, 6)
}

fn inflate(data: &[u8]) -> Vec<u8> {
    miniz_oxide::inflate::decompress_to_vec_zlib(data).unwrap()
}

/// Rows of `pixels`, each preceded by filter type 0.
fn unfiltered_stream(pixels: &[u8], stride: usize) -> Vec<u8> {
    let mut out = Vec::new();
    for row in pixels.chunks(stride) {
        out.push(0);
        out.extend_from_slice(row);
    }
    out
}

fn png_of(header: &PNGInfo, stream: &[u8]) -> Vec<u8> {
    construct_png(&CrcTable::new(), *header, zlib(stream))
}

/// Header and decoded pixels of a written PNG.
fn decode(png: &Vec<u8>) -> (PNGInfo, Vec<u8>) {
    let header = parse_ihdr(png).unwrap();
    let inflated = inflate(&parse_idat(png).unwrap());
    let plte = if header.color_type == 3 { parse_plte(png).unwrap() } else { Vec::new() };
    (header, decode_pixels(&header, plte, inflated).unwrap())
}

fn solid_red_4x4() -> Vec<u8> {
    let pixels: Vec<u8> = [0xffu8, 0x00, 0x00].iter().cycle().take(48).cloned().collect();
    png_of(&info(4, 4, 8, 2, 0), &unfiltered_stream(&pixels, 12))
}

#[test]
fn solid_red_decodes_to_red_triples() {
    let (header, pixels) = decode(&solid_red_4x4());
    assert_eq!(header, info(4, 4, 8, 2, 0));
    assert_eq!(pixels.len(), 48);
    for px in pixels.chunks(3) {
        assert_eq!(px, &[0xff, 0x00, 0x00]);
    }
}

#[test]
fn solid_red_thumbnail_is_solid_red() {
    let out = generate_thumbnail(solid_red_4x4(), 2, 2, true).unwrap();
    let (header, pixels) = decode(&out);
    assert_eq!(header, info(2, 2, 8, 2, 0));
    assert_eq!(pixels, vec![0xff, 0x00, 0x00, 0xff, 0x00, 0x00, 0xff, 0x00, 0x00, 0xff, 0x00, 0x00]);
    let stream = inflate(&parse_idat(&out).unwrap());
    assert_eq!(stream, vec![0, 0xff, 0, 0, 0xff, 0, 0, 0, 0xff, 0, 0, 0xff, 0, 0]);
}

#[test]
fn corrupt_signature_is_rejected() {
    let mut png = solid_red_4x4();
    png[0] = 0x00;
    assert_eq!(generate_thumbnail(png, 2, 2, true), Err(ParseError::SIGNATURE));
}

#[test]
fn short_buffer_is_a_signature_error() {
    assert_eq!(generate_thumbnail(vec![0x89, 0x50], 2, 2, true), Err(ParseError::SIGNATURE));
}

#[test]
fn truncated_header_is_a_length_error() {
    let png = solid_red_4x4();
    assert_eq!(generate_thumbnail(png[..20].to_vec(), 2, 2, true), Err(ParseError::LENGTH));
}

#[test]
fn truncated_idat_is_a_length_error() {
    let png = solid_red_4x4();
    assert_eq!(generate_thumbnail(png[..40].to_vec(), 2, 2, true), Err(ParseError::LENGTH));
}

#[test]
fn first_chunk_not_ihdr_is_a_type_error() {
    let mut png = solid_red_4x4();
    png[12] = b'X';
    assert_eq!(generate_thumbnail(png, 2, 2, true), Err(ParseError::TYPE));
}

#[test]
fn missing_idat_is_reported() {
    let png = solid_red_4x4();
    // Signature and IHDR, then the IEND chunk (the last 12 bytes).
    let mut cut = png[..33].to_vec();
    cut.extend_from_slice(&png[png.len() - 12..]);
    assert_eq!(generate_thumbnail(cut, 2, 2, true), Err(ParseError::MISSING));
}

#[test]
fn corrupt_stream_is_a_format_error() {
    let table = CrcTable::new();
    let png = construct_png(&table, info(4, 4, 8, 2, 0), vec![1, 2, 3, 4, 5]);
    assert_eq!(generate_thumbnail(png, 2, 2, true), Err(ParseError::FORMAT));
}

#[test]
fn unknown_filter_type_is_a_format_error() {
    let pixels = vec![7u8; 48];
    let mut stream = unfiltered_stream(&pixels, 12);
    stream[13] = 5;
    let png = png_of(&info(4, 4, 8, 2, 0), &stream);
    assert_eq!(generate_thumbnail(png, 2, 2, true), Err(ParseError::FORMAT));
}

#[test]
fn stream_of_wrong_size_is_a_format_error() {
    let stream = unfiltered_stream(&vec![7u8; 36], 12);
    let png = png_of(&info(4, 4, 8, 2, 0), &stream);
    assert_eq!(generate_thumbnail(png, 2, 2, true), Err(ParseError::FORMAT));
}

#[test]
fn invalid_header_is_a_format_error() {
    let png = png_of(&info(4, 4, 8, 5, 0), &unfiltered_stream(&vec![0u8; 16], 4));
    assert_eq!(generate_thumbnail(png, 2, 2, true), Err(ParseError::FORMAT));
}

#[test]
fn sixteen_bit_depth_is_unsupported() {
    let png = png_of(&info(2, 2, 16, 2, 0), &unfiltered_stream(&vec![0u8; 24], 12));
    assert_eq!(generate_thumbnail(png, 2, 2, true), Err(ParseError::UNSUPPORTED));
}

#[test]
fn palette_expands_indices() {
    let palette = vec![0, 0, 0, 255, 255, 255, 128, 128, 128];
    let out = deindex_color(vec![0, 1, 2, 1], palette).unwrap();
    assert_eq!(out, vec![0, 0, 0, 255, 255, 255, 128, 128, 128, 255, 255, 255]);
}

#[test]
fn palette_index_out_of_range_is_a_format_error() {
    let palette = vec![0, 0, 0, 255, 255, 255];
    assert_eq!(deindex_color(vec![0, 2], palette), Err(ParseError::FORMAT));
}

fn indexed_2x2(palette: &Vec<u8>) -> Vec<u8> {
    let stream = unfiltered_stream(&[0, 1, 2, 1], 2);
    construct_indexed_png(&CrcTable::new(), info(2, 2, 8, 3, 0), zlib(&stream), palette.clone())
}

#[test]
fn indexed_image_becomes_truecolor() {
    let palette = vec![0, 0, 0, 255, 255, 255, 128, 128, 128];
    let out = generate_thumbnail(indexed_2x2(&palette), 2, 2, true).unwrap();
    let (header, pixels) = decode(&out);
    assert_eq!(header, info(2, 2, 8, 2, 0));
    assert_eq!(pixels, vec![0, 0, 0, 255, 255, 255, 128, 128, 128, 255, 255, 255]);
}

#[test]
fn indexed_image_without_palette_is_missing() {
    let stream = unfiltered_stream(&[0, 1, 2, 1], 2);
    let png = png_of(&info(2, 2, 8, 3, 0), &stream);
    assert_eq!(generate_thumbnail(png, 2, 2, true), Err(ParseError::MISSING));
}

#[test]
fn palette_of_partial_triple_is_a_length_error() {
    let png = indexed_2x2(&vec![0, 0, 0, 255]);
    assert_eq!(generate_thumbnail(png, 2, 2, true), Err(ParseError::LENGTH));
}

#[test]
fn identity_thumbnail_keeps_pixels() {
    let pixels: Vec<u8> = (0..36u32).map(|v| (v * 7) as u8).collect();
    let png = png_of(&info(3, 4, 8, 2, 0), &unfiltered_stream(&pixels, 9));
    let out = generate_thumbnail(png, 3, 4, true).unwrap();
    let (header, decoded) = decode(&out);
    assert_eq!(header, info(3, 4, 8, 2, 0));
    assert_eq!(decoded, pixels);
}

#[test]
fn reencoding_decoded_pixels_round_trips() {
    let pixels: Vec<u8> = (0..24u32).map(|v| (v * 11 + 3) as u8).collect();
    // Sub filter on every row of a 3 x 2 greyscale+alpha image.
    let mut stream = Vec::new();
    for row in pixels.chunks(12) {
        stream.push(1);
        for x in 0..12 {
            let left = if x >= 2 { row[x - 2] } else { 0 };
            stream.push(row[x].wrapping_sub(left));
        }
    }
    let png = png_of(&info(6, 2, 8, 4, 0), &stream);
    let (header, first) = decode(&png);
    assert_eq!(first, pixels);
    let again = png_of(&header, &unfiltered_stream(&first, 12));
    assert_eq!(decode(&again).1, first);
}

#[test]
fn fit_thumbnail_keeps_aspect_ratio() {
    let pixels = vec![9u8; 8 * 4];
    let png = png_of(&info(8, 4, 8, 0, 0), &unfiltered_stream(&pixels, 8));
    let out = generate_thumbnail(png, 4, 4, false).unwrap();
    let (header, decoded) = decode(&out);
    assert_eq!((header.width, header.height), (4, 2));
    assert_eq!(decoded, vec![9u8; 8]);
}

#[test]
fn interlaced_image_is_deinterlaced() {
    // A 2 x 2 greyscale image: pass 0 holds (0,0), pass 5 holds (1,0), pass 6 holds row 1.
    let stream = vec![0, 10, 0, 20, 0, 30, 40];
    let png = png_of(&info(2, 2, 8, 0, 1), &stream);
    let out = generate_thumbnail(png, 2, 2, true).unwrap();
    let (header, decoded) = decode(&out);
    assert_eq!(header, info(2, 2, 8, 0, 0));
    assert_eq!(decoded, vec![10, 20, 30, 40]);
}
