use thumbnail_png::adam7::unfilter_interlaced_data;
use thumbnail_png::allocator::{align_up, list_index};
use thumbnail_png::bst::Node;
use thumbnail_png::chunk::{get_size_from_bytes, receive_status, write_size_to_bytes, ReceiveStatus};
use thumbnail_png::crc::CrcTable;
use thumbnail_png::filter::{filter_data, paeth_predictor, unfilter_data, unfilter_scanlines};
use thumbnail_png::header::{check_bit_depth_valid, check_png_info_valid, compute_bytes_per_pixel, PNGInfo, ParseError};
use thumbnail_png::interrupts::InterruptIndex;
use thumbnail_png::resample::{compute_thumbnail_generation_info, shrink_image, stretch_image, ThumbnailGenerationInfo};
use thumbnail_png::vga::{Color, ColorCode};

fn grey(width: usize, height: usize, interlace_method: u8) -> PNGInfo {
    PNGInfo {
        width,
        height,
        bit_depth: 8,
        color_type: 0,
        compression_method: 0,
        filter_method: 0,
        interlace_method,
    }
}

#[test]
fn crc_of_iend_tag() {
    let table = CrcTable::new();
    assert_eq!(table.compute_crc(b"IEND"), 0xae42_6082);
    assert_eq!(table.compute_crc(b""), 0);
    assert_eq!(table.compute_crc(b"123456789"), 0xcbf4_3926);
}

#[test]
fn written_chunks_carry_their_crc() {
    let table = CrcTable::new();
    let png = thumbnail_png::chunk::construct_png(&table, grey(1, 1, 0), vec![1, 2, 3]);
    let mut start = 8;
    while start < png.len() {
        let len = get_size_from_bytes(&png, start) as usize;
        let stored = get_size_from_bytes(&png, start + 8 + len);
        assert_eq!(stored, table.compute_crc(&png[start + 4..start + 8 + len]));
        start += 12 + len;
    }
    assert_eq!(start, png.len());
}

#[test]
fn big_endian_sizes() {
    let mut out = vec![7u8];
    write_size_to_bytes(0x0102_0304, &mut out);
    assert_eq!(out, vec![7, 1, 2, 3, 4]);
    assert_eq!(get_size_from_bytes(&out, 1), 0x0102_0304);
}

#[test]
fn bit_depth_table() {
    let table: [(u8, &[u8]); 5] = [(0, &[1, 2, 4, 8, 16]), (2, &[8, 16]), (3, &[1, 2, 4, 8]), (4, &[8, 16]), (6, &[8, 16])];
    for color_type in 0..=255u8 {
        for depth in 0..=255u8 {
            let legal = table.iter().any(|(c, ds)| *c == color_type && ds.contains(&depth));
            assert_eq!(check_bit_depth_valid(depth, color_type), legal);
            let info = PNGInfo { bit_depth: depth, color_type, ..grey(1, 1, 0) };
            assert_eq!(check_png_info_valid(&info), legal);
        }
    }
}

#[test]
fn header_fields_are_checked() {
    assert!(check_png_info_valid(&grey(1, 1, 1)));
    assert!(!check_png_info_valid(&grey(1, 1, 2)));
    assert!(!check_png_info_valid(&grey(0, 1, 0)));
    assert!(!check_png_info_valid(&grey(1, 0x8000_0000, 0)));
    assert!(!check_png_info_valid(&PNGInfo { compression_method: 1, ..grey(1, 1, 0) }));
    assert!(!check_png_info_valid(&PNGInfo { filter_method: 1, ..grey(1, 1, 0) }));
}

#[test]
fn bytes_per_pixel_by_color_type() {
    let bpp = |color_type: u8| compute_bytes_per_pixel(&PNGInfo { color_type, ..grey(1, 1, 0) });
    assert_eq!((bpp(0), bpp(2), bpp(3), bpp(4), bpp(6)), (1, 3, 1, 2, 4));
}

#[test]
fn paeth_picks_nearest_neighbour() {
    assert_eq!(paeth_predictor(10, 20, 15), 15);
    assert_eq!(paeth_predictor(1, 2, 3), 1);
    assert_eq!(paeth_predictor(5, 9, 4), 9);
    assert_eq!(paeth_predictor(0, 0, 0), 0);
}

#[test]
fn paeth_and_average_rows_unfilter() {
    let stream = vec![4, 10, 10, 3, 25, 25];
    assert_eq!(unfilter_scanlines(&stream, 0, 2, 2, 1), Ok(vec![10, 20, 30, 50]));
}

#[test]
fn sub_and_up_rows_unfilter() {
    let stream = vec![99, 1, 10, 10, 2, 20, 30];
    assert_eq!(unfilter_scanlines(&stream, 1, 2, 2, 1), Ok(vec![10, 20, 30, 50]));
}

#[test]
fn sub_filter_wraps_around() {
    assert_eq!(unfilter_scanlines(&vec![1, 200, 156], 0, 2, 1, 1), Ok(vec![200, 100]));
}

#[test]
fn unknown_filter_type_rejected() {
    assert_eq!(unfilter_scanlines(&vec![5, 1, 2], 0, 2, 1, 1), Err(ParseError::FORMAT));
}

#[test]
fn unfilter_checks_stream_size() {
    assert_eq!(unfilter_data(&grey(2, 2, 0), vec![0, 1, 2, 0, 3]), Err(ParseError::FORMAT));
    assert_eq!(unfilter_data(&grey(2, 2, 0), vec![0, 1, 2, 0, 3, 4]), Ok(vec![1, 2, 3, 4]));
}

#[test]
fn filter_type_zero_round_trips() {
    let pixels = vec![1, 2, 3, 4, 5, 6];
    let filtered = filter_data(&grey(3, 2, 0), pixels.clone());
    assert_eq!(filtered, vec![0, 1, 2, 3, 0, 4, 5, 6]);
    assert_eq!(unfilter_data(&grey(3, 2, 0), filtered), Ok(pixels));
}

#[test]
fn adam7_covers_every_pixel_once() {
    // Build the interlaced stream of an 8 x 8 image whose pixel (x, y) is y * 8 + x.
    let passes: [(usize, usize, usize, usize); 7] =
        [(0, 0, 8, 8), (4, 0, 8, 8), (0, 4, 4, 8), (2, 0, 4, 4), (0, 2, 2, 4), (1, 0, 2, 2), (0, 1, 1, 2)];
    let mut stream = Vec::new();
    let mut seen = vec![0u32; 64];
    for (ho, vo, hi, vi) in passes.iter() {
        let mut y = *vo;
        while y < 8 {
            stream.push(0);
            let mut x = *ho;
            while x < 8 {
                stream.push((y * 8 + x) as u8);
                seen[y * 8 + x] += 1;
                x += hi;
            }
            y += vi;
        }
    }
    assert!(seen.iter().all(|n| *n == 1));
    let out = unfilter_interlaced_data(&grey(8, 8, 1), stream).unwrap();
    assert_eq!(out, (0..64u8).collect::<Vec<u8>>());
}

#[test]
fn adam7_stream_of_wrong_size_rejected() {
    assert_eq!(unfilter_interlaced_data(&grey(2, 2, 1), vec![0, 10, 0, 20, 0, 30]), Err(ParseError::FORMAT));
}

fn plan(width: usize, height: usize, num: usize, den: usize, x: usize, y: usize) -> ThumbnailGenerationInfo {
    ThumbnailGenerationInfo { width, height, ratio_num: num, ratio_den: den, x_pixel_offset: x, y_pixel_offset: y }
}

#[test]
fn fit_plan_rounds_other_axis() {
    assert_eq!(compute_thumbnail_generation_info(100, 50, 20, 20, false), plan(20, 10, 20, 100, 0, 0));
    assert_eq!(compute_thumbnail_generation_info(30, 70, 20, 20, false), plan(9, 20, 20, 70, 0, 0));
}

#[test]
fn fill_plan_centres_crop() {
    assert_eq!(compute_thumbnail_generation_info(100, 50, 20, 20, true), plan(20, 20, 20, 50, 25, 0));
    assert_eq!(compute_thumbnail_generation_info(2, 4, 8, 8, true), plan(8, 8, 8, 2, 0, 4));
    assert_eq!(compute_thumbnail_generation_info(5, 5, 5, 5, true), plan(5, 5, 5, 5, 0, 0));
}

#[test]
fn stretch_copies_nearest_pixel() {
    let out = stretch_image(vec![1, 2], 2, 1, 1, &plan(4, 2, 2, 1, 0, 0));
    assert_eq!(out, vec![1, 1, 2, 2, 1, 1, 2, 2]);
}

#[test]
fn shrink_averages_cells() {
    let out = shrink_image(vec![1, 3, 5, 7, 2, 4, 6, 8], 4, 2, 1, &plan(2, 1, 1, 2, 0, 0));
    assert_eq!(out, vec![3, 7]);
}

#[test]
fn tree_adds_and_finds() {
    let mut tree = Node::new(6);
    let added: Vec<bool> = [2, 7, 5, 3, 1, 9, 4, 9].iter().map(|v| tree.add(*v)).collect();
    assert_eq!(added, vec![true, true, true, true, true, true, true, false]);
    assert!(tree.contains(3));
    assert!(!tree.contains(8));
    assert!(tree.contains(6));
    assert!(!tree.add(6));
}

#[test]
fn interrupt_vectors_and_masks() {
    assert_eq!(InterruptIndex::LegacyTimer.as_u8(), 32);
    assert_eq!(InterruptIndex::Keyboard.as_usize(), 33);
    assert_eq!(InterruptIndex::Serial1.as_u8(), 36);
    assert_eq!(InterruptIndex::Keyboard.as_pic_enable_mask(), 0xfd);
    assert_eq!(InterruptIndex::Serial1.as_pic_enable_mask() & InterruptIndex::Serial2.as_pic_enable_mask(), 0xe7);
}

#[test]
fn color_code_packs_nibbles() {
    assert_eq!(ColorCode::new(Color::Yellow, Color::Black), ColorCode(0x0e));
    assert_eq!(ColorCode::new(Color::White, Color::Blue), ColorCode(0x1f));
}

#[test]
fn receiver_waits_for_iend() {
    let png = thumbnail_png::chunk::construct_png(&CrcTable::new(), grey(1, 1, 0), vec![1, 2, 3]);
    for n in 0..png.len() {
        assert_eq!(receive_status(&png[..n].to_vec()), ReceiveStatus::NeedMore);
    }
    assert_eq!(receive_status(&png), ReceiveStatus::Complete);
    assert_eq!(receive_status(&vec![0x89, 0x51]), ReceiveStatus::Invalid);
}

#[test]
fn tree_lists_values_in_order() {
    let mut tree = Node::new(6);
    for v in [2, 7, 5, 3, 1, 9, 4, 9] {
        tree.add(v);
    }
    assert_eq!(tree.in_order(), vec![1, 2, 3, 4, 5, 6, 7, 9]);
}

#[test]
fn addresses_align_upwards() {
    assert_eq!(align_up(0, 8), 0);
    assert_eq!(align_up(1, 8), 8);
    assert_eq!(align_up(8, 8), 8);
    assert_eq!(align_up(0x1001, 0x1000), 0x2000);
}

#[test]
fn requests_pick_smallest_block() {
    assert_eq!(list_index(1, 1), Some(0));
    assert_eq!(list_index(8, 8), Some(0));
    assert_eq!(list_index(9, 1), Some(1));
    assert_eq!(list_index(4, 64), Some(3));
    assert_eq!(list_index(300, 8), Some(6));
    assert_eq!(list_index(2048, 8), Some(7));
    assert_eq!(list_index(2049, 8), None);
}
