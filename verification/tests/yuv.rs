//! RGB to YUV 4:2:0, planar and semi-planar.

use fmp4_mux::yuv_util::{
    can_convert, clamp, convert_rgb_to_yuv420, convert_rgb_to_yuv420p,
    convert_rgb_to_yuv420sp_nv12, ChromaLayout,
};

const WHITE: [u8; 3] = [255, 255, 255];
const BLACK: [u8; 3] = [0, 0, 0];
const RED: [u8; 3] = [255, 0, 0];
const GREEN: [u8; 3] = [0, 255, 0];
const BLUE: [u8; 3] = [0, 0, 255];
const GREY: [u8; 3] = [10, 20, 30];

fn image(pixels: &[[u8; 3]]) -> Vec<u8> {
    let mut out = Vec::new();
    for p in pixels {
        out.extend_from_slice(p);
    }
    out
}

#[test]
fn clamp_holds_to_a_byte() {
    assert_eq!(clamp(-1), 0);
    assert_eq!(clamp(i32::MIN), 0);
    assert_eq!(clamp(0), 0);
    assert_eq!(clamp(100), 100);
    assert_eq!(clamp(255), 255);
    assert_eq!(clamp(256), 255);
    assert_eq!(clamp(i32::MAX), 255);
}

#[test]
fn planar_frame_is_half_as_long_again() {
    let rgb = vec![0u8; 12];
    let yuv = convert_rgb_to_yuv420p(&rgb, 2, 2, 3);
    assert_eq!(yuv.len(), rgb.len() / 2);
}

#[test]
fn semi_planar_frame_is_half_as_long_again() {
    let rgb = vec![0u8; 12];
    let yuv = convert_rgb_to_yuv420sp_nv12(&rgb, 2, 2, 3);
    assert_eq!(yuv.len(), rgb.len() / 2);
}

#[test]
fn black_frame() {
    let rgb = vec![0u8; 12];
    assert_eq!(convert_rgb_to_yuv420p(&rgb, 2, 2, 3), vec![0, 0, 0, 0, 128, 128]);
    assert_eq!(convert_rgb_to_yuv420sp_nv12(&rgb, 2, 2, 3), vec![0, 0, 0, 0, 128, 128]);
}

#[test]
fn luma_of_each_primary() {
    // (77 r + 150 g + 29 b + 128) >> 8
    let rgb = image(&[WHITE, RED, GREEN, BLUE]);
    let yuv = convert_rgb_to_yuv420p(&rgb, 2, 2, 3);
    assert_eq!(&yuv[..4], &[255, 77, 149, 29]);
    let rgb = image(&[BLACK, GREY, GREY, BLACK]);
    let yuv = convert_rgb_to_yuv420p(&rgb, 2, 2, 3);
    // 770 + 3000 + 870 + 128 = 4768, and 4768 >> 8 = 18
    assert_eq!(&yuv[..4], &[0, 18, 18, 0]);
}

#[test]
fn chroma_comes_from_the_odd_column_of_the_even_row() {
    // the second pixel of the first row gives the one chroma sample
    let yuv = convert_rgb_to_yuv420p(&image(&[WHITE, RED, BLUE, GREEN]), 2, 2, 3);
    // u = ((-43 * 255 + 128) >> 8) + 128 = -43 + 128, v = (32513 >> 8) + 128
    assert_eq!(&yuv[4..], &[85, 255]);
    let yuv = convert_rgb_to_yuv420p(&image(&[WHITE, BLUE, RED, GREEN]), 2, 2, 3);
    // u = (32513 >> 8) + 128, v = ((-21 * 255 + 128) >> 8) + 128 = -21 + 128
    assert_eq!(&yuv[4..], &[255, 107]);
    let yuv = convert_rgb_to_yuv420p(&image(&[WHITE, GREEN, RED, BLUE]), 2, 2, 3);
    // u = ((-84 * 255 + 128) >> 8) + 128 = -84 + 128, v = -106 + 128
    assert_eq!(&yuv[4..], &[44, 22]);
    let yuv = convert_rgb_to_yuv420p(&image(&[RED, WHITE, RED, BLUE]), 2, 2, 3);
    assert_eq!(&yuv[4..], &[128, 128]);
    let yuv = convert_rgb_to_yuv420p(&image(&[RED, GREY, RED, BLUE]), 2, 2, 3);
    // u = ((-430 - 1680 + 3810 + 128) >> 8) + 128 = 7 + 128
    // v = ((1270 - 2120 - 630 + 128) >> 8) + 128 = -6 + 128
    assert_eq!(&yuv[4..], &[135, 122]);
}

#[test]
fn planar_and_semi_planar_differ_in_chroma_order_only() {
    // 4 x 2: chroma from pixels 1 and 3 of the first row
    let rgb = image(&[BLACK, RED, BLACK, BLUE, GREEN, GREEN, GREEN, GREEN]);
    let planar = convert_rgb_to_yuv420p(&rgb, 4, 2, 3);
    let semi = convert_rgb_to_yuv420sp_nv12(&rgb, 4, 2, 3);
    assert_eq!(planar, vec![0, 77, 0, 29, 149, 149, 149, 149, 85, 255, 255, 107]);
    assert_eq!(semi, vec![0, 77, 0, 29, 149, 149, 149, 149, 85, 255, 255, 107]);

    let rgb = image(&[BLACK, RED, BLACK, GREEN, GREEN, GREEN, GREEN, GREEN]);
    let planar = convert_rgb_to_yuv420p(&rgb, 4, 2, 3);
    let semi = convert_rgb_to_yuv420sp_nv12(&rgb, 4, 2, 3);
    assert_eq!(&planar[8..], &[85, 44, 255, 22]);
    assert_eq!(&semi[8..], &[85, 255, 44, 22]);
}

#[test]
fn odd_rows_give_no_chroma() {
    // 2 x 4: chroma from pixel 1 of rows 0 and 2
    let rgb = image(&[BLACK, RED, BLUE, BLUE, BLACK, GREEN, BLUE, BLUE]);
    let planar = convert_rgb_to_yuv420p(&rgb, 2, 4, 3);
    assert_eq!(planar, vec![0, 77, 29, 29, 0, 149, 29, 29, 85, 44, 255, 22]);
    let semi = convert_rgb_to_yuv420sp_nv12(&rgb, 2, 4, 3);
    assert_eq!(semi, vec![0, 77, 29, 29, 0, 149, 29, 29, 85, 255, 44, 22]);
}

#[test]
fn extra_bytes_of_a_pixel_are_skipped() {
    let rgba: Vec<u8> = vec![
        255, 255, 255, 9, 255, 0, 0, 9, 0, 255, 0, 9, 0, 0, 255, 9,
    ];
    assert_eq!(convert_rgb_to_yuv420p(&rgba, 2, 2, 4), vec![255, 77, 149, 29, 85, 255]);
    assert_eq!(convert_rgb_to_yuv420sp_nv12(&rgba, 2, 2, 4), vec![255, 77, 149, 29, 85, 255]);
}

#[test]
fn empty_frame_is_empty() {
    assert_eq!(convert_rgb_to_yuv420p(&[], 0, 0, 3), Vec::<u8>::new());
    assert_eq!(convert_rgb_to_yuv420sp_nv12(&[], 0, 4, 3), Vec::<u8>::new());
    assert_eq!(convert_rgb_to_yuv420p(&[], 4, 0, 3), Vec::<u8>::new());
}

#[test]
fn one_pixel_has_luma_only() {
    assert_eq!(convert_rgb_to_yuv420p(&RED, 1, 1, 3), vec![77]);
    assert_eq!(convert_rgb_to_yuv420sp_nv12(&RED, 1, 1, 3), vec![77]);
}

#[test]
fn two_pixels_leave_room_for_one_chroma_byte() {
    // 2 x 1 has no chroma plane of its own: V is stored after U on the one byte
    let rgb = image(&[BLACK, RED]);
    assert_eq!(convert_rgb_to_yuv420p(&rgb, 2, 1, 3), vec![0, 77, 255]);
}

#[test]
fn layout_picks_the_conversion() {
    let rgb = image(&[BLACK, RED, BLACK, GREEN, GREEN, GREEN, GREEN, GREEN]);
    assert_eq!(
        convert_rgb_to_yuv420(&rgb, 4, 2, 3, ChromaLayout::Planar),
        convert_rgb_to_yuv420p(&rgb, 4, 2, 3)
    );
    assert_eq!(
        convert_rgb_to_yuv420(&rgb, 4, 2, 3, ChromaLayout::Interleaved),
        convert_rgb_to_yuv420sp_nv12(&rgb, 4, 2, 3)
    );
}

#[test]
fn frames_of_even_size_can_be_converted() {
    let img = vec![0u8; 4 * 6 * 3];
    assert!(can_convert(&img, 4, 6, 3, ChromaLayout::Planar));
    assert!(can_convert(&img, 4, 6, 3, ChromaLayout::Interleaved));
    assert!(can_convert(&img, 6, 4, 3, ChromaLayout::Planar));
    assert!(can_convert(&img, 2, 2, 3, ChromaLayout::Planar));
    assert!(can_convert(&[], 0, 0, 3, ChromaLayout::Planar));
    assert!(can_convert(&[], 0, 7, 0, ChromaLayout::Interleaved));
}

#[test]
fn a_short_image_cannot_be_converted() {
    let img = vec![0u8; 4 * 6 * 3 - 1];
    assert!(!can_convert(&img, 4, 6, 3, ChromaLayout::Planar));
    assert!(!can_convert(&img, 4, 6, 3, ChromaLayout::Interleaved));
    // the last pixel needs red, green and blue, whatever a pixel's size
    assert!(can_convert(&img, 4, 6, 2, ChromaLayout::Planar));
    assert!(can_convert(&img[..3], 4, 6, 0, ChromaLayout::Planar));
    assert!(!can_convert(&img[..2], 4, 6, 0, ChromaLayout::Planar));
    assert!(!can_convert(&img[..2], 1, 1, 3, ChromaLayout::Planar));
}

#[test]
fn a_frame_too_large_for_32_bits_cannot_be_converted() {
    assert!(!can_convert(&[0; 3], 65536, 65536, 0, ChromaLayout::Planar));
    assert!(!can_convert(&[0; 3], u32::MAX, u32::MAX, 0, ChromaLayout::Interleaved));
    // 3 * 1431655766 is one more than fits
    assert!(!can_convert(&[0; 3], 1, 1431655766, 0, ChromaLayout::Planar));
    assert!(can_convert(&[0; 3], 1, 1431655765, 0, ChromaLayout::Planar));
    assert!(can_convert(&[0; 3], 1, 1431655765, 0, ChromaLayout::Interleaved));
}

#[test]
fn frames_without_room_for_their_chroma_cannot_be_converted() {
    // 2 x 3 takes two samples from rows 0 and 2, and has room for one and a half
    let img = vec![0u8; 2 * 3 * 3];
    assert!(can_convert(&img, 2, 3, 3, ChromaLayout::Planar));
    assert!(!can_convert(&img, 2, 3, 3, ChromaLayout::Interleaved));
    // 4 x 3 takes four samples and has a plane of three
    let img = vec![0u8; 4 * 3 * 3];
    assert!(!can_convert(&img, 4, 3, 3, ChromaLayout::Planar));
    assert!(!can_convert(&img, 4, 3, 3, ChromaLayout::Interleaved));
    // an odd width drops the last column and always fits
    let img = vec![0u8; 3 * 2 * 3];
    assert!(can_convert(&img, 3, 2, 3, ChromaLayout::Planar));
    assert!(can_convert(&img, 3, 2, 3, ChromaLayout::Interleaved));
}

#[test]
fn frame_of_odd_width() {
    // 3 x 2: one sample, from pixel 1; the frame has 9 bytes, the plane 1
    let rgb = image(&[BLACK, RED, BLUE, GREEN, GREEN, GREEN]);
    assert_eq!(
        convert_rgb_to_yuv420p(&rgb, 3, 2, 3),
        vec![0, 77, 29, 149, 149, 149, 85, 255, 0]
    );
    assert_eq!(
        convert_rgb_to_yuv420sp_nv12(&rgb, 3, 2, 3),
        vec![0, 77, 29, 149, 149, 149, 85, 255, 0]
    );
}

#[test]
fn frame_of_odd_height() {
    // 2 x 3: samples from pixel 1 of rows 0 and 2; plane of one byte, so the
    // second U overwrites the first V
    let rgb = image(&[BLACK, RED, BLACK, BLACK, BLACK, GREEN]);
    assert_eq!(
        convert_rgb_to_yuv420p(&rgb, 2, 3, 3),
        vec![0, 77, 0, 0, 0, 149, 85, 44, 22]
    );
}
