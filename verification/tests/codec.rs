use bmpcodec::{detect, read, read_info, ColFmt, ColType, Error};

fn build_bmp(dib_size: u32, dib_body: &[u8], palette: &[u8], pixels: &[u8]) -> Vec<u8> {
    assert_eq!(dib_body.len() as u32, dib_size - 4);
    let offset = 14 + dib_size + palette.len() as u32;
    let mut v = Vec::new();
    v.extend_from_slice(b"BM");
    v.extend_from_slice(&(offset + pixels.len() as u32).to_le_bytes());
    v.extend_from_slice(&[0u8; 4]);
    v.extend_from_slice(&offset.to_le_bytes());
    v.extend_from_slice(&dib_size.to_le_bytes());
    v.extend_from_slice(dib_body);
    v.extend_from_slice(palette);
    v.extend_from_slice(pixels);
    v
}

fn dib40(w: i32, h: i32, bpp: u16, compression: u32, palette_len: u32) -> Vec<u8> {
    let mut v = Vec::new();
    v.extend_from_slice(&w.to_le_bytes());
    v.extend_from_slice(&h.to_le_bytes());
    v.extend_from_slice(&1u16.to_le_bytes());
    v.extend_from_slice(&bpp.to_le_bytes());
    v.extend_from_slice(&compression.to_le_bytes());
    v.extend_from_slice(&[0u8; 12]);
    v.extend_from_slice(&palette_len.to_le_bytes());
    v.extend_from_slice(&0u32.to_le_bytes());
    v
}

fn dib56(
    w: i32,
    h: i32,
    bpp: u16,
    compression: u32,
    masks: (u32, u32, u32),
    alpha_mask: u32,
) -> Vec<u8> {
    let mut v = dib40(w, h, bpp, compression, 0);
    v.extend_from_slice(&masks.0.to_le_bytes());
    v.extend_from_slice(&masks.1.to_le_bytes());
    v.extend_from_slice(&masks.2.to_le_bytes());
    v.extend_from_slice(&alpha_mask.to_le_bytes());
    v
}

fn dib12(w: u16, h: u16, bpp: u16) -> Vec<u8> {
    let mut v = Vec::new();
    v.extend_from_slice(&w.to_le_bytes());
    v.extend_from_slice(&h.to_le_bytes());
    v.extend_from_slice(&1u16.to_le_bytes());
    v.extend_from_slice(&bpp.to_le_bytes());
    v
}

#[test]
fn detect_accepts_a_valid_header() {
    let d = build_bmp(40, &dib40(1, 1, 24, 0, 0), &[], &[1, 2, 3, 0]);
    assert!(detect(&d));
}

#[test]
fn detect_rejects_bad_magic_and_short_input() {
    let mut d = build_bmp(40, &dib40(1, 1, 24, 0, 0), &[], &[1, 2, 3, 0]);
    d[0] = 0x4d;
    assert!(!detect(&d));
    assert!(!detect(&[0x42, 0x4d, 0, 0]));
}

#[test]
fn detect_rejects_unknown_dib_size_and_reads_nothing_else() {
    let mut d = build_bmp(40, &dib40(1, 1, 24, 0, 0), &[], &[1, 2, 3, 0]);
    d[14] = 37;
    let before = d.clone();
    assert!(!detect(&d));
    assert_eq!(d, before);
}

#[test]
fn unknown_dib_size_is_unsupported_version() {
    let mut d = build_bmp(40, &dib40(1, 1, 24, 0, 0), &[], &[1, 2, 3, 0]);
    d[14] = 37;
    assert_eq!(read_info(&d).unwrap_err(), Error::UnsupportedVersion);
    assert!(matches!(read(&d, ColFmt::Auto), Err(Error::UnsupportedVersion)));
}

#[test]
fn truncated_header_is_truncated() {
    assert_eq!(read_info(&[0x42, 0x4d, 0, 0]).unwrap_err(), Error::Truncated);
}

#[test]
fn legacy_probe_reports_color() {
    let palette = [0u8; 256 * 3];
    let d = build_bmp(12, &dib12(3, 2, 8), &palette, &[0, 0, 0, 0, 0, 0, 0, 0]);
    let info = read_info(&d).unwrap();
    assert_eq!(info.w, 3);
    assert_eq!(info.h, 2);
    assert_eq!(info.ct, ColType::Color);
}

#[test]
fn alpha_mask_probe_reports_color_alpha() {
    let body = dib56(1, 1, 32, 3, (0x00ff_0000, 0x0000_ff00, 0x0000_00ff), 0xff00_0000);
    let d = build_bmp(56, &body, &[], &[1, 2, 3, 4]);
    assert_eq!(read_info(&d).unwrap().ct, ColType::ColorAlpha);
}

#[test]
fn zero_alpha_mask_probe_reports_color() {
    let body = dib56(1, 1, 32, 3, (0x00ff_0000, 0x0000_ff00, 0x0000_00ff), 0);
    let d = build_bmp(56, &body, &[], &[1, 2, 3, 4]);
    assert_eq!(read_info(&d).unwrap().ct, ColType::Color);
}

#[test]
fn decode_24bit_bottom_up() {
    // 2x2, rows stored bottom-up, pixels in BGR order, each row padded
    // from 6 to 8 bytes.
    let pixels = [
        30, 20, 10, 60, 50, 40, 0, 0, // bottom row: (10,20,30) (40,50,60)
        3, 2, 1, 6, 5, 4, 0, 0, // top row: (1,2,3) (4,5,6)
    ];
    let d = build_bmp(40, &dib40(2, 2, 24, 0, 0), &[], &pixels);
    let img = read(&d, ColFmt::RGB).unwrap();
    assert_eq!((img.w, img.h), (2, 2));
    assert_eq!(img.fmt, ColFmt::RGB);
    assert_eq!(img.buf, vec![1, 2, 3, 4, 5, 6, 10, 20, 30, 40, 50, 60]);
}

#[test]
fn decode_top_down_keeps_row_order() {
    let pixels = [
        3, 2, 1, 6, 5, 4, 0, 0, // first row on disk is the top row
        30, 20, 10, 60, 50, 40, 0, 0,
    ];
    let d = build_bmp(40, &dib40(2, -2, 24, 0, 0), &[], &pixels);
    let img = read(&d, ColFmt::RGB).unwrap();
    assert_eq!(img.buf, vec![1, 2, 3, 4, 5, 6, 10, 20, 30, 40, 50, 60]);
}

#[test]
fn standard_masks_match_plain_decoding() {
    let pixels = [9, 8, 7, 255, 19, 18, 17, 255];
    let masked = build_bmp(
        56,
        &dib56(2, 1, 32, 3, (0x00ff_0000, 0x0000_ff00, 0x0000_00ff), 0),
        &[],
        &pixels,
    );
    let mut plain_body = dib40(2, 1, 32, 0, 0);
    plain_body.extend_from_slice(&[0u8; 16]);
    let plain = build_bmp(56, &plain_body, &[], &pixels);
    let a = read(&masked, ColFmt::RGB).unwrap();
    let b = read(&plain, ColFmt::RGB).unwrap();
    assert_eq!(a.buf, b.buf);
    assert_eq!(a.buf, vec![7, 8, 9, 17, 18, 19]);
}

#[test]
fn paletted_decode_goes_through_the_palette() {
    // Two BGRA palette entries; 2x1 image, indices 1 then 0.
    let palette = [10, 20, 30, 0, 40, 50, 60, 0];
    let d = build_bmp(40, &dib40(2, 1, 8, 0, 2), &palette, &[1, 0, 0, 0]);
    let img = read(&d, ColFmt::RGB).unwrap();
    assert_eq!(img.buf, vec![60, 50, 40, 30, 20, 10]);
}

#[test]
fn palette_index_at_entry_count_fails() {
    // Index 2 with only entries 0 and 1: one past the end.
    let palette = [10, 20, 30, 0, 40, 50, 60, 0];
    let d = build_bmp(40, &dib40(2, 1, 8, 0, 2), &palette, &[2, 0, 0, 0]);
    assert!(matches!(read(&d, ColFmt::RGB), Err(Error::Format)));
}

#[test]
fn legacy_paletted_decode() {
    let mut palette = vec![0u8; 256 * 3];
    palette[3] = 5; // entry 1: b=5, g=6, r=7
    palette[4] = 6;
    palette[5] = 7;
    let d = build_bmp(12, &dib12(1, 1, 8), &palette, &[1, 0, 0, 0]);
    let img = read(&d, ColFmt::RGB).unwrap();
    assert_eq!(img.buf, vec![7, 6, 5]);
}

#[test]
fn alpha_masked_32bit_decodes_to_rgba_under_auto() {
    let body = dib56(1, 1, 32, 3, (0x00ff_0000, 0x0000_ff00, 0x0000_00ff), 0xff00_0000);
    let d = build_bmp(56, &body, &[], &[9, 8, 7, 77]);
    let img = read(&d, ColFmt::Auto).unwrap();
    assert_eq!(img.fmt, ColFmt::RGBA);
    assert_eq!(img.buf, vec![7, 8, 9, 77]);
}

#[test]
fn plain_decode_under_auto_is_rgb_with_opaque_alpha_dropped() {
    let d = build_bmp(40, &dib40(1, 1, 24, 0, 0), &[], &[3, 2, 1, 0]);
    let img = read(&d, ColFmt::Auto).unwrap();
    assert_eq!(img.fmt, ColFmt::RGB);
    assert_eq!(img.buf, vec![1, 2, 3]);
}

#[test]
fn decode_as_gray_uses_integer_luminance() {
    // Pixel (r,g,b) = (100, 50, 25): (54*100 + 183*50 + 19*25) / 256 = 58.
    let d = build_bmp(40, &dib40(1, 1, 24, 0, 0), &[], &[25, 50, 100, 0]);
    let img = read(&d, ColFmt::Y).unwrap();
    assert_eq!(img.buf, vec![((54u32 * 100 + 183 * 50 + 19 * 25) / 256) as u8]);
    assert_eq!(img.buf, vec![58]);
}

#[test]
fn invalid_dimensions_fail() {
    let d0 = build_bmp(40, &dib40(0, 1, 24, 0, 0), &[], &[]);
    assert!(matches!(read(&d0, ColFmt::Auto), Err(Error::Format)));
    let d1 = build_bmp(40, &dib40(1, 0, 24, 0, 0), &[], &[]);
    assert!(matches!(read(&d1, ColFmt::Auto), Err(Error::Format)));
}

#[test]
fn pixel_offset_before_header_end_fails() {
    let mut d = build_bmp(40, &dib40(1, 1, 24, 0, 0), &[], &[1, 2, 3, 0]);
    d[10] = 20; // declared pixel offset inside the header
    d[11] = 0;
    assert!(matches!(read(&d, ColFmt::Auto), Err(Error::Format)));
}

#[test]
fn two_planes_fail() {
    let mut body = dib40(1, 1, 24, 0, 0);
    body[8] = 2;
    let d = build_bmp(40, &body, &[], &[1, 2, 3, 0]);
    assert!(matches!(read(&d, ColFmt::Auto), Err(Error::UnsupportedFeature)));
}

#[test]
fn rle_compression_is_unsupported() {
    let d = build_bmp(40, &dib40(1, 1, 24, 1, 0), &[], &[1, 2, 3, 0]);
    assert!(matches!(read(&d, ColFmt::Auto), Err(Error::UnsupportedFeature)));
}

#[test]
fn sixteen_bits_per_pixel_is_unsupported() {
    let d = build_bmp(40, &dib40(1, 1, 16, 0, 0), &[], &[1, 2, 0, 0]);
    assert!(matches!(read(&d, ColFmt::Auto), Err(Error::UnsupportedFeature)));
}

#[test]
fn partial_bitmask_is_unsupported() {
    let body = dib56(1, 1, 32, 3, (0xf0f0_f0f0, 0x0000_ff00, 0x0000_00ff), 0);
    let d = build_bmp(56, &body, &[], &[1, 2, 3, 4]);
    assert!(matches!(read(&d, ColFmt::Auto), Err(Error::UnsupportedFeature)));
}

#[test]
fn missing_pixel_data_is_truncated() {
    let d = build_bmp(40, &dib40(2, 2, 24, 0, 0), &[], &[1, 2, 3]);
    assert!(matches!(read(&d, ColFmt::Auto), Err(Error::Truncated)));
}

#[test]
fn encode_1x1_gray_makes_58_bytes() {
    let out = bmpcodec::encode::write(1, 1, ColFmt::Y, &[200], ColType::Color).unwrap();
    assert_eq!(out.len(), 14 + 40 + 4);
    assert_eq!(out.len(), 58);
    // The single pixel is written as three equal color bytes plus padding.
    assert_eq!(&out[54..], &[200, 200, 200, 0]);
}

#[test]
fn encode_rejects_mismatched_buffer_length() {
    let data = [0u8; 40]; // 4x4 RGB needs 48 bytes
    assert_eq!(
        bmpcodec::encode::write(4, 4, ColFmt::RGB, &data, ColType::Color).unwrap_err(),
        Error::Format
    );
}

#[test]
fn encode_rejects_auto_input_format() {
    assert_eq!(bmpcodec::encode::write(1, 1, ColFmt::Auto, &[], ColType::Color).unwrap_err(), Error::Format);
}

#[test]
fn encode_rejects_gray_target() {
    assert_eq!(
        bmpcodec::encode::write(1, 1, ColFmt::RGB, &[1, 2, 3], ColType::Gray).unwrap_err(),
        Error::UnsupportedFeature
    );
}

#[test]
fn encode_rejects_zero_and_oversized_dimensions() {
    assert_eq!(bmpcodec::encode::write(0, 1, ColFmt::RGB, &[], ColType::Color).unwrap_err(), Error::Format);
    assert_eq!(
        bmpcodec::encode::write(0x8000, 1, ColFmt::RGB, &[0; 0x8000 * 3], ColType::Color).unwrap_err(),
        Error::Format
    );
}

#[test]
fn encode_header_is_minimal_v1() {
    let out = bmpcodec::encode::write(2, 1, ColFmt::RGB, &[1, 2, 3, 4, 5, 6], ColType::Auto).unwrap();
    assert_eq!(&out[0..2], b"BM");
    assert_eq!(u32::from_le_bytes(out[2..6].try_into().unwrap()), out.len() as u32);
    assert_eq!(u32::from_le_bytes(out[10..14].try_into().unwrap()), 54);
    assert_eq!(u32::from_le_bytes(out[14..18].try_into().unwrap()), 40);
    assert_eq!(i32::from_le_bytes(out[18..22].try_into().unwrap()), 2);
    assert_eq!(i32::from_le_bytes(out[22..26].try_into().unwrap()), 1);
    assert_eq!(u16::from_le_bytes(out[26..28].try_into().unwrap()), 1);
    assert_eq!(u16::from_le_bytes(out[28..30].try_into().unwrap()), 24);
    assert_eq!(&out[30..54], &[0u8; 24]);
    // Row in BGR order, padded to 8 bytes.
    assert_eq!(&out[54..], &[3, 2, 1, 6, 5, 4, 0, 0]);
}

#[test]
fn round_trip_rgb_preserves_pixels_and_dimensions() {
    let data = vec![1, 2, 3, 4, 5, 6, 7, 8, 9, 10, 11, 12];
    let file = bmpcodec::encode::write(2, 2, ColFmt::RGB, &data, ColType::Color).unwrap();
    let img = read(&file, ColFmt::RGB).unwrap();
    assert_eq!((img.w, img.h), (2, 2));
    assert_eq!(img.fmt, ColFmt::RGB);
    assert_eq!(img.buf, data);
}

#[test]
fn round_trip_bgra_drops_alpha() {
    // BGRA input: one opaque pixel; decoding the 24-bit file as BGRA
    // resynthesizes full alpha.
    let data = vec![10, 20, 30, 255];
    let file = bmpcodec::encode::write(1, 1, ColFmt::BGRA, &data, ColType::Auto).unwrap();
    let img = read(&file, ColFmt::BGRA).unwrap();
    assert_eq!(img.buf, data);
}
