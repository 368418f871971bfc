use keyence_suite::bmp::{
    convert_grayscale_to_rgb_bmp, encode_rgb_bmp, process_bmp_data_to_memory, process_rgb_bmp,
};
use keyence_suite::canvas::{CANVAS_LEN, IMAGE_HEIGHT, IMAGE_WIDTH};
use keyence_suite::draw::{draw_green_rectangle, draw_thick_line_rgb};
use keyence_suite::viewer::{decode_bmp, read_u32, viewer_payload_length, MAX_IMAGE_SIZE};

const W: usize = IMAGE_WIDTH as usize;
const H: usize = IMAGE_HEIGHT as usize;

fn header(bits: u16, data_offset: u32) -> Vec<u8> {
    let mut h = vec![0u8; 54];
    h[0] = b'B';
    h[1] = b'M';
    h[10..14].copy_from_slice(&data_offset.to_le_bytes());
    h[18..22].copy_from_slice(&(W as u32).to_le_bytes());
    h[22..26].copy_from_slice(&(H as i32).to_le_bytes());
    h[28..30].copy_from_slice(&bits.to_le_bytes());
    h
}

/// An 8-bit image whose stored row r holds the value r % 200 + 1 in every pixel.
fn gray_image() -> Vec<u8> {
    let mut data = header(8, 54);
    for r in 0..H {
        for _ in 0..W {
            data.push((r % 200 + 1) as u8);
        }
    }
    data
}

/// Index of pixel (x, y) counted from the top, in a processed file.
fn file_pixel(x: usize, y: usize) -> usize {
    54 + (H - 1 - y) * W * 3 + x * 3
}

fn far_points() -> Vec<(u32, u32)> {
    // A quadrilateral far outside the canvas: nothing is drawn.
    vec![(10_000, 10_000), (10_010, 10_000), (10_010, 10_010), (10_000, 10_010)]
}

#[test]
fn encoded_file_has_the_fixed_header() {
    let canvas = vec![0u8; CANVAS_LEN];
    let file = encode_rgb_bmp(&canvas);
    assert_eq!(file.len(), 270_774);
    assert_eq!(&file[0..2], b"BM");
    assert_eq!(u32::from_le_bytes(file[2..6].try_into().unwrap()), 270_774);
    assert_eq!(u32::from_le_bytes(file[10..14].try_into().unwrap()), 54);
    assert_eq!(u32::from_le_bytes(file[14..18].try_into().unwrap()), 40);
    assert_eq!(u32::from_le_bytes(file[18..22].try_into().unwrap()), 376);
    assert_eq!(u32::from_le_bytes(file[22..26].try_into().unwrap()), 240);
    assert_eq!(u16::from_le_bytes(file[26..28].try_into().unwrap()), 1);
    assert_eq!(u16::from_le_bytes(file[28..30].try_into().unwrap()), 24);
    assert_eq!(u32::from_le_bytes(file[34..38].try_into().unwrap()), 270_720);
    assert_eq!(u32::from_le_bytes(file[38..42].try_into().unwrap()), 2835);
}

#[test]
fn encoding_writes_rows_bottom_up_with_channels_reversed() {
    let mut canvas = vec![0u8; CANVAS_LEN];
    // pixel (2, 0) at the top row
    canvas[(0 * W + 2) * 3] = 10;
    canvas[(0 * W + 2) * 3 + 1] = 20;
    canvas[(0 * W + 2) * 3 + 2] = 30;
    let file = encode_rgb_bmp(&canvas);
    let at = file_pixel(2, 0);
    assert_eq!(&file[at..at + 3], &[30, 20, 10]);
}

#[test]
fn grayscale_image_is_copied_and_flipped() {
    let data = gray_image();
    let out = convert_grayscale_to_rgb_bmp(&data, &far_points(), 54).unwrap();
    // top row y = 0 is stored row H - 1
    let v_top = ((H - 1) % 200 + 1) as u8;
    let at = file_pixel(5, 0);
    assert_eq!(&out[at..at + 3], &[v_top, v_top, v_top]);
    let at = file_pixel(5, H - 1);
    assert_eq!(&out[at..at + 3], &[1, 1, 1]);
    // The processed file stores the same rows in the same order as the input.
    assert_eq!(out[54], data[54]);
}

#[test]
fn grayscale_pixels_beyond_the_data_are_black() {
    let mut data = gray_image();
    data.truncate(54 + W * 10);
    let out = process_bmp_data_to_memory(&data, &far_points()).unwrap();
    let at = file_pixel(0, 0);
    assert_eq!(&out[at..at + 3], &[0, 0, 0]);
    let at = file_pixel(0, H - 1);
    assert_eq!(&out[at..at + 3], &[1, 1, 1]);
}

#[test]
fn rgb_image_keeps_its_colours() {
    let mut data = header(24, 54);
    for _ in 0..H * W {
        data.extend_from_slice(&[1, 2, 3]);
    }
    let out = process_rgb_bmp(&data, &far_points(), 54).unwrap();
    let at = file_pixel(100, 100);
    assert_eq!(&out[at..at + 3], &[1, 2, 3]);
    let again = process_bmp_data_to_memory(&data, &far_points()).unwrap();
    assert_eq!(out, again);
}

#[test]
fn quadrilateral_is_drawn_in_green() {
    let data = gray_image();
    let points = vec![(10, 10), (50, 10), (50, 40), (10, 40)];
    let out = process_bmp_data_to_memory(&data, &points).unwrap();
    for (x, y) in [(10, 10), (30, 10), (50, 25), (30, 40), (10, 25), (9, 9), (51, 41)] {
        let at = file_pixel(x, y);
        assert_eq!(&out[at..at + 3], &[0, 255, 0], "pixel ({x}, {y})");
    }
    for (x, y) in [(30, 25), (8, 10), (12, 12), (52, 25)] {
        let at = file_pixel(x, y);
        assert_ne!(&out[at..at + 3], &[0, 255, 0], "pixel ({x}, {y})");
    }
}

#[test]
fn too_short_input_is_refused() {
    let error = process_bmp_data_to_memory(&[b'B', b'M', 0], &far_points()).unwrap_err();
    assert_eq!(error, "Invalid BMP file - too short");
}

#[test]
fn missing_signature_is_refused() {
    let mut data = gray_image();
    data[0] = b'X';
    let error = process_bmp_data_to_memory(&data, &far_points()).unwrap_err();
    assert_eq!(error, "Not a valid BMP file");
}

#[test]
fn unsupported_depth_is_refused() {
    let data = header(16, 54);
    let error = process_bmp_data_to_memory(&data, &[]).unwrap_err();
    assert_eq!(error, "Unsupported BMP format: 16 bits per pixel");
}

#[test]
fn thick_line_covers_a_three_pixel_band() {
    let mut pixels = vec![0u8; CANVAS_LEN];
    draw_thick_line_rgb(&mut pixels, 0, 0, 3, 0, (1, 2, 3), 2);
    for y in 0..H {
        for x in 0..W {
            let o = (y * W + x) * 3;
            let expected: [u8; 3] = if x <= 4 && y <= 1 { [3, 2, 1] } else { [0, 0, 0] };
            assert_eq!(&pixels[o..o + 3], &expected, "pixel ({x}, {y})");
        }
    }
}

#[test]
fn diagonal_line_visits_the_diagonal() {
    let mut pixels = vec![0u8; CANVAS_LEN];
    draw_thick_line_rgb(&mut pixels, 5, 5, 9, 9, (0, 255, 0), 1);
    for y in 0..20 {
        for x in 0..20 {
            let o = (y * W + x) * 3;
            let on = x == y && (5..=9).contains(&x);
            assert_eq!(pixels[o + 1] == 255, on, "pixel ({x}, {y})");
        }
    }
}

#[test]
fn line_outside_the_canvas_changes_nothing() {
    let mut pixels = vec![9u8; CANVAS_LEN + 5];
    draw_thick_line_rgb(&mut pixels, -50, -50, -10, -20, (0, 255, 0), 2);
    assert!(pixels.iter().all(|&b| b == 9));
}

#[test]
fn rectangle_outline_leaves_the_inside() {
    let mut pixels = vec![0u8; CANVAS_LEN];
    draw_green_rectangle(&mut pixels, &[(2, 2), (8, 2), (8, 8), (2, 8)]).unwrap();
    let green = |x: usize, y: usize| pixels[(y * W + x) * 3 + 1] == 255;
    assert!(green(2, 2) && green(5, 2) && green(8, 5) && green(1, 1) && green(9, 9));
    assert!(!green(5, 5) && !green(0, 0) && !green(10, 10));
}

#[test]
fn viewer_decodes_the_processed_image() {
    let mut canvas = vec![0u8; CANVAS_LEN];
    canvas[(3 * W + 7) * 3] = 0xAA;
    canvas[(3 * W + 7) * 3 + 1] = 0xBB;
    canvas[(3 * W + 7) * 3 + 2] = 0xCC;
    let file = encode_rgb_bmp(&canvas);
    let (w, h, pixels) = decode_bmp(&file).unwrap();
    assert_eq!((w, h), (W, H));
    assert_eq!(pixels.len(), W * H);
    assert_eq!(pixels[3 * W + 7], 0x00AA_BBCC);
    assert_eq!(pixels[0], 0);
}

#[test]
fn viewer_reads_top_down_and_32_bit_images() {
    let mut data = vec![0u8; 54];
    data[0] = b'B';
    data[1] = b'M';
    data[10..14].copy_from_slice(&54u32.to_le_bytes());
    data[18..22].copy_from_slice(&2u32.to_le_bytes());
    data[22..26].copy_from_slice(&(-2i32).to_le_bytes());
    data[28..30].copy_from_slice(&32u16.to_le_bytes());
    data.extend_from_slice(&[1, 2, 3, 0, 4, 5, 6, 0, 7, 8, 9, 0, 10, 11, 12, 0]);
    let (w, h, pixels) = decode_bmp(&data).unwrap();
    assert_eq!((w, h), (2, 2));
    assert_eq!(pixels, vec![0x030201, 0x060504, 0x090807, 0x0C0B0A]);
}

#[test]
fn viewer_pads_rows_to_four_bytes() {
    let mut data = vec![0u8; 54];
    data[0] = b'B';
    data[1] = b'M';
    data[10..14].copy_from_slice(&54u32.to_le_bytes());
    data[18..22].copy_from_slice(&1u32.to_le_bytes());
    data[22..26].copy_from_slice(&2i32.to_le_bytes());
    data[28..30].copy_from_slice(&24u16.to_le_bytes());
    // bottom row first, each row 3 bytes + 1 padding byte
    data.extend_from_slice(&[1, 2, 3, 0, 4, 5, 6, 0]);
    let (_, _, pixels) = decode_bmp(&data).unwrap();
    assert_eq!(pixels, vec![0x060504, 0x030201]);
}

#[test]
fn viewer_refuses_bad_images() {
    assert_eq!(decode_bmp(&[0u8; 10]).unwrap_err(), "chybí BMP hlavička");
    let mut data = header(24, 54);
    data[18..22].copy_from_slice(&0u32.to_le_bytes());
    assert_eq!(decode_bmp(&data).unwrap_err(), "nepodporovaný BMP: 0x240, 24 bpp");
    let data = header(8, 54);
    assert_eq!(decode_bmp(&data).unwrap_err(), "nepodporovaný BMP: 376x240, 8 bpp");
    let data = header(24, 54);
    assert_eq!(
        decode_bmp(&data).unwrap_err(),
        "BMP obsahuje méně pixelů, než uvádí hlavička"
    );
}

#[test]
fn reads_little_endian_fields() {
    assert_eq!(read_u32(&[1, 2, 3, 4, 5], 1), Ok(0x0504_0302));
    assert_eq!(read_u32(&[1, 2, 3], 0).unwrap_err(), "neúplná BMP hlavička");
    assert_eq!(read_u32(&[1, 2, 3, 4], usize::MAX).unwrap_err(), "neúplná BMP hlavička");
}

#[test]
fn viewer_frame_lengths_are_checked() {
    assert_eq!(viewer_payload_length(10), Ok(10));
    assert_eq!(viewer_payload_length(MAX_IMAGE_SIZE), Ok(MAX_IMAGE_SIZE as usize));
    assert_eq!(viewer_payload_length(0).unwrap_err(), "neplatná velikost BMP: 0");
    assert_eq!(
        viewer_payload_length(MAX_IMAGE_SIZE + 1).unwrap_err(),
        "neplatná velikost BMP: 67108865"
    );
}

#[test]
fn rgb_pixels_keep_blue_green_red_order_next_to_the_mark() {
    let input = [vec![0u8; 54], [10u8, 20, 30].repeat(90240)].concat();
    let out = process_rgb_bmp(&input, &[(0, 0), (0, 0), (0, 0), (0, 0)], 54).unwrap();
    assert_eq!(out.len(), 270774);
    assert_eq!(&out[269646..269649], &[0, 255, 0]);
    assert_eq!(&out[157146..157149], &[10, 20, 30]);
}

#[test]
fn viewer_shows_the_colours_of_a_24_bit_image() {
    let mut data = header(24, 54);
    for _ in 0..H * W {
        data.extend_from_slice(&[0x11, 0x22, 0x33]);
    }
    let out = process_bmp_data_to_memory(&data, &far_points()).unwrap();
    let (_, _, pixels) = decode_bmp(&out).unwrap();
    assert_eq!(pixels[5 * W + 5], 0x0033_2211);
}
