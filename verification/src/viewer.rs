//! Decoding the processed BMP images for the viewer window.
use vstd::prelude::*;
use vstd::arithmetic::div_mod::lemma_fundamental_div_mod_converse;
use crate::bytes::{
    le16_at, le16_bytes, le32_at, le32_bytes, lemma_le16_roundtrip, lemma_le32_roundtrip, read_le16,
    read_le32,
};
use crate::bmp::{bmp_file, bmp_header, file_pixel_byte, lemma_file_byte_index, processed_bmp};
use crate::canvas::{CANVAS_LEN, pixel_index};
use crate::text::{decimal, decimal_string};

verus! {

/// Upper bound for one image frame sent to the viewer.
pub const MAX_IMAGE_SIZE: u64 = 64 * 1024 * 1024;

/// The little-endian `u32` at `offset`, if the four bytes are there.
pub open spec fn u32_field(data: Seq<u8>, offset: int) -> Result<u32, Seq<char>> {
    if offset + 4 <= data.len() {
        Ok(le32_at(data, offset))
    } else {
        Err("neúplná BMP hlavička"@)
    }
}

/// Reads the little-endian `u32` at `offset`.
pub fn read_u32(data: &[u8], offset: usize) -> (res: Result<u32, String>)
    ensures
        match res {
            Ok(v) => u32_field(data@, offset as int) == Ok::<u32, Seq<char>>(v),
            Err(m) => u32_field(data@, offset as int) == Err::<u32, Seq<char>>(m@),
        },
{
    if data.len() >= 4 && offset <= data.len() - 4 {
        Ok(read_le32(data, offset))
    } else {
        Err(String::from_str("neúplná BMP hlavička"))
    }
}

/// Offset of the pixel data, from the file header.
pub open spec fn bmp_data_offset(data: Seq<u8>) -> int {
    le32_at(data, 10) as int
}

/// Image width, from the info header.
pub open spec fn bmp_width(data: Seq<u8>) -> int {
    le32_at(data, 18) as int
}

/// Image height with its sign, from the info header: positive for images
/// stored bottom-up.
pub open spec fn bmp_signed_height(data: Seq<u8>) -> int {
    let v = le32_at(data, 22);
    if v < 0x8000_0000 {
        v as int
    } else {
        v - 0x1_0000_0000
    }
}

/// Image height.
pub open spec fn bmp_height(data: Seq<u8>) -> int {
    let h = bmp_signed_height(data);
    if h < 0 {
        -h
    } else {
        h
    }
}

/// Bits per pixel, from the info header.
pub open spec fn bmp_bits(data: Seq<u8>) -> int {
    le16_at(data, 28) as int
}

/// Bytes of one stored row: the pixel bytes rounded up to a multiple of four.
pub open spec fn bmp_row_bytes(data: Seq<u8>) -> int {
    ((bmp_width(data) * (bmp_bits(data) / 8) + 3) / 4) * 4
}

/// The stored row that holds image row `y`.
pub open spec fn bmp_source_row(data: Seq<u8>, y: int) -> int {
    if bmp_signed_height(data) > 0 {
        bmp_height(data) - 1 - y
    } else {
        y
    }
}

/// Where the bytes of pixel `(x, y)` start.
pub open spec fn bmp_pixel_start(data: Seq<u8>, x: int, y: int) -> int {
    bmp_data_offset(data) + bmp_source_row(data, y) * bmp_row_bytes(data) + x * (bmp_bits(data)
        / 8)
}

/// The last byte that the pixels of the image need, plus one.
pub open spec fn bmp_pixel_end(data: Seq<u8>) -> int {
    bmp_data_offset(data) + (bmp_height(data) - 1) * bmp_row_bytes(data) + (bmp_width(data) - 1)
        * (bmp_bits(data) / 8) + 3
}

/// Pixel `(x, y)` as `0x00RRGGBB`, from its blue, green and red bytes.
pub open spec fn bmp_pixel(data: Seq<u8>, x: int, y: int) -> u32 {
    let i = bmp_pixel_start(data, x, y);
    (data[i + 2] * 65536 + data[i + 1] * 256 + data[i]) as u32
}

/// What decoding `data` for the viewer gives: width, height and the pixels
/// row by row from the top, or the message.
pub open spec fn decoded_bmp(data: Seq<u8>) -> Result<(int, int, Seq<u32>), Seq<char>> {
    if data.len() < 54 || data[0] != 0x42 || data[1] != 0x4d {
        Err("chybí BMP hlavička"@)
    } else if bmp_width(data) == 0 || bmp_height(data) == 0 || !(bmp_bits(data) == 24 || bmp_bits(
        data,
    ) == 32) {
        Err(
            "nepodporovaný BMP: "@ + decimal(bmp_width(data) as nat) + "x"@ + decimal(
                bmp_height(data) as nat,
            ) + ", "@ + decimal(bmp_bits(data) as nat) + " bpp"@,
        )
    } else if bmp_pixel_end(data) > data.len() {
        Err("BMP obsahuje méně pixelů, než uvádí hlavička"@)
    } else {
        let w = bmp_width(data);
        let h = bmp_height(data);
        Ok((w, h, Seq::new((w * h) as nat, |k: int| bmp_pixel(data, k % w, k / w))))
    }
}

proof fn lemma_row_bytes(v: u64)
    requires
        v < 0x10_0000_0000,
    ensures
        v & !3u64 == (v / 4) * 4,
{
    assert(v & !3u64 == (v / 4) * 4) by (bit_vector);
}

proof fn lemma_start_within(
    offset: int,
    sy: int,
    h: int,
    row: int,
    x: int,
    w: int,
    b: int,
)
    requires
        0 <= sy < h,
        0 <= x < w,
        0 <= row,
        0 <= b,
        0 <= offset,
    ensures
        0 <= sy * row <= (h - 1) * row,
        0 <= x * b <= (w - 1) * b,
        offset + sy * row + x * b <= offset + (h - 1) * row + (w - 1) * b,
{
    assert(0 <= sy * row <= (h - 1) * row) by (nonlinear_arith)
        requires
            0 <= sy <= h - 1,
            0 <= row,
    ;
    assert(0 <= x * b <= (w - 1) * b) by (nonlinear_arith)
        requires
            0 <= x <= w - 1,
            0 <= b,
    ;
}

/// Decodes a 24- or 32-bit BMP image into `0x00RRGGBB` pixels, rows from the
/// top; both bottom-up and top-down images are accepted.
pub fn decode_bmp(data: &[u8]) -> (res: Result<(usize, usize, Vec<u32>), String>)
    ensures
        match res {
            Ok((w, h, pixels)) => decoded_bmp(data@) == Ok::<(int, int, Seq<u32>), Seq<char>>(
                (w as int, h as int, pixels@),
            ),
            Err(m) => decoded_bmp(data@) == Err::<(int, int, Seq<u32>), Seq<char>>(m@),
        },
{
    if data.len() < 54 || data[0] != 0x42u8 || data[1] != 0x4du8 {
        return Err(String::from_str("chybí BMP hlavička"));
    }
    let offset = read_u32(data, 10)? as usize;
    let width = read_u32(data, 18)? as usize;
    let raw_height = read_le32(data, 22);
    let bottom_up = 0 < raw_height && raw_height < 0x8000_0000u32;
    let height: usize = if raw_height < 0x8000_0000u32 {
        raw_height as usize
    } else {
        (0x1_0000_0000u64 - raw_height as u64) as usize
    };
    let bits = read_le16(data, 28);
    if width == 0 || height == 0 || !(bits == 24 || bits == 32) {
        let mut message = String::from_str("nepodporovaný BMP: ");
        let w = decimal_string(width as u64);
        message.append(w.as_str());
        message.append("x");
        let h = decimal_string(height as u64);
        message.append(h.as_str());
        message.append(", ");
        let b = decimal_string(bits as u64);
        message.append(b.as_str());
        message.append(" bpp");
        return Err(message);
    }
    let bytes_per_pixel = (bits / 8) as usize;
    assert(width as u64 * bytes_per_pixel as u64 <= 0x1_0000_0000u64 * 4) by (nonlinear_arith)
        requires
            width <= 0x1_0000_0000,
            bytes_per_pixel <= 4,
    ;
    let raw_row = width as u64 * bytes_per_pixel as u64 + 3;
    proof {
        lemma_row_bytes(raw_row);
    }
    let row_size: u64 = raw_row & !3u64;
    assert(row_size <= raw_row);
    assert(height <= 0x8000_0000);
    assert((height as u128 - 1) * row_size as u128 <= 0x8000_0000u128 * 0x10_0000_0000u128)
        by (nonlinear_arith)
        requires
            1 <= height <= 0x8000_0000,
            row_size < 0x10_0000_0000,
    ;
    assert((width as u128 - 1) * bytes_per_pixel as u128 <= 0x1_0000_0000u128 * 4) by (nonlinear_arith)
        requires
            1 <= width <= 0x1_0000_0000,
            bytes_per_pixel <= 4,
    ;
    let end: u128 = offset as u128 + (height as u128 - 1) * row_size as u128 + (width as u128 - 1)
        * bytes_per_pixel as u128 + 3;
    if end > data.len() as u128 {
        return Err(String::from_str("BMP obsahuje méně pixelů, než uvádí hlavička"));
    }
    let total = data.len();
    let ghost w = width as int;
    let ghost h = height as int;
    let mut pixels: Vec<u32> = Vec::new();
    let mut y: usize = 0;
    while y < height
        invariant
            0 <= y <= height,
            w == width,
            h == height,
            w == bmp_width(data@),
            h == bmp_height(data@),
            w > 0,
            h > 0,
            offset == bmp_data_offset(data@),
            bytes_per_pixel == bmp_bits(data@) / 8,
            bytes_per_pixel == 3 || bytes_per_pixel == 4,
            row_size == bmp_row_bytes(data@),
            bottom_up == (bmp_signed_height(data@) > 0),
            bmp_pixel_end(data@) <= data@.len(),
            total == data@.len(),
            pixels@.len() == y * w,
            forall|k: int| 0 <= k < pixels@.len() ==> #[trigger] pixels@[k] == bmp_pixel(data@, k % w, k / w),
        decreases height - y,
    {
        let source_y = if bottom_up {
            height - 1 - y
        } else {
            y
        };
        assert(source_y == bmp_source_row(data@, y as int));
        let mut x: usize = 0;
        while x < width
            invariant
                0 <= y < height,
                0 <= x <= width,
                w == width,
                h == height,
                w == bmp_width(data@),
                h == bmp_height(data@),
                w > 0,
                offset == bmp_data_offset(data@),
                bytes_per_pixel == bmp_bits(data@) / 8,
                bytes_per_pixel == 3 || bytes_per_pixel == 4,
                row_size == bmp_row_bytes(data@),
                source_y == bmp_source_row(data@, y as int),
                0 <= source_y < height,
                bmp_pixel_end(data@) <= data@.len(),
                total == data@.len(),
                pixels@.len() == y * w + x,
                forall|k: int| 0 <= k < pixels@.len() ==> #[trigger] pixels@[k] == bmp_pixel(data@, k % w, k / w),
            decreases width - x,
        {
            proof {
                lemma_start_within(
                    offset as int,
                    source_y as int,
                    h,
                    row_size as int,
                    x as int,
                    w,
                    bytes_per_pixel as int,
                );
            }
            assert(offset + source_y * row_size + x * bytes_per_pixel + 3 <= bmp_pixel_end(data@));
            assert(source_y * row_size <= u64::MAX);
            assert(offset + source_y * row_size <= u64::MAX);
            let index = (offset as u64 + source_y as u64 * row_size + x as u64 * bytes_per_pixel as u64) as usize;
            assert(index == bmp_pixel_start(data@, x as int, y as int));
            let blue = data[index] as u32;
            let green = data[index + 1] as u32;
            let red = data[index + 2] as u32;
            assert((red << 16u32) | (green << 8u32) | blue == red * 65536 + green * 256 + blue)
                by (bit_vector)
                requires
                    red < 256 && green < 256 && blue < 256,
            ;
            let ghost k = pixels@.len() as int;
            pixels.push((red << 16u32) | (green << 8u32) | blue);
            proof {
                lemma_fundamental_div_mod_converse(k, w, y as int, x as int);
            }
            x = x + 1;
        }
        proof {
            assert(y * w + w == (y + 1) * w) by (nonlinear_arith);
        }
        y = y + 1;
    }
    assert(h * w == w * h) by (nonlinear_arith);
    assert(pixels@ =~= Seq::new((w * h) as nat, |k: int| bmp_pixel(data@, k % w, k / w)));
    Ok((width, height, pixels))
}

/// The viewer reads each pixel where the header says it is: the pixel data
/// starts at the offset in bytes 10 to 13, rows hold the width (bytes 18 to
/// 21) times the bytes per pixel (bits in bytes 28 and 29, over 8), rounded
/// up to a multiple of four, and a height field (bytes 22 to 25) below 2^31
/// means rows are stored from the bottom up. Pixel `(x, y)`, counted from
/// the top left, is then `0x00RRGGBB` from its blue, green and red bytes.
pub proof fn law_decoded_pixels_read_at_header_offset(data: Seq<u8>, x: int, y: int)
    requires
        decoded_bmp(data) matches Ok((w, h, pixels)) && 0 <= x < w && 0 <= y < h,
    ensures
        ({
            let offset = data[10] + 256 * data[11] + 65536 * data[12] + 16777216 * data[13];
            let width = data[18] + 256 * data[19] + 65536 * data[20] + 16777216 * data[21];
            let height_field = data[22] + 256 * data[23] + 65536 * data[24] + 16777216 * data[25];
            let per_pixel = (data[28] + 256 * data[29]) / 8;
            let row = ((width * per_pixel + 3) / 4) * 4;
            let stored_row = if height_field < 0x8000_0000 {
                height_field - 1 - y
            } else {
                y
            };
            let i = offset + stored_row * row + x * per_pixel;
            decoded_bmp(data) matches Ok((w, h, pixels)) && w == width && pixels[y * w + x] == (
            data[i + 2] * 65536 + data[i + 1] * 256 + data[i]) as u32
        }),
{
    crate::bytes::lemma_le32_value(data, 10);
    crate::bytes::lemma_le32_value(data, 18);
    crate::bytes::lemma_le32_value(data, 22);
    crate::bytes::lemma_le16_value(data, 28);
    let w = bmp_width(data);
    let h = bmp_height(data);
    let k = y * w + x;
    lemma_fundamental_div_mod_converse(k, w, y, x);
    assert(0 <= k < w * h) by (nonlinear_arith)
        requires
            0 <= x < w,
            0 <= y < h,
            k == y * w + x,
    ;
}

/// Checks the announced length of a frame sent to the viewer: it must be
/// positive and at most `MAX_IMAGE_SIZE`.
pub fn viewer_payload_length(length: u64) -> (res: Result<usize, String>)
    ensures
        0 < length <= MAX_IMAGE_SIZE ==> (res matches Ok(n) && n == length),
        !(0 < length <= MAX_IMAGE_SIZE) ==> (res matches Err(m) && m@ == "neplatná velikost BMP: "@
            + decimal(length as nat)),
{
    if length == 0 || length > MAX_IMAGE_SIZE {
        let mut message = String::from_str("neplatná velikost BMP: ");
        let number = decimal_string(length);
        message.append(number.as_str());
        return Err(message);
    }
    Ok(length as usize)
}

/// Pixel `(x, y)` of a canvas as `0x00RRGGBB`, taking its first channel as red.
pub open spec fn canvas_rgb(canvas: Seq<u8>, x: int, y: int) -> u32 {
    (canvas[pixel_index(x, y, 0)] * 65536 + canvas[pixel_index(x, y, 1)] * 256 + canvas[pixel_index(
        x,
        y,
        2,
    )]) as u32
}

/// The viewer accepts every BMP file that the processor makes, as a
/// 376 x 240 image, and shows each pixel of the processed canvas unchanged.
pub proof fn law_viewer_shows_processed_canvas(canvas: Seq<u8>)
    requires
        canvas.len() >= CANVAS_LEN,
    ensures
        decoded_bmp(bmp_file(canvas)) == Ok::<(int, int, Seq<u32>), Seq<char>>(
            (376, 240, Seq::new(376 * 240, |k: int| canvas_rgb(canvas, k % 376, k / 376))),
        ),
{
    let f = bmp_file(canvas);
    let hd = bmp_header();
    lemma_le32_roundtrip(54);
    lemma_le32_roundtrip(376);
    lemma_le32_roundtrip(240);
    lemma_le16_roundtrip(24);
    assert(hd.len() == 54);
    assert(f.len() == 54 + CANVAS_LEN);
    assert(f[0] == 0x42 && f[1] == 0x4d);
    assert(le32_at(f, 10) == le32_at(le32_bytes(54), 0)) by {
        assert(f[10] == le32_bytes(54)[0] && f[11] == le32_bytes(54)[1] && f[12] == le32_bytes(54)[2]
            && f[13] == le32_bytes(54)[3]);
    }
    assert(le32_at(f, 18) == le32_at(le32_bytes(376), 0)) by {
        assert(f[18] == le32_bytes(376)[0] && f[19] == le32_bytes(376)[1] && f[20] == le32_bytes(
            376,
        )[2] && f[21] == le32_bytes(376)[3]);
    }
    assert(le32_at(f, 22) == le32_at(le32_bytes(240), 0)) by {
        assert(f[22] == le32_bytes(240)[0] && f[23] == le32_bytes(240)[1] && f[24] == le32_bytes(
            240,
        )[2] && f[25] == le32_bytes(240)[3]);
    }
    assert(le16_at(f, 28) == le16_at(le16_bytes(24), 0)) by {
        assert(f[28] == le16_bytes(24)[0] && f[29] == le16_bytes(24)[1]);
    }
    assert(bmp_width(f) == 376);
    assert(bmp_bits(f) == 24);
    assert(bmp_signed_height(f) == 240);
    assert(bmp_height(f) == 240);
    assert(bmp_data_offset(f) == 54);
    assert(bmp_row_bytes(f) == 1128);
    assert(bmp_pixel_end(f) == 54 + 239 * 1128 + 375 * 3 + 3);
    let expected = Seq::new(376 * 240, |k: int| canvas_rgb(canvas, k % 376, k / 376));
    let got = Seq::new((376 * 240) as nat, |k: int| bmp_pixel(f, k % 376, k / 376));
    assert forall|k: int| 0 <= k < 376 * 240 implies got[k] == expected[k] by {
        let x = k % 376;
        let y = k / 376;
        vstd::arithmetic::div_mod::lemma_fundamental_div_mod(k, 376);
        vstd::arithmetic::div_mod::lemma_mod_pos_bound(k, 376);
        vstd::arithmetic::div_mod::lemma_div_pos_is_pos(k, 376);
        assert(0 <= y < 240);
        let row = 239 - y;
        lemma_file_byte_index(row, x, 0);
        lemma_file_byte_index(row, x, 1);
        lemma_file_byte_index(row, x, 2);
        let i = bmp_pixel_start(f, x, y);
        assert(i == 54 + row * 1128 + x * 3);
        assert(f[i] == file_pixel_byte(canvas, row * 1128 + x * 3));
        assert(f[i + 1] == file_pixel_byte(canvas, row * 1128 + x * 3 + 1));
        assert(f[i + 2] == file_pixel_byte(canvas, row * 1128 + x * 3 + 2));
    }
    assert(got =~= expected);
}

/// Every image that the processor produces is accepted by the viewer as a
/// 376 x 240 image.
pub proof fn law_processed_images_are_displayed(data: Seq<u8>, points: Seq<(u32, u32)>)
    ensures
        processed_bmp(data, points) matches Ok(file) ==> decoded_bmp(file) matches Ok(
            (w, h, pixels),
        ) && w == 376 && h == 240 && pixels.len() == 376 * 240,
{
    if let Ok(file) = processed_bmp(data, points) {
        let offset = le32_at(data, 10) as int;
        if le16_at(data, 28) == 8 {
            law_viewer_shows_processed_canvas(
                crate::bmp::outlined(crate::bmp::gray_canvas(data, offset), points),
            );
        } else {
            law_viewer_shows_processed_canvas(
                crate::bmp::outlined(crate::bmp::rgb_canvas(data, offset), points),
            );
        }
    }
}

} // verus!
