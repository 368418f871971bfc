//! Reading the SR-750 BMP images, outlining the detected code in green and
//! encoding the result as a 24-bit BMP file.
use vstd::prelude::*;
use vstd::arithmetic::div_mod::lemma_fundamental_div_mod_converse;
use crate::bytes::{le16_at, le16_bytes, le32_at, le32_bytes, push_le16, push_le32, read_le16, read_le32};
use crate::canvas::{
    CANVAS_LEN, IMAGE_HEIGHT, IMAGE_WIDTH, channel, in_image, lemma_pixel_compose,
    lemma_pixel_decompose, pixel_index, pixel_x, pixel_y,
};
use crate::draw::{color_byte, draw_green_rectangle, green, on_quadrilateral};
use crate::text::{decimal, decimal_string};

verus! {

/// Bytes of one row of an 8-bit grayscale image: the width rounded up to a
/// multiple of four.
pub open spec fn gray_row_bytes() -> int {
    376
}

/// Bytes of one row of a 24-bit image: three times the width rounded up to a
/// multiple of four.
pub open spec fn rgb_row_bytes() -> int {
    1128
}

/// Bytes of the two BMP headers that precede the pixel data.
pub open spec fn header_len() -> int {
    54
}

/// The gray value of pixel `(x, y)` of an 8-bit bottom-up image whose pixel
/// data starts at `offset`; a pixel beyond the end of the data reads as 0.
pub open spec fn gray_at(input: Seq<u8>, offset: int, x: int, y: int) -> u8 {
    let i = offset + (IMAGE_HEIGHT - 1 - y) * gray_row_bytes() + x;
    if i < input.len() {
        input[i]
    } else {
        0
    }
}

/// Channel `c` (red, green, blue) of pixel `(x, y)` of a 24-bit bottom-up
/// image whose pixel data starts at `offset` and stores each pixel as blue,
/// green, red; a pixel whose three bytes are not all present reads as 0.
pub open spec fn rgb_at(input: Seq<u8>, offset: int, x: int, y: int, c: int) -> u8 {
    let i = offset + (IMAGE_HEIGHT - 1 - y) * rgb_row_bytes() + x * 3;
    if i + 2 < input.len() {
        input[i + 2 - c]
    } else {
        0
    }
}

/// The canvas made from an 8-bit grayscale image: every channel of a pixel
/// holds its gray value.
pub open spec fn gray_canvas(input: Seq<u8>, offset: int) -> Seq<u8> {
    Seq::new(CANVAS_LEN as nat, |k: int| gray_at(input, offset, pixel_x(k), pixel_y(k)))
}

/// The canvas made from a 24-bit image: each pixel as red, green, blue.
pub open spec fn rgb_canvas(input: Seq<u8>, offset: int) -> Seq<u8> {
    Seq::new(
        CANVAS_LEN as nat,
        |k: int| rgb_at(input, offset, pixel_x(k), pixel_y(k), channel(k)),
    )
}

/// A canvas with the outline of the quadrilateral through `points` drawn in green.
pub open spec fn outlined(canvas: Seq<u8>, points: Seq<(u32, u32)>) -> Seq<u8> {
    Seq::new(
        canvas.len(),
        |k: int|
            if k < CANVAS_LEN && on_quadrilateral(points, pixel_x(k), pixel_y(k)) {
                color_byte(green(), channel(k))
            } else {
                canvas[k]
            },
    )
}

/// The file header and info header of the 24-bit 376 x 240 BMP that the
/// processor writes.
pub open spec fn bmp_header() -> Seq<u8> {
    seq![0x42u8, 0x4du8] + le32_bytes(270774) + le32_bytes(0) + le32_bytes(54) + le32_bytes(40)
        + le32_bytes(376) + le32_bytes(240) + le16_bytes(1) + le16_bytes(24) + le32_bytes(0)
        + le32_bytes(270720) + le32_bytes(2835) + le32_bytes(2835) + le32_bytes(0) + le32_bytes(0)
}

/// Byte `k` of the pixel data of the file made from `canvas`: rows from the
/// bottom up, and the three channels of each pixel in reverse order.
pub open spec fn file_pixel_byte(canvas: Seq<u8>, k: int) -> u8 {
    let row = k / rgb_row_bytes();
    let col = k % rgb_row_bytes();
    canvas[pixel_index(col / 3, IMAGE_HEIGHT - 1 - row, 2 - col % 3)]
}

/// The BMP file that the processor makes from `canvas`.
pub open spec fn bmp_file(canvas: Seq<u8>) -> Seq<u8> {
    bmp_header() + Seq::new(CANVAS_LEN as nat, |k: int| file_pixel_byte(canvas, k))
}

/// Whether the processor draws on `data`: it is long enough, carries the BMP
/// signature and has 8 or 24 bits per pixel.
pub open spec fn draws_on(data: Seq<u8>) -> bool {
    &&& data.len() >= header_len()
    &&& data[0] == 0x42 && data[1] == 0x4d
    &&& (le16_at(data, 28) == 8 || le16_at(data, 28) == 24)
}

/// What processing `data` gives: the outlined image as a BMP file, or the message.
pub open spec fn processed_bmp(data: Seq<u8>, points: Seq<(u32, u32)>) -> Result<Seq<u8>, Seq<char>> {
    if data.len() < header_len() {
        Err("Invalid BMP file - too short"@)
    } else if data[0] != 0x42 || data[1] != 0x4d {
        Err("Not a valid BMP file"@)
    } else {
        let offset = le32_at(data, 10) as int;
        let bits = le16_at(data, 28);
        if bits == 8 {
            Ok(bmp_file(outlined(gray_canvas(data, offset), points)))
        } else if bits == 24 {
            Ok(bmp_file(outlined(rgb_canvas(data, offset), points)))
        } else {
            Err("Unsupported BMP format: "@ + decimal(bits as nat) + " bits per pixel"@)
        }
    }
}

pub proof fn lemma_file_byte_index(row: int, x: int, cf: int)
    requires
        0 <= row < 240,
        0 <= x < 376,
        0 <= cf < 3,
    ensures
        (row * 1128 + x * 3 + cf) / rgb_row_bytes() == row,
        (row * 1128 + x * 3 + cf) % rgb_row_bytes() == x * 3 + cf,
        (x * 3 + cf) / 3 == x,
        (x * 3 + cf) % 3 == cf,
{
    lemma_fundamental_div_mod_converse(row * 1128 + x * 3 + cf, 1128, row, x * 3 + cf);
    lemma_fundamental_div_mod_converse(x * 3 + cf, 3, x, cf);
}

/// The header of every file the encoder writes, byte for byte: the `BM`
/// signature, a file size of 270774 bytes, pixel data at byte 54, a
/// 40-byte info header for a 376 x 240 image with one plane, 24 bits per
/// pixel, no compression (`BI_RGB`), 270720 bytes of pixel data, 2835
/// pixels per metre both ways, and no palette; the file is 270774 bytes long.
pub proof fn law_encoded_header(canvas: Seq<u8>)
    ensures
        bmp_file(canvas).len() == 270774,
        bmp_file(canvas).subrange(0, 54) == seq![
            0x42u8, 0x4du8, 0xb6u8, 0x21u8, 0x04u8, 0x00u8, 0x00u8, 0x00u8, 0x00u8, 0x00u8,
            0x36u8, 0x00u8, 0x00u8, 0x00u8, 0x28u8, 0x00u8, 0x00u8, 0x00u8, 0x78u8, 0x01u8,
            0x00u8, 0x00u8, 0xf0u8, 0x00u8, 0x00u8, 0x00u8, 0x01u8, 0x00u8, 0x18u8, 0x00u8,
            0x00u8, 0x00u8, 0x00u8, 0x00u8, 0x80u8, 0x21u8, 0x04u8, 0x00u8, 0x13u8, 0x0bu8,
            0x00u8, 0x00u8, 0x13u8, 0x0bu8, 0x00u8, 0x00u8, 0x00u8, 0x00u8, 0x00u8, 0x00u8,
            0x00u8, 0x00u8, 0x00u8, 0x00u8,
        ],
{
    assert({
        &&& 270774u32 as u8 == 0xb6u8 && (270774u32 >> 8u32) as u8 == 0x21u8
        &&& (270774u32 >> 16u32) as u8 == 0x04u8 && (270774u32 >> 24u32) as u8 == 0u8
        &&& 270720u32 as u8 == 0x80u8 && (270720u32 >> 8u32) as u8 == 0x21u8
        &&& (270720u32 >> 16u32) as u8 == 0x04u8 && (270720u32 >> 24u32) as u8 == 0u8
        &&& 2835u32 as u8 == 0x13u8 && (2835u32 >> 8u32) as u8 == 0x0bu8
        &&& (2835u32 >> 16u32) as u8 == 0u8 && (2835u32 >> 24u32) as u8 == 0u8
        &&& 376u32 as u8 == 0x78u8 && (376u32 >> 8u32) as u8 == 0x01u8
        &&& (376u32 >> 16u32) as u8 == 0u8 && (376u32 >> 24u32) as u8 == 0u8
        &&& 240u32 as u8 == 0xf0u8 && (240u32 >> 8u32) as u8 == 0u8
        &&& (240u32 >> 16u32) as u8 == 0u8 && (240u32 >> 24u32) as u8 == 0u8
        &&& 54u32 as u8 == 0x36u8 && (54u32 >> 8u32) as u8 == 0u8
        &&& (54u32 >> 16u32) as u8 == 0u8 && (54u32 >> 24u32) as u8 == 0u8
        &&& 40u32 as u8 == 0x28u8 && (40u32 >> 8u32) as u8 == 0u8
        &&& (40u32 >> 16u32) as u8 == 0u8 && (40u32 >> 24u32) as u8 == 0u8
        &&& 0u32 as u8 == 0u8 && (0u32 >> 8u32) as u8 == 0u8
        &&& (0u32 >> 16u32) as u8 == 0u8 && (0u32 >> 24u32) as u8 == 0u8
        &&& 1u16 as u8 == 1u8 && (1u16 >> 8u16) as u8 == 0u8
        &&& 24u16 as u8 == 0x18u8 && (24u16 >> 8u16) as u8 == 0u8
    }) by (bit_vector);
    assert(bmp_header() =~= seq![
        0x42u8, 0x4du8, 0xb6u8, 0x21u8, 0x04u8, 0x00u8, 0x00u8, 0x00u8, 0x00u8, 0x00u8,
        0x36u8, 0x00u8, 0x00u8, 0x00u8, 0x28u8, 0x00u8, 0x00u8, 0x00u8, 0x78u8, 0x01u8,
        0x00u8, 0x00u8, 0xf0u8, 0x00u8, 0x00u8, 0x00u8, 0x01u8, 0x00u8, 0x18u8, 0x00u8,
        0x00u8, 0x00u8, 0x00u8, 0x00u8, 0x80u8, 0x21u8, 0x04u8, 0x00u8, 0x13u8, 0x0bu8,
        0x00u8, 0x00u8, 0x13u8, 0x0bu8, 0x00u8, 0x00u8, 0x00u8, 0x00u8, 0x00u8, 0x00u8,
        0x00u8, 0x00u8, 0x00u8, 0x00u8,
    ]);
    let f = bmp_file(canvas);
    assert(f.subrange(0, 54) =~= bmp_header());
}

/// Where the encoder puts each pixel: channel `c` (red, green, blue) of the
/// canvas pixel `(x, y)`, counted from the top left, is file byte
/// `54 + (239 - y) * 1128 + 3 * x + 2 - c`. Rows go from the bottom of the
/// image up, pixels from left to right, and each pixel as blue, green, red.
pub proof fn law_encoded_pixel_place(canvas: Seq<u8>, x: int, y: int, c: int)
    requires
        0 <= x < 376,
        0 <= y < 240,
        0 <= c < 3,
    ensures
        bmp_file(canvas)[54 + (239 - y) * 1128 + 3 * x + c] == canvas[(y * 376 + x) * 3 + 2 - c],
{
    lemma_file_byte_index(239 - y, x, c);
    let k = (239 - y) * 1128 + 3 * x + c;
    assert(0 <= k < CANVAS_LEN);
    assert(bmp_file(canvas)[54 + k] == file_pixel_byte(canvas, k));
}

/// An 8-bit grayscale image keeps its orientation: every pixel `(x, y)` of
/// the result that the outline does not cover is gray, all three channels
/// holding the input byte at `offset + (239 - y) * 376 + x` (0 past the end
/// of the input); a pixel on the outline is pure green.
pub proof fn law_gray_pixels_keep_their_place(
    input: Seq<u8>,
    offset: int,
    points: Seq<(u32, u32)>,
    x: int,
    y: int,
    c: int,
)
    requires
        0 <= offset,
        0 <= x < 376,
        0 <= y < 240,
        0 <= c < 3,
    ensures
        bmp_file(outlined(gray_canvas(input, offset), points))[54 + (239 - y) * 1128 + 3 * x + c]
            == if on_quadrilateral(points, x, y) {
            if c == 1 {
                255u8
            } else {
                0u8
            }
        } else if offset + (239 - y) * 376 + x < input.len() {
            input[offset + (239 - y) * 376 + x]
        } else {
            0u8
        },
{
    let canvas = outlined(gray_canvas(input, offset), points);
    law_encoded_pixel_place(canvas, x, y, c);
    lemma_pixel_compose(x, y, 2 - c);
    crate::canvas::lemma_pixel_index_bounds(x, y, 2 - c);
    assert((y * 376 + x) * 3 + 2 - c == pixel_index(x, y, 2 - c));
}

/// A 24-bit image keeps its orientation and colours: byte `c` of every pixel
/// `(x, y)` of the result that the outline does not cover is byte `c` of the
/// input pixel at `offset + (239 - y) * 1128 + 3 * x` (all three 0 when the
/// input ends before that pixel's last byte); a pixel on the outline is pure
/// green.
pub proof fn law_rgb_pixels_keep_their_place(
    input: Seq<u8>,
    offset: int,
    points: Seq<(u32, u32)>,
    x: int,
    y: int,
    c: int,
)
    requires
        0 <= offset,
        0 <= x < 376,
        0 <= y < 240,
        0 <= c < 3,
    ensures
        bmp_file(outlined(rgb_canvas(input, offset), points))[54 + (239 - y) * 1128 + 3 * x + c]
            == if on_quadrilateral(points, x, y) {
            if c == 1 {
                255u8
            } else {
                0u8
            }
        } else if offset + (239 - y) * 1128 + 3 * x + 2 < input.len() {
            input[offset + (239 - y) * 1128 + 3 * x + c]
        } else {
            0u8
        },
{
    let canvas = outlined(rgb_canvas(input, offset), points);
    law_encoded_pixel_place(canvas, x, y, c);
    lemma_pixel_compose(x, y, 2 - c);
    crate::canvas::lemma_pixel_index_bounds(x, y, 2 - c);
    assert((y * 376 + x) * 3 + 2 - c == pixel_index(x, y, 2 - c));
}

/// Processing reads the pixels at the data offset that the header holds in
/// bytes 10 to 13, least significant first, and goes by the bit count in
/// bytes 28 and 29: an 8-bit image gives the gray pixel, a 24-bit image the
/// colour pixel at that offset (outside the outline), any other count an error.
pub proof fn law_processed_pixels_read_at_header_offset(
    data: Seq<u8>,
    points: Seq<(u32, u32)>,
    x: int,
    y: int,
    c: int,
)
    requires
        data.len() >= 54,
        data[0] == 0x42,
        data[1] == 0x4d,
        0 <= x < 376,
        0 <= y < 240,
        0 <= c < 3,
    ensures
        ({
            let offset = data[10] + 256 * data[11] + 65536 * data[12] + 16777216 * data[13];
            let bits = data[28] + 256 * data[29];
            let at = 54 + (239 - y) * 1128 + 3 * x + c;
            &&& bits == 8 ==> (processed_bmp(data, points) matches Ok(f) && f.len() == 270774
                && f[at] == if on_quadrilateral(points, x, y) {
                if c == 1 {
                    255u8
                } else {
                    0u8
                }
            } else if offset + (239 - y) * 376 + x < data.len() {
                data[offset + (239 - y) * 376 + x]
            } else {
                0u8
            })
            &&& bits == 24 ==> (processed_bmp(data, points) matches Ok(f) && f.len() == 270774
                && f[at] == if on_quadrilateral(points, x, y) {
                if c == 1 {
                    255u8
                } else {
                    0u8
                }
            } else if offset + (239 - y) * 1128 + 3 * x + 2 < data.len() {
                data[offset + (239 - y) * 1128 + 3 * x + c]
            } else {
                0u8
            })
            &&& bits != 8 && bits != 24 ==> processed_bmp(data, points) is Err
        }),
{
    crate::bytes::lemma_le32_value(data, 10);
    crate::bytes::lemma_le16_value(data, 28);
    let offset = le32_at(data, 10) as int;
    law_gray_pixels_keep_their_place(data, offset, points, x, y, c);
    law_rgb_pixels_keep_their_place(data, offset, points, x, y, c);
    law_encoded_header(outlined(gray_canvas(data, offset), points));
    law_encoded_header(outlined(rgb_canvas(data, offset), points));
}

/// A canvas whose bytes agree, pixel by pixel, with the outline drawn over `base`.
proof fn lemma_outlined_pointwise(buf: Seq<u8>, base: Seq<u8>, points: Seq<(u32, u32)>)
    requires
        buf.len() == CANVAS_LEN,
        base.len() == CANVAS_LEN,
        forall|a: int, b: int, c: int|
            in_image(a, b) && 0 <= c < 3 ==> #[trigger] buf[pixel_index(a, b, c)] == if on_quadrilateral(
                points,
                a,
                b,
            ) {
                color_byte(green(), c)
            } else {
                base[pixel_index(a, b, c)]
            },
    ensures
        buf == outlined(base, points),
{
    assert forall|k: int| 0 <= k < CANVAS_LEN implies buf[k] == outlined(base, points)[k] by {
        lemma_pixel_decompose(k);
        let a = pixel_x(k);
        let b = pixel_y(k);
        let c = channel(k);
        assert(buf[pixel_index(a, b, c)] == if on_quadrilateral(points, a, b) {
            color_byte(green(), c)
        } else {
            base[pixel_index(a, b, c)]
        });
    }
    assert(buf =~= outlined(base, points));
}

/// Encodes a canvas as a 24-bit 376 x 240 BMP file, rows from the bottom up
/// and the three bytes of each pixel in reverse order.
pub fn encode_rgb_bmp(rgb_pixels: &[u8]) -> (data: Vec<u8>)
    requires
        rgb_pixels@.len() >= CANVAS_LEN,
    ensures
        data@ == bmp_file(rgb_pixels@),
{
    let row_size = ((IMAGE_WIDTH * 3 + 3) & !3u32) as usize;
    assert(1131u32 & !3u32 == 1128u32) by (bit_vector);
    let image_size = (row_size * IMAGE_HEIGHT as usize) as u32;
    let file_size = 54 + image_size;
    let mut data: Vec<u8> = Vec::with_capacity(file_size as usize);
    data.push(0x42u8);
    data.push(0x4du8);
    push_le32(&mut data, file_size);
    push_le32(&mut data, 0);
    push_le32(&mut data, 54);
    push_le32(&mut data, 40);
    push_le32(&mut data, IMAGE_WIDTH);
    push_le32(&mut data, IMAGE_HEIGHT);
    push_le16(&mut data, 1);
    push_le16(&mut data, 24);
    push_le32(&mut data, 0);
    push_le32(&mut data, image_size);
    push_le32(&mut data, 2835);
    push_le32(&mut data, 2835);
    push_le32(&mut data, 0);
    push_le32(&mut data, 0);
    assert(data@ =~= bmp_header());
    let padding = row_size - IMAGE_WIDTH as usize * 3;
    let ghost canvas = rgb_pixels@;
    let mut y: u32 = IMAGE_HEIGHT;
    while y > 0
        invariant
            0 <= y <= 240,
            padding == 0,
            canvas == rgb_pixels@,
            canvas.len() >= CANVAS_LEN,
            data@ == bmp_header() + Seq::new(
                ((240 - y) * 1128) as nat,
                |k: int| file_pixel_byte(canvas, k),
            ),
        decreases y,
    {
        y = y - 1;
        let ghost row: int = 239 - y;
        let mut x: u32 = 0;
        while x < IMAGE_WIDTH
            invariant
                0 <= y < 240,
                row == 239 - y,
                0 <= x <= 376,
                canvas == rgb_pixels@,
                canvas.len() >= CANVAS_LEN,
                data@ == bmp_header() + Seq::new(
                    (row * 1128 + x * 3) as nat,
                    |k: int| file_pixel_byte(canvas, k),
                ),
            decreases 376 - x,
        {
            let offset = ((y * IMAGE_WIDTH + x) * 3) as usize;
            proof {
                lemma_file_byte_index(row, x as int, 0);
                lemma_file_byte_index(row, x as int, 1);
                lemma_file_byte_index(row, x as int, 2);
            }
            data.push(rgb_pixels[offset + 2]);
            data.push(rgb_pixels[offset + 1]);
            data.push(rgb_pixels[offset]);
            assert(data@ =~= bmp_header() + Seq::new(
                (row * 1128 + (x + 1) * 3) as nat,
                |k: int| file_pixel_byte(canvas, k),
            ));
            x = x + 1;
        }
        let ghost before = data@;
        data.resize(data.len() + padding, 0);
        assert(data@ =~= before);
    }
    data
}

/// Turns an 8-bit grayscale image into a canvas, outlines the quadrilateral
/// through `points` in green and encodes the result as a 24-bit BMP file.
pub fn convert_grayscale_to_rgb_bmp(
    input_data: &[u8],
    points: &[(u32, u32)],
    data_offset: usize,
) -> (res: Result<Vec<u8>, String>)
    requires
        points@.len() >= 4,
    ensures
        res matches Ok(data) && data@ == bmp_file(
            outlined(gray_canvas(input_data@, data_offset as int), points@),
        ),
{
    let mut rgb_pixels: Vec<u8> = vec![0u8; CANVAS_LEN];
    let input_row_size = ((IMAGE_WIDTH + 3) & !3u32) as usize;
    assert(379u32 & !3u32 == 376u32) by (bit_vector);
    let len = input_data.len();
    let mut y: u32 = 0;
    while y < IMAGE_HEIGHT
        invariant
            0 <= y <= 240,
            input_row_size == 376,
            len == input_data@.len(),
            rgb_pixels@.len() == CANVAS_LEN,
            forall|a: int, b: int, c: int|
                in_image(a, b) && 0 <= c < 3 ==> #[trigger] rgb_pixels@[pixel_index(a, b, c)] == if b
                    < y {
                    gray_at(input_data@, data_offset as int, a, b)
                } else {
                    0u8
                },
        decreases 240 - y,
    {
        let mut x: u32 = 0;
        while x < IMAGE_WIDTH
            invariant
                0 <= y < 240,
                0 <= x <= 376,
                input_row_size == 376,
                len == input_data@.len(),
                rgb_pixels@.len() == CANVAS_LEN,
                forall|a: int, b: int, c: int|
                    in_image(a, b) && 0 <= c < 3 ==> #[trigger] rgb_pixels@[pixel_index(a, b, c)]
                        == if b < y || (b == y && a < x) {
                        gray_at(input_data@, data_offset as int, a, b)
                    } else {
                        0u8
                    },
            decreases 376 - x,
        {
            let base = (IMAGE_HEIGHT - 1 - y) as usize * input_row_size + x as usize;
            let output_offset = ((y * IMAGE_WIDTH + x) * 3) as usize;
            if data_offset < len && base < len - data_offset {
                let gray = input_data[data_offset + base];
                proof {
                    lemma_pixel_compose(x as int, y as int, 0);
                }
                rgb_pixels.set(output_offset, gray);
                rgb_pixels.set(output_offset + 1, gray);
                rgb_pixels.set(output_offset + 2, gray);
            }
            assert forall|a: int, b: int, c: int| in_image(a, b) && 0 <= c < 3 implies #[trigger] rgb_pixels@[pixel_index(a, b, c)]
                == if b < y || (b == y && a < x + 1) {
                gray_at(input_data@, data_offset as int, a, b)
            } else {
                0u8
            } by {
                if pixel_index(a, b, c) == output_offset || pixel_index(a, b, c) == output_offset + 1
                    || pixel_index(a, b, c) == output_offset + 2 {
                    crate::canvas::lemma_pixel_index_distinct(
                        a,
                        b,
                        c,
                        x as int,
                        y as int,
                        pixel_index(a, b, c) - output_offset,
                    );
                }
            }
            x = x + 1;
        }
        y = y + 1;
    }
    let ghost base_canvas = gray_canvas(input_data@, data_offset as int);
    assert forall|a: int, b: int, c: int| in_image(a, b) && 0 <= c < 3 implies #[trigger] rgb_pixels@[pixel_index(a, b, c)]
        == base_canvas[pixel_index(a, b, c)] by {
        lemma_pixel_compose(a, b, c);
        crate::canvas::lemma_pixel_index_bounds(a, b, c);
    }
    draw_green_rectangle(rgb_pixels.as_mut_slice(), points)?;
    proof {
        lemma_outlined_pointwise(rgb_pixels@, base_canvas, points@);
    }
    Ok(encode_rgb_bmp(rgb_pixels.as_slice()))
}

/// Copies a 24-bit image onto a canvas, outlines the quadrilateral through
/// `points` in green and encodes the result as a 24-bit BMP file.
pub fn process_rgb_bmp(input_data: &[u8], points: &[(u32, u32)], data_offset: usize) -> (res: Result<
    Vec<u8>,
    String,
>)
    requires
        points@.len() >= 4,
    ensures
        res matches Ok(data) && data@ == bmp_file(
            outlined(rgb_canvas(input_data@, data_offset as int), points@),
        ),
{
    let input_row_size = ((IMAGE_WIDTH * 3 + 3) & !3u32) as usize;
    assert(1131u32 & !3u32 == 1128u32) by (bit_vector);
    let mut rgb_pixels: Vec<u8> = vec![0u8; CANVAS_LEN];
    let len = input_data.len();
    let mut y: u32 = 0;
    while y < IMAGE_HEIGHT
        invariant
            0 <= y <= 240,
            input_row_size == 1128,
            len == input_data@.len(),
            rgb_pixels@.len() == CANVAS_LEN,
            forall|a: int, b: int, c: int|
                in_image(a, b) && 0 <= c < 3 ==> #[trigger] rgb_pixels@[pixel_index(a, b, c)] == if b
                    < y {
                    rgb_at(input_data@, data_offset as int, a, b, c)
                } else {
                    0u8
                },
        decreases 240 - y,
    {
        let mut x: u32 = 0;
        while x < IMAGE_WIDTH
            invariant
                0 <= y < 240,
                0 <= x <= 376,
                input_row_size == 1128,
                len == input_data@.len(),
                rgb_pixels@.len() == CANVAS_LEN,
                forall|a: int, b: int, c: int|
                    in_image(a, b) && 0 <= c < 3 ==> #[trigger] rgb_pixels@[pixel_index(a, b, c)]
                        == if b < y || (b == y && a < x) {
                        rgb_at(input_data@, data_offset as int, a, b, c)
                    } else {
                        0u8
                    },
            decreases 376 - x,
        {
            let base = (IMAGE_HEIGHT - 1 - y) as usize * input_row_size + x as usize * 3;
            let output_offset = ((y * IMAGE_WIDTH + x) * 3) as usize;
            if data_offset < len && base + 2 < len - data_offset {
                let input_offset = data_offset + base;
                proof {
                    lemma_pixel_compose(x as int, y as int, 0);
                }
                rgb_pixels.set(output_offset, input_data[input_offset + 2]);
                rgb_pixels.set(output_offset + 1, input_data[input_offset + 1]);
                rgb_pixels.set(output_offset + 2, input_data[input_offset]);
            }
            assert forall|a: int, b: int, c: int| in_image(a, b) && 0 <= c < 3 implies #[trigger] rgb_pixels@[pixel_index(a, b, c)]
                == if b < y || (b == y && a < x + 1) {
                rgb_at(input_data@, data_offset as int, a, b, c)
            } else {
                0u8
            } by {
                if pixel_index(a, b, c) == output_offset || pixel_index(a, b, c) == output_offset + 1
                    || pixel_index(a, b, c) == output_offset + 2 {
                    crate::canvas::lemma_pixel_index_distinct(
                        a,
                        b,
                        c,
                        x as int,
                        y as int,
                        pixel_index(a, b, c) - output_offset,
                    );
                }
            }
            x = x + 1;
        }
        y = y + 1;
    }
    let ghost base_canvas = rgb_canvas(input_data@, data_offset as int);
    assert forall|a: int, b: int, c: int| in_image(a, b) && 0 <= c < 3 implies #[trigger] rgb_pixels@[pixel_index(a, b, c)]
        == base_canvas[pixel_index(a, b, c)] by {
        lemma_pixel_compose(a, b, c);
        crate::canvas::lemma_pixel_index_bounds(a, b, c);
    }
    draw_green_rectangle(rgb_pixels.as_mut_slice(), points)?;
    proof {
        lemma_outlined_pointwise(rgb_pixels@, base_canvas, points@);
    }
    Ok(encode_rgb_bmp(rgb_pixels.as_slice()))
}

/// Checks a BMP image, outlines the quadrilateral through `points` in green
/// and gives the result as a 24-bit BMP file. 8-bit grayscale and 24-bit
/// images are accepted.
pub fn process_bmp_data_to_memory(bmp_data: &[u8], points: &[(u32, u32)]) -> (res: Result<
    Vec<u8>,
    String,
>)
    requires
        draws_on(bmp_data@) ==> points@.len() >= 4,
    ensures
        match res {
            Ok(data) => processed_bmp(bmp_data@, points@) == Ok::<Seq<u8>, Seq<char>>(data@),
            Err(message) => processed_bmp(bmp_data@, points@) == Err::<Seq<u8>, Seq<char>>(
                message@,
            ),
        },
{
    if bmp_data.len() < 54 {
        return Err(String::from_str("Invalid BMP file - too short"));
    }
    if bmp_data[0] != 0x42u8 || bmp_data[1] != 0x4du8 {
        return Err(String::from_str("Not a valid BMP file"));
    }
    let data_offset = read_le32(bmp_data, 10) as usize;
    let bits_per_pixel = read_le16(bmp_data, 28);
    if bits_per_pixel == 8 {
        convert_grayscale_to_rgb_bmp(bmp_data, points, data_offset)
    } else if bits_per_pixel == 24 {
        process_rgb_bmp(bmp_data, points, data_offset)
    } else {
        let mut message = String::from_str("Unsupported BMP format: ");
        let number = decimal_string(bits_per_pixel as u64);
        message.append(number.as_str());
        message.append(" bits per pixel");
        Err(message)
    }
}

} // verus!
