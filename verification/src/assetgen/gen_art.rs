//! 16 × 16 RGBA placeholder images for the card face, the card backs and the
//! table backgrounds, and their PNG encoding.
//!
//! An image is a flat row-major `[R, G, B, A, ...]` buffer of
//! 16 · 16 · 4 = 1024 bytes: pixel (x, y) occupies bytes
//! `4 · (16 · y + x) .. 4 · (16 · y + x) + 4`.

use vstd::prelude::*;

use png::EncodingError;

verus! {

/// Byte offset of pixel (x, y) in an image buffer.
pub open spec fn pixel_offset(x: int, y: int) -> int {
    (y * 16 + x) * 4
}

/// The four RGBA bytes of pixel (x, y) of `img`.
pub open spec fn pixel_of(img: Seq<u8>, x: int, y: int) -> Seq<u8> {
    img.subrange(pixel_offset(x, y), pixel_offset(x, y) + 4)
}

/// Whether (x, y) lies on the 16 × 16 grid.
pub open spec fn on_grid(x: int, y: int) -> bool {
    0 <= x < 16 && 0 <= y < 16
}

/// Byte `j` of an image is byte `j % 4` of the colour of pixel `j / 4`.
spec fn bytes_follow(img: Seq<u8>, cols: Seq<[u8; 4]>, n: int) -> bool {
    forall|j: int| 0 <= j < 4 * n ==> #[trigger] img[j] == cols[j / 4]@[j % 4]
}

/// Every colour in `cols` came from `f` at the pixel with that index.
spec fn colours_from<F: Fn(u32, u32) -> [u8; 4]>(f: F, cols: Seq<[u8; 4]>) -> bool {
    forall|p: int|
        0 <= p < cols.len() ==> call_ensures(f, ((p % 16) as u32, (p / 16) as u32), #[trigger] cols[p])
}

proof fn lemma_byte_split(q: int, r: int, d: int)
    requires
        d > 0,
        0 <= r < d,
    ensures
        (q * d + r) / d == q,
        (q * d + r) % d == r,
{
    vstd::arithmetic::div_mod::lemma_fundamental_div_mod_converse(q * d + r, d, q, r);
}

/// Opaque white.
pub open spec fn white() -> Seq<u8> {
    seq![0xFFu8, 0xFF, 0xFF, 0xFF]
}

/// White at alpha `a`.
pub open spec fn white_alpha(a: u8) -> Seq<u8> {
    seq![0xFFu8, 0xFF, 0xFF, a]
}

/// Opaque colour (r, g, b).
pub open spec fn opaque(r: u8, g: u8, b: u8) -> Seq<u8> {
    seq![r, g, b, 0xFFu8]
}

/// Card face: cream/ivory everywhere.
pub open spec fn face_pixel(x: int, y: int) -> Seq<u8> {
    opaque(0xF8, 0xF8, 0xF0)
}

/// Back 0: blue with faint white horizontal stripes, two rows in every four.
pub open spec fn back_0_pixel(x: int, y: int) -> Seq<u8> {
    if y % 4 < 2 {
        white_alpha(40)
    } else {
        opaque(0x26, 0x4D, 0x8C)
    }
}

/// Back 1: red with faint white diagonal stripes.
pub open spec fn back_1_pixel(x: int, y: int) -> Seq<u8> {
    if (x + y) % 4 < 2 {
        white_alpha(40)
    } else {
        opaque(0x8C, 0x1A, 0x1A)
    }
}

/// Back 2: green with a white dot at every 4-pixel grid intersection.
pub open spec fn back_2_pixel(x: int, y: int) -> Seq<u8> {
    if x % 4 == 0 && y % 4 == 0 {
        white()
    } else {
        opaque(0x0D, 0x66, 0x1A)
    }
}

/// Distance between `a` and `b`.
pub open spec fn dist(a: int, b: int) -> int {
    if a >= b {
        a - b
    } else {
        b - a
    }
}

/// Back 3: purple with a white diamond of radius 4 centred at (8, 8).
pub open spec fn back_3_pixel(x: int, y: int) -> Seq<u8> {
    if dist(x, 8) + dist(y, 8) <= 4 {
        white()
    } else {
        opaque(0x59, 0x14, 0x85)
    }
}

/// Back 4: teal with a one-pixel white border.
pub open spec fn back_4_pixel(x: int, y: int) -> Seq<u8> {
    if x == 0 || x == 15 || y == 0 || y == 15 {
        white()
    } else {
        opaque(0x0D, 0x66, 0x6B)
    }
}

/// Background 0: dark green felt with faint grid lines every 8 pixels.
pub open spec fn bg_0_pixel(x: int, y: int) -> Seq<u8> {
    if x % 8 == 0 || y % 8 == 0 {
        white_alpha(30)
    } else {
        opaque(0x1A, 0x4D, 0x1A)
    }
}

/// Background 1: dark wood with faint grain on every even row.
pub open spec fn bg_1_pixel(x: int, y: int) -> Seq<u8> {
    if y % 2 == 0 {
        white_alpha(20)
    } else {
        opaque(0x40, 0x2D, 0x1A)
    }
}

/// Background 2: navy with white dots every 8 pixels, alternate bands of
/// four rows shifted by four columns.
pub open spec fn bg_2_pixel(x: int, y: int) -> Seq<u8> {
    let row_offset = if (y / 4) % 2 == 0 {
        0int
    } else {
        4int
    };
    if (x + row_offset) % 8 == 0 && y % 8 == 0 {
        white()
    } else {
        opaque(0x0D, 0x14, 0x38)
    }
}

/// Background 3: burgundy with a faint diagonal grid.
pub open spec fn bg_3_pixel(x: int, y: int) -> Seq<u8> {
    if (x + y) % 8 == 0 {
        white_alpha(30)
    } else {
        opaque(0x4D, 0x0D, 0x14)
    }
}

/// Background 4: charcoal with faint noise on checkerboard pixels of every
/// third column.
pub open spec fn bg_4_pixel(x: int, y: int) -> Seq<u8> {
    if (x + y) % 2 == 0 && x % 3 == 0 {
        white_alpha(20)
    } else {
        opaque(0x1F, 0x1F, 0x24)
    }
}

/// Pixel (x, y) of `img` holds a colour that `f(x, y)` may return.
pub open spec fn painted_by<F: Fn(u32, u32) -> [u8; 4]>(f: F, img: Seq<u8>, x: u32, y: u32) -> bool {
    exists|c: [u8; 4]| call_ensures(f, (x, y), c) && pixel_of(img, x as int, y as int) == c@
}

/// Paints a 16 × 16 image by calling `f(x, y)` for every pixel, row by row.
pub fn make_image<F: Fn(u32, u32) -> [u8; 4]>(f: F) -> (img: [u8; 1024])
    requires
        forall|x: u32, y: u32| x < 16 && y < 16 ==> call_requires(f, (x, y)),
    ensures
        forall|x: u32, y: u32| x < 16 && y < 16 ==> #[trigger] painted_by(f, img@, x, y),
{
    let mut img = [0u8; 1024];
    let ghost mut cols: Seq<[u8; 4]> = Seq::empty();
    let mut y: u32 = 0;
    while y < 16
        invariant
            y <= 16,
            img@.len() == 1024,
            cols.len() == 16 * y,
            forall|x: u32, y: u32| x < 16 && y < 16 ==> call_requires(f, (x, y)),
            colours_from(f, cols),
            bytes_follow(img@, cols, cols.len() as int),
        decreases 16 - y,
    {
        let mut x: u32 = 0;
        while x < 16
            invariant
                x <= 16,
                y < 16,
                img@.len() == 1024,
                cols.len() == 16 * y + x,
                forall|x: u32, y: u32| x < 16 && y < 16 ==> call_requires(f, (x, y)),
                colours_from(f, cols),
                bytes_follow(img@, cols, cols.len() as int),
            decreases 16 - x,
        {
            let rgba = f(x, y);
            let i = ((y * 16 + x) * 4) as usize;
            let ghost before = img@;
            img[i] = rgba[0];
            img[i + 1] = rgba[1];
            img[i + 2] = rgba[2];
            img[i + 3] = rgba[3];
            proof {
                let p = 16 * y + x;
                lemma_byte_split(y as int, x as int, 16);
                assert(p % 16 == x && p / 16 == y);
                let old_cols = cols;
                cols = cols.push(rgba);
                assert forall|j: int| 0 <= j < 4 * cols.len() implies #[trigger] img@[j] == cols[j / 4]@[j % 4] by {
                    if j < 4 * p {
                        assert(img@[j] == before[j]);
                        assert(j / 4 < p) by {
                            vstd::arithmetic::div_mod::lemma_div_is_ordered(j, 4 * p - 1, 4);
                            lemma_byte_split(p - 1, 3, 4);
                        }
                        vstd::arithmetic::div_mod::lemma_div_pos_is_pos(j, 4);
                    } else {
                        lemma_byte_split(p as int, j - 4 * p, 4);
                    }
                }
                assert forall|q: int| 0 <= q < cols.len() implies call_ensures(f, ((q % 16) as u32, (q / 16) as u32), #[trigger] cols[q]) by {
                    if q < p {
                        assert(cols[q] == old_cols[q]);
                    }
                }
            }
            x += 1;
        }
        y += 1;
    }
    proof {
        assert forall|x: u32, y: u32| x < 16 && y < 16 implies #[trigger] painted_by(f, img@, x, y) by {
            let p = 16 * y + x;
            lemma_byte_split(y as int, x as int, 16);
            assert(call_ensures(f, ((p % 16) as u32, (p / 16) as u32), cols[p as int]));
            assert forall|k: int| 0 <= k < 4 implies pixel_of(img@, x as int, y as int)[k] == cols[p as int]@[k] by {
                lemma_byte_split(p as int, k, 4);
                assert(img@[4 * p + k] == cols[(4 * p + k) / 4]@[(4 * p + k) % 4]);
            }
            assert(pixel_of(img@, x as int, y as int) =~= cols[p as int]@);
            assert(((p % 16) as u32, (p / 16) as u32) == (x, y));
            let c = cols[p as int];
            assert(call_ensures(f, (x, y), c) && pixel_of(img@, x as int, y as int) == c@);
        }
    }
    img
}

/// An image painted by a function whose every result at (x, y) has the
/// colour `paint(x, y)` shows that colour at every pixel.
proof fn lemma_painted_image<F: Fn(u32, u32) -> [u8; 4]>(
    f: F,
    img: Seq<u8>,
    paint: spec_fn(int, int) -> Seq<u8>,
)
    requires
        forall|x: u32, y: u32| x < 16 && y < 16 ==> #[trigger] painted_by(f, img, x, y),
        forall|x: u32, y: u32, c: [u8; 4]|
            x < 16 && y < 16 && #[trigger] call_ensures(f, (x, y), c) ==> c@ == paint(
                x as int,
                y as int,
            ),
    ensures
        forall|x: int, y: int| on_grid(x, y) ==> #[trigger] pixel_of(img, x, y) == paint(x, y),
{
    assert forall|x: int, y: int| on_grid(x, y) implies #[trigger] pixel_of(img, x, y) == paint(
        x,
        y,
    ) by {
        assert(painted_by(f, img, x as u32, y as u32));
    }
}

/// Cream/ivory solid fill: a blank card face.
pub fn make_face() -> (img: [u8; 1024])
    ensures
        forall|x: int, y: int| on_grid(x, y) ==> #[trigger] pixel_of(img@, x, y) == face_pixel(x, y),
{
    let paint = |_x: u32, _y: u32| -> (c: [u8; 4])
        requires
            _x < 16,
            _y < 16,
        ensures
            c@ == face_pixel(_x as int, _y as int),
        {
            let c: [u8; 4] = [0xF8, 0xF8, 0xF0, 0xFF];
            assert(c@ =~= face_pixel(_x as int, _y as int));
            c
        };
    let img = make_image(paint);
    proof {
        lemma_painted_image(paint, img@, |x: int, y: int| face_pixel(x, y));
    }
    img
}

/// Back 0: blue base with semi-transparent white horizontal stripes every 4 px.
pub fn make_back_0() -> (img: [u8; 1024])
    ensures
        forall|x: int, y: int| on_grid(x, y) ==> #[trigger] pixel_of(img@, x, y) == back_0_pixel(x, y),
{
    let paint = |_x: u32, y: u32| -> (c: [u8; 4])
        requires
            _x < 16,
            y < 16,
        ensures
            c@ == back_0_pixel(_x as int, y as int),
        {
            let c: [u8; 4] = if y % 4 < 2 { [0xFF, 0xFF, 0xFF, 40] } else { [0x26, 0x4D, 0x8C, 0xFF] };
            assert(c@ =~= back_0_pixel(_x as int, y as int));
            c
        };
    let img = make_image(paint);
    proof {
        lemma_painted_image(paint, img@, |x: int, y: int| back_0_pixel(x, y));
    }
    img
}

/// Back 1: red base with semi-transparent white diagonal stripes.
pub fn make_back_1() -> (img: [u8; 1024])
    ensures
        forall|x: int, y: int| on_grid(x, y) ==> #[trigger] pixel_of(img@, x, y) == back_1_pixel(x, y),
{
    let paint = |x: u32, y: u32| -> (c: [u8; 4])
        requires
            x < 16,
            y < 16,
        ensures
            c@ == back_1_pixel(x as int, y as int),
        {
            let c: [u8; 4] = if (x + y) % 4 < 2 { [0xFF, 0xFF, 0xFF, 40] } else { [0x8C, 0x1A, 0x1A, 0xFF] };
            assert(c@ =~= back_1_pixel(x as int, y as int));
            c
        };
    let img = make_image(paint);
    proof {
        lemma_painted_image(paint, img@, |x: int, y: int| back_1_pixel(x, y));
    }
    img
}

/// Back 2: green base with white dots at every 4-px grid intersection.
pub fn make_back_2() -> (img: [u8; 1024])
    ensures
        forall|x: int, y: int| on_grid(x, y) ==> #[trigger] pixel_of(img@, x, y) == back_2_pixel(x, y),
{
    let paint = |x: u32, y: u32| -> (c: [u8; 4])
        requires
            x < 16,
            y < 16,
        ensures
            c@ == back_2_pixel(x as int, y as int),
        {
            let c: [u8; 4] = if x % 4 == 0 && y % 4 == 0 { [0xFF, 0xFF, 0xFF, 0xFF] } else { [0x0D, 0x66, 0x1A, 0xFF] };
            assert(c@ =~= back_2_pixel(x as int, y as int));
            c
        };
    let img = make_image(paint);
    proof {
        lemma_painted_image(paint, img@, |x: int, y: int| back_2_pixel(x, y));
    }
    img
}

/// Back 3: purple base with a white diamond centred at (8, 8).
pub fn make_back_3() -> (img: [u8; 1024])
    ensures
        forall|x: int, y: int| on_grid(x, y) ==> #[trigger] pixel_of(img@, x, y) == back_3_pixel(x, y),
{
    let paint = |x: u32, y: u32| -> (c: [u8; 4])
        requires
            x < 16,
            y < 16,
        ensures
            c@ == back_3_pixel(x as int, y as int),
        {
            let c: [u8; 4] = {
            let dx: u32 = if x >= 8 { x - 8 } else { 8 - x };
            let dy: u32 = if y >= 8 { y - 8 } else { 8 - y };
            if dx + dy <= 4 { [0xFF, 0xFF, 0xFF, 0xFF] } else { [0x59, 0x14, 0x85, 0xFF] }
        };
            assert(c@ =~= back_3_pixel(x as int, y as int));
            c
        };
    let img = make_image(paint);
    proof {
        lemma_painted_image(paint, img@, |x: int, y: int| back_3_pixel(x, y));
    }
    img
}

/// Back 4: teal base with a 1-px white border.
pub fn make_back_4() -> (img: [u8; 1024])
    ensures
        forall|x: int, y: int| on_grid(x, y) ==> #[trigger] pixel_of(img@, x, y) == back_4_pixel(x, y),
{
    let paint = |x: u32, y: u32| -> (c: [u8; 4])
        requires
            x < 16,
            y < 16,
        ensures
            c@ == back_4_pixel(x as int, y as int),
        {
            let c: [u8; 4] = if x == 0 || x == 15 || y == 0 || y == 15 { [0xFF, 0xFF, 0xFF, 0xFF] } else { [0x0D, 0x66, 0x6B, 0xFF] };
            assert(c@ =~= back_4_pixel(x as int, y as int));
            c
        };
    let img = make_image(paint);
    proof {
        lemma_painted_image(paint, img@, |x: int, y: int| back_4_pixel(x, y));
    }
    img
}

/// Background 0: dark green felt with very faint lighter grid lines every 8 px.
pub fn make_bg_0() -> (img: [u8; 1024])
    ensures
        forall|x: int, y: int| on_grid(x, y) ==> #[trigger] pixel_of(img@, x, y) == bg_0_pixel(x, y),
{
    let paint = |x: u32, y: u32| -> (c: [u8; 4])
        requires
            x < 16,
            y < 16,
        ensures
            c@ == bg_0_pixel(x as int, y as int),
        {
            let c: [u8; 4] = if x % 8 == 0 || y % 8 == 0 { [0xFF, 0xFF, 0xFF, 30] } else { [0x1A, 0x4D, 0x1A, 0xFF] };
            assert(c@ =~= bg_0_pixel(x as int, y as int));
            c
        };
    let img = make_image(paint);
    proof {
        lemma_painted_image(paint, img@, |x: int, y: int| bg_0_pixel(x, y));
    }
    img
}

/// Background 1: dark wood brown with faint horizontal grain lines every 2 px.
pub fn make_bg_1() -> (img: [u8; 1024])
    ensures
        forall|x: int, y: int| on_grid(x, y) ==> #[trigger] pixel_of(img@, x, y) == bg_1_pixel(x, y),
{
    let paint = |_x: u32, y: u32| -> (c: [u8; 4])
        requires
            _x < 16,
            y < 16,
        ensures
            c@ == bg_1_pixel(_x as int, y as int),
        {
            let c: [u8; 4] = if y % 2 == 0 { [0xFF, 0xFF, 0xFF, 20] } else { [0x40, 0x2D, 0x1A, 0xFF] };
            assert(c@ =~= bg_1_pixel(_x as int, y as int));
            c
        };
    let img = make_image(paint);
    proof {
        lemma_painted_image(paint, img@, |x: int, y: int| bg_1_pixel(x, y));
    }
    img
}

/// Background 2: navy with a faint star/dot pattern in offset rows every 8 px.
pub fn make_bg_2() -> (img: [u8; 1024])
    ensures
        forall|x: int, y: int| on_grid(x, y) ==> #[trigger] pixel_of(img@, x, y) == bg_2_pixel(x, y),
{
    let paint = |x: u32, y: u32| -> (c: [u8; 4])
        requires
            x < 16,
            y < 16,
        ensures
            c@ == bg_2_pixel(x as int, y as int),
        {
            let c: [u8; 4] = {
            let row_offset: u32 = if (y / 4) % 2 == 0 { 0 } else { 4 };
            if (x + row_offset) % 8 == 0 && y % 8 == 0 {
                [0xFF, 0xFF, 0xFF, 0xFF]
            } else {
                [0x0D, 0x14, 0x38, 0xFF]
            }
        };
            assert(c@ =~= bg_2_pixel(x as int, y as int));
            c
        };
    let img = make_image(paint);
    proof {
        lemma_painted_image(paint, img@, |x: int, y: int| bg_2_pixel(x, y));
    }
    img
}

/// Background 3: burgundy with a faint diamond-grid pattern.
pub fn make_bg_3() -> (img: [u8; 1024])
    ensures
        forall|x: int, y: int| on_grid(x, y) ==> #[trigger] pixel_of(img@, x, y) == bg_3_pixel(x, y),
{
    let paint = |x: u32, y: u32| -> (c: [u8; 4])
        requires
            x < 16,
            y < 16,
        ensures
            c@ == bg_3_pixel(x as int, y as int),
        {
            let c: [u8; 4] = if (x + y) % 8 == 0 { [0xFF, 0xFF, 0xFF, 30] } else { [0x4D, 0x0D, 0x14, 0xFF] };
            assert(c@ =~= bg_3_pixel(x as int, y as int));
            c
        };
    let img = make_image(paint);
    proof {
        lemma_painted_image(paint, img@, |x: int, y: int| bg_3_pixel(x, y));
    }
    img
}

/// Background 4: charcoal with faint pixel noise on alternating pixels every third column.
pub fn make_bg_4() -> (img: [u8; 1024])
    ensures
        forall|x: int, y: int| on_grid(x, y) ==> #[trigger] pixel_of(img@, x, y) == bg_4_pixel(x, y),
{
    let paint = |x: u32, y: u32| -> (c: [u8; 4])
        requires
            x < 16,
            y < 16,
        ensures
            c@ == bg_4_pixel(x as int, y as int),
        {
            let c: [u8; 4] = if (x + y) % 2 == 0 && x % 3 == 0 { [0xFF, 0xFF, 0xFF, 20] } else { [0x1F, 0x1F, 0x24, 0xFF] };
            assert(c@ =~= bg_4_pixel(x as int, y as int));
            c
        };
    let img = make_image(paint);
    proof {
        lemma_painted_image(paint, img@, |x: int, y: int| bg_4_pixel(x, y));
    }
    img
}

/// The PNG file that png's `Encoder` writes for a 16 × 16, 8-bit RGBA image
/// with the given pixel bytes, under its default compression and filtering.
pub uninterp spec fn png_rgba16(pixels: Seq<u8>) -> Seq<u8>;

#[verifier::external_type_specification]
#[verifier::external_body]
pub struct ExEncodingError(EncodingError);

/// Why an image could not be encoded.
#[derive(Debug, Clone, Copy, PartialEq, Eq, Structural)]
pub enum ArtError {
    /// png's encoder reported an error.
    Encoding,
}

/// Encodes `pixels` with png's `Encoder` (16 × 16, `ColorType::Rgba`,
/// `BitDepth::Eight`) into an in-memory buffer: `write_header`, then
/// `write_image_data`, then `finish`, which writes the closing chunk.
///
/// Trusted: the result is `Ok` with the encoder's output for these pixels,
/// named `png_rgba16`. png's source returns an error here only for a zero
/// width or height, an invalid colour/depth pair, an indexed image without a
/// palette, a second image, a buffer of the wrong length (16 · 16 · 4 bytes
/// is the right one), a chunk over `i32::MAX` bytes, or a failing writer; a
/// `Vec<u8>` writer never fails, and none of the others applies to a
/// 16 × 16 RGBA 8-bit image of 1024 bytes.
#[verifier::external_body]
fn encode_rgba16(pixels: &[u8; 1024]) -> (r: Result<Vec<u8>, EncodingError>)
    ensures
        r is Ok,
        r matches Ok(bytes) ==> bytes@ == png_rgba16(pixels@),
{
    let mut out: Vec<u8> = Vec::new();
    let mut encoder = png::Encoder::new(&mut out, 16, 16);
    encoder.set_color(png::ColorType::Rgba);
    encoder.set_depth(png::BitDepth::Eight);
    let mut writer = encoder.write_header()?;
    writer.write_image_data(pixels)?;
    writer.finish()?;
    Ok(out)
}

/// The PNG file for a 16 × 16 RGBA image: always produced, since png's
/// encoder does not fail on such an image written to memory.
pub fn encode_png(pixels: &[u8; 1024]) -> (r: Result<Vec<u8>, ArtError>)
    ensures
        r is Ok,
        r matches Ok(bytes) ==> bytes@ == png_rgba16(pixels@),
{
    match encode_rgba16(pixels) {
        Ok(bytes) => Ok(bytes),
        Err(_) => Err(ArtError::Encoding),
    }
}

} // verus!
