//! Turning a captured screen image into the RGBA pixels a PNG is made from.
use vstd::prelude::*;

use crate::error::LokiError;
use crate::text::{concat3, decimal, u64_to_decimal};

verus! {

/// One RGBA pixel from the BGRA bytes at `offset`, or a transparent black
/// pixel when the source runs out there.
pub open spec fn source_pixel(raw: Seq<u8>, offset: int) -> Seq<u8> {
    if offset + 3 < raw.len() {
        seq![raw[offset + 2], raw[offset + 1], raw[offset], raw[offset + 3]]
    } else {
        seq![0u8, 0u8, 0u8, 0u8]
    }
}

/// The first `x` pixels of row `y`; a row starts `bytes_per_row` bytes after
/// the previous one and holds four bytes per pixel.
pub open spec fn row_pixels(raw: Seq<u8>, bytes_per_row: int, y: int, x: int) -> Seq<u8>
    decreases x,
{
    if x <= 0 {
        Seq::empty()
    } else {
        row_pixels(raw, bytes_per_row, y, x - 1) + source_pixel(raw, y * bytes_per_row + (x - 1) * 4)
    }
}

/// The first `y` rows of `width` pixels each.
pub open spec fn image_rows(raw: Seq<u8>, width: int, bytes_per_row: int, y: int) -> Seq<u8>
    decreases y,
{
    if y <= 0 {
        Seq::empty()
    } else {
        image_rows(raw, width, bytes_per_row, y - 1) + row_pixels(raw, bytes_per_row, y - 1, width)
    }
}

/// Four bytes per pixel.
pub proof fn lemma_row_pixels_len(raw: Seq<u8>, bytes_per_row: int, y: int, x: int)
    requires
        x >= 0,
    ensures
        row_pixels(raw, bytes_per_row, y, x).len() == 4 * x,
    decreases x,
{
    if x > 0 {
        lemma_row_pixels_len(raw, bytes_per_row, y, x - 1);
    }
}

/// `y` rows of `width` pixels take `4 * width * y` bytes.
pub proof fn lemma_image_rows_len(raw: Seq<u8>, width: int, bytes_per_row: int, y: int)
    requires
        y >= 0,
        width >= 0,
    ensures
        image_rows(raw, width, bytes_per_row, y).len() == y * width * 4,
    decreases y,
{
    if y > 0 {
        lemma_image_rows_len(raw, width, bytes_per_row, y - 1);
        lemma_row_pixels_len(raw, bytes_per_row, y - 1, width);
        assert(image_rows(raw, width, bytes_per_row, y) == image_rows(raw, width, bytes_per_row, y - 1)
            + row_pixels(raw, bytes_per_row, y - 1, width));
        assert((y - 1) * width * 4 + 4 * width == y * width * 4) by (nonlinear_arith);
    } else {
        assert(y * width * 4 == 0) by (nonlinear_arith)
            requires
                y == 0,
        ;
    }
}

/// Convert a 32-bit BGRA image (rows `bytes_per_row` apart) to tightly packed
/// RGBA bytes, row by row. Pixels the source bytes do not reach stay zero.
/// Any other pixel size is refused.
pub fn bgra_to_rgba(
    raw: &[u8],
    width: usize,
    height: usize,
    bytes_per_row: usize,
    bits_per_pixel: usize,
) -> (r: Result<Vec<u8>, LokiError>)
    requires
        (height as int) * (bytes_per_row as int) + (width as int) * 4 + 4 <= usize::MAX,
        (height as int) * (width as int) * 4 <= usize::MAX,
    ensures
        bits_per_pixel != 32 ==> (r matches Err(LokiError::ScreenshotFailed(m)) && m@
            == "unexpected bits_per_pixel: "@ + decimal(bits_per_pixel as nat) + " (expected 32)"@),
        bits_per_pixel == 32 ==> (r matches Ok(v) && v@ == image_rows(raw@, width as int, bytes_per_row as int, height as int)),
        r matches Ok(v) ==> v@.len() == (height as int) * (width as int) * 4,
{
    if bits_per_pixel != 32 {
        let d = u64_to_decimal(bits_per_pixel as u64);
        return Err(LokiError::ScreenshotFailed(concat3("unexpected bits_per_pixel: ", d.as_str(), " (expected 32)")));
    }
    let mut out: Vec<u8> = Vec::new();
    let mut y: usize = 0;
    while y < height
        invariant
            y <= height,
            (height as int) * (bytes_per_row as int) + (width as int) * 4 + 4 <= usize::MAX,
            out@ == image_rows(raw@, width as int, bytes_per_row as int, y as int),
        decreases height - y,
    {
        assert((y as int) * (bytes_per_row as int) <= (height as int) * (bytes_per_row as int)) by (nonlinear_arith)
            requires y < height;
        let row_start = y * bytes_per_row;
        let ghost before = out@;
        let mut x: usize = 0;
        while x < width
            invariant
                x <= width,
                y < height,
                row_start == y * bytes_per_row,
                row_start + (width as int) * 4 + 4 <= usize::MAX,
                out@ == before + row_pixels(raw@, bytes_per_row as int, y as int, x as int),
            decreases width - x,
        {
            let px_offset = row_start + x * 4;
            if px_offset + 3 < raw.len() {
                out.push(raw[px_offset + 2]);
                out.push(raw[px_offset + 1]);
                out.push(raw[px_offset]);
                out.push(raw[px_offset + 3]);
            } else {
                out.push(0);
                out.push(0);
                out.push(0);
                out.push(0);
            }
            proof {
                assert(out@ =~= before + row_pixels(raw@, bytes_per_row as int, y as int, x + 1));
            }
            x += 1;
        }
        y += 1;
    }
    proof {
        lemma_image_rows_len(raw@, width as int, bytes_per_row as int, height as int);
    }
    Ok(out)
}

/// The outcome of the `image` crate's PNG encoder, with its default settings,
/// for a `width` × `height` image given as tightly packed RGBA bytes: the bytes
/// it writes, or `None` where it refuses the image.
pub uninterp spec fn png_encoding(rgba: Seq<u8>, width: u32, height: u32) -> Option<Seq<u8>>;

/// Encodes tightly packed RGBA bytes as a PNG with
/// `image::codecs::png::PngEncoder::write_image` (default compression and
/// filter) into a `Vec<u8>`. The encoder's outcome depends on its arguments
/// alone: the contract claims that it succeeds exactly where `png_encoding`
/// names bytes, and that those are the bytes written. The text of an encoder
/// error is handed back with nothing claimed of it.
#[verifier::external_body]
fn encode_png(rgba: &[u8], width: u32, height: u32) -> (r: Result<Vec<u8>, String>)
    requires
        rgba@.len() == (width as int) * (height as int) * 4,
    ensures
        match r {
            Ok(b) => png_encoding(rgba@, width, height) == Some(b@),
            Err(_) => png_encoding(rgba@, width, height) is None,
        },
{
    let mut out: Vec<u8> = Vec::new();
    let encoder = image::codecs::png::PngEncoder::new(&mut out);
    match image::ImageEncoder::write_image(encoder, rgba, width, height, image::ExtendedColorType::Rgba8) {
        Ok(()) => Ok(out),
        Err(e) => Err(e.to_string()),
    }
}

/// The screenshot result for what the PNG encoder returned: the PNG bytes, or
/// a screenshot failure that carries the encoder's message.
pub fn png_outcome(encoded: Result<Vec<u8>, String>) -> (r: Result<Vec<u8>, LokiError>)
    ensures
        match encoded {
            Ok(b) => r matches Ok(v) && v@ == b@,
            Err(t) => r matches Err(LokiError::ScreenshotFailed(m)) && m@ == "PNG encoding failed: "@ + t@,
        },
{
    match encoded {
        Ok(b) => Ok(b),
        Err(t) => {
            let mut m = crate::text::own("PNG encoding failed: ");
            m.append(t.as_str());
            Err(LokiError::ScreenshotFailed(m))
        },
    }
}

/// Convert a captured 32-bit BGRA image to PNG bytes: rebuild it as tightly
/// packed RGBA (see `bgra_to_rgba`), then encode it. Any other pixel size is
/// refused before encoding.
pub fn cgimage_to_png(
    raw: &[u8],
    width: usize,
    height: usize,
    bytes_per_row: usize,
    bits_per_pixel: usize,
) -> (r: Result<Vec<u8>, LokiError>)
    requires
        width <= u32::MAX,
        height <= u32::MAX,
        (height as int) * (bytes_per_row as int) + (width as int) * 4 + 4 <= usize::MAX,
        (height as int) * (width as int) * 4 <= usize::MAX,
    ensures
        bits_per_pixel != 32 ==> (r matches Err(LokiError::ScreenshotFailed(m)) && m@
            == "unexpected bits_per_pixel: "@ + decimal(bits_per_pixel as nat) + " (expected 32)"@),
        bits_per_pixel == 32 ==> match png_encoding(
            image_rows(raw@, width as int, bytes_per_row as int, height as int),
            width as u32,
            height as u32,
        ) {
            Some(bytes) => r matches Ok(png) && png@ == bytes,
            None => r matches Err(LokiError::ScreenshotFailed(m)) && crate::text::starts_with(
                m@,
                "PNG encoding failed: "@,
            ),
        },
{
    let rgba = match bgra_to_rgba(raw, width, height, bytes_per_row, bits_per_pixel) {
        Ok(v) => v,
        Err(e) => return Err(e),
    };
    proof {
        assert((height as int) * (width as int) * 4 == (width as int) * (height as int) * 4) by (nonlinear_arith);
    }
    let encoded = encode_png(rgba.as_slice(), width as u32, height as u32);
    let ghost enc = encoded;
    let r = png_outcome(encoded);
    proof {
        if enc is Err {
            let t = enc->Err_0;
            assert(("PNG encoding failed: "@ + t@).take("PNG encoding failed: "@.len() as int) =~= "PNG encoding failed: "@);
        }
    }
    r
}

} // verus!
