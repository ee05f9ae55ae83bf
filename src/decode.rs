//! Conversion of a mapped, row-pitched image into tightly packed RGB.
use vstd::prelude::*;

use crate::codes::{
    FORMAT_B8G8R8A8_SRGB, FORMAT_B8G8R8A8_UNORM, FORMAT_R8G8B8A8_SRGB, FORMAT_R8G8B8A8_UNORM,
    FORMAT_R8G8B8_SRGB, FORMAT_R8G8B8_UNORM,
};

verus! {

/// Formats whose pixels are stored blue first, with alpha last.
pub open spec fn is_bgra(format: i32) -> bool {
    format == FORMAT_B8G8R8A8_SRGB || format == FORMAT_B8G8R8A8_UNORM
}

/// Formats whose pixels are stored red first, with alpha last.
pub open spec fn is_rgba(format: i32) -> bool {
    format == FORMAT_R8G8B8A8_SRGB || format == FORMAT_R8G8B8A8_UNORM
}

/// Formats whose pixels are three bytes, red first.
pub open spec fn is_rgb(format: i32) -> bool {
    format == FORMAT_R8G8B8_SRGB || format == FORMAT_R8G8B8_UNORM
}

/// Bytes per source pixel; zero for a format the decoder does not read.
pub open spec fn spec_bytes_per_pixel(format: i32) -> nat {
    if is_bgra(format) || is_rgba(format) {
        4
    } else if is_rgb(format) {
        3
    } else {
        0
    }
}

/// Whether the decoder reads this format.
pub open spec fn is_supported(format: i32) -> bool {
    spec_bytes_per_pixel(format) > 0
}

/// Offset, within a source pixel, of the byte that gives output channel `c`
/// (0 red, 1 green, 2 blue).
pub open spec fn source_channel(format: i32, c: int) -> int {
    if is_bgra(format) {
        2 - c
    } else {
        c
    }
}

/// The RGB triple of the source pixel that starts at `offset`.
pub open spec fn pixel_rgb(data: Seq<u8>, offset: int, format: i32) -> Seq<u8> {
    seq![
        data[offset + source_channel(format, 0)],
        data[offset + source_channel(format, 1)],
        data[offset + source_channel(format, 2)],
    ]
}

/// The first `n` pixels of row `y`, as RGB.
pub open spec fn row_rgb(data: Seq<u8>, y: nat, n: nat, pitch: nat, format: i32) -> Seq<u8>
    decreases n,
{
    if n == 0 {
        Seq::empty()
    } else {
        row_rgb(data, y, (n - 1) as nat, pitch, format) + pixel_rgb(
            data,
            y * pitch + (n - 1) * spec_bytes_per_pixel(format),
            format,
        )
    }
}

/// The first `rows` rows of an image `width` pixels wide, as packed RGB.
pub open spec fn image_rgb(data: Seq<u8>, width: nat, rows: nat, pitch: nat, format: i32) -> Seq<u8>
    decreases rows,
{
    if rows == 0 {
        Seq::empty()
    } else {
        image_rgb(data, width, (rows - 1) as nat, pitch, format) + row_rgb(
            data,
            (rows - 1) as nat,
            width,
            pitch,
            format,
        )
    }
}

/// The buffer holds every pixel of the image: rows do not overlap and the last
/// pixel of the last row lies inside it.
pub open spec fn covers(len: nat, width: nat, height: nat, pitch: nat, format: i32) -> bool {
    &&& pitch >= width * spec_bytes_per_pixel(format)
    &&& (width == 0 || height == 0 || (height - 1) * pitch + width * spec_bytes_per_pixel(format)
        <= len)
}

/// What the decoder returns for a mapped image.
pub open spec fn spec_decode(data: Seq<u8>, width: nat, height: nat, pitch: nat, format: i32) -> Option<
    Seq<u8>,
> {
    if is_supported(format) && covers(data.len(), width, height, pitch, format) {
        Some(image_rgb(data, width, height, pitch, format))
    } else {
        None
    }
}

/// Bytes per source pixel of a format, zero where the format is not read.
pub fn bytes_per_pixel(format: i32) -> (r: usize)
    ensures
        r == spec_bytes_per_pixel(format),
{
    if format == FORMAT_B8G8R8A8_SRGB || format == FORMAT_B8G8R8A8_UNORM
        || format == FORMAT_R8G8B8A8_SRGB || format == FORMAT_R8G8B8A8_UNORM {
        4
    } else if format == FORMAT_R8G8B8_SRGB || format == FORMAT_R8G8B8_UNORM {
        3
    } else {
        0
    }
}

pub proof fn lemma_row_len(data: Seq<u8>, y: nat, n: nat, pitch: nat, format: i32)
    ensures
        row_rgb(data, y, n, pitch, format).len() == 3 * n,
    decreases n,
{
    if n > 0 {
        lemma_row_len(data, y, (n - 1) as nat, pitch, format);
    }
}

pub proof fn lemma_image_len(data: Seq<u8>, width: nat, rows: nat, pitch: nat, format: i32)
    ensures
        image_rgb(data, width, rows, pitch, format).len() == 3 * width * rows,
    decreases rows,
{
    if rows > 0 {
        let r1 = (rows - 1) as nat;
        lemma_image_len(data, width, r1, pitch, format);
        lemma_row_len(data, r1, width, pitch, format);
        assert(image_rgb(data, width, rows, pitch, format) == image_rgb(data, width, r1, pitch, format)
            + row_rgb(data, r1, width, pitch, format));
        assert(3 * width * rows == 3 * width * r1 + 3 * width) by (nonlinear_arith)
            requires
                rows == r1 + 1,
        ;
    } else {
        assert(3 * width * rows == 0) by (nonlinear_arith)
            requires
                rows == 0,
        ;
    }
}

/// Byte `3 * x + c` of a decoded row is channel `c` of source pixel `x`.
pub proof fn lemma_row_index(data: Seq<u8>, y: nat, n: nat, pitch: nat, format: i32, x: nat, c: nat)
    requires
        x < n,
        c < 3,
    ensures
        row_rgb(data, y, n, pitch, format)[3 * x + c as int] == data[y * pitch + x
            * spec_bytes_per_pixel(format) + source_channel(format, c as int)],
    decreases n,
{
    lemma_row_len(data, y, (n - 1) as nat, pitch, format);
    if x < n - 1 {
        lemma_row_index(data, y, (n - 1) as nat, pitch, format, x, c);
    }
}

/// Byte `3 * (y * width + x) + c` of a decoded image is channel `c` of source pixel `(x, y)`.
pub proof fn lemma_image_index(
    data: Seq<u8>,
    width: nat,
    rows: nat,
    pitch: nat,
    format: i32,
    x: nat,
    y: nat,
    c: nat,
)
    requires
        x < width,
        y < rows,
        c < 3,
    ensures
        image_rgb(data, width, rows, pitch, format)[3 * (y * width + x) + c as int] == data[y * pitch + x
            * spec_bytes_per_pixel(format) + source_channel(format, c as int)],
    decreases rows,
{
    let r1 = (rows - 1) as nat;
    let i = 3 * (y * width + x) + c as int;
    lemma_image_len(data, width, r1, pitch, format);
    lemma_row_len(data, r1, width, pitch, format);
    let head = image_rgb(data, width, r1, pitch, format);
    let last = row_rgb(data, r1, width, pitch, format);
    assert(image_rgb(data, width, rows, pitch, format) == head + last);
    if y < r1 {
        lemma_image_index(data, width, r1, pitch, format, x, y, c);
        assert(i < 3 * width * r1) by (nonlinear_arith)
            requires
                y < r1,
                x < width,
                c < 3,
                i == 3 * (y * width + x) + c,
        ;
        assert((head + last)[i] == head[i]);
    } else {
        lemma_row_index(data, y, width, pitch, format, x, c);
        assert(i == 3 * width * r1 + (3 * x + c)) by (nonlinear_arith)
            requires
                y == r1,
                i == 3 * (y * width + x) + c,
        ;
        assert((head + last)[i] == last[3 * x + c as int]);
    }
}

/// Decodes a mapped image of `width` x `height` pixels whose rows start `row_pitch`
/// bytes apart into packed RGB, three bytes per pixel, row after row. Alpha is
/// dropped and colour bytes are copied as they are. `None` for a format other than
/// the 8-bit RGBA, BGRA and RGB ones, or where `data` does not hold the image.
pub fn convert_host_image_to_rgb(data: &[u8], width: u32, height: u32, row_pitch: usize, format: i32) -> (r:
    Option<Vec<u8>>)
    ensures
        r matches Some(v) ==> spec_decode(data@, width as nat, height as nat, row_pitch as nat, format)
            == Some(v@),
        r is None ==> spec_decode(data@, width as nat, height as nat, row_pitch as nat, format)
            is None,
{
    let bpp = bytes_per_pixel(format);
    if bpp == 0 {
        return None;
    }
    let w = width as u128;
    let h = height as u128;
    let p = row_pitch as u128;
    let b = bpp as u128;
    assert(w * b <= 0xffff_ffff * 4) by (nonlinear_arith)
        requires
            w <= 0xffff_ffff,
            b <= 4,
    ;
    if p < w * b {
        return None;
    }
    if width > 0 && height > 0 {
        assert((h - 1) * p <= 0xffff_ffff * 0xffff_ffff_ffff_ffff) by (nonlinear_arith)
            requires
                h - 1 <= 0xffff_ffff,
                p <= 0xffff_ffff_ffff_ffff,
        ;
        if (h - 1) * p + w * b > data.len() as u128 {
            return None;
        }
    }
    let len = data.len();
    let mut out: Vec<u8> = Vec::new();
    if width == 0 || height == 0 {
        proof {
            lemma_zero_width_image(data@, height as nat, row_pitch as nat, format);
        }
        return Some(out);
    }
    let mut y: u32 = 0;
    while y < height
        invariant
            0 < width,
            y <= height,
            bpp == spec_bytes_per_pixel(format),
            bpp == 3 || bpp == 4,
            row_pitch >= width * bpp,
            (height - 1) * row_pitch + width * bpp <= len,
            len == data@.len(),
            out@ == image_rgb(data@, width as nat, y as nat, row_pitch as nat, format),
        decreases height - y,
    {
        let ghost before = out@;
        let yu: usize = y as usize;
        assert((yu as int) * (row_pitch as int) + (width as int) * (bpp as int) <= len)
            by (nonlinear_arith)
            requires
                yu < height,
                (height - 1) * row_pitch + width * bpp <= len,
            len == data@.len(),
        ;
        let base: usize = yu * row_pitch;
        let mut x: u32 = 0;
        while x < width
            invariant
                0 < width,
                y < height,
                x <= width,
                bpp == spec_bytes_per_pixel(format),
                bpp == 3 || bpp == 4,
                base == (y as int) * (row_pitch as int),
                base + (width as int) * (bpp as int) <= len,
                len == data@.len(),
                out@ == before + row_rgb(data@, y as nat, x as nat, row_pitch as nat, format),
            decreases width - x,
        {
            let xu: usize = x as usize;
            assert((xu as int) * (bpp as int) + (bpp as int) <= (width as int) * (bpp as int))
                by (nonlinear_arith)
                requires
                    xu < width,
            ;
            let off: usize = base + xu * bpp;
            if bpp == 4 && (format == FORMAT_B8G8R8A8_SRGB || format == FORMAT_B8G8R8A8_UNORM) {
                out.push(data[off + 2]);
                out.push(data[off + 1]);
                out.push(data[off]);
            } else {
                out.push(data[off]);
                out.push(data[off + 1]);
                out.push(data[off + 2]);
            }
            proof {
                let ghost row_next = row_rgb(data@, y as nat, (x + 1) as nat, row_pitch as nat, format);
                assert(row_next == row_rgb(data@, y as nat, x as nat, row_pitch as nat, format)
                    + pixel_rgb(data@, off as int, format));
                assert(out@ =~= before + row_next);
            }
            x = x + 1;
        }
        proof {
            assert(image_rgb(data@, width as nat, (y + 1) as nat, row_pitch as nat, format)
                == before + row_rgb(data@, y as nat, width as nat, row_pitch as nat, format));
        }
        y = y + 1;
    }
    Some(out)
}

proof fn lemma_zero_width_image(data: Seq<u8>, rows: nat, pitch: nat, format: i32)
    ensures
        image_rgb(data, 0, rows, pitch, format) =~= Seq::<u8>::empty(),
    decreases rows,
{
    if rows > 0 {
        lemma_zero_width_image(data, (rows - 1) as nat, pitch, format);
    }
}

/// The source bytes of one pixel's colour channels, in storage order, alpha left out.
pub open spec fn stored_colour(data: Seq<u8>, offset: int) -> Seq<u8> {
    data.subrange(offset, offset + 3)
}

/// The inverse of the decoder's per-pixel rule: an RGB triple laid out in the
/// storage order of `format`, alpha left out.
pub open spec fn encode_pixel(format: i32, rgb: Seq<u8>) -> Seq<u8> {
    if is_bgra(format) {
        seq![rgb[2], rgb[1], rgb[0]]
    } else {
        seq![rgb[0], rgb[1], rgb[2]]
    }
}

/// Decoding a supported image and re-encoding each pixel by the inverse rule
/// gives back the colour bytes of every source pixel.
pub proof fn lemma_decode_round_trip(
    data: Seq<u8>,
    width: nat,
    height: nat,
    pitch: nat,
    format: i32,
    x: nat,
    y: nat,
)
    requires
        spec_decode(data, width, height, pitch, format) is Some,
        x < width,
        y < height,
    ensures
        ({
            let rgb = spec_decode(data, width, height, pitch, format)->Some_0;
            let p = (3 * (y * width + x)) as int;
            encode_pixel(format, rgb.subrange(p, p + 3)) == stored_colour(
                data,
                (y * pitch + x * spec_bytes_per_pixel(format)) as int,
            )
        }),
{
    let rgb = image_rgb(data, width, height, pitch, format);
    let p = (3 * (y * width + x)) as int;
    let off = (y * pitch + x * spec_bytes_per_pixel(format)) as int;
    lemma_image_len(data, width, height, pitch, format);
    assert(p + 3 <= 3 * width * height) by (nonlinear_arith)
        requires
            x < width,
            y < height,
            p == 3 * (y * width + x),
    ;
    lemma_image_index(data, width, height, pitch, format, x, y, 0);
    lemma_image_index(data, width, height, pitch, format, x, y, 1);
    lemma_image_index(data, width, height, pitch, format, x, y, 2);
    assert(off + spec_bytes_per_pixel(format) <= data.len()) by (nonlinear_arith)
        requires
            x < width,
            y < height,
            off == y * pitch + x * spec_bytes_per_pixel(format),
            pitch >= width * spec_bytes_per_pixel(format),
            (height - 1) * pitch + width * spec_bytes_per_pixel(format) <= data.len(),
    ;
    assert(encode_pixel(format, rgb.subrange(p, p + 3)) =~= stored_colour(data, off));
}

} // verus!
