//! Frame files: where a captured frame goes and the bytes written there.
use vstd::prelude::*;
use vstd::string::StrSliceExecFns;
use vstd::utf8::encode_utf8;

use crate::config::OutputFormat;
use crate::text::{decimal, lemma_zero_padded_injective, push_decimal, push_zero_padded, same_text, zero_padded};

verus! {

/// A file to write: its path and its whole content.
pub struct FrameFile {
    pub path: String,
    pub bytes: Vec<u8>,
}

/// The ASCII header of a binary PPM image.
pub open spec fn ppm_header(width: u32, height: u32) -> Seq<char> {
    "P6\n"@ + decimal(width as nat) + " "@ + decimal(height as nat) + "\n255\n"@
}

/// A binary PPM file: the header, then the RGB bytes as they are.
pub open spec fn ppm_bytes(width: u32, height: u32, pixels: Seq<u8>) -> Seq<u8> {
    encode_utf8(ppm_header(width, height)) + pixels
}

/// The extension of a frame file.
pub open spec fn extension(format: OutputFormat) -> Seq<char> {
    match format {
        OutputFormat::Ppm => "ppm"@,
        OutputFormat::Png => "png"@,
    }
}

/// `<output_dir>/frame_<frame, six digits at least>.<extension>`.
pub open spec fn spec_frame_path(output_dir: Seq<char>, frame: u32, format: OutputFormat) -> Seq<char> {
    output_dir + "/frame_"@ + zero_padded(frame as nat, 6) + "."@ + extension(format)
}

/// `s` with every occurrence of `from`, scanned left to right without overlap,
/// replaced by `to`.
pub open spec fn replace_all(s: Seq<char>, from: Seq<char>, to: Seq<char>) -> Seq<char>
    decreases s.len(),
{
    if from.len() == 0 || s.len() < from.len() {
        s
    } else if s.subrange(0, from.len() as int) == from {
        to + replace_all(s.subrange(from.len() as int, s.len() as int), from, to)
    } else {
        seq![s[0]] + replace_all(s.subrange(1, s.len() as int), from, to)
    }
}

/// Replaces every occurrence of `from` in `s` by `to`, left to right, without overlap.
pub fn replace_text(s: &str, from: &str, to: &str) -> (r: String)
    requires
        from@.len() > 0,
    ensures
        r@ == replace_all(s@, from@, to@),
{
    let n = s.unicode_len();
    let m = from.unicode_len();
    let mut out = String::new();
    let mut start: usize = 0;
    let mut i: usize = 0;
    assert(s@.subrange(0, n as int) =~= s@);
    assert(out@ + s@.subrange(0, 0) + s@ =~= s@);
    while i < n
        invariant
            n == s@.len(),
            m == from@.len(),
            m > 0,
            start <= i <= n,
            out@ + s@.subrange(start as int, i as int) + replace_all(
                s@.subrange(i as int, n as int),
                from@,
                to@,
            ) == replace_all(s@, from@, to@),
        decreases n - i,
    {
        let ghost rest = s@.subrange(i as int, n as int);
        let ghost seg = s@.subrange(start as int, i as int);
        if m <= n - i && same_text(s.substring_char(i, i + m), from) {
            assert(rest.subrange(0, m as int) =~= s@.subrange(i as int, (i + m) as int));
            assert(rest.subrange(m as int, rest.len() as int) =~= s@.subrange((i + m) as int, n as int));
            let ghost before = out@;
            let piece = s.substring_char(start, i);
            out.append(piece);
            out.append(to);
            proof {
                let ghost tail = replace_all(s@.subrange((i + m) as int, n as int), from@, to@);
                assert(replace_all(rest, from@, to@) == to@ + tail);
                assert(out@ + s@.subrange((i + m) as int, (i + m) as int) + tail =~= before + seg
                    + replace_all(rest, from@, to@));
            }
            i = i + m;
            start = i;
        } else {
            proof {
                if i + m <= n {
                    assert(rest.subrange(0, m as int) =~= s@.subrange(i as int, (i + m) as int));
                }
                assert(rest.subrange(1, rest.len() as int) =~= s@.subrange(i + 1, n as int));
                assert(replace_all(rest, from@, to@) == seq![rest[0]] + replace_all(
                    s@.subrange(i + 1, n as int),
                    from@,
                    to@,
                ));
                assert(s@.subrange(start as int, i + 1) =~= seg + seq![rest[0]]);
                assert(out@ + s@.subrange(start as int, i + 1) + replace_all(
                    s@.subrange(i + 1, n as int),
                    from@,
                    to@,
                ) =~= out@ + seg + replace_all(rest, from@, to@));
            }
            i = i + 1;
        }
    }
    let piece = s.substring_char(start, n);
    out.append(piece);
    proof {
        assert(s@.subrange(n as int, n as int) =~= Seq::<char>::empty());
        assert(out@ =~= out@ + replace_all(Seq::<char>::empty(), from@, to@));
    }
    out
}

/// The bytes of the PPM file for an RGB buffer of `width` x `height` pixels.
pub fn ppm_file_bytes(pixels: &[u8], width: u32, height: u32) -> (r: Vec<u8>)
    ensures
        r@ == ppm_bytes(width, height, pixels@),
{
    let mut header = String::from_str("P6\n");
    push_decimal(&mut header, width);
    header.append(" ");
    push_decimal(&mut header, height);
    header.append("\n255\n");
    let mut bytes = header.as_str().as_bytes_vec();
    let ghost head = bytes@;
    let mut i: usize = 0;
    while i < pixels.len()
        invariant
            i <= pixels@.len(),
            bytes@ == head + pixels@.subrange(0, i as int),
        decreases pixels@.len() - i,
    {
        bytes.push(pixels[i]);
        assert(bytes@ =~= head + pixels@.subrange(0, i + 1));
        i = i + 1;
    }
    assert(pixels@.subrange(0, pixels@.len() as int) =~= pixels@);
    bytes
}

/// The file that saves an RGB buffer as a binary PPM image at `filename`.
pub fn save_ppm_frame(filename: &str, pixels: &[u8], width: u32, height: u32) -> (r: FrameFile)
    ensures
        r.path@ == filename@,
        r.bytes@ == ppm_bytes(width, height, pixels@),
{
    FrameFile { path: String::from_str(filename), bytes: ppm_file_bytes(pixels, width, height) }
}

/// The file that saves an RGB buffer asked for as PNG: no PNG encoder is built in, so
/// the frame is written as PPM, at `filename` with `.png` replaced by `.ppm`.
pub fn save_png_frame(filename: &str, pixels: &[u8], width: u32, height: u32) -> (r: FrameFile)
    ensures
        r.path@ == replace_all(filename@, ".png"@, ".ppm"@),
        r.bytes@ == ppm_bytes(width, height, pixels@),
{
    proof {
        reveal_strlit(".png");
    }
    FrameFile {
        path: replace_text(filename, ".png", ".ppm"),
        bytes: ppm_file_bytes(pixels, width, height),
    }
}

/// The path of frame number `frame`: `<output_dir>/frame_<NNNNNN>.<ppm|png>`.
pub fn frame_path(output_dir: &str, frame: u32, format: OutputFormat) -> (r: String)
    ensures
        r@ == spec_frame_path(output_dir@, frame, format),
{
    let mut path = String::from_str(output_dir);
    path.append("/frame_");
    push_zero_padded(&mut path, frame, 6);
    path.append(".");
    match format {
        OutputFormat::Ppm => path.append("ppm"),
        OutputFormat::Png => path.append("png"),
    }
    path
}

/// The file for a captured frame in the configured format.
pub fn frame_file(path: &str, pixels: &[u8], width: u32, height: u32, format: OutputFormat) -> (r:
    FrameFile)
    ensures
        r.bytes@ == ppm_bytes(width, height, pixels@),
        format == OutputFormat::Ppm ==> r.path@ == path@,
        format == OutputFormat::Png ==> r.path@ == replace_all(path@, ".png"@, ".ppm"@),
{
    match format {
        OutputFormat::Ppm => save_ppm_frame(path, pixels, width, height),
        OutputFormat::Png => save_png_frame(path, pixels, width, height),
    }
}

/// Different frame numbers get different paths, so no frame file overwrites another.
pub proof fn lemma_frame_paths_distinct(output_dir: Seq<char>, a: u32, b: u32, format: OutputFormat)
    requires
        a != b,
    ensures
        spec_frame_path(output_dir, a, format) != spec_frame_path(output_dir, b, format),
{
    let head = output_dir + "/frame_"@;
    let tail = "."@ + extension(format);
    let za = zero_padded(a as nat, 6);
    let zb = zero_padded(b as nat, 6);
    let pa = spec_frame_path(output_dir, a, format);
    let pb = spec_frame_path(output_dir, b, format);
    assert(pa =~= head + za + tail);
    assert(pb =~= head + zb + tail);
    if pa == pb {
        assert(za.len() == zb.len());
        assert(za =~= pa.subrange(head.len() as int, (head.len() + za.len()) as int));
        assert(zb =~= pb.subrange(head.len() as int, (head.len() + zb.len()) as int));
        lemma_zero_padded_injective(a as nat, b as nat, 6);
    }
}

} // verus!
