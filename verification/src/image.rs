//! Reading a cube state from PNG image bytes and writing one back: the six
//! faces stacked as one tall grayscale image, a live cell as full intensity.

use crate::grid::GolCube;
use vstd::prelude::*;

verus! {

/// The error type of the png crate's decoder.
#[verifier::external_type_specification]
#[verifier::external_body]
pub struct ExDecodingError(png::DecodingError);

/// The error type of the png crate's encoder.
#[verifier::external_type_specification]
#[verifier::external_body]
pub struct ExEncodingError(png::EncodingError);

/// What a PNG byte stream decodes to: image width, height, samples per
/// pixel, bit depth, and the packed row-major image bytes; `None` where the
/// stream is not a well-formed image. Decoding depends on the bytes alone.
pub uninterp spec fn png_decoded(bytes: Seq<u8>) -> Option<(int, int, int, int, Seq<u8>)>;

/// The PNG encoding of an 8-bit grayscale image with the given dimensions
/// and pixel bytes; `None` where the encoder rejects them. Encoding depends
/// on the dimensions and bytes alone.
pub uninterp spec fn png_gray_encoded(width: int, height: int, data: Seq<u8>) -> Option<Seq<u8>>;

/// Relies on png's `Decoder::new`, `read_info` and `next_frame`: decoding is
/// a function of the byte stream alone; samples per pixel is at least one;
/// and an 8-bit image decodes into exactly `width * height * samples` bytes,
/// rows packed in row-major order.
#[verifier::external_body]
fn png_decode_raw(bytes: &[u8]) -> (r: Result<
    (usize, usize, usize, u8, Vec<u8>),
    png::DecodingError,
>)
    ensures
        match r {
            Ok(p) => png_decoded(bytes@) == Some(
                (p.0 as int, p.1 as int, p.2 as int, p.3 as int, p.4@),
            ) && p.2 >= 1 && (p.3 == 8 ==> p.4@.len() == p.0 as int * p.1 as int * p.2 as int),
            Err(_) => png_decoded(bytes@) is None,
        },
{
    let decoder = png::Decoder::new(bytes);
    let mut reader = decoder.read_info()?;
    let mut buf = vec![0u8; reader.output_buffer_size()];
    let info = reader.next_frame(&mut buf)?;
    buf.truncate(info.buffer_size());
    Ok(
        (
            info.width as usize,
            info.height as usize,
            info.color_type.samples(),
            info.bit_depth as u8,
            buf,
        ),
    )
}

/// Relies on png's `Encoder`: the 8-bit grayscale encoding of an image is a
/// function of its dimensions and pixel bytes alone.
#[verifier::external_body]
fn png_encode_gray(width: u32, height: u32, data: &[u8]) -> (r: Result<
    Vec<u8>,
    png::EncodingError,
>)
    ensures
        match r {
            Ok(out) => png_gray_encoded(width as int, height as int, data@) == Some(out@),
            Err(_) => png_gray_encoded(width as int, height as int, data@) is None,
        },
{
    let mut out: Vec<u8> = Vec::new();
    let mut encoder = png::Encoder::new(&mut out, width, height);
    encoder.set_color(png::ColorType::Grayscale);
    encoder.set_depth(png::BitDepth::Eight);
    let mut writer = encoder.write_header()?;
    writer.write_image_data(data)?;
    writer.finish()?;
    Ok(out)
}

/// Why image bytes were rejected as a cube state, or a cube state refused an
/// image.
#[derive(Clone, Copy, Debug, PartialEq, Eq)]
pub enum PngCubeError {
    /// The bytes are not a well-formed PNG image.
    Decode,
    /// Only images with a bit depth of eight are accepted.
    UnsupportedBitDepth,
    /// The image's pixel count is not six squares of its width.
    WrongPixelCount,
    /// The cube's faces do not fit the encoder's dimension range.
    Unencodable,
}

/// The cells an image's pixels stand for: a pixel is alive when the first of
/// its `samples` bytes is nonzero.
pub open spec fn image_cells(data: Seq<u8>, pixels: int, samples: int) -> Seq<bool> {
    Seq::new(pixels as nat, |p: int| data[p * samples] > 0)
}

/// What importing PNG bytes as a cube yields: one boolean cell per pixel,
/// where the cube's width is the image's width, so the image must hold
/// exactly `6 * width^2` pixels (six faces stacked in buffer order).
pub open spec fn png_cube_import(bytes: Seq<u8>) -> Result<(Seq<bool>, int), PngCubeError> {
    match png_decoded(bytes) {
        None => Err(PngCubeError::Decode),
        Some(t) => {
            let (w, h, s, depth, data) = t;
            if depth != 8 {
                Err(PngCubeError::UnsupportedBitDepth)
            } else if w * h != 6 * w * w {
                Err(PngCubeError::WrongPixelCount)
            } else {
                Ok((image_cells(data, w * h, s), w))
            }
        },
    }
}

/// The grayscale pixel bytes of a cube's cells: full intensity for a live
/// cell, zero for a dead one.
pub open spec fn cube_gray_bytes(cells: Seq<bool>) -> Seq<u8> {
    Seq::new(cells.len(), |i: int| if cells[i] {
        255u8
    } else {
        0u8
    })
}

/// What exporting a cube as PNG bytes yields: its cells as one grayscale
/// image of height `6 * width`, the six faces stacked in buffer order.
pub open spec fn png_cube_export(cells: Seq<bool>, width: int) -> Result<Seq<u8>, PngCubeError> {
    if width < 1 || width > u32::MAX || 6 * width > u32::MAX {
        Err(PngCubeError::Unencodable)
    } else {
        match png_gray_encoded(width, 6 * width, cube_gray_bytes(cells)) {
            Some(bytes) => Ok(bytes),
            None => Err(PngCubeError::Unencodable),
        }
    }
}

/// Load a cube from PNG image bytes.
pub fn import_golcube_png(bytes: &[u8]) -> (r: Result<GolCube, PngCubeError>)
    ensures
        match r {
            Ok(cube) => png_cube_import(bytes@) == Ok::<(Seq<bool>, int), PngCubeError>(
                (cube.data@, cube.width as int),
            ) && cube.well_formed(),
            Err(e) => png_cube_import(bytes@) == Err::<(Seq<bool>, int), PngCubeError>(e),
        },
{
    let (w, h, s, depth, data) = match png_decode_raw(bytes) {
        Ok(p) => p,
        Err(_) => {
            return Err(PngCubeError::Decode);
        },
    };
    if depth != 8 {
        return Err(PngCubeError::UnsupportedBitDepth);
    }
    let pixels = data.len() / s;
    proof {
        vstd::arithmetic::div_mod::lemma_fundamental_div_mod_converse(
            data@.len() as int,
            s as int,
            (w as int) * (h as int),
            0,
        );
        assert(data@.len() == ((w as int) * (h as int)) * (s as int)) by (nonlinear_arith)
            requires
                data@.len() == w as int * h as int * s as int,
        ;
    }
    let expected = match w.checked_mul(w) {
        Some(ww) => ww.checked_mul(6),
        None => None,
    };
    let ok = match expected {
        Some(e) => pixels == e,
        None => false,
    };
    proof {
        assert((w as int) * (w as int) * 6 == 6 * (w as int) * (w as int)) by (nonlinear_arith);
        assert(0 <= (w as int) * (w as int) && (w as int) * (w as int) <= 6 * (w as int) * (
        w as int)) by (nonlinear_arith);
    }
    if !ok {
        return Err(PngCubeError::WrongPixelCount);
    }
    let mut cells: Vec<bool> = Vec::new();
    let mut p: usize = 0;
    while p < pixels
        invariant
            p <= pixels,
            s >= 1,
            data@.len() == (pixels as int) * (s as int),
            data@.len() <= usize::MAX,
            cells@.len() == p,
            forall|q: int| 0 <= q < p ==> cells@[q] == (data@[q * (s as int)] > 0),
        decreases pixels - p,
    {
        proof {
            assert((p as int) * (s as int) + (s as int) <= (pixels as int) * (s as int))
                by (nonlinear_arith)
                requires
                    p < pixels,
                    s >= 1,
            ;
        }
        let b = *vstd::slice::slice_index_get(data.as_slice(), p * s);
        cells.push(b > 0);
        p += 1;
    }
    proof {
        assert(cells@ =~= image_cells(data@, (w as int) * (h as int), s as int));
    }
    Ok(GolCube { data: cells, width: w })
}

/// Write a cube's cells out as PNG image bytes.
pub fn export_golcube_png(cube: &GolCube) -> (r: Result<Vec<u8>, PngCubeError>)
    requires
        cube.well_formed(),
    ensures
        match r {
            Ok(bytes) => png_cube_export(cube.data@, cube.width as int) == Ok::<
                Seq<u8>,
                PngCubeError,
            >(bytes@),
            Err(e) => png_cube_export(cube.data@, cube.width as int) == Err::<
                Seq<u8>,
                PngCubeError,
            >(e),
        },
{
    let width = cube.width;
    if width < 1 {
        return Err(PngCubeError::Unencodable);
    }
    if width as u64 > u32::MAX as u64 || 6 * (width as u64) > u32::MAX as u64 {
        return Err(PngCubeError::Unencodable);
    }
    let mut gray: Vec<u8> = Vec::new();
    let mut i: usize = 0;
    let len = cube.data.len();
    while i < len
        invariant
            i <= len,
            len == cube.data@.len(),
            gray@.len() == i,
            forall|q: int|
                0 <= q < i ==> gray@[q] == (if cube.data@[q] {
                    255u8
                } else {
                    0u8
                }),
        decreases len - i,
    {
        let alive = *vstd::slice::slice_index_get(cube.data.as_slice(), i);
        gray.push(
            if alive {
                255
            } else {
                0
            },
        );
        i += 1;
    }
    proof {
        assert(gray@ =~= cube_gray_bytes(cube.data@));
    }
    match png_encode_gray(width as u32, (6 * width) as u32, gray.as_slice()) {
        Ok(out) => Ok(out),
        Err(_) => Err(PngCubeError::Unencodable),
    }
}

} // verus!
