//! Sprites from encoded images: a PNG image gives one sprite, the frames of
//! a GIF animation give a sprite sheet.
//!
//! Decoding is left to the `image` crate. What it hands back, a width and a
//! run of bytes, is cut into rows of pixels here.

use vstd::prelude::*;
use image::gif::GifDecoder;
use image::png::PngDecoder;
use image::{AnimationDecoder, ColorType, ImageDecoder, ImageError};
use crate::drawing::Rgba;

verus! {

#[verifier::external_type_specification]
#[verifier::external_body]
pub struct ExImageError(ImageError);

/// Why an encoded image gave no sprite.
#[derive(Clone, Copy, Debug, PartialEq, Eq)]
pub enum SpriteError {
    /// The decoder rejected the image, or what it handed back is no whole
    /// number of pixels in rows of the image's width.
    Decode,
    /// The image's pixels are not red, green, blue and alpha of 8 bits each.
    NotRgba,
}

/// How an image stores a pixel: its channels and the bits of each.
#[derive(Clone, Copy, Debug, PartialEq, Eq)]
pub enum ColorKind {
    L8,
    La8,
    Rgb8,
    Rgba8,
    L16,
    La16,
    Rgb16,
    Rgba16,
    Bgr8,
    Bgra8,
    Other,
}

/// How the decoded image of a PNG file stores a pixel, or `None` where the
/// decoder rejects the file's header.
pub uninterp spec fn spec_png_color(bytes: Seq<u8>) -> Option<ColorKind>;

/// The width in pixels and the bytes of the decoded image of a PNG file
/// whose pixels are red, green, blue and alpha of 8 bits each, or `None`
/// where the decoder rejects the file.
pub uninterp spec fn spec_png_image(bytes: Seq<u8>) -> Option<(u32, Seq<u8>)>;

/// The width in pixels and the bytes of each decoded frame of a GIF file, in
/// the order of the animation, or `None` where the decoder rejects the file.
pub uninterp spec fn spec_gif_frames(bytes: Seq<u8>) -> Option<Seq<(u32, Seq<u8>)>>;

/// Whether decoded frames are the named frames: as many, each with the same
/// width and the same bytes.
pub open spec fn spec_same_frames(frames: Seq<(u32, Vec<u8>)>, named: Seq<(u32, Seq<u8>)>) -> bool {
    &&& frames.len() == named.len()
    &&& forall|i: int|
        0 <= i < frames.len() ==> (#[trigger] frames[i]).0 == named[i].0 && frames[i].1@
            == named[i].1
}

/// Opens a PNG file with `image::png::PngDecoder::new` and asks it with
/// `ImageDecoder::color_type` how the decoded image stores a pixel. The
/// variants of `image::ColorType` are told apart one for one. The contract
/// gives the answer, or the decoder's refusal, a name and claims nothing
/// else.
#[verifier::external_body]
fn png_color(bytes: &[u8]) -> (r: Result<ColorKind, ImageError>)
    ensures
        match r {
            Ok(kind) => spec_png_color(bytes@) == Some(kind),
            Err(_) => spec_png_color(bytes@) is None,
        },
{
    Ok(match PngDecoder::new(bytes)?.color_type() {
        ColorType::L8 => ColorKind::L8,
        ColorType::La8 => ColorKind::La8,
        ColorType::Rgb8 => ColorKind::Rgb8,
        ColorType::Rgba8 => ColorKind::Rgba8,
        ColorType::L16 => ColorKind::L16,
        ColorType::La16 => ColorKind::La16,
        ColorType::Rgb16 => ColorKind::Rgb16,
        ColorType::Rgba16 => ColorKind::Rgba16,
        ColorType::Bgr8 => ColorKind::Bgr8,
        ColorType::Bgra8 => ColorKind::Bgra8,
        _ => ColorKind::Other,
    })
}

/// Decodes a PNG file with `image::png::PngDecoder::new`,
/// `ImageDecoder::dimensions`, `ImageDecoder::total_bytes` and
/// `ImageDecoder::read_image`, into a buffer of `total_bytes` zeros that is
/// made here, so that what the decoder leaves unwritten is zero whatever the
/// caller holds. A decoder that opened the file has checked that the size
/// fits memory's addresses, and `read_image` gets the length it asks for.
/// Only a file whose samples are 8 bits wide is admitted: wider samples come
/// back in the byte order of the machine. The contract gives the width and
/// the decoded bytes, or the decoder's refusal, a name and claims nothing
/// else.
#[verifier::external_body]
fn png_decode(bytes: &[u8]) -> (r: Result<(u32, Vec<u8>), ImageError>)
    requires
        spec_png_color(bytes@) == Some(ColorKind::Rgba8),
    ensures
        match r {
            Ok((width, data)) => spec_png_image(bytes@) == Some((width, data@)),
            Err(_) => spec_png_image(bytes@) is None,
        },
{
    let decoder = PngDecoder::new(bytes)?;
    let width = decoder.dimensions().0;
    let mut data = vec![0u8; decoder.total_bytes() as usize];
    decoder.read_image(&mut data)?;
    Ok((width, data))
}

/// Decodes every frame of a GIF file with `image::gif::GifDecoder::new`,
/// `AnimationDecoder::into_frames` and `Frames::collect_frames`, and takes
/// from each frame's buffer its width and its bytes. The contract gives the
/// frames, or the decoder's refusal, a name and claims nothing else.
#[verifier::external_body]
fn gif_read(bytes: &[u8]) -> (r: Result<Vec<(u32, Vec<u8>)>, ImageError>)
    ensures
        match r {
            Ok(frames) => match spec_gif_frames(bytes@) {
                Some(named) => spec_same_frames(frames@, named),
                None => false,
            },
            Err(_) => spec_gif_frames(bytes@) is None,
        },
{
    let frames = GifDecoder::new(bytes)?.into_frames().collect_frames()?;
    Ok(frames.into_iter().map(|f| f.into_buffer()).map(|b| (b.width(), b.into_vec())).collect())
}

/// Whether `sprite` is the run of bytes `data` cut into rows of `width`
/// pixels of four bytes each. Every row is full but the last, which holds
/// the pixels that are left.
pub open spec fn spec_is_sprite_of(sprite: Seq<Vec<Rgba>>, data: Seq<u8>, width: int) -> bool {
    let n = data.len() / 4;
    &&& (sprite.len() - 1) * width < n <= sprite.len() * width
    &&& forall|r: int|
        0 <= r < sprite.len() ==> (#[trigger] sprite[r]).len() == (if n - r * width < width {
            n - r * width
        } else {
            width
        })
    &&& forall|r: int, c: int, k: int|
        0 <= r < sprite.len() && 0 <= c < sprite[r].len() && 0 <= k < 4
            ==> #[trigger] sprite[r][c][k] == data[4 * (r * width + c) + k]
}

/// Whether a run of bytes can be cut into rows of `width` pixels: the width
/// is not zero and the bytes are a whole number of pixels.
pub open spec fn spec_cuts_into_rows(len: int, width: int) -> bool {
    width > 0 && len % 4 == 0
}

/// Cuts a run of bytes into rows of `width` pixels of four bytes each, red,
/// green, blue and alpha. Returns `None` where the width is zero or the bytes
/// are not a whole number of pixels.
pub fn sprite_from_rgba(data: &[u8], width: usize) -> (sprite: Option<Vec<Vec<Rgba>>>)
    ensures
        sprite is Some <==> spec_cuts_into_rows(data.len() as int, width as int),
        sprite matches Some(rows) ==> spec_is_sprite_of(rows@, data@, width as int),
{
    if width == 0 || data.len() % 4 != 0 {
        return None;
    }
    let n: usize = data.len() / 4;
    let mut rows: Vec<Vec<Rgba>> = Vec::new();
    let mut start: usize = 0;
    assert(0 * width == 0) by (nonlinear_arith);
    while start < n
        invariant
            width > 0,
            n == data.len() / 4,
            data.len() % 4 == 0,
            start <= n,
            start == rows.len() * width,
            forall|r: int| 0 <= r < rows.len() ==> (#[trigger] rows[r]).len() == width,
            forall|r: int, c: int, k: int|
                0 <= r < rows.len() && 0 <= c < rows[r].len() && 0 <= k < 4
                    ==> #[trigger] rows[r][c][k] == data[4 * (r * width + c) + k],
        decreases n - start,
    {
        let len: usize = if n - start < width {
            n - start
        } else {
            width
        };
        let ghost r0 = rows.len() as int;
        let mut row: Vec<Rgba> = Vec::new();
        let mut c: usize = 0;
        while c < len
            invariant
                n == data.len() / 4,
                data.len() % 4 == 0,
                start + len <= n,
                c <= len,
                row.len() == c,
                forall|j: int, k: int|
                    0 <= j < c && 0 <= k < 4 ==> #[trigger] row[j][k] == data[4 * (start + j) + k],
            decreases len - c,
        {
            let at: usize = 4 * (start + c);
            let pixel: Rgba = [data[at], data[at + 1], data[at + 2], data[at + 3]];
            row.push(pixel);
            c += 1;
        }
        assert((r0 + 1) * width == r0 * width + width) by (nonlinear_arith);
        if len < width {
            // The last row: it holds the pixels that are left.
            rows.push(row);
            proof {
                assert forall|r: int, c: int, k: int|
                    0 <= r < rows.len() && 0 <= c < rows[r].len() && 0 <= k < 4 implies #[trigger] rows[r][c][k]
                    == data[4 * (r * width + c) + k] by {
                    if r == r0 {
                        assert(rows[r][c][k] == data[4 * (start + c) + k]);
                    }
                }
                assert((rows.len() - 1) * width == start);
                assert(rows.len() * width == start + width);
                assert forall|r: int| 0 <= r < rows.len() implies (#[trigger] rows[r]).len() == (if n
                    - r * width < width {
                    n - r * width
                } else {
                    width as int
                }) by {
                    if r < r0 {
                        assert((r + 1) * width <= r0 * width) by (nonlinear_arith)
                            requires
                                r + 1 <= r0,
                                width > 0,
                        ;
                        assert((r + 1) * width == r * width + width) by (nonlinear_arith);
                    }
                }
            }
            return Some(rows);
        }
        rows.push(row);
        proof {
            assert forall|r: int, c: int, k: int|
                0 <= r < rows.len() && 0 <= c < rows[r].len() && 0 <= k < 4 implies #[trigger] rows[r][c][k]
                == data[4 * (r * width + c) + k] by {
                if r == r0 {
                    assert(rows[r][c][k] == data[4 * (start + c) + k]);
                }
            }
        }
        start += width;
    }
    proof {
        let count = rows.len() as int;
        assert((count - 1) * width == count * width - width) by (nonlinear_arith);
        assert forall|r: int| 0 <= r < rows.len() implies (#[trigger] rows[r]).len() == (if n - r
            * width < width {
            n - r * width
        } else {
            width as int
        }) by {
            assert((r + 1) * width <= count * width) by (nonlinear_arith)
                requires
                    r + 1 <= count,
                    width > 0,
            ;
            assert((r + 1) * width == r * width + width) by (nonlinear_arith);
        }
    }
    Some(rows)
}

/// What loading a sprite comes to, for the colour kind and the image that
/// the decoder reports: the image's width and bytes where the pixels are red,
/// green, blue and alpha of 8 bits each and the bytes can be cut into rows
/// of pixels, and the reason where there is no sprite.
pub open spec fn spec_png_outcome(color: Option<ColorKind>, image: Option<(u32, Seq<u8>)>)
    -> Result<(u32, Seq<u8>), SpriteError> {
    match color {
        None => Err(SpriteError::Decode),
        Some(ColorKind::Rgba8) => match image {
            None => Err(SpriteError::Decode),
            Some((width, data)) => if spec_cuts_into_rows(data.len() as int, width as int) {
                Ok((width, data))
            } else {
                Err(SpriteError::Decode)
            },
        },
        Some(_) => Err(SpriteError::NotRgba),
    }
}

/// Loads a sprite from the bytes of a PNG file whose pixels are red, green,
/// blue and alpha of 8 bits each. A file that stores its pixels otherwise is
/// refused.
pub fn load_sprite(bytes: &[u8]) -> (r: Result<Vec<Vec<Rgba>>, SpriteError>)
    ensures
        match spec_png_outcome(spec_png_color(bytes@), spec_png_image(bytes@)) {
            Ok((width, data)) => r matches Ok(sprite) && spec_is_sprite_of(
                sprite@,
                data,
                width as int,
            ),
            Err(e) => r == Err::<Vec<Vec<Rgba>>, SpriteError>(e),
        },
{
    match png_color(bytes) {
        Ok(ColorKind::Rgba8) => {},
        Ok(_) => {
            return Err(SpriteError::NotRgba);
        },
        Err(_) => {
            return Err(SpriteError::Decode);
        },
    }
    let image: (u32, Vec<u8>) = match png_decode(bytes) {
        Ok(image) => image,
        Err(_) => {
            return Err(SpriteError::Decode);
        },
    };
    match sprite_from_rgba(image.1.as_slice(), image.0 as usize) {
        Some(sprite) => Ok(sprite),
        None => Err(SpriteError::Decode),
    }
}

/// Whether every one of the first `upto` frames can be cut into rows.
pub open spec fn spec_frames_cut(frames: Seq<(u32, Seq<u8>)>, upto: int) -> bool {
    forall|f: int|
        0 <= f < upto ==> spec_cuts_into_rows(
            (#[trigger] frames[f]).1.len() as int,
            frames[f].0 as int,
        )
}

/// Loads a sprite sheet from the bytes of a GIF file: one sprite for each
/// frame of the animation, in its order. Fails where the decoder rejects the
/// file or a frame cannot be cut into rows of pixels.
pub fn load_spritesheet(bytes: &[u8]) -> (r: Result<Vec<Vec<Vec<Rgba>>>, SpriteError>)
    ensures
        match spec_gif_frames(bytes@) {
            None => r == Err::<Vec<Vec<Vec<Rgba>>>, SpriteError>(SpriteError::Decode),
            Some(frames) => if spec_frames_cut(frames, frames.len() as int) {
                &&& r matches Ok(sheet)
                &&& sheet.len() == frames.len()
                &&& forall|f: int|
                    0 <= f < sheet.len() ==> spec_is_sprite_of(
                        (#[trigger] sheet[f])@,
                        frames[f].1,
                        frames[f].0 as int,
                    )
            } else {
                r == Err::<Vec<Vec<Vec<Rgba>>>, SpriteError>(SpriteError::Decode)
            },
        },
{
    let frames: Vec<(u32, Vec<u8>)> = match gif_read(bytes) {
        Ok(frames) => frames,
        Err(_) => {
            return Err(SpriteError::Decode);
        },
    };
    let ghost named = spec_gif_frames(bytes@).unwrap();
    let mut sheet: Vec<Vec<Vec<Rgba>>> = Vec::new();
    let mut f: usize = 0;
    while f < frames.len()
        invariant
            f <= frames.len(),
            spec_gif_frames(bytes@) == Some(named),
            spec_same_frames(frames@, named),
            sheet.len() == f,
            spec_frames_cut(named, f as int),
            forall|g: int|
                0 <= g < f ==> spec_is_sprite_of(
                    (#[trigger] sheet[g])@,
                    named[g].1,
                    named[g].0 as int,
                ),
        decreases frames.len() - f,
    {
        assert(frames[f as int].0 == named[f as int].0 && frames[f as int].1@ == named[f as int].1);
        match sprite_from_rgba(frames[f].1.as_slice(), frames[f].0 as usize) {
            Some(sprite) => {
                sheet.push(sprite);
            },
            None => {
                assert(!spec_cuts_into_rows(
                    named[f as int].1.len() as int,
                    named[f as int].0 as int,
                ));
                return Err(SpriteError::Decode);
            },
        }
        f += 1;
    }
    Ok(sheet)
}

} // verus!
