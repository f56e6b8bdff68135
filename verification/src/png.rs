//! The compressed raster encoding of a finished grid, made by the `image`
//! crate in memory. Writing the bytes to a file is left to the caller.

use crate::canvas::Canvas;
use image::ImageEncoder;
use vstd::prelude::*;

verus! {

/// `image::ImageError`: the encoder's report of a refusal, carried through
/// without being looked into.
#[verifier::external_type_specification]
#[verifier::external_body]
pub struct ExImageError(image::ImageError);

/// What the `image` crate's PNG encoder, as `PngEncoder::new` sets it up,
/// writes for a `width` by `height` image of 8-bit RGB `samples`: the bytes of
/// the file, or nothing where the encoder refuses the image.
pub uninterp spec fn png_encoding(width: nat, height: nat, samples: Seq<u8>) -> Option<Seq<u8>>;

/// Why a grid could not be encoded.
#[derive(Debug)]
pub enum EncodeError {
    /// The PNG encoder refused the image; its own report is inside.
    Png(image::ImageError),
}

/// The interleaved samples of `pixels`: sample `3 * k + c` is channel `c` of
/// pixel `k`.
pub open spec fn samples_of(pixels: Seq<[u8; 3]>) -> Seq<u8> {
    Seq::new(3 * pixels.len(), |i: int| pixels[i / 3][i % 3])
}

/// What a grid's encoding is, given what the encoder makes of its samples.
pub open spec fn outcome_of(encoding: Option<Seq<u8>>, outcome: Result<Vec<u8>, EncodeError>) -> bool {
    match outcome {
        Ok(bytes) => encoding == Some(bytes@),
        Err(_) => encoding.is_none(),
    }
}

/// `PngEncoder::new(..).write_image(..)` of the `image` crate, for 8-bit RGB,
/// writing into memory.
///
/// The encoder asserts that the buffer holds exactly three samples for each
/// pixel, which `requires` demands. What it writes, or that it refuses, is
/// named by `png_encoding`; an image without a column or without a row it
/// always refuses.
#[verifier::external_body]
fn png_encode_rgb8(samples: &[u8], width: u32, height: u32) -> (encoded: Result<
    Vec<u8>,
    image::ImageError,
>)
    requires
        samples@.len() == 3 * width * height,
    ensures
        encoded matches Ok(bytes) ==> png_encoding(width as nat, height as nat, samples@) == Some(
            bytes@,
        ),
        encoded is Err ==> png_encoding(width as nat, height as nat, samples@).is_none(),
        width == 0 || height == 0 ==> encoded is Err,
{
    let mut bytes: Vec<u8> = Vec::new();
    image::codecs::png::PngEncoder::new(&mut bytes).write_image(
        samples,
        width,
        height,
        image::ExtendedColorType::Rgb8,
    )?;
    Ok(bytes)
}

/// The interleaved samples of `pixels`, in a buffer of their own.
pub fn interleave(pixels: &[[u8; 3]]) -> (samples: Vec<u8>)
    ensures
        samples@ == samples_of(pixels@),
{
    let mut samples: Vec<u8> = Vec::new();
    let mut k: usize = 0;
    while k < pixels.len()
        invariant
            k <= pixels@.len(),
            samples@.len() == 3 * k,
            forall|i: int| 0 <= i < 3 * k ==> samples@[i] == pixels@[i / 3][i % 3],
        decreases pixels@.len() - k,
    {
        let pixel: [u8; 3] = pixels[k];
        samples.push(pixel[0]);
        samples.push(pixel[1]);
        samples.push(pixel[2]);
        k += 1;
    }
    assert(samples@ =~= samples_of(pixels@));
    samples
}

/// Passes an encoder's bytes on, and wraps its refusal in this crate's error.
pub fn encoded_or_error(encoded: Result<Vec<u8>, image::ImageError>) -> (outcome: Result<
    Vec<u8>,
    EncodeError,
>)
    ensures
        encoded matches Ok(bytes) ==> outcome == Ok::<Vec<u8>, EncodeError>(bytes),
        encoded matches Err(report) ==> outcome == Err::<Vec<u8>, EncodeError>(
            EncodeError::Png(report),
        ),
{
    match encoded {
        Ok(bytes) => Ok(bytes),
        Err(report) => Err(EncodeError::Png(report)),
    }
}

impl Canvas<[u8; 3]> {
    /// The image as a PNG file in memory.
    ///
    /// The grid's samples are handed to the encoder row by row, three to a
    /// pixel; the result is the encoder's, byte for byte. A grid without
    /// columns has no encoding.
    pub fn encode_png(&self) -> (outcome: Result<Vec<u8>, EncodeError>)
        ensures
            outcome_of(
                png_encoding(self.width() as nat, self.height() as nat, samples_of(self@)),
                outcome,
            ),
            self.width() == 0 ==> outcome is Err,
    {
        let samples = interleave(self.pixels());
        assert(samples@.len() == 3 * self.width() * self.height()) by (nonlinear_arith)
            requires
                samples@.len() == 3 * (self.width() * self.height()),
        ;
        encoded_or_error(png_encode_rgb8(samples.as_slice(), self.width(), self.height()))
    }
}

} // verus!
