//! From encoded bytes to a canonical pixel grid.
//!
//! Whatever the encoded format and its colour type, a decoded image is held
//! as rows of pixels of four 8-bit channels: red, green, blue and alpha.

use crate::error::TypedError;
use vstd::prelude::*;

verus! {

/// A grid of pixels as a mathematical value: its dimensions and its
/// channel samples, row by row, four to a pixel.
pub struct PixelGrid {
    pub width: nat,
    pub height: nat,
    pub samples: Seq<u8>,
}

impl PixelGrid {
    /// Neither dimension is zero, each fits in 32 bits, and there are four
    /// samples for each pixel.
    pub open spec fn wf(self) -> bool {
        &&& 0 < self.width <= u32::MAX
        &&& 0 < self.height <= u32::MAX
        &&& self.samples.len() == 4 * self.width * self.height
    }

    /// Channel `c` of the pixel in column `x` of row `y`.
    pub open spec fn sample(self, x: int, y: int, c: int) -> u8 {
        self.samples[4 * (y * self.width + x) + c]
    }
}

/// A decoded image. Its dimensions are never zero.
#[derive(Debug)]
pub struct DecodedImage {
    width: u32,
    height: u32,
    samples: Vec<u8>,
}

impl View for DecodedImage {
    type V = PixelGrid;

    closed spec fn view(&self) -> PixelGrid {
        PixelGrid {
            width: self.width as nat,
            height: self.height as nat,
            samples: self.samples@,
        }
    }
}

/// What decoding a byte buffer gives: the pixel grid in four 8-bit
/// channels, or the decoder's words on why there is none. It stands for
/// the format guess and the decoders of the `image` crate.
pub uninterp spec fn decoder_outcome(bytes: Seq<u8>) -> Result<PixelGrid, Seq<char>>;

/// What becomes of a decoder's outcome: its failure is kept, and so is a
/// grid that is well formed; any other grid is refused.
pub open spec fn accepted(outcome: Result<PixelGrid, Seq<char>>) -> Result<PixelGrid, Seq<char>> {
    match outcome {
        Err(reason) => Err(reason),
        Ok(grid) => if grid.width == 0 || grid.height == 0 {
            Err("the image has no pixels"@)
        } else if grid.samples.len() != 4 * grid.width * grid.height {
            Err("the pixel data do not fit the dimensions"@)
        } else {
            Ok(grid)
        },
    }
}

/// The image that a byte buffer decodes to, or why it decodes to none.
pub open spec fn decoded(bytes: Seq<u8>) -> Result<PixelGrid, Seq<char>> {
    accepted(decoder_outcome(bytes))
}

/// Calls `image::guess_format` on the bytes, then
/// `image::load_from_memory_with_format` with the format found, and takes
/// from the `DynamicImage` its `width`, its `height` and the buffer of
/// `to_rgba8`. An error of either call is handed on as its `to_string`.
/// Nothing is claimed of the outcome but that it depends on the bytes alone.
#[verifier::external_body]
fn run_decoder(bytes: &[u8]) -> (outcome: Result<(u32, u32, Vec<u8>), String>)
    ensures
        match outcome {
            Ok((width, height, samples)) => decoder_outcome(bytes@) == Ok::<PixelGrid, Seq<char>>(
                (PixelGrid { width: width as nat, height: height as nat, samples: samples@ }),
            ),
            Err(reason) => decoder_outcome(bytes@) == Err::<PixelGrid, Seq<char>>(reason@),
        },
{
    match image::guess_format(bytes) {
        Err(error) => Err(error.to_string()),
        Ok(format) => match image::load_from_memory_with_format(bytes, format) {
            Err(error) => Err(error.to_string()),
            Ok(picture) => Ok((picture.width(), picture.height(), picture.to_rgba8().into_raw())),
        },
    }
}

impl DecodedImage {
    #[verifier::type_invariant]
    pub open spec fn inv(self) -> bool {
        self@.wf()
    }

    /// Makes an image of the given dimensions from its samples, if there
    /// are four for each pixel and the dimensions are in range.
    pub fn new(width: u32, height: u32, samples: Vec<u8>) -> (r: Option<DecodedImage>)
        ensures
            match r {
                Some(image) => image@ == (PixelGrid {
                    width: width as nat,
                    height: height as nat,
                    samples: samples@,
                }) && image@.wf(),
                None => !(PixelGrid {
                    width: width as nat,
                    height: height as nat,
                    samples: samples@,
                }).wf(),
            },
    {
        if width == 0 || height == 0 {
            return None;
        }
        assert(4 * (width as int) * (height as int) <= 4 * 0xffff_ffff * 0xffff_ffff)
            by (nonlinear_arith)
            requires
                0 < width <= 0xffff_ffff,
                0 < height <= 0xffff_ffff,
        ;
        let need: u128 = 4 * (width as u128) * (height as u128);
        if samples.len() as u128 != need {
            return None;
        }
        Some(DecodedImage { width, height, samples })
    }

    /// Takes over what the decoder gave. Its failure becomes an
    /// `InvalidFormat` with the decoder's reason; so does a grid without
    /// pixels or with samples that do not fit.
    pub fn from_decoder(outcome: Result<(u32, u32, Vec<u8>), String>) -> (r: Result<
        DecodedImage,
        TypedError,
    >)
        ensures
            match accepted(outcome_view(outcome)) {
                Ok(grid) => r matches Ok(image) && image@ == grid,
                Err(reason) => r matches Err(TypedError::InvalidFormat(text)) && text@ == reason,
            },
    {
        match outcome {
            Err(reason) => Err(TypedError::InvalidFormat(reason)),
            Ok((width, height, samples)) => {
                if width == 0 || height == 0 {
                    Err(TypedError::InvalidFormat(String::from_str("the image has no pixels")))
                } else {
                    match DecodedImage::new(width, height, samples) {
                        Some(image) => Ok(image),
                        None => Err(
                            TypedError::InvalidFormat(
                                String::from_str("the pixel data do not fit the dimensions"),
                            ),
                        ),
                    }
                }
            },
        }
    }

    /// Decodes an image. The format is found from the first bytes of the
    /// content. The result is fixed by the bytes: the grid that the decoder
    /// gives for them, or `InvalidFormat` where it gives none or one that
    /// is refused.
    pub fn decode(bytes: &[u8]) -> (r: Result<DecodedImage, TypedError>)
        ensures
            match decoded(bytes@) {
                Ok(grid) => r matches Ok(image) && image@ == grid,
                Err(reason) => r matches Err(TypedError::InvalidFormat(text)) && text@ == reason,
            },
    {
        DecodedImage::from_decoder(run_decoder(bytes))
    }

    /// The number of pixels in a row.
    pub fn width(&self) -> (width: u32)
        ensures
            width == self@.width,
            0 < width,
    {
        proof {
            use_type_invariant(self);
        }
        self.width
    }

    /// The number of rows.
    pub fn height(&self) -> (height: u32)
        ensures
            height == self@.height,
            0 < height,
    {
        proof {
            use_type_invariant(self);
        }
        self.height
    }

    /// Width and height.
    pub fn dimensions(&self) -> (size: (u32, u32))
        ensures
            size.0 == self@.width,
            size.1 == self@.height,
    {
        (self.width, self.height)
    }

    /// The channel samples, row by row, four to a pixel.
    pub fn samples(&self) -> (samples: &Vec<u8>)
        ensures
            samples@ == self@.samples,
            samples@.len() == 4 * self@.width * self@.height,
    {
        proof {
            use_type_invariant(self);
        }
        &self.samples
    }
}

/// A decoder's outcome as a mathematical value.
pub open spec fn outcome_view(outcome: Result<(u32, u32, Vec<u8>), String>) -> Result<
    PixelGrid,
    Seq<char>,
> {
    match outcome {
        Ok((width, height, samples)) => Ok(
            PixelGrid { width: width as nat, height: height as nat, samples: samples@ },
        ),
        Err(reason) => Err(reason@),
    }
}

} // verus!
