//! From a decoded image to a small grid of intensities.
//!
//! The image is first resampled to the working resolution with the
//! triangle filter (linear interpolation), then every resampled pixel is
//! reduced to one intensity by fixed weights on red, green and blue. Alpha
//! is dropped.

use crate::decoder::DecodedImage;
use crate::decoder::PixelGrid;
use vstd::prelude::*;

verus! {

/// The longest side that a working grid may have.
pub const MAX_GRID_SIDE: u32 = 4096;

/// A grid of intensities as a mathematical value.
pub struct Luminance {
    pub width: nat,
    pub height: nat,
    pub values: Seq<u8>,
}

impl Luminance {
    /// Neither dimension is zero or exceeds `MAX_GRID_SIDE`, and there is
    /// one value for each cell.
    pub open spec fn wf(self) -> bool {
        &&& 0 < self.width <= MAX_GRID_SIDE
        &&& 0 < self.height <= MAX_GRID_SIDE
        &&& self.values.len() == self.width * self.height
    }

    /// The intensity in column `x` of row `y`.
    pub open spec fn at(self, x: int, y: int) -> u8 {
        self.values[y * self.width + x]
    }
}

/// A grid of intensities, row by row.
#[derive(Debug)]
pub struct LuminanceGrid {
    width: u32,
    height: u32,
    values: Vec<u8>,
}

impl View for LuminanceGrid {
    type V = Luminance;

    closed spec fn view(&self) -> Luminance {
        Luminance {
            width: self.width as nat,
            height: self.height as nat,
            values: self.values@,
        }
    }
}

/// The intensity of a colour: 0.2126 of red, 0.7152 of green and 0.0722 of
/// blue, rounded down.
pub open spec fn luma(red: u8, green: u8, blue: u8) -> u8 {
    ((2126 * red + 7152 * green + 722 * blue) / 10000) as u8
}

/// The intensities of a sequence of four-channel pixels.
pub open spec fn intensities(samples: Seq<u8>, count: nat) -> Seq<u8> {
    Seq::new(count, |i: int| luma(samples[4 * i], samples[4 * i + 1], samples[4 * i + 2]))
}

/// The four-channel samples of an image resampled to a width and a height
/// with the triangle filter. It stands for `imageops::resize` of the
/// `image` crate, which with this filter adds, multiplies, divides and
/// rounds single-precision numbers and does nothing else to them.
pub uninterp spec fn resampled(image: PixelGrid, width: nat, height: nat) -> Seq<u8>;

/// Whether a working resolution is one that grids can have.
pub open spec fn resolution_in_range(width: nat, height: nat) -> bool {
    0 < width <= MAX_GRID_SIDE && 0 < height <= MAX_GRID_SIDE
}

/// Whether this machine can resample an image to a height: the numbers
/// that are held on the way, four for each pixel of the old width and the
/// new height, can be counted in `usize`.
pub open spec fn resamples(image: PixelGrid, height: nat) -> bool {
    4 * image.width * height <= usize::MAX
}

/// The grid that an image is normalised to at a working resolution.
pub open spec fn normalized(image: PixelGrid, width: nat, height: nat) -> Luminance {
    Luminance { width, height, values: intensities(resampled(image, width, height), width * height) }
}

/// Calls `image::imageops::resize` with `FilterType::Triangle` on the
/// samples as an `RgbaImage` and hands back the buffer of the result, which
/// `resize` allocates with four samples for each pixel of the new size. On
/// its way `resize` allocates four numbers for each pixel of an image of
/// the old width and the new height: their count must fit in `usize`.
#[verifier::external_body]
fn resample(
    width: u32,
    height: u32,
    samples: &Vec<u8>,
    new_width: u32,
    new_height: u32,
) -> (out: Vec<u8>)
    requires
        (PixelGrid { width: width as nat, height: height as nat, samples: samples@ }).wf(),
        0 < new_width <= MAX_GRID_SIDE,
        0 < new_height <= MAX_GRID_SIDE,
        4 * width * new_height <= usize::MAX,
    ensures
        out@ == resampled(
            (PixelGrid { width: width as nat, height: height as nat, samples: samples@ }),
            new_width as nat,
            new_height as nat,
        ),
        out@.len() == 4 * new_width * new_height,
{
    let buffer = image::RgbaImage::from_raw(width, height, samples.clone()).expect(
        "four samples for each pixel",
    );
    let filter = image::imageops::FilterType::Triangle;
    image::imageops::resize(&buffer, new_width, new_height, filter).into_raw()
}

/// The intensity of a colour.
pub fn intensity(red: u8, green: u8, blue: u8) -> (value: u8)
    ensures
        value == luma(red, green, blue),
{
    let sum: u32 = 2126 * (red as u32) + 7152 * (green as u32) + 722 * (blue as u32);
    (sum / 10000) as u8
}

impl LuminanceGrid {
    #[verifier::type_invariant]
    pub open spec fn inv(self) -> bool {
        self@.wf()
    }

    /// Makes a grid of the given dimensions from its values, if there is
    /// one for each cell and the dimensions are in range.
    pub fn new(width: u32, height: u32, values: Vec<u8>) -> (r: Option<LuminanceGrid>)
        ensures
            match r {
                Some(grid) => grid@ == (Luminance {
                    width: width as nat,
                    height: height as nat,
                    values: values@,
                }) && grid@.wf(),
                None => !(Luminance {
                    width: width as nat,
                    height: height as nat,
                    values: values@,
                }).wf(),
            },
    {
        if width == 0 || height == 0 || width > MAX_GRID_SIDE || height > MAX_GRID_SIDE {
            return None;
        }
        assert((width as int) * (height as int) <= 4096 * 4096) by (nonlinear_arith)
            requires
                0 < width <= 4096,
                0 < height <= 4096,
        ;
        let need: u64 = (width as u64) * (height as u64);
        if values.len() as u64 != need {
            return None;
        }
        Some(LuminanceGrid { width, height, values })
    }

    /// Normalises an image to a working resolution: resamples it, then
    /// takes the intensity of every resampled pixel. A resolution with a
    /// side of zero or above `MAX_GRID_SIDE` gives no grid, nor does an
    /// image too wide for this machine to resample.
    pub fn normalize(image: &DecodedImage, width: u32, height: u32) -> (r: Option<LuminanceGrid>)
        ensures
            r is Some <==> resolution_in_range(width as nat, height as nat) && resamples(
                image@,
                height as nat,
            ),
            r matches Some(grid) ==> grid@ == normalized(image@, width as nat, height as nat)
                && grid@.wf(),
    {
        if width == 0 || height == 0 || width > MAX_GRID_SIDE || height > MAX_GRID_SIDE {
            return None;
        }
        let old_width: u32 = image.width();
        assert(4 * (old_width as int) * (height as int) <= 4 * 0xffff_ffff * 4096)
            by (nonlinear_arith)
            requires
                0 < old_width <= 0xffff_ffff,
                0 < height <= 4096,
        ;
        if 4 * (old_width as u64) * (height as u64) > usize::MAX as u64 {
            return None;
        }
        let samples = resample(image.width(), image.height(), image.samples(), width, height);
        assert((width as int) * (height as int) <= 4096 * 4096) by (nonlinear_arith)
            requires
                0 < width <= 4096,
                0 < height <= 4096,
        ;
        let count: usize = (width as usize) * (height as usize);
        assert(4 * width * height == 4 * (width * height)) by (nonlinear_arith);
        let mut values: Vec<u8> = Vec::new();
        let mut i: usize = 0;
        while i < count
            invariant
                i <= count,
                count == width * height,
                count <= 4096 * 4096,
                samples@.len() == 4 * count,
                values@ == intensities(samples@, i as nat),
            decreases count - i,
        {
            values.push(intensity(samples[4 * i], samples[4 * i + 1], samples[4 * i + 2]));
            i = i + 1;
            assert(values@ =~= intensities(samples@, i as nat));
        }
        Some(LuminanceGrid { width, height, values })
    }

    /// The number of cells in a row.
    pub fn width(&self) -> (width: u32)
        ensures
            width == self@.width,
            0 < width <= MAX_GRID_SIDE,
    {
        proof {
            use_type_invariant(self);
        }
        self.width
    }

    /// The number of rows.
    pub fn height(&self) -> (height: u32)
        ensures
            height == self@.height,
            0 < height <= MAX_GRID_SIDE,
    {
        proof {
            use_type_invariant(self);
        }
        self.height
    }

    /// The intensities, row by row.
    pub fn values(&self) -> (values: &Vec<u8>)
        ensures
            values@ == self@.values,
            values@.len() == self@.width * self@.height,
    {
        proof {
            use_type_invariant(self);
        }
        &self.values
    }
}

} // verus!
