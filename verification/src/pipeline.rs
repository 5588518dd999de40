//! The whole way from encoded bytes to a hash result.

use crate::algorithm::HashAlgorithm;
use crate::bits::BitVector;
use crate::bits::Bits;
use crate::decoder::decoded;
use crate::decoder::DecodedImage;
use crate::decoder::PixelGrid;
use crate::encoder::encode;
use crate::encoder::encoded;
use crate::encoder::lemma_text_round_trip;
use crate::encoder::read_back;
use crate::error::TypedError;
use crate::normalizer::normalized;
use crate::transform::block_mean_bits;
use crate::transform::fixed_bits;
use crate::transform::gradient_bits;
use crate::transform::mean_bits;
use crate::transform::median_bits;
use crate::transform::vert_gradient_bits;
use crate::transform::hashable;
use crate::transform::is_transform_of;
use crate::transform::transform;
use core::time::Duration;
use std::time::Instant;
use vstd::prelude::*;

verus! {

/// A point in time of the monotonic clock.
#[verifier::external_type_specification]
#[verifier::external_body]
pub struct ExInstant(Instant);

/// `Instant::now` reads the clock; nothing is known of what it reads.
pub assume_specification[ Instant::now ]() -> (now: Instant);

/// `Instant::elapsed` gives the time since the instant was read; nothing is
/// known of its length.
pub assume_specification[ Instant::elapsed ](start: &Instant) -> (elapsed: Duration);

/// What a hash result holds, but for the time it took, as a mathematical
/// value.
pub struct Hashed {
    pub bits: Bits,
    pub text: Seq<char>,
    pub algorithm: HashAlgorithm,
    pub width: nat,
    pub height: nat,
}

/// The result of hashing one image: the bit vector, its canonical text, the
/// algorithm used, the dimensions of the image, and the time that the
/// transform took.
#[derive(Debug)]
pub struct HashResult {
    bits: BitVector,
    hash: String,
    algorithm: HashAlgorithm,
    image_size: (u32, u32),
    elapsed: Duration,
}

impl View for HashResult {
    type V = Hashed;

    closed spec fn view(&self) -> Hashed {
        Hashed {
            bits: self.bits@,
            text: self.hash@,
            algorithm: self.algorithm,
            width: self.image_size.0 as nat,
            height: self.image_size.1 as nat,
        }
    }
}

/// Whether a value is what hashing an image with an algorithm gives: it
/// names the algorithm and the image's dimensions, its bits are a
/// transform of the image, and its text is the text of its bits.
pub open spec fn is_hash_of(hashed: Hashed, image: PixelGrid, algorithm: HashAlgorithm) -> bool {
    &&& hashed.algorithm == algorithm
    &&& hashed.width == image.width
    &&& hashed.height == image.height
    &&& is_transform_of(hashed.bits, image, algorithm)
    &&& hashed.text == encoded(hashed.bits.bits)
}

impl HashResult {
    /// The bit vector.
    pub fn bits(&self) -> (bits: &BitVector)
        ensures
            bits@ == self@.bits,
    {
        &self.bits
    }

    /// The canonical text of the bit vector.
    pub fn hash(&self) -> (text: &String)
        ensures
            text@ == self@.text,
    {
        &self.hash
    }

    /// The algorithm that was used.
    pub fn algorithm(&self) -> (algorithm: HashAlgorithm)
        ensures
            algorithm == self@.algorithm,
    {
        self.algorithm
    }

    /// Width and height of the image that was hashed.
    pub fn image_size(&self) -> (size: (u32, u32))
        ensures
            size.0 == self@.width,
            size.1 == self@.height,
    {
        self.image_size
    }

    /// The time that the transform took. Decoding is not counted.
    pub fn elapsed(&self) -> (elapsed: &Duration)
        ensures
            *elapsed == self.time_taken(),
    {
        &self.elapsed
    }

    /// The time that the result holds: what the clock gave for the
    /// transform when the result was made. It is no part of the view, since
    /// two runs on one image agree on everything but this.
    pub closed spec fn time_taken(&self) -> Duration {
        self.elapsed
    }
}

/// Hashes a decoded image: transform, then encoding. The clock is read
/// just before and just after the transform. The only failure is an image
/// that the algorithm cannot take.
pub fn hash_decoded(image: &DecodedImage, algorithm: HashAlgorithm) -> (r: Result<
    HashResult,
    TypedError,
>)
    ensures
        match r {
            Ok(result) => hashable(image@, algorithm) && is_hash_of(result@, image@, algorithm),
            Err(error) => !hashable(image@, algorithm) && error == TypedError::TooLarge,
        },
{
    let start = Instant::now();
    let transformed = transform(image, algorithm);
    let elapsed = start.elapsed();
    match transformed {
        Err(error) => Err(error),
        Ok(bits) => {
            let hash = encode(&bits);
            Ok(HashResult { bits, hash, algorithm, image_size: image.dimensions(), elapsed })
        },
    }
}

/// Hashes an encoded image: decoding, transform, encoding. Bytes that do
/// not decode are reported as `InvalidFormat` with the decoder's reason.
/// Bytes that decode are hashed, unless the algorithm cannot take the
/// image, which is reported as `TooLarge`. No result is made on a failure.
pub fn hash_image(bytes: &[u8], algorithm: HashAlgorithm) -> (r: Result<HashResult, TypedError>)
    ensures
        match decoded(bytes@) {
            Err(reason) => r matches Err(TypedError::InvalidFormat(text)) && text@ == reason,
            Ok(image) => match r {
                Ok(result) => hashable(image, algorithm) && is_hash_of(result@, image, algorithm),
                Err(error) => !hashable(image, algorithm) && error == TypedError::TooLarge,
            },
        },
{
    match DecodedImage::decode(bytes) {
        Ok(image) => hash_decoded(&image, algorithm),
        Err(error) => Err(error),
    }
}

/// Hashing the same bytes with the same algorithm again gives the same
/// bits and the same text: whatever two runs return, if each is a hash of
/// the image that the bytes decode to, they agree. The cosine transform is
/// left out: its last digits are the machine's.
pub proof fn lemma_hash_is_determined(
    bytes: Seq<u8>,
    algorithm: HashAlgorithm,
    first: Hashed,
    second: Hashed,
)
    requires
        algorithm != HashAlgorithm::Dct,
        decoded(bytes) matches Ok(image) && is_hash_of(first, image, algorithm) && is_hash_of(
            second,
            image,
            algorithm,
        ),
    ensures
        first == second,
{
}

/// The bits that an image and an algorithm fix are as many as the
/// algorithm fixes, whatever the image; so are the bits of every hash.
pub proof fn lemma_length_is_fixed(image: PixelGrid, algorithm: HashAlgorithm, hashed: Hashed)
    ensures
        fixed_bits(image, algorithm) matches Some(bits) ==> bits.len()
            == algorithm.bit_count_spec(),
        is_hash_of(hashed, image, algorithm) ==> hashed.bits.bits.len()
            == algorithm.bit_count_spec(),
{
    let size = algorithm.working_resolution_spec();
    let grid = normalized(image, size.0 as nat, size.1 as nat);
    assert(grid.width == size.0 && grid.height == size.1);
    assert(grid.values.len() == size.0 * size.1);
    match algorithm {
        HashAlgorithm::Mean => {
            assert(mean_bits(grid).len() == 64);
        },
        HashAlgorithm::Gradient => {
            assert((grid.width - 1) * grid.height == 64) by (nonlinear_arith)
                requires
                    grid.width == 9,
                    grid.height == 8,
            ;
            assert(gradient_bits(grid).len() == 64);
        },
        HashAlgorithm::VertGradient => {
            assert(grid.width * (grid.height - 1) == 64) by (nonlinear_arith)
                requires
                    grid.width == 8,
                    grid.height == 9,
            ;
            assert(vert_gradient_bits(grid).len() == 64);
        },
        HashAlgorithm::DoubleGradient => {
            assert((grid.width - 1) * grid.height == 20 && grid.width * (grid.height - 1) == 20)
                by (nonlinear_arith)
                requires
                    grid.width == 5,
                    grid.height == 5,
            ;
            assert(gradient_bits(grid).len() == 20);
            assert(vert_gradient_bits(grid).len() == 20);
        },
        HashAlgorithm::BlockMean => {
            assert(block_mean_bits(grid, 8, 8).len() == 64);
        },
        HashAlgorithm::Median => {
            assert(median_bits(grid).len() == 64);
        },
        _ => {},
    }
}

/// The text of a hash reads back into the bit vector of the hash.
pub proof fn lemma_hash_reads_back(image: PixelGrid, algorithm: HashAlgorithm, hashed: Hashed)
    requires
        is_hash_of(hashed, image, algorithm),
    ensures
        read_back(algorithm, hashed.text) == Some(hashed.bits),
{
    lemma_text_round_trip(hashed.bits);
}

} // verus!
