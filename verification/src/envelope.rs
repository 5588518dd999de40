//! The request that asks for a hash and the response that carries it.

use crate::algorithm::selected;
use crate::algorithm::HashAlgorithm;
use crate::error::TypedError;
use crate::decoder::decoded;
use crate::decoder::PixelGrid;
use crate::encoder::encoded;
use crate::encoder::lemma_text_round_trip;
use crate::encoder::read_back;
use crate::pipeline::hash_image;
use crate::pipeline::HashResult;
use crate::transform::hashable;
use crate::transform::is_transform_of;
use core::time::Duration;
use vstd::prelude::*;

verus! {

/// A request: the key of the object to hash and the algorithm to use.
#[derive(Debug)]
pub struct Request {
    pub path: String,
    pub algorithm: HashAlgorithm,
}

/// A response: the text of the hash, the algorithm used, the dimensions of
/// the image, and the time that the transform took.
#[derive(Debug)]
pub struct Response {
    pub hash_base64: String,
    pub algo: HashAlgorithm,
    pub image_size: (u32, u32),
    pub time_elapsed: Duration,
}

impl Request {
    /// Reads a request from its key and its optional selector. Without a
    /// selector the algorithm is the gradient. A selector that names no
    /// algorithm is refused; nothing is chosen in its place.
    pub fn parse(path: &str, selector: Option<&str>) -> (r: Result<Request, TypedError>)
        ensures
            match selector {
                None => r matches Ok(request) && request.path@ == path@ && request.algorithm
                    == HashAlgorithm::Gradient,
                Some(given) => match selected(given@) {
                    Some(algorithm) => r matches Ok(request) && request.path@ == path@
                        && request.algorithm == algorithm,
                    None => r matches Err(TypedError::UnsupportedAlgorithm(text)) && text@
                        == given@,
                },
            },
    {
        match HashAlgorithm::resolve(selector) {
            Ok(algorithm) => Ok(Request { path: String::from_str(path), algorithm }),
            Err(error) => Err(error),
        }
    }
}

impl Response {
    /// The response that carries a hash result: its text, its algorithm,
    /// the dimensions of the image, and the time that the transform took.
    pub fn of(result: &HashResult) -> (response: Response)
        ensures
            response.hash_base64@ == result@.text,
            response.algo == result@.algorithm,
            response.image_size.0 == result@.width,
            response.image_size.1 == result@.height,
            response.time_elapsed == result.time_taken(),
    {
        Response {
            hash_base64: result.hash().clone(),
            algo: result.algorithm(),
            image_size: result.image_size(),
            time_elapsed: *result.elapsed(),
        }
    }
}

/// Whether a text is the text of a hash of an image under an algorithm: it
/// reads back into bits that are a transform of the image, and it is the
/// text of those bits.
pub open spec fn is_text_of(text: Seq<char>, image: PixelGrid, algorithm: HashAlgorithm) -> bool {
    read_back(algorithm, text) matches Some(bits) && is_transform_of(bits, image, algorithm)
        && text == encoded(bits.bits)
}

/// Whether a response answers for an image under an algorithm: it names
/// the algorithm and the image's dimensions, and its text is the text of a
/// hash of the image.
pub open spec fn answers(response: Response, image: PixelGrid, algorithm: HashAlgorithm) -> bool {
    &&& response.algo == algorithm
    &&& response.image_size.0 == image.width
    &&& response.image_size.1 == image.height
    &&& is_text_of(response.hash_base64@, image, algorithm)
}

/// Answers a request, given what fetching its object gave. A failed fetch
/// is handed on as it is. Bytes that were fetched are hashed with the
/// request's algorithm: if they do not decode, the answer is
/// `InvalidFormat` with the decoder's reason; if the algorithm cannot take
/// the image, it is `TooLarge`; else it is the response that carries the
/// hash.
pub fn put_object(request: &Request, fetched: Result<Vec<u8>, TypedError>) -> (r: Result<
    Response,
    TypedError,
>)
    ensures
        match fetched {
            Err(error) => r == Err::<Response, TypedError>(error),
            Ok(bytes) => match decoded(bytes@) {
                Err(reason) => r matches Err(TypedError::InvalidFormat(text)) && text@ == reason,
                Ok(image) => match r {
                    Ok(response) => hashable(image, request.algorithm) && answers(
                        response,
                        image,
                        request.algorithm,
                    ),
                    Err(error) => !hashable(image, request.algorithm) && error
                        == TypedError::TooLarge,
                },
            },
        },
{
    match fetched {
        Err(error) => Err(error),
        Ok(bytes) => match hash_image(bytes.as_slice(), request.algorithm) {
            Err(error) => Err(error),
            Ok(result) => {
                proof {
                    lemma_text_round_trip(result@.bits);
                }
                Ok(Response::of(&result))
            },
        },
    }
}

/// Two answers for the same image under the same algorithm carry the same
/// text, algorithm and dimensions; only the time may differ. The cosine
/// transform is left out: its last digits are the machine's.
pub proof fn lemma_answers_agree(
    image: PixelGrid,
    algorithm: HashAlgorithm,
    first: Response,
    second: Response,
)
    requires
        algorithm != HashAlgorithm::Dct,
        answers(first, image, algorithm),
        answers(second, image, algorithm),
    ensures
        first.hash_base64@ == second.hash_base64@,
        first.algo == second.algo,
        first.image_size == second.image_size,
{
}

} // verus!
