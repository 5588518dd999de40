//! From the bits of a hash to its canonical text, and back.
//!
//! The bits are packed least significant bit first and the bytes are
//! written in standard base64 without padding.

use crate::algorithm::HashAlgorithm;
use crate::base64::base64_bytes;
use crate::base64::base64_text;
use crate::base64::decode_base64;
use crate::base64::lemma_base64_round_trip;
use crate::bits::lemma_unpack_packed;
use crate::bits::packed;
use crate::bits::unpacked;
use crate::bits::BitVector;
use crate::bits::Bits;
use vstd::prelude::*;

verus! {

/// The longest byte sequence that `render` takes.
pub const MAX_RENDERED: usize = 0x0fff_ffff;

/// The text of a bit sequence: the base64 form of its packed bytes.
pub open spec fn encoded(bits: Seq<bool>) -> Seq<char> {
    base64_text(packed(bits))
}

/// The bit vector of an algorithm that a text stands for, if it stands for
/// one: the text must be the base64 form of as many bytes as the
/// algorithm's bits pack into.
pub open spec fn read_back(algorithm: HashAlgorithm, text: Seq<char>) -> Option<Bits> {
    match base64_bytes(text) {
        Some(bytes) => if bytes.len() == algorithm.byte_count_spec() {
            Some(Bits { algorithm, bits: unpacked(bytes, algorithm.bit_count_spec()) })
        } else {
            None
        },
        None => None,
    }
}

/// Makes an `image_hasher::ImageHash` of the bytes with `from_bytes` and
/// hands back its `to_base64`, which writes the bytes with the standard
/// alphabet and no padding. `from_bytes` refuses only the empty sequence,
/// whose text is empty.
#[verifier::external_body]
fn render(bytes: &[u8]) -> (text: String)
    requires
        bytes@.len() <= MAX_RENDERED,
    ensures
        text@ == base64_text(bytes@),
{
    match image_hasher::ImageHash::<Box<[u8]>>::from_bytes(bytes) {
        Ok(hash) => hash.to_base64(),
        Err(_) => String::new(),
    }
}

/// The canonical text of a bit vector.
pub fn encode(vector: &BitVector) -> (text: String)
    ensures
        text@ == encoded(vector@.bits),
{
    let bytes = vector.to_bytes();
    render(bytes.as_slice())
}

/// Reads the text of a hash of an algorithm back into its bit vector. It
/// succeeds exactly on the texts that `encode` gives for bit vectors of the
/// algorithm.
pub fn decode(algorithm: HashAlgorithm, text: &str) -> (r: Option<BitVector>)
    ensures
        match read_back(algorithm, text@) {
            Some(bits) => r matches Some(vector) && vector@ == bits,
            None => r is None,
        },
{
    match decode_base64(text) {
        Some(bytes) => BitVector::from_bytes(algorithm, bytes.as_slice()),
        None => None,
    }
}

/// Reading back the text of a bit vector gives the bit vector: base64
/// decoding and unpacking undo packing and base64 encoding.
pub proof fn lemma_text_round_trip(vector: Bits)
    requires
        vector.wf(),
    ensures
        read_back(vector.algorithm, encoded(vector.bits)) == Some(vector),
{
    lemma_base64_round_trip(packed(vector.bits));
    lemma_unpack_packed(vector.bits);
}

/// Bit vectors of one algorithm with the same text are the same.
pub proof fn lemma_text_tells_apart(first: Bits, second: Bits)
    requires
        first.wf(),
        second.wf(),
        first.algorithm == second.algorithm,
        encoded(first.bits) == encoded(second.bits),
    ensures
        first == second,
{
    lemma_text_round_trip(first);
    lemma_text_round_trip(second);
}

} // verus!
