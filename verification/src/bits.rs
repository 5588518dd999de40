//! Bit vectors: how bits pack into bytes, and the Hamming distance.
//!
//! Bits are packed least significant bit first: bit `8 * k + j` of a vector
//! is bit `j` of byte `k`, counted from the low end.

use crate::algorithm::HashAlgorithm;
use vstd::prelude::*;

verus! {

/// The value of bit `j` of a byte, counted from the low end.
pub open spec fn weight(j: int) -> int {
    if j == 0 {
        1
    } else if j == 1 {
        2
    } else if j == 2 {
        4
    } else if j == 3 {
        8
    } else if j == 4 {
        16
    } else if j == 5 {
        32
    } else if j == 6 {
        64
    } else {
        128
    }
}

/// Bit `i` of a byte sequence.
pub open spec fn bit_at(bytes: Seq<u8>, i: int) -> bool {
    (bytes[i / 8] as int / weight(i % 8)) % 2 == 1
}

/// The first `count` bits of a byte sequence.
pub open spec fn unpacked(bytes: Seq<u8>, count: nat) -> Seq<bool> {
    Seq::new(count, |i: int| bit_at(bytes, i))
}

/// What bit `i` adds to its byte: its weight if it is set, nothing if it is
/// clear or lies past the end.
pub open spec fn share(bits: Seq<bool>, i: int) -> int {
    if i < bits.len() && bits[i] {
        weight(i % 8)
    } else {
        0
    }
}

/// Byte `k` of the packed form of a bit sequence.
pub open spec fn packed_byte(bits: Seq<bool>, k: int) -> int {
    share(bits, 8 * k) + share(bits, 8 * k + 1) + share(bits, 8 * k + 2) + share(bits, 8 * k + 3)
        + share(bits, 8 * k + 4) + share(bits, 8 * k + 5) + share(bits, 8 * k + 6) + share(
        bits,
        8 * k + 7,
    )
}

/// The bytes that a bit sequence packs into; a last partial byte is filled
/// with clear bits.
pub open spec fn packed(bits: Seq<bool>) -> Seq<u8> {
    Seq::new(((bits.len() + 7) / 8) as nat, |k: int| packed_byte(bits, k) as u8)
}

/// The number of positions below `n` at which two bit sequences differ.
pub open spec fn differing(a: Seq<bool>, b: Seq<bool>, n: nat) -> nat
    decreases n,
{
    if n == 0 {
        0
    } else {
        differing(a, b, (n - 1) as nat) + if a[n - 1] != b[n - 1] {
            1nat
        } else {
            0nat
        }
    }
}

/// The Hamming distance of two bit sequences of one length.
pub open spec fn hamming(a: Seq<bool>, b: Seq<bool>) -> nat {
    differing(a, b, a.len())
}

fn weight_of(j: usize) -> (w: u8)
    requires
        j < 8,
    ensures
        w == weight(j as int),
{
    if j == 0 {
        1
    } else if j == 1 {
        2
    } else if j == 2 {
        4
    } else if j == 3 {
        8
    } else if j == 4 {
        16
    } else if j == 5 {
        32
    } else if j == 6 {
        64
    } else {
        128
    }
}

/// Unpacks the first `count` bits of `bytes`, if the bytes hold that many.
pub fn unpack_bits(bytes: &[u8], count: usize) -> (r: Option<Vec<bool>>)
    ensures
        r is Some <==> count <= 8 * bytes@.len(),
        r matches Some(bits) ==> bits@ == unpacked(bytes@, count as nat),
{
    if count / 8 > bytes.len() || (count / 8 == bytes.len() && count % 8 != 0) {
        return None;
    }
    let mut bits: Vec<bool> = Vec::new();
    let mut i: usize = 0;
    while i < count
        invariant
            i <= count,
            count <= 8 * bytes@.len(),
            bits@ == unpacked(bytes@, i as nat),
        decreases count - i,
    {
        let byte: u8 = bytes[i / 8];
        let bit: bool = (byte / weight_of(i % 8)) % 2 == 1;
        bits.push(bit);
        i = i + 1;
        assert(bits@ =~= unpacked(bytes@, i as nat));
    }
    Some(bits)
}

/// Packs bits into bytes, eight to a byte, the first bit lowest.
pub fn pack_bits(bits: &[bool]) -> (bytes: Vec<u8>)
    ensures
        bytes@ == packed(bits@),
{
    let n: usize = bits.len();
    let full: usize = n / 8;
    let count: usize = if n % 8 == 0 {
        full
    } else {
        full + 1
    };
    let mut bytes: Vec<u8> = Vec::new();
    let mut k: usize = 0;
    while k < count
        invariant
            k <= count,
            n == bits@.len(),
            count == (n + 7) / 8,
            bytes@.len() == k,
            forall|m: int| 0 <= m < k ==> #[trigger] bytes@[m] == packed_byte(bits@, m) as u8,
        decreases count - k,
    {
        let mut byte: u8 = 0;
        let mut j: usize = 0;
        while j < 8
            invariant
                j <= 8,
                k < count,
                n == bits@.len(),
                count == (n + 7) / 8,
                byte as int == partial_byte(bits@, k as int, j as int),
                j < 8 ==> byte < weight(j as int),
            decreases 8 - j,
        {
            let i: usize = 8 * k + j;
            if i < n && bits[i] {
                byte = byte + weight_of(j);
            }
            j = j + 1;
        }
        proof {
            lemma_partial_byte_full(bits@, k as int);
        }
        bytes.push(byte);
        k = k + 1;
    }
    assert(bytes@ =~= packed(bits@));
    bytes
}

/// The sum of the shares of the first `j` bits of byte `k`.
spec fn partial_byte(bits: Seq<bool>, k: int, j: int) -> int
    decreases j,
{
    if j <= 0 {
        0
    } else {
        partial_byte(bits, k, j - 1) + share(bits, 8 * k + j - 1)
    }
}

proof fn lemma_partial_byte_full(bits: Seq<bool>, k: int)
    ensures
        partial_byte(bits, k, 8) == packed_byte(bits, k),
{
    reveal_with_fuel(partial_byte, 9);
}

/// The Hamming distance of two bit slices: the number of positions at which
/// they differ. Slices of different lengths have no distance.
pub fn hamming_distance(a: &[bool], b: &[bool]) -> (distance: Option<usize>)
    ensures
        distance is Some <==> a@.len() == b@.len(),
        distance matches Some(d) ==> d == hamming(a@, b@),
{
    let n: usize = a.len();
    if n != b.len() {
        return None;
    }
    let mut d: usize = 0;
    let mut i: usize = 0;
    while i < n
        invariant
            i <= n,
            n == a@.len(),
            n == b@.len(),
            d == differing(a@, b@, i as nat),
            d <= i,
        decreases n - i,
    {
        if a[i] != b[i] {
            d = d + 1;
        }
        i = i + 1;
    }
    Some(d)
}

/// A bit vector as a mathematical value: the algorithm that made it and
/// its bits in order.
pub struct Bits {
    pub algorithm: HashAlgorithm,
    pub bits: Seq<bool>,
}

impl Bits {
    /// The vector has the length that its algorithm fixes.
    pub open spec fn wf(self) -> bool {
        self.bits.len() == self.algorithm.bit_count_spec()
    }
}

/// The bits of one hash, with the algorithm that made them. Its length is
/// the one that the algorithm fixes.
#[derive(Debug)]
pub struct BitVector {
    algorithm: HashAlgorithm,
    bits: Vec<bool>,
}

impl View for BitVector {
    type V = Bits;

    closed spec fn view(&self) -> Bits {
        Bits { algorithm: self.algorithm, bits: self.bits@ }
    }
}

impl BitVector {
    #[verifier::type_invariant]
    pub open spec fn inv(self) -> bool {
        self@.wf()
    }

    /// Makes a bit vector of an algorithm, if the bits are as many as the
    /// algorithm fixes.
    pub fn new(algorithm: HashAlgorithm, bits: Vec<bool>) -> (r: Option<BitVector>)
        ensures
            r is Some <==> bits@.len() == algorithm.bit_count_spec(),
            r matches Some(vector) ==> vector@ == (Bits { algorithm, bits: bits@ }),
    {
        if bits.len() == algorithm.bit_count() {
            Some(BitVector { algorithm, bits })
        } else {
            None
        }
    }

    /// Unpacks the bytes of a hash of an algorithm, if they are as many as
    /// the algorithm's bits pack into.
    pub fn from_bytes(algorithm: HashAlgorithm, bytes: &[u8]) -> (r: Option<BitVector>)
        ensures
            r is Some <==> bytes@.len() == algorithm.byte_count_spec(),
            r matches Some(vector) ==> vector@ == (Bits {
                algorithm,
                bits: unpacked(bytes@, algorithm.bit_count_spec()),
            }),
    {
        if bytes.len() == algorithm.byte_count() {
            match unpack_bits(bytes, algorithm.bit_count()) {
                Some(bits) => Some(BitVector { algorithm, bits }),
                None => None,
            }
        } else {
            None
        }
    }

    /// The algorithm that made the vector.
    pub fn algorithm(&self) -> (algorithm: HashAlgorithm)
        ensures
            algorithm == self@.algorithm,
    {
        self.algorithm
    }

    /// The number of bits: the one that the algorithm fixes.
    pub fn len(&self) -> (count: usize)
        ensures
            count == self@.bits.len(),
            count == self@.algorithm.bit_count_spec(),
    {
        proof {
            use_type_invariant(self);
        }
        self.bits.len()
    }

    /// Bit `i`, if the vector is that long.
    pub fn get(&self, i: usize) -> (bit: Option<bool>)
        ensures
            bit == if i < self@.bits.len() {
                Some(self@.bits[i as int])
            } else {
                None
            },
    {
        if i < self.bits.len() {
            Some(self.bits[i])
        } else {
            None
        }
    }

    /// The bits in order.
    pub fn bits(&self) -> (bits: &Vec<bool>)
        ensures
            bits@ == self@.bits,
            bits@.len() == self@.algorithm.bit_count_spec(),
    {
        proof {
            use_type_invariant(self);
        }
        &self.bits
    }

    /// The bits packed into bytes, the first bit lowest in the first byte.
    pub fn to_bytes(&self) -> (bytes: Vec<u8>)
        ensures
            bytes@ == packed(self@.bits),
            bytes@.len() == self@.algorithm.byte_count_spec(),
    {
        proof {
            use_type_invariant(self);
        }
        pack_bits(self.bits.as_slice())
    }

    /// Whether two vectors are of one algorithm and equal bit for bit.
    pub fn same(&self, other: &BitVector) -> (equal: bool)
        ensures
            equal == (self@ == other@),
    {
        proof {
            use_type_invariant(self);
            use_type_invariant(other);
            if self@.algorithm == other@.algorithm {
                lemma_hamming_zero_iff_equal(self@.bits, other@.bits);
            }
        }
        if self.algorithm != other.algorithm {
            return false;
        }
        match hamming_distance(self.bits.as_slice(), other.bits.as_slice()) {
            Some(distance) => distance == 0,
            None => false,
        }
    }

    /// The Hamming distance to another vector. Vectors of different
    /// algorithms are not compared: they have no distance.
    pub fn distance(&self, other: &BitVector) -> (distance: Option<usize>)
        ensures
            distance is Some <==> self@.algorithm == other@.algorithm,
            distance matches Some(d) ==> d == hamming(self@.bits, other@.bits) && d
                <= self@.algorithm.bit_count_spec(),
    {
        proof {
            use_type_invariant(self);
            use_type_invariant(other);
            if self@.algorithm == other@.algorithm {
                lemma_hamming_zero_iff_equal(self@.bits, other@.bits);
            }
        }
        if self.algorithm != other.algorithm {
            return None;
        }
        hamming_distance(self.bits.as_slice(), other.bits.as_slice())
    }
}

/// The value of a clear or set bit as a number.
pub open spec fn digit(bits: Seq<bool>, i: int) -> u8 {
    if i < bits.len() && bits[i] {
        1
    } else {
        0
    }
}

proof fn lemma_digits_of_sum(x0: u8, x1: u8, x2: u8, x3: u8, x4: u8, x5: u8, x6: u8, x7: u8)
    by (bit_vector)
    requires
        x0 <= 1,
        x1 <= 1,
        x2 <= 1,
        x3 <= 1,
        x4 <= 1,
        x5 <= 1,
        x6 <= 1,
        x7 <= 1,
    ensures
        x0 + 2 * x1 + 4 * x2 + 8 * x3 + 16 * x4 + 32 * x5 + 64 * x6 + 128 * x7 < 256,
        (x0 + 2 * x1 + 4 * x2 + 8 * x3 + 16 * x4 + 32 * x5 + 64 * x6 + 128 * x7) / 1 % 2 == x0,
        (x0 + 2 * x1 + 4 * x2 + 8 * x3 + 16 * x4 + 32 * x5 + 64 * x6 + 128 * x7) / 2 % 2 == x1,
        (x0 + 2 * x1 + 4 * x2 + 8 * x3 + 16 * x4 + 32 * x5 + 64 * x6 + 128 * x7) / 4 % 2 == x2,
        (x0 + 2 * x1 + 4 * x2 + 8 * x3 + 16 * x4 + 32 * x5 + 64 * x6 + 128 * x7) / 8 % 2 == x3,
        (x0 + 2 * x1 + 4 * x2 + 8 * x3 + 16 * x4 + 32 * x5 + 64 * x6 + 128 * x7) / 16 % 2 == x4,
        (x0 + 2 * x1 + 4 * x2 + 8 * x3 + 16 * x4 + 32 * x5 + 64 * x6 + 128 * x7) / 32 % 2 == x5,
        (x0 + 2 * x1 + 4 * x2 + 8 * x3 + 16 * x4 + 32 * x5 + 64 * x6 + 128 * x7) / 64 % 2 == x6,
        (x0 + 2 * x1 + 4 * x2 + 8 * x3 + 16 * x4 + 32 * x5 + 64 * x6 + 128 * x7) / 128 % 2 == x7,
{
}

proof fn lemma_sum_of_digits(v: u8)
    by (bit_vector)
    ensures
        v == v / 1 % 2 + 2 * (v / 2 % 2) + 4 * (v / 4 % 2) + 8 * (v / 8 % 2) + 16 * (v / 16 % 2)
            + 32 * (v / 32 % 2) + 64 * (v / 64 % 2) + 128 * (v / 128 % 2),
{
}

proof fn lemma_packed_byte_digit(bits: Seq<bool>, k: int, j: int)
    requires
        0 <= k,
        0 <= j < 8,
    ensures
        0 <= packed_byte(bits, k) < 256,
        (packed_byte(bits, k) / weight(j)) % 2 == digit(bits, 8 * k + j),
{
    let x0 = digit(bits, 8 * k);
    let x1 = digit(bits, 8 * k + 1);
    let x2 = digit(bits, 8 * k + 2);
    let x3 = digit(bits, 8 * k + 3);
    let x4 = digit(bits, 8 * k + 4);
    let x5 = digit(bits, 8 * k + 5);
    let x6 = digit(bits, 8 * k + 6);
    let x7 = digit(bits, 8 * k + 7);
    lemma_digits_of_sum(x0, x1, x2, x3, x4, x5, x6, x7);
    assert(share(bits, 8 * k) == x0);
    assert(share(bits, 8 * k + 1) == 2 * x1);
    assert(share(bits, 8 * k + 2) == 4 * x2);
    assert(share(bits, 8 * k + 3) == 8 * x3);
    assert(share(bits, 8 * k + 4) == 16 * x4);
    assert(share(bits, 8 * k + 5) == 32 * x5);
    assert(share(bits, 8 * k + 6) == 64 * x6);
    assert(share(bits, 8 * k + 7) == 128 * x7);
    assert(packed_byte(bits, k) == x0 + 2 * x1 + 4 * x2 + 8 * x3 + 16 * x4 + 32 * x5 + 64 * x6 + 128
        * x7);
}

proof fn lemma_bit_of_packed(bits: Seq<bool>, i: int)
    requires
        0 <= i < bits.len(),
    ensures
        bit_at(packed(bits), i) == bits[i],
{
    let k = i / 8;
    let j = i % 8;
    assert(8 * k + j == i);
    lemma_packed_byte_digit(bits, k, j);
    let v = packed_byte(bits, k);
    assert(0 <= k < packed(bits).len());
    assert(packed(bits)[k] == v as u8);
    assert(packed(bits)[k] as int == v);
    assert(digit(bits, i) == if bits[i] { 1u8 } else { 0u8 });
}

/// Unpacking what was packed gives the bits back.
pub proof fn lemma_unpack_packed(bits: Seq<bool>)
    ensures
        packed(bits).len() == (bits.len() + 7) / 8,
        unpacked(packed(bits), bits.len()) == bits,
{
    assert forall|i: int| 0 <= i < bits.len() implies #[trigger] unpacked(
        packed(bits),
        bits.len(),
    )[i] == bits[i] by {
        lemma_bit_of_packed(bits, i);
    }
    assert(unpacked(packed(bits), bits.len()) =~= bits);
}

/// Packing all the bits of a byte sequence gives the bytes back.
pub proof fn lemma_pack_unpacked(bytes: Seq<u8>)
    ensures
        packed(unpacked(bytes, 8 * bytes.len())) == bytes,
{
    let bits = unpacked(bytes, 8 * bytes.len());
    assert forall|k: int| 0 <= k < bytes.len() implies packed_byte(bits, k) == bytes[k] by {
        let v = bytes[k];
        lemma_sum_of_digits(v);
        assert forall|j: int| 0 <= j < 8 implies #[trigger] share(bits, 8 * k + j) == weight(j)
            * ((v as int / weight(j)) % 2) by {
            assert((8 * k + j) / 8 == k);
            assert((8 * k + j) % 8 == j);
            assert(bits[8 * k + j] == bit_at(bytes, 8 * k + j));
        }
        assert(share(bits, 8 * k + 0) == weight(0) * ((v as int / weight(0)) % 2));
    }
    assert(packed(bits) =~= bytes);
}

/// The distance does not depend on the order of its arguments.
pub proof fn lemma_hamming_symmetric(a: Seq<bool>, b: Seq<bool>)
    requires
        a.len() == b.len(),
    ensures
        hamming(a, b) == hamming(b, a),
{
    lemma_differing_symmetric(a, b, a.len());
}

proof fn lemma_differing_symmetric(a: Seq<bool>, b: Seq<bool>, n: nat)
    ensures
        differing(a, b, n) == differing(b, a, n),
    decreases n,
{
    if n > 0 {
        lemma_differing_symmetric(a, b, (n - 1) as nat);
    }
}

/// The distance is at most the length, and it is zero exactly between equal
/// bit sequences.
pub proof fn lemma_hamming_zero_iff_equal(a: Seq<bool>, b: Seq<bool>)
    requires
        a.len() == b.len(),
    ensures
        hamming(a, b) <= a.len(),
        hamming(a, b) == 0 <==> a == b,
{
    lemma_differing_zero(a, b, a.len());
    if hamming(a, b) == 0 {
        assert(a =~= b);
    }
}

proof fn lemma_differing_zero(a: Seq<bool>, b: Seq<bool>, n: nat)
    requires
        n <= a.len(),
        n <= b.len(),
    ensures
        differing(a, b, n) <= n,
        differing(a, b, n) == 0 <==> forall|i: int| 0 <= i < n ==> a[i] == b[i],
    decreases n,
{
    if n > 0 {
        lemma_differing_zero(a, b, (n - 1) as nat);
    }
}

/// Going through a third bit sequence is never shorter.
pub proof fn lemma_hamming_triangle(a: Seq<bool>, b: Seq<bool>, c: Seq<bool>)
    requires
        a.len() == b.len(),
        b.len() == c.len(),
    ensures
        hamming(a, c) <= hamming(a, b) + hamming(b, c),
{
    lemma_differing_triangle(a, b, c, a.len());
}

proof fn lemma_differing_triangle(a: Seq<bool>, b: Seq<bool>, c: Seq<bool>, n: nat)
    ensures
        differing(a, c, n) <= differing(a, b, n) + differing(b, c, n),
    decreases n,
{
    if n > 0 {
        lemma_differing_triangle(a, b, c, (n - 1) as nat);
    }
}

} // verus!
