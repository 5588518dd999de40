//! The closed set of hash algorithms, their names and their fixed sizes.

use crate::error::TypedError;
use vstd::prelude::*;

verus! {

/// A perceptual hash algorithm. Each variant fixes the resolution that an
/// image is reduced to, the rule that turns intensities into bits, and the
/// number of bits that come out.
#[derive(Clone, Copy, Debug, PartialEq, Eq, Hash, Structural)]
pub enum HashAlgorithm {
    /// One bit per cell of an 8 x 8 grid: the cell against the grid's mean.
    Mean,
    /// One bit per horizontal neighbour pair of a 9 x 8 grid.
    Gradient,
    /// One bit per vertical neighbour pair of an 8 x 9 grid.
    VertGradient,
    /// Horizontal pairs, then vertical pairs, of a 5 x 5 grid.
    DoubleGradient,
    /// One bit per 2 x 2 block of a 16 x 16 grid: the block's mean against
    /// the mean of the whole grid.
    BlockMean,
    /// One bit per cell of an 8 x 8 grid: the cell against the grid's median.
    Median,
    /// The Blockhash.io algorithm on an 8 x 8 grid of blocks of the image
    /// as it is, without resampling.
    Blockhash,
    /// The low 8 x 8 corner of the cosine transform of a 16 x 16 grid, each
    /// coefficient against the median of the 64.
    Dct,
}

/// The ASCII lower-case form of a character; other characters are kept.
pub open spec fn lower(c: char) -> char {
    if 'A' <= c && c <= 'Z' {
        ((c as int) + 32) as char
    } else {
        c
    }
}

/// Whether two texts are equal when ASCII letter case is ignored.
pub open spec fn same_ignoring_case(a: Seq<char>, b: Seq<char>) -> bool {
    &&& a.len() == b.len()
    &&& forall|i: int| 0 <= i < a.len() ==> lower(#[trigger] a[i]) == lower(b[i])
}

/// The algorithm that a selector names, if any. Letter case is ignored.
pub open spec fn selected(selector: Seq<char>) -> Option<HashAlgorithm> {
    if same_ignoring_case(selector, "Mean"@) {
        Some(HashAlgorithm::Mean)
    } else if same_ignoring_case(selector, "Gradient"@) {
        Some(HashAlgorithm::Gradient)
    } else if same_ignoring_case(selector, "VertGradient"@) {
        Some(HashAlgorithm::VertGradient)
    } else if same_ignoring_case(selector, "DoubleGradient"@) {
        Some(HashAlgorithm::DoubleGradient)
    } else if same_ignoring_case(selector, "BlockMean"@) {
        Some(HashAlgorithm::BlockMean)
    } else if same_ignoring_case(selector, "Median"@) {
        Some(HashAlgorithm::Median)
    } else if same_ignoring_case(selector, "Blockhash"@) {
        Some(HashAlgorithm::Blockhash)
    } else if same_ignoring_case(selector, "DCT"@) {
        Some(HashAlgorithm::Dct)
    } else {
        None
    }
}

fn lower_char(c: char) -> (r: char)
    ensures
        r == lower(c),
{
    if 'A' <= c && c <= 'Z' {
        ((c as u8) + 32u8) as char
    } else {
        c
    }
}

fn matches_ignoring_case(a: &str, b: &str) -> (r: bool)
    ensures
        r == same_ignoring_case(a@, b@),
{
    let n = a.unicode_len();
    if n != b.unicode_len() {
        return false;
    }
    let mut i: usize = 0;
    while i < n
        invariant
            i <= n,
            n == a@.len(),
            n == b@.len(),
            forall|k: int| 0 <= k < i ==> lower(#[trigger] a@[k]) == lower(b@[k]),
        decreases n - i,
    {
        if lower_char(a.get_char(i)) != lower_char(b.get_char(i)) {
            return false;
        }
        i = i + 1;
    }
    true
}

impl HashAlgorithm {
    /// The algorithm's name, as selectors and responses spell it.
    pub open spec fn name_spec(self) -> Seq<char> {
        match self {
            HashAlgorithm::Mean => "Mean"@,
            HashAlgorithm::Gradient => "Gradient"@,
            HashAlgorithm::VertGradient => "VertGradient"@,
            HashAlgorithm::DoubleGradient => "DoubleGradient"@,
            HashAlgorithm::BlockMean => "BlockMean"@,
            HashAlgorithm::Median => "Median"@,
            HashAlgorithm::Blockhash => "Blockhash"@,
            HashAlgorithm::Dct => "DCT"@,
        }
    }

    /// The number of bits in every hash of this algorithm.
    pub open spec fn bit_count_spec(self) -> nat {
        match self {
            HashAlgorithm::DoubleGradient => 40,
            _ => 64,
        }
    }

    /// The number of bytes that the bits pack into.
    pub open spec fn byte_count_spec(self) -> nat {
        match self {
            HashAlgorithm::DoubleGradient => 5,
            _ => 8,
        }
    }

    /// The width and height of the grid that the algorithm works on.
    pub open spec fn working_resolution_spec(self) -> (u32, u32) {
        match self {
            HashAlgorithm::Mean => (8, 8),
            HashAlgorithm::Gradient => (9, 8),
            HashAlgorithm::VertGradient => (8, 9),
            HashAlgorithm::DoubleGradient => (5, 5),
            HashAlgorithm::BlockMean => (16, 16),
            HashAlgorithm::Median => (8, 8),
            HashAlgorithm::Blockhash => (8, 8),
            HashAlgorithm::Dct => (16, 16),
        }
    }

    /// The algorithm's name.
    pub fn name(&self) -> (text: String)
        ensures
            text@ == self.name_spec(),
    {
        match self {
            HashAlgorithm::Mean => String::from_str("Mean"),
            HashAlgorithm::Gradient => String::from_str("Gradient"),
            HashAlgorithm::VertGradient => String::from_str("VertGradient"),
            HashAlgorithm::DoubleGradient => String::from_str("DoubleGradient"),
            HashAlgorithm::BlockMean => String::from_str("BlockMean"),
            HashAlgorithm::Median => String::from_str("Median"),
            HashAlgorithm::Blockhash => String::from_str("Blockhash"),
            HashAlgorithm::Dct => String::from_str("DCT"),
        }
    }

    /// The number of bits in every hash of this algorithm, whatever the
    /// size of the image.
    pub fn bit_count(&self) -> (count: usize)
        ensures
            count == self.bit_count_spec(),
    {
        match self {
            HashAlgorithm::DoubleGradient => 40,
            _ => 64,
        }
    }

    /// The number of bytes that a hash of this algorithm packs into.
    pub fn byte_count(&self) -> (count: usize)
        ensures
            count == self.byte_count_spec(),
            8 * count == self.bit_count_spec(),
    {
        match self {
            HashAlgorithm::DoubleGradient => 5,
            _ => 8,
        }
    }

    /// The width and height of the grid that the algorithm works on,
    /// whatever the size of the image.
    pub fn working_resolution(&self) -> (size: (u32, u32))
        ensures
            size == self.working_resolution_spec(),
    {
        match self {
            HashAlgorithm::Mean => (8, 8),
            HashAlgorithm::Gradient => (9, 8),
            HashAlgorithm::VertGradient => (8, 9),
            HashAlgorithm::DoubleGradient => (5, 5),
            HashAlgorithm::BlockMean => (16, 16),
            HashAlgorithm::Median => (8, 8),
            HashAlgorithm::Blockhash => (8, 8),
            HashAlgorithm::Dct => (16, 16),
        }
    }

    /// Reads a selector. It succeeds exactly on the algorithms' names,
    /// in any letter case; any other text is refused and handed back in
    /// the error.
    pub fn from_selector(selector: &str) -> (r: Result<HashAlgorithm, TypedError>)
        ensures
            match selected(selector@) {
                Some(algorithm) => r == Ok::<HashAlgorithm, TypedError>(algorithm),
                None => r matches Err(TypedError::UnsupportedAlgorithm(text)) && text@
                    == selector@,
            },
    {
        if matches_ignoring_case(selector, "Mean") {
            Ok(HashAlgorithm::Mean)
        } else if matches_ignoring_case(selector, "Gradient") {
            Ok(HashAlgorithm::Gradient)
        } else if matches_ignoring_case(selector, "VertGradient") {
            Ok(HashAlgorithm::VertGradient)
        } else if matches_ignoring_case(selector, "DoubleGradient") {
            Ok(HashAlgorithm::DoubleGradient)
        } else if matches_ignoring_case(selector, "BlockMean") {
            Ok(HashAlgorithm::BlockMean)
        } else if matches_ignoring_case(selector, "Median") {
            Ok(HashAlgorithm::Median)
        } else if matches_ignoring_case(selector, "Blockhash") {
            Ok(HashAlgorithm::Blockhash)
        } else if matches_ignoring_case(selector, "DCT") {
            Ok(HashAlgorithm::Dct)
        } else {
            Err(TypedError::UnsupportedAlgorithm(String::from_str(selector)))
        }
    }

    /// Resolves a request's optional selector: the default algorithm when
    /// none is given, otherwise what `from_selector` makes of it.
    pub fn resolve(selector: Option<&str>) -> (r: Result<HashAlgorithm, TypedError>)
        ensures
            match selector {
                None => r == Ok::<HashAlgorithm, TypedError>(HashAlgorithm::Gradient),
                Some(given) => match selected(given@) {
                    Some(algorithm) => r == Ok::<HashAlgorithm, TypedError>(algorithm),
                    None => r matches Err(TypedError::UnsupportedAlgorithm(text)) && text@
                        == given@,
                },
            },
    {
        match selector {
            None => Ok(HashAlgorithm::default()),
            Some(given) => HashAlgorithm::from_selector(given),
        }
    }
}

impl Default for HashAlgorithm {
    /// The algorithm used when a request names none: the gradient.
    fn default() -> (algorithm: HashAlgorithm)
        ensures
            algorithm == HashAlgorithm::Gradient,
    {
        HashAlgorithm::Gradient
    }
}

/// Every algorithm is selected by its own name.
pub proof fn lemma_name_selects(algorithm: HashAlgorithm)
    ensures
        selected(algorithm.name_spec()) == Some(algorithm),
{
    reveal_strlit("Mean");
    reveal_strlit("Gradient");
    reveal_strlit("VertGradient");
    reveal_strlit("DoubleGradient");
    reveal_strlit("BlockMean");
    reveal_strlit("Median");
    reveal_strlit("Blockhash");
    reveal_strlit("DCT");
    assert("Blockhash"@[5] == 'h');
    assert("BlockMean"@[5] == 'M');
    assert(lower('h') != lower('M'));
}

/// A selector and its spelling in another letter case select the same.
pub proof fn lemma_selection_ignores_case(a: Seq<char>, b: Seq<char>)
    requires
        same_ignoring_case(a, b),
    ensures
        selected(a) == selected(b),
{
    assert forall|name: Seq<char>| same_ignoring_case(a, name) == same_ignoring_case(b, name) by {
        if same_ignoring_case(a, name) {
            assert forall|i: int| 0 <= i < b.len() implies lower(#[trigger] b[i]) == lower(
                name[i],
            ) by {
                assert(lower(a[i]) == lower(b[i]));
            }
        }
        if same_ignoring_case(b, name) {
            assert forall|i: int| 0 <= i < a.len() implies lower(#[trigger] a[i]) == lower(
                name[i],
            ) by {
                assert(lower(a[i]) == lower(b[i]));
            }
        }
    }
}

} // verus!
