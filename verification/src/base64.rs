//! The canonical text form of a hash: standard base64 without padding and
//! without line breaks, and the decoder that reads it back.

use vstd::prelude::*;

verus! {

/// The character that stands for a six-bit value in the standard alphabet.
pub open spec fn sextet_char(v: int) -> char {
    if v < 26 {
        (65 + v) as char
    } else if v < 52 {
        (97 + (v - 26)) as char
    } else if v < 62 {
        (48 + (v - 52)) as char
    } else if v == 62 {
        '+'
    } else {
        '/'
    }
}

/// The six-bit value that a character of the standard alphabet stands for.
pub open spec fn sextet_of(c: char) -> Option<int> {
    let n = c as int;
    if 65 <= n <= 90 {
        Some(n - 65)
    } else if 97 <= n <= 122 {
        Some(n - 97 + 26)
    } else if 48 <= n <= 57 {
        Some(n - 48 + 52)
    } else if c == '+' {
        Some(62)
    } else if c == '/' {
        Some(63)
    } else {
        None
    }
}

/// The base64 text of a byte sequence: every three bytes give four
/// characters, a last single byte gives two, a last pair gives three. No
/// padding character is added.
pub open spec fn base64_text(bytes: Seq<u8>) -> Seq<char>
    decreases bytes.len(),
{
    if bytes.len() == 0 {
        Seq::empty()
    } else if bytes.len() == 1 {
        seq![sextet_char(bytes[0] as int / 4), sextet_char((bytes[0] as int % 4) * 16)]
    } else if bytes.len() == 2 {
        seq![
            sextet_char(bytes[0] as int / 4),
            sextet_char((bytes[0] as int % 4) * 16 + bytes[1] as int / 16),
            sextet_char((bytes[1] as int % 16) * 4),
        ]
    } else {
        seq![
            sextet_char(bytes[0] as int / 4),
            sextet_char((bytes[0] as int % 4) * 16 + bytes[1] as int / 16),
            sextet_char((bytes[1] as int % 16) * 4 + bytes[2] as int / 64),
            sextet_char(bytes[2] as int % 64),
        ] + base64_text(bytes.skip(3))
    }
}

/// The bytes that a text is the base64 form of, if it is one. A text with a
/// character outside the alphabet, of an impossible length, or with set bits
/// left over in its last character, is the form of nothing.
pub open spec fn base64_bytes(text: Seq<char>) -> Option<Seq<u8>>
    decreases text.len(),
{
    if text.len() == 0 {
        Some(Seq::empty())
    } else if text.len() == 1 {
        None
    } else if text.len() == 2 {
        match (sextet_of(text[0]), sextet_of(text[1])) {
            (Some(a), Some(b)) => if b % 16 == 0 {
                Some(seq![(a * 4 + b / 16) as u8])
            } else {
                None
            },
            _ => None,
        }
    } else if text.len() == 3 {
        match (sextet_of(text[0]), sextet_of(text[1]), sextet_of(text[2])) {
            (Some(a), Some(b), Some(c)) => if c % 4 == 0 {
                Some(seq![(a * 4 + b / 16) as u8, ((b % 16) * 16 + c / 4) as u8])
            } else {
                None
            },
            _ => None,
        }
    } else {
        match (sextet_of(text[0]), sextet_of(text[1]), sextet_of(text[2]), sextet_of(text[3])) {
            (Some(a), Some(b), Some(c), Some(d)) => match base64_bytes(text.skip(4)) {
                Some(rest) => Some(
                    seq![
                        (a * 4 + b / 16) as u8,
                        ((b % 16) * 16 + c / 4) as u8,
                        ((c % 4) * 64 + d) as u8,
                    ] + rest,
                ),
                None => None,
            },
            _ => None,
        }
    }
}

/// A six-bit value is read back from its character.
pub proof fn lemma_sextet_of_char(v: int)
    requires
        0 <= v < 64,
    ensures
        sextet_of(sextet_char(v)) == Some(v),
{
}

/// A character of the alphabet is the character of its six-bit value.
pub proof fn lemma_char_of_sextet(c: char)
    ensures
        sextet_of(c) matches Some(v) ==> 0 <= v < 64 && sextet_char(v) == c,
{
}

/// Decoding the base64 text of any bytes gives the bytes back.
pub proof fn lemma_base64_round_trip(bytes: Seq<u8>)
    ensures
        base64_bytes(base64_text(bytes)) == Some(bytes),
    decreases bytes.len(),
{
    let text = base64_text(bytes);
    if bytes.len() == 0 {
        assert(bytes =~= Seq::empty());
    } else if bytes.len() == 1 {
        let b0 = bytes[0] as int;
        lemma_sextet_of_char(b0 / 4);
        lemma_sextet_of_char((b0 % 4) * 16);
        assert(bytes =~= seq![(b0 / 4 * 4 + (b0 % 4) * 16 / 16) as u8]);
    } else if bytes.len() == 2 {
        let b0 = bytes[0] as int;
        let b1 = bytes[1] as int;
        let s0 = b0 / 4;
        let s1 = (b0 % 4) * 16 + b1 / 16;
        let s2 = (b1 % 16) * 4;
        lemma_sextet_of_char(s0);
        lemma_sextet_of_char(s1);
        lemma_sextet_of_char(s2);
        assert(bytes =~= seq![(s0 * 4 + s1 / 16) as u8, ((s1 % 16) * 16 + s2 / 4) as u8]);
    } else {
        let b0 = bytes[0] as int;
        let b1 = bytes[1] as int;
        let b2 = bytes[2] as int;
        let s0 = b0 / 4;
        let s1 = (b0 % 4) * 16 + b1 / 16;
        let s2 = (b1 % 16) * 4 + b2 / 64;
        let s3 = b2 % 64;
        lemma_sextet_of_char(s0);
        lemma_sextet_of_char(s1);
        lemma_sextet_of_char(s2);
        lemma_sextet_of_char(s3);
        lemma_base64_round_trip(bytes.skip(3));
        assert(text.skip(4) =~= base64_text(bytes.skip(3)));
        assert(bytes =~= seq![
            (s0 * 4 + s1 / 16) as u8,
            ((s1 % 16) * 16 + s2 / 4) as u8,
            ((s2 % 4) * 64 + s3) as u8,
        ] + bytes.skip(3));
    }
}

proof fn lemma_regroup(a: int, b: int, c: int, d: int)
    requires
        0 <= a < 64,
        0 <= b < 64,
        0 <= c < 64,
        0 <= d < 64,
    ensures
        ({
            let x = a * 4 + b / 16;
            let y = (b % 16) * 16 + c / 4;
            let z = (c % 4) * 64 + d;
            &&& 0 <= x < 256
            &&& 0 <= y < 256
            &&& 0 <= z < 256
            &&& x / 4 == a
            &&& (x % 4) * 16 + y / 16 == b
            &&& (y % 16) * 4 + z / 64 == c
            &&& z % 64 == d
            &&& (b % 16 == 0 ==> (x % 4) * 16 == b)
            &&& (c % 4 == 0 ==> (y % 16) * 4 == c)
        }),
{
}

proof fn lemma_canonical_pair(text: Seq<char>)
    requires
        text.len() == 2,
    ensures
        base64_bytes(text) matches Some(bytes) ==> base64_text(bytes) == text,
{
    lemma_char_of_sextet(text[0]);
    lemma_char_of_sextet(text[1]);
    if let Some(bytes) = base64_bytes(text) {
        let a = sextet_of(text[0])->Some_0;
        let b = sextet_of(text[1])->Some_0;
        lemma_regroup(a, b, 0, 0);
        assert(bytes.len() == 1);
        assert(bytes[0] as int == a * 4 + b / 16);
        assert(base64_text(bytes) =~= text);
    }
}

proof fn lemma_canonical_triple(text: Seq<char>)
    requires
        text.len() == 3,
    ensures
        base64_bytes(text) matches Some(bytes) ==> base64_text(bytes) == text,
{
    lemma_char_of_sextet(text[0]);
    lemma_char_of_sextet(text[1]);
    lemma_char_of_sextet(text[2]);
    if let Some(bytes) = base64_bytes(text) {
        let a = sextet_of(text[0])->Some_0;
        let b = sextet_of(text[1])->Some_0;
        let c = sextet_of(text[2])->Some_0;
        lemma_regroup(a, b, c, 0);
        assert(bytes.len() == 2);
        assert(bytes[0] as int == a * 4 + b / 16);
        assert(bytes[1] as int == (b % 16) * 16 + c / 4);
        assert(base64_text(bytes) =~= text);
    }
}

/// What a text decodes to has that text as its base64 form: no two texts
/// decode to the same bytes.
pub proof fn lemma_base64_canonical(text: Seq<char>)
    ensures
        base64_bytes(text) matches Some(bytes) ==> base64_text(bytes) == text,
    decreases text.len(),
{
    if text.len() == 0 {
        assert(text =~= Seq::empty());
    } else if text.len() == 1 {
    } else if text.len() == 2 {
        lemma_canonical_pair(text);
    } else if text.len() == 3 {
        lemma_canonical_triple(text);
    } else {
        lemma_char_of_sextet(text[0]);
        lemma_char_of_sextet(text[1]);
        lemma_char_of_sextet(text[2]);
        lemma_char_of_sextet(text[3]);
        lemma_base64_canonical(text.skip(4));
        if let Some(bytes) = base64_bytes(text) {
            let a = sextet_of(text[0])->Some_0;
            let b = sextet_of(text[1])->Some_0;
            let c = sextet_of(text[2])->Some_0;
            let d = sextet_of(text[3])->Some_0;
            lemma_regroup(a, b, c, d);
            let rest = base64_bytes(text.skip(4))->Some_0;
            let head = seq![
                (a * 4 + b / 16) as u8,
                ((b % 16) * 16 + c / 4) as u8,
                ((c % 4) * 64 + d) as u8,
            ];
            assert(bytes == head + rest);
            assert(bytes.len() >= 3);
            assert(bytes[0] == head[0] && bytes[1] == head[1] && bytes[2] == head[2]);
            assert(bytes.skip(3) =~= rest);
            assert(base64_text(bytes.skip(3)) == text.skip(4));
            let front = seq![
                sextet_char(bytes[0] as int / 4),
                sextet_char((bytes[0] as int % 4) * 16 + bytes[1] as int / 16),
                sextet_char((bytes[1] as int % 16) * 4 + bytes[2] as int / 64),
                sextet_char(bytes[2] as int % 64),
            ];
            assert(base64_text(bytes) == front + text.skip(4));
            assert(front + text.skip(4) =~= text);
        }
    }
}

/// A text is the base64 form of some bytes exactly when it decodes, and
/// then of those bytes only.
pub proof fn lemma_base64_decides(text: Seq<char>, bytes: Seq<u8>)
    ensures
        base64_text(bytes) == text <==> base64_bytes(text) == Some(bytes),
{
    lemma_base64_round_trip(bytes);
    lemma_base64_canonical(text);
}

fn sextet(c: char) -> (r: Option<u8>)
    ensures
        match r {
            Some(v) => sextet_of(c) == Some(v as int) && v < 64,
            None => sextet_of(c) is None,
        },
{
    if 'A' <= c && c <= 'Z' {
        Some((c as u8) - 65u8)
    } else if 'a' <= c && c <= 'z' {
        Some((c as u8) - 97u8 + 26u8)
    } else if '0' <= c && c <= '9' {
        Some((c as u8) - 48u8 + 52u8)
    } else if c == '+' {
        Some(62)
    } else if c == '/' {
        Some(63)
    } else {
        None
    }
}

/// Reads base64 text back into bytes. It succeeds exactly on the texts that
/// are the base64 form of some bytes, and returns those bytes.
pub fn decode_base64(text: &str) -> (r: Option<Vec<u8>>)
    ensures
        match r {
            Some(bytes) => base64_text(bytes@) == text@ && base64_bytes(text@) == Some(bytes@),
            None => base64_bytes(text@) is None && forall|bytes: Seq<u8>|
                base64_text(bytes) != text@,
        },
{
    let n: usize = text.unicode_len();
    let mut out: Vec<u8> = Vec::new();
    let mut i: usize = 0;
    let mut failed: bool = false;
    proof {
        assert(text@.skip(0) =~= text@);
        assert forall|rest: Seq<u8>| #[trigger] (out@ + rest) == rest by {
            assert(out@ + rest =~= rest);
        }
    }
    while !failed && n - i >= 4
        invariant
            i <= n,
            n == text@.len(),
            !failed ==> base64_bytes(text@) == match base64_bytes(text@.skip(i as int)) {
                Some(rest) => Some(out@ + rest),
                None => None::<Seq<u8>>,
            },
            failed ==> base64_bytes(text@) is None,
        decreases n - i + if failed { 0int } else { 1int },
    {
        let ghost tail = text@.skip(i as int);
        assert(tail[0] == text@[i as int] && tail[1] == text@[i + 1] && tail[2] == text@[i + 2]
            && tail[3] == text@[i + 3]);
        assert(tail.skip(4) =~= text@.skip(i + 4));
        match (
            sextet(text.get_char(i)),
            sextet(text.get_char(i + 1)),
            sextet(text.get_char(i + 2)),
            sextet(text.get_char(i + 3)),
        ) {
            (Some(a), Some(b), Some(c), Some(d)) => {
                let ghost before = out@;
                out.push(a * 4 + b / 16);
                out.push((b % 16) * 16 + c / 4);
                out.push((c % 4) * 64 + d);
                i = i + 4;
                assert forall|rest: Seq<u8>|
                    before + (seq![
                        (a as int * 4 + b as int / 16) as u8,
                        ((b as int % 16) * 16 + c as int / 4) as u8,
                        ((c as int % 4) * 64 + d as int) as u8,
                    ] + rest) == #[trigger] (out@ + rest) by {
                    assert(before + (seq![
                        (a as int * 4 + b as int / 16) as u8,
                        ((b as int % 16) * 16 + c as int / 4) as u8,
                        ((c as int % 4) * 64 + d as int) as u8,
                    ] + rest) =~= out@ + rest);
                }
            },
            _ => {
                failed = true;
            },
        }
    }
    if !failed {
        let ghost tail = text@.skip(i as int);
        let left: usize = n - i;
        if left == 0 {
            assert(out@ + Seq::<u8>::empty() =~= out@);
        } else if left == 1 {
            failed = true;
        } else if left == 2 {
            assert(tail[0] == text@[i as int] && tail[1] == text@[i + 1]);
            match (sextet(text.get_char(i)), sextet(text.get_char(i + 1))) {
                (Some(a), Some(b)) => {
                    if b % 16 == 0 {
                        let ghost before = out@;
                        out.push(a * 4 + b / 16);
                        assert(before + seq![(a as int * 4 + b as int / 16) as u8] =~= out@);
                    } else {
                        failed = true;
                    }
                },
                _ => {
                    failed = true;
                },
            }
        } else {
            assert(tail[0] == text@[i as int] && tail[1] == text@[i + 1] && tail[2] == text@[i
                + 2]);
            match (
                sextet(text.get_char(i)),
                sextet(text.get_char(i + 1)),
                sextet(text.get_char(i + 2)),
            ) {
                (Some(a), Some(b), Some(c)) => {
                    if c % 4 == 0 {
                        let ghost before = out@;
                        out.push(a * 4 + b / 16);
                        out.push((b % 16) * 16 + c / 4);
                        assert(before + seq![
                            (a as int * 4 + b as int / 16) as u8,
                            ((b as int % 16) * 16 + c as int / 4) as u8,
                        ] =~= out@);
                    } else {
                        failed = true;
                    }
                },
                _ => {
                    failed = true;
                },
            }
        }
    }
    if failed {
        proof {
            assert forall|bytes: Seq<u8>| base64_text(bytes) != text@ by {
                lemma_base64_round_trip(bytes);
            }
        }
        None
    } else {
        proof {
            lemma_base64_canonical(text@);
        }
        Some(out)
    }
}

} // verus!
