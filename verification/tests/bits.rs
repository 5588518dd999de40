use perceptual_hash::algorithm::HashAlgorithm;
use perceptual_hash::base64::decode_base64;
use perceptual_hash::bits::{hamming_distance, pack_bits, unpack_bits, BitVector};
use perceptual_hash::encoder::{decode, encode};

fn bits_of_pattern(count: usize, step: usize) -> Vec<bool> {
    (0..count).map(|i| i % step == 0).collect()
}

#[test]
fn first_bit_is_lowest_in_its_byte() {
    assert_eq!(pack_bits(&[true, false, false, false, false, false, false, false]), vec![0x01]);
    assert_eq!(pack_bits(&[false, false, false, false, false, false, false, true]), vec![0x80]);
    assert_eq!(pack_bits(&[true, false, true, true, false, true, false, false]), vec![0x2d]);
}

#[test]
fn sixteen_bits_pack_into_two_bytes() {
    let every_second: Vec<bool> = (0..16).map(|i| i & 1 == 0).collect();
    assert_eq!(pack_bits(&every_second), vec![0b0101_0101, 0b0101_0101]);
    let every_third: Vec<bool> = (0..16).map(|i| i % 3 == 0).collect();
    assert_eq!(pack_bits(&every_third), vec![0b0100_1001, 0b1001_0010]);
}

#[test]
fn partial_last_byte_is_filled_with_clear_bits() {
    assert_eq!(pack_bits(&[]), Vec::<u8>::new());
    assert_eq!(pack_bits(&[true]), vec![0x01]);
    assert_eq!(pack_bits(&[true, true, true, true, true, true, true, true, true]), vec![0xff, 0x01]);
}

#[test]
fn unpacking_reads_bits_from_the_low_end() {
    assert_eq!(
        unpack_bits(&[0x2d], 8),
        Some(vec![true, false, true, true, false, true, false, false])
    );
    let ten: Vec<bool> = vec![true; 8].into_iter().chain([false, false]).collect();
    assert_eq!(unpack_bits(&[0xff, 0x00], 10), Some(ten));
    assert_eq!(unpack_bits(&[0xff], 0), Some(vec![]));
    assert_eq!(unpack_bits(&[], 0), Some(vec![]));
}

#[test]
fn unpacking_needs_enough_bytes() {
    assert_eq!(unpack_bits(&[0xff], 9), None);
    assert_eq!(unpack_bits(&[], 1), None);
    assert_eq!(unpack_bits(&[0xff, 0xff], 17), None);
    assert_eq!(unpack_bits(&[0xff, 0xff], usize::MAX), None);
    assert_eq!(unpack_bits(&[0xff, 0xff], 16), Some(vec![true; 16]));
}

#[test]
fn unpacking_undoes_packing() {
    for count in [0usize, 1, 7, 8, 9, 40, 63, 64, 65] {
        for step in [1usize, 2, 3, 5, 7] {
            let bits = bits_of_pattern(count, step);
            let bytes = pack_bits(&bits);
            assert_eq!(bytes.len(), (count + 7) / 8);
            assert_eq!(unpack_bits(&bytes, count), Some(bits));
        }
    }
}

#[test]
fn packing_undoes_unpacking() {
    let bytes: Vec<u8> = (0..=255u8).collect();
    let bits = unpack_bits(&bytes, 8 * bytes.len()).unwrap();
    assert_eq!(pack_bits(&bits), bytes);
}

#[test]
fn hamming_distance_counts_differing_positions() {
    let a = [true, false, true, false];
    let b = [true, true, false, false];
    assert_eq!(hamming_distance(&a, &b), Some(2));
    assert_eq!(hamming_distance(&a, &a), Some(0));
    assert_eq!(hamming_distance(&[], &[]), Some(0));
    assert_eq!(hamming_distance(&[true; 64], &[false; 64]), Some(64));
}

#[test]
fn hamming_distance_needs_equal_lengths() {
    assert_eq!(hamming_distance(&[true], &[true, false]), None);
    assert_eq!(hamming_distance(&[], &[false]), None);
}

#[test]
fn hamming_distance_is_a_metric_on_samples() {
    let a = bits_of_pattern(64, 2);
    let b = bits_of_pattern(64, 3);
    let c = bits_of_pattern(64, 5);
    let ab = hamming_distance(&a, &b).unwrap();
    let ba = hamming_distance(&b, &a).unwrap();
    let bc = hamming_distance(&b, &c).unwrap();
    let ac = hamming_distance(&a, &c).unwrap();
    assert_eq!(ab, ba);
    assert!(ac <= ab + bc);
    assert!(ab > 0);
}

#[test]
fn bit_vector_has_the_length_of_its_algorithm() {
    assert!(BitVector::new(HashAlgorithm::Mean, vec![false; 64]).is_some());
    assert!(BitVector::new(HashAlgorithm::Mean, vec![false; 63]).is_none());
    assert!(BitVector::new(HashAlgorithm::Mean, vec![false; 40]).is_none());
    assert!(BitVector::new(HashAlgorithm::DoubleGradient, vec![false; 40]).is_some());
    assert!(BitVector::new(HashAlgorithm::DoubleGradient, vec![false; 64]).is_none());
    assert!(BitVector::from_bytes(HashAlgorithm::Gradient, &[0; 8]).is_some());
    assert!(BitVector::from_bytes(HashAlgorithm::Gradient, &[0; 7]).is_none());
    assert!(BitVector::from_bytes(HashAlgorithm::DoubleGradient, &[0; 5]).is_some());
    assert!(BitVector::from_bytes(HashAlgorithm::DoubleGradient, &[0; 8]).is_none());
}

#[test]
fn bit_vector_gives_its_parts() {
    let vector = BitVector::from_bytes(HashAlgorithm::Median, &[0x01, 0, 0, 0, 0, 0, 0, 0x80]).unwrap();
    assert_eq!(vector.algorithm(), HashAlgorithm::Median);
    assert_eq!(vector.len(), 64);
    assert_eq!(vector.get(0), Some(true));
    assert_eq!(vector.get(1), Some(false));
    assert_eq!(vector.get(63), Some(true));
    assert_eq!(vector.get(64), None);
    assert_eq!(vector.bits().len(), 64);
    assert_eq!(vector.to_bytes(), vec![0x01, 0, 0, 0, 0, 0, 0, 0x80]);
}

#[test]
fn bit_vectors_of_different_algorithms_have_no_distance() {
    let mean = BitVector::new(HashAlgorithm::Mean, vec![true; 64]).unwrap();
    let median = BitVector::new(HashAlgorithm::Median, vec![true; 64]).unwrap();
    let double = BitVector::new(HashAlgorithm::DoubleGradient, vec![true; 40]).unwrap();
    assert_eq!(mean.distance(&median), None);
    assert_eq!(mean.distance(&double), None);
    assert!(!mean.same(&median));
}

#[test]
fn bit_vectors_of_one_algorithm_have_their_hamming_distance() {
    let ones = BitVector::new(HashAlgorithm::Mean, vec![true; 64]).unwrap();
    let zeros = BitVector::new(HashAlgorithm::Mean, vec![false; 64]).unwrap();
    let mixed = BitVector::from_bytes(HashAlgorithm::Mean, &[0x0f; 8]).unwrap();
    assert_eq!(ones.distance(&zeros), Some(64));
    assert_eq!(ones.distance(&ones), Some(0));
    assert_eq!(ones.distance(&mixed), Some(32));
    assert_eq!(mixed.distance(&ones), Some(32));
    assert!(ones.same(&ones));
    assert!(!ones.same(&mixed));
}

#[test]
fn base64_matches_the_standard_vectors() {
    let cases: [(&str, &[u8]); 7] = [
        ("", b""),
        ("Zg", b"f"),
        ("Zm8", b"fo"),
        ("Zm9v", b"foo"),
        ("Zm9vYg", b"foob"),
        ("Zm9vYmE", b"fooba"),
        ("Zm9vYmFy", b"foobar"),
    ];
    for (text, bytes) in cases {
        assert_eq!(decode_base64(text), Some(bytes.to_vec()), "{:?}", text);
    }
}

#[test]
fn base64_uses_the_whole_standard_alphabet() {
    assert_eq!(decode_base64("+/+/"), Some(vec![0xfb, 0xff, 0xbf]));
    assert_eq!(decode_base64("AAAA"), Some(vec![0, 0, 0]));
    assert_eq!(decode_base64("////"), Some(vec![0xff, 0xff, 0xff]));
    assert_eq!(decode_base64("09az"), Some(vec![0xd3, 0xd6, 0xb3]));
}

#[test]
fn base64_refuses_what_is_no_canonical_text() {
    for text in ["Z", "Zg==", "Zg=", "Zh", "Zm9", "Zm 8", "Zm9v\n", "Zm9vY", "-_-_", "Zmé"] {
        assert_eq!(decode_base64(text), None, "{:?}", text);
    }
}

#[test]
fn encoding_gives_unpadded_standard_base64() {
    let vector = BitVector::from_bytes(HashAlgorithm::Mean, b"foobar!!").unwrap();
    assert_eq!(encode(&vector), "Zm9vYmFyISE");
    let short = BitVector::from_bytes(HashAlgorithm::DoubleGradient, b"fooba").unwrap();
    assert_eq!(encode(&short), "Zm9vYmE");
    let ones = BitVector::new(HashAlgorithm::Gradient, vec![true; 64]).unwrap();
    assert_eq!(encode(&ones), "//////////8");
    let zeros = BitVector::new(HashAlgorithm::Gradient, vec![false; 64]).unwrap();
    assert_eq!(encode(&zeros), "AAAAAAAAAAA");
}

#[test]
fn decoding_the_text_gives_the_bit_vector_back() {
    for step in [1usize, 2, 3, 5, 7, 11] {
        let vector = BitVector::new(HashAlgorithm::Gradient, bits_of_pattern(64, step)).unwrap();
        let text = encode(&vector);
        assert_eq!(text.len(), 11);
        let back = decode(HashAlgorithm::Gradient, &text).unwrap();
        assert!(back.same(&vector));
        assert_eq!(back.bits(), vector.bits());
        let short = BitVector::new(HashAlgorithm::DoubleGradient, bits_of_pattern(40, step)).unwrap();
        let text = encode(&short);
        assert_eq!(text.len(), 7);
        let back = decode(HashAlgorithm::DoubleGradient, &text).unwrap();
        assert!(back.same(&short));
    }
}

#[test]
fn decoding_refuses_text_of_another_length() {
    assert!(decode(HashAlgorithm::Gradient, "Zm9vYmE").is_none());
    assert!(decode(HashAlgorithm::DoubleGradient, "Zm9vYmFyISE").is_none());
    assert!(decode(HashAlgorithm::Gradient, "").is_none());
    assert!(decode(HashAlgorithm::Gradient, "Zm9vYmFyISE=").is_none());
    assert!(decode(HashAlgorithm::Gradient, "Zm9vYmFyISF").is_none());
}
