use perceptual_hash::algorithm::HashAlgorithm;
use perceptual_hash::envelope::Request;
use perceptual_hash::error::{Stage, TypedError};

const ALL: [HashAlgorithm; 8] = [
    HashAlgorithm::Mean,
    HashAlgorithm::Gradient,
    HashAlgorithm::VertGradient,
    HashAlgorithm::DoubleGradient,
    HashAlgorithm::BlockMean,
    HashAlgorithm::Median,
    HashAlgorithm::Blockhash,
    HashAlgorithm::Dct,
];

#[test]
fn every_name_selects_its_algorithm() {
    for algorithm in ALL {
        let name = algorithm.name();
        assert_eq!(HashAlgorithm::from_selector(&name).unwrap(), algorithm);
    }
}

#[test]
fn names_are_spelled_as_documented() {
    assert_eq!(HashAlgorithm::Mean.name(), "Mean");
    assert_eq!(HashAlgorithm::Gradient.name(), "Gradient");
    assert_eq!(HashAlgorithm::VertGradient.name(), "VertGradient");
    assert_eq!(HashAlgorithm::DoubleGradient.name(), "DoubleGradient");
    assert_eq!(HashAlgorithm::BlockMean.name(), "BlockMean");
    assert_eq!(HashAlgorithm::Median.name(), "Median");
    assert_eq!(HashAlgorithm::Blockhash.name(), "Blockhash");
    assert_eq!(HashAlgorithm::Dct.name(), "DCT");
}

#[test]
fn selectors_ignore_letter_case() {
    assert_eq!(HashAlgorithm::from_selector("mean").unwrap(), HashAlgorithm::Mean);
    assert_eq!(HashAlgorithm::from_selector("MEAN").unwrap(), HashAlgorithm::Mean);
    assert_eq!(HashAlgorithm::from_selector("gRaDiEnT").unwrap(), HashAlgorithm::Gradient);
    assert_eq!(HashAlgorithm::from_selector("vertgradient").unwrap(), HashAlgorithm::VertGradient);
    assert_eq!(
        HashAlgorithm::from_selector("DOUBLEGRADIENT").unwrap(),
        HashAlgorithm::DoubleGradient
    );
    assert_eq!(HashAlgorithm::from_selector("blockmean").unwrap(), HashAlgorithm::BlockMean);
    assert_eq!(HashAlgorithm::from_selector("median").unwrap(), HashAlgorithm::Median);
    assert_eq!(HashAlgorithm::from_selector("BLOCKHASH").unwrap(), HashAlgorithm::Blockhash);
    assert_eq!(HashAlgorithm::from_selector("dct").unwrap(), HashAlgorithm::Dct);
    assert_eq!(HashAlgorithm::from_selector("Dct").unwrap(), HashAlgorithm::Dct);
}

#[test]
fn unknown_selector_is_unsupported_algorithm() {
    match HashAlgorithm::from_selector("not-a-real-algo") {
        Err(TypedError::UnsupportedAlgorithm(text)) => assert_eq!(text, "not-a-real-algo"),
        other => panic!("expected UnsupportedAlgorithm, got {:?}", other),
    }
}

#[test]
fn near_misses_are_refused() {
    for selector in ["", " mean", "mean ", "means", "mea", "block-mean", "block_hash", "d c t", "Μean"] {
        assert!(
            matches!(
                HashAlgorithm::from_selector(selector),
                Err(TypedError::UnsupportedAlgorithm(_))
            ),
            "{:?} was accepted",
            selector
        );
    }
}

#[test]
fn absent_selector_resolves_to_gradient() {
    assert_eq!(HashAlgorithm::resolve(None).unwrap(), HashAlgorithm::Gradient);
    assert_eq!(HashAlgorithm::default(), HashAlgorithm::Gradient);
    assert_eq!(HashAlgorithm::resolve(Some("median")).unwrap(), HashAlgorithm::Median);
    assert!(matches!(
        HashAlgorithm::resolve(Some("nope")),
        Err(TypedError::UnsupportedAlgorithm(_))
    ));
}

#[test]
fn bit_counts_are_fixed_per_algorithm() {
    for algorithm in ALL {
        let expected = if algorithm == HashAlgorithm::DoubleGradient { 40 } else { 64 };
        assert_eq!(algorithm.bit_count(), expected);
        assert_eq!(algorithm.byte_count() * 8, expected);
    }
}

#[test]
fn working_resolutions_are_fixed_per_algorithm() {
    assert_eq!(HashAlgorithm::Mean.working_resolution(), (8, 8));
    assert_eq!(HashAlgorithm::Gradient.working_resolution(), (9, 8));
    assert_eq!(HashAlgorithm::VertGradient.working_resolution(), (8, 9));
    assert_eq!(HashAlgorithm::DoubleGradient.working_resolution(), (5, 5));
    assert_eq!(HashAlgorithm::BlockMean.working_resolution(), (16, 16));
    assert_eq!(HashAlgorithm::Median.working_resolution(), (8, 8));
    assert_eq!(HashAlgorithm::Blockhash.working_resolution(), (8, 8));
    assert_eq!(HashAlgorithm::Dct.working_resolution(), (16, 16));
}

#[test]
fn request_without_selector_uses_gradient() {
    let request = Request::parse("images/cat.png", None).unwrap();
    assert_eq!(request.path, "images/cat.png");
    assert_eq!(request.algorithm, HashAlgorithm::Gradient);
}

#[test]
fn request_with_selector_uses_it() {
    let request = Request::parse("a/b", Some("blockhash")).unwrap();
    assert_eq!(request.path, "a/b");
    assert_eq!(request.algorithm, HashAlgorithm::Blockhash);
}

#[test]
fn request_with_unknown_selector_is_refused() {
    match Request::parse("a/b", Some("not-a-real-algo")) {
        Err(TypedError::UnsupportedAlgorithm(text)) => assert_eq!(text, "not-a-real-algo"),
        other => panic!("expected UnsupportedAlgorithm, got {:?}", other),
    }
}

#[test]
fn errors_carry_their_stage() {
    assert_eq!(TypedError::S3Get.stage(), Stage::Fetch);
    assert_eq!(TypedError::S3Download("x".to_string()).stage(), Stage::Fetch);
    assert_eq!(TypedError::InvalidFormat("x".to_string()).stage(), Stage::Decode);
    assert_eq!(TypedError::UnsupportedAlgorithm("x".to_string()).stage(), Stage::Selection);
    assert_eq!(TypedError::TooLarge.stage(), Stage::Transform);
}

#[test]
fn stages_name_the_kind_of_error() {
    assert_eq!(Stage::Fetch.name(), "FetchError");
    assert_eq!(Stage::Decode.name(), "DecodeError");
    assert_eq!(Stage::Selection.name(), "UnsupportedAlgorithm");
    assert_eq!(Stage::Transform.name(), "TransformError");
}

#[test]
fn errors_render_their_message() {
    assert_eq!(TypedError::S3Get.message(), "Failed to retrieve from S3");
    assert_eq!(
        TypedError::S3Download("timed out".to_string()).message(),
        "Failed to download from S3: `timed out`"
    );
    assert_eq!(
        TypedError::InvalidFormat("bad header".to_string()).message(),
        "Invalid image format `bad header` guessed"
    );
    assert_eq!(
        TypedError::UnsupportedAlgorithm("not-a-real-algo".to_string()).message(),
        "Unsupported hash algorithm `not-a-real-algo`"
    );
    assert_eq!(TypedError::TooLarge.message(), "Image too large for the hash algorithm");
}
