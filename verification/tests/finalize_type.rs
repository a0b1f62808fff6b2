use aleo_core::error::Error;
use aleo_core::finalize_type::FinalizeType;
use aleo_core::literal_type::LiteralType;
use aleo_core::plaintext_type::PlaintextType;
use aleo_core::program_names::Locator;

fn roundtrip(text: &str) {
    let expected = FinalizeType::from_str(text).unwrap();
    let expected_bytes = expected.to_bytes_le();
    let (candidate, end) = FinalizeType::read_le(&expected_bytes[..], 0).unwrap();
    assert_eq!(expected, candidate);
    assert_eq!(end, expected_bytes.len());
}

#[test]
fn test_bytes_plaintext() {
    roundtrip("field.public");
}

#[test]
fn test_bytes_future() {
    roundtrip("credits.aleo/mint_public.future");
}

#[test]
fn test_bytes_dynamic_future() {
    roundtrip("dynamic.future");
}

#[test]
fn test_bytes_roundtrip() {
    for text in ["u64.public", "address.public", "signature.public", "test.aleo/foo.future", "dynamic.future"] {
        roundtrip(text);
    }
}

#[test]
fn finalize_type_parse_shapes() {
    assert_eq!(
        FinalizeType::from_str("field.public").unwrap(),
        FinalizeType::Plaintext(PlaintextType::Literal(LiteralType::Field))
    );
    assert_eq!(FinalizeType::from_str("dynamic.future").unwrap(), FinalizeType::DynamicFuture);
    let FinalizeType::Future(l) = FinalizeType::from_str("credits.aleo/mint_public.future").unwrap() else {
        panic!("expected a future");
    };
    let mut text = Vec::new();
    l.push_text(&mut text);
    assert_eq!(text, b"credits.aleo/mint_public".to_vec());
    // A struct, an external struct and an array.
    assert!(matches!(FinalizeType::from_str("point.public").unwrap(), FinalizeType::Plaintext(PlaintextType::Struct(_))));
    assert!(matches!(
        FinalizeType::from_str("token.aleo/info.public").unwrap(),
        FinalizeType::Plaintext(PlaintextType::ExternalStruct(_))
    ));
    let arr = FinalizeType::from_str("[u8; 4u32].public").unwrap();
    let mut text = Vec::new();
    arr.push_text(&mut text);
    assert_eq!(text, b"[u8; 4u32].public".to_vec());
    roundtrip("[[field; 2u32]; 3u32].public");
}

#[test]
fn finalize_type_parse_errors() {
    assert!(FinalizeType::from_str("field").is_err());
    assert!(FinalizeType::from_str("credits.btc/mint.future").is_err());
    assert_eq!(FinalizeType::from_str("field.public x"), Err(Error::TrailingInput));
    assert!(FinalizeType::from_str("[u8; 0u32].public").is_err());
}

#[test]
fn finalize_type_read_errors() {
    assert_eq!(FinalizeType::read_le(&[3], 0), Err(Error::InvalidVariant));
    assert_eq!(FinalizeType::read_le(&[], 0), Err(Error::UnexpectedEnd));
    assert_eq!(FinalizeType::read_le(&[2], 0).unwrap().0, FinalizeType::DynamicFuture);
    assert_eq!(FinalizeType::from_bytes_le(&[2, 0]), Err(Error::TrailingInput));
}

fn locator(text: &str) -> Locator {
    match FinalizeType::from_str(&format!("{text}.future")).unwrap() {
        FinalizeType::Future(l) => l,
        _ => panic!("expected a future"),
    }
}

#[test]
fn future_size_in_bits_counts_header_and_arguments() {
    let l = locator("credits.aleo/mint");
    // Header: 16 + 7*8 + 4*8 + 16 + 4*8 + 8 = 160 bits.
    let no_args = |_: &Locator| -> Result<Vec<FinalizeType>, Error> { Ok(vec![]) };
    let plain = |_: &PlaintextType, _: usize| -> Result<usize, Error> { Ok(64) };
    assert_eq!(FinalizeType::future_size_in_bits(&l, &plain, &no_args), Ok(160));
    // One plaintext argument of 64 bits: 1 + 16 + 64.
    let one_arg =
        |_: &Locator| -> Result<Vec<FinalizeType>, Error> { Ok(vec![FinalizeType::from_str("u64.public").unwrap()]) };
    assert_eq!(FinalizeType::future_size_in_bits(&l, &plain, &one_arg), Ok(241));
    assert_eq!(FinalizeType::future_size_in_bits_raw(&l, &plain, &one_arg), Ok(241));
    // A dynamic future argument: 1 + 16 + 1012.
    let dyn_arg = |_: &Locator| -> Result<Vec<FinalizeType>, Error> { Ok(vec![FinalizeType::DynamicFuture]) };
    assert_eq!(FinalizeType::future_size_in_bits(&l, &plain, &dyn_arg), Ok(160 + 1 + 16 + 1012));
    // A large argument takes a 32-bit length.
    let big = |_: &PlaintextType, _: usize| -> Result<usize, Error> { Ok(70000) };
    assert_eq!(FinalizeType::future_size_in_bits(&l, &big, &one_arg), Ok(160 + 1 + 32 + 70000));
}

#[test]
fn future_size_in_bits_errors() {
    let l = locator("credits.aleo/mint");
    let plain = |_: &PlaintextType, _: usize| -> Result<usize, Error> { Ok(64) };
    let missing = |_: &Locator| -> Result<Vec<FinalizeType>, Error> { Err(Error::NotFound) };
    assert_eq!(FinalizeType::future_size_in_bits(&l, &plain, &missing), Err(Error::NotFound));
    // A future whose argument is itself recurses until the depth limit.
    let selfref = |l: &Locator| -> Result<Vec<FinalizeType>, Error> { Ok(vec![FinalizeType::Future(l.clone())]) };
    assert_eq!(FinalizeType::future_size_in_bits(&l, &plain, &selfref), Err(Error::DepthExceeded));
    // An overflowing plaintext size.
    let huge = |_: &PlaintextType, _: usize| -> Result<usize, Error> { Ok(usize::MAX - 100) };
    let one_arg =
        |_: &Locator| -> Result<Vec<FinalizeType>, Error> { Ok(vec![FinalizeType::from_str("u64.public").unwrap()]) };
    assert_eq!(FinalizeType::future_size_in_bits(&l, &huge, &one_arg), Err(Error::Overflow));
}

#[test]
fn size_in_bits_internal_depth_limit() {
    let plain = |_: &PlaintextType, d: usize| -> Result<usize, Error> { Ok(d) };
    let no_args = |_: &Locator| -> Result<Vec<FinalizeType>, Error> { Ok(vec![]) };
    let t = FinalizeType::from_str("u8.public").unwrap();
    assert_eq!(t.size_in_bits_internal(&plain, &no_args, 32), Ok(32));
    assert_eq!(t.size_in_bits_internal(&plain, &no_args, 33), Err(Error::DepthExceeded));
    assert_eq!(FinalizeType::DynamicFuture.size_in_bits_internal(&plain, &no_args, 0), Ok(1012));
}
