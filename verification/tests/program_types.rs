use aleo_core::error::Error;
use aleo_core::literal_type::{bytes_equal, LiteralType, NUM_LITERAL_TYPES};
use aleo_core::plaintext_type::{ArrayType, PlaintextType};
use aleo_core::program_names::{Identifier, Locator, ProgramID};
use aleo_core::varuna::{SNARKMode, VarunaHidingMode, VarunaNonHidingMode, VarunaVersion};

fn id(s: &str) -> Identifier {
    Identifier::from_str(s).unwrap()
}

fn program(name: &str) -> ProgramID {
    ProgramID::try_from(id(name), id("aleo")).unwrap()
}

fn text_of(t: &PlaintextType) -> String {
    let mut out = Vec::new();
    t.push_text(&mut out);
    String::from_utf8(out).unwrap()
}

fn parse(text: &str) -> Result<(PlaintextType, usize), Error> {
    PlaintextType::parse_at(text.as_bytes(), 0)
}

#[test]
fn varuna_modes_and_versions() {
    assert!(VarunaHidingMode::zk());
    assert!(!VarunaNonHidingMode::zk());
    let mut out = Vec::new();
    VarunaVersion::V1.write_le(&mut out);
    VarunaVersion::V2.write_le(&mut out);
    assert_eq!(out, vec![1, 2]);
    assert_eq!(VarunaVersion::read_le(&out, 0), Ok((VarunaVersion::V1, 1)));
    assert_eq!(VarunaVersion::read_le(&out, 1), Ok((VarunaVersion::V2, 2)));
    assert_eq!(VarunaVersion::read_le(&out, 2), Err(Error::UnexpectedEnd));
    assert_eq!(VarunaVersion::read_le(&[0], 0), Err(Error::InvalidVersion));
    assert_eq!(VarunaVersion::read_le(&[3], 0), Err(Error::InvalidVersion));
}

#[test]
fn literal_type_names_and_bytes() {
    assert_eq!(NUM_LITERAL_TYPES, 18);
    for i in 0..NUM_LITERAL_TYPES {
        let t = LiteralType::from_index(i).unwrap();
        assert_eq!(t.index(), i);
        assert_eq!(LiteralType::from_name(&t.name()), Some(t));
        let mut out = Vec::new();
        t.write_le(&mut out);
        assert_eq!(out, vec![i as u8, 0]);
        assert_eq!(LiteralType::read_le(&out, 0), Ok((t, 2)));
    }
    assert_eq!(LiteralType::from_index(18), None);
    assert_eq!(LiteralType::U64.name(), b"u64".to_vec());
    assert_eq!(LiteralType::Identifier.name(), b"identifier".to_vec());
    assert_eq!(LiteralType::from_name(b"field"), Some(LiteralType::Field));
    assert_eq!(LiteralType::from_name(b"u256"), None);
    assert_eq!(LiteralType::read_le(&[18, 0], 0), Err(Error::InvalidVariant));
    assert_eq!(LiteralType::read_le(&[1], 0), Err(Error::UnexpectedEnd));
    assert!(bytes_equal(b"abc", b"abc"));
    assert!(!bytes_equal(b"abc", b"abd"));
}

#[test]
fn identifiers_and_program_ids() {
    assert!(Identifier::from_str("hello_world1").is_ok());
    assert!(Identifier::from_str("1abc").is_err());
    assert!(Identifier::from_str("").is_err());
    assert!(Identifier::from_str("a-b").is_err());
    let name = id("credits");
    assert_eq!(name.len(), 7);
    assert!(name.is_equal(&id("credits")));
    assert!(!name.is_equal(&id("credit")));
    // A program's network must be `aleo`.
    assert!(ProgramID::try_from(id("credits"), id("aleo")).is_ok());
    assert!(ProgramID::try_from(id("credits"), id("eth")).is_err());

    let mut out = Vec::new();
    name.write_le(&mut out);
    assert_eq!(out[0], 7);
    assert_eq!(&out[1..], b"credits");
    let (back, end) = Identifier::read_le(&out, 0).unwrap();
    assert!(back.is_equal(&name));
    assert_eq!(end, 8);

    let locator = Locator::new(program("credits"), id("mint_public"));
    let mut text = Vec::new();
    locator.push_text(&mut text);
    assert_eq!(text, b"credits.aleo/mint_public".to_vec());
    let (parsed, end) = Locator::parse_at(&text, 0).unwrap();
    assert!(parsed.is_equal(&locator));
    assert_eq!(end, text.len());
    let mut bytes = Vec::new();
    locator.write_le(&mut bytes);
    let (read, end) = Locator::read_le(&bytes, 0).unwrap();
    assert!(read.is_equal(&locator));
    assert_eq!(end, bytes.len());
    assert!(Locator::parse_at(b"credits.eth/mint", 0).is_err());
}

#[test]
fn plaintext_type_text_and_bytes() {
    for text in ["u64", "token", "[u8; 4u32]", "[[field; 2u32]; 3u32]", "credits.aleo/token"] {
        let (t, end) = parse(text).unwrap();
        assert_eq!(end, text.len());
        assert_eq!(text_of(&t), text);
        let mut bytes = Vec::new();
        t.write_le(&mut bytes);
        let (back, end) = PlaintextType::read_le(&bytes, 0).unwrap();
        assert!(back.is_equal(&t));
        assert_eq!(end, bytes.len());
    }
    let array = PlaintextType::Array(ArrayType {
        element: Box::new(PlaintextType::Literal(LiteralType::U8)),
        length: 4,
    });
    assert_eq!(text_of(&array), "[u8; 4u32]");
    assert!(parse("[u8; 4]").is_err());
}

#[test]
fn plaintext_type_qualify_and_externals() {
    let local = PlaintextType::Struct(id("point"));
    assert!(!local.contains_external_struct());
    let qualified = local.qualify(&program("geo"));
    assert!(qualified.contains_external_struct());
    assert_eq!(text_of(&qualified), "geo.aleo/point");
    // Nested structs are qualified too; literals stay.
    let (nested, _) = parse("[point; 2u32]").unwrap();
    assert_eq!(text_of(&nested.qualify(&program("geo"))), "[geo.aleo/point; 2u32]");
    let (literal, _) = parse("u8").unwrap();
    assert_eq!(text_of(&literal.qualify(&program("geo"))), "u8");
}
