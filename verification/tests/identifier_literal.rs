use aleo_core::field::Field;
use aleo_core::identifier_literal::{IdentifierLiteral, IDENTIFIER_SIZE_IN_BITS, IDENTIFIER_SIZE_IN_BYTES};

const ITERATIONS: u64 = 1000;

/// A small deterministic generator of test values.
struct TestRng(u64);

impl TestRng {
    fn new() -> Self {
        TestRng(0x9e37_79b9_7f4a_7c15)
    }

    fn next(&mut self) -> u64 {
        self.0 ^= self.0 << 13;
        self.0 ^= self.0 >> 7;
        self.0 ^= self.0 << 17;
        self.0
    }

    /// A random identifier literal of 1 to 31 characters.
    fn identifier(&mut self) -> IdentifierLiteral {
        const LETTERS: &[u8] = b"abcdefghijklmnopqrstuvwxyzABCDEFGHIJKLMNOPQRSTUVWXYZ";
        const CHARS: &[u8] = b"abcdefghijklmnopqrstuvwxyzABCDEFGHIJKLMNOPQRSTUVWXYZ0123456789_";
        let len = 1 + (self.next() % 31) as usize;
        let mut s = String::new();
        s.push(LETTERS[(self.next() % LETTERS.len() as u64) as usize] as char);
        for _ in 1..len {
            s.push(CHARS[(self.next() % CHARS.len() as u64) as usize] as char);
        }
        IdentifierLiteral::new(&s).unwrap()
    }
}

fn to_bytes_le(id: &IdentifierLiteral) -> Vec<u8> {
    let mut out = Vec::new();
    id.write_le(&mut out);
    out
}

#[test]
fn bytes_test_bytes_roundtrip() {
    let mut rng = TestRng::new();
    for _ in 0..ITERATIONS {
        let expected = rng.identifier();
        let expected_bytes = to_bytes_le(&expected);
        let (recovered, _) = IdentifierLiteral::read_le(&expected_bytes[..], 0).unwrap();
        assert_eq!(expected, recovered);
    }
}

#[test]
fn test_bytes_single_char() {
    let expected = IdentifierLiteral::new("a").unwrap();
    let expected_bytes = to_bytes_le(&expected);
    let (recovered, _) = IdentifierLiteral::read_le(&expected_bytes[..], 0).unwrap();
    assert_eq!(expected, recovered);
}

#[test]
fn test_bytes_length_zero() {
    let bytes = [0u8];
    let result = IdentifierLiteral::read_le(&bytes[..], 0);
    assert!(result.is_err());
}

#[test]
fn test_bytes_length_exceeds_max() {
    let length = u8::try_from(IDENTIFIER_SIZE_IN_BYTES).expect("SIZE_IN_BYTES fits in u8") + 1;
    let mut bytes = vec![length];
    bytes.resize(length as usize + 1, b'a');
    let result = IdentifierLiteral::read_le(&bytes[..], 0);
    assert!(result.is_err());
}

#[test]
fn test_from_bits_le_roundtrip() {
    let mut rng = TestRng::new();
    for _ in 0..ITERATIONS {
        let literal = rng.identifier();
        let bits = literal.to_bits_le();
        let recovered = IdentifierLiteral::from_bits_le(&bits).unwrap();
        assert_eq!(literal, recovered);
    }
}

#[test]
fn test_from_bits_be_roundtrip() {
    let mut rng = TestRng::new();
    for _ in 0..ITERATIONS {
        let literal = rng.identifier();
        let bits = literal.to_bits_be();
        let recovered = IdentifierLiteral::from_bits_be(&bits).unwrap();
        assert_eq!(literal, recovered);
    }
}

#[test]
fn test_parse_valid() {
    let (remainder, literal) = IdentifierLiteral::parse("'hello'").unwrap();
    assert_eq!(remainder, "");
    assert_eq!(literal.to_string(), "'hello'");

    let (remainder, literal) = IdentifierLiteral::parse("'hello_world_42'").unwrap();
    assert_eq!(remainder, "");
    assert_eq!(literal.to_string(), "'hello_world_42'");

    let (remainder, literal) = IdentifierLiteral::parse("'a'").unwrap();
    assert_eq!(remainder, "");
    assert_eq!(literal.to_string(), "'a'");
}

#[test]
fn test_parse_with_remainder() {
    let (remainder, literal) = IdentifierLiteral::parse("'hello' rest").unwrap();
    assert_eq!(remainder, " rest");
    assert_eq!(literal.to_string(), "'hello'");
}

#[test]
fn test_parse_invalid() {
    assert!(IdentifierLiteral::parse("hello").is_err());
    assert!(IdentifierLiteral::parse("'hello").is_err());
    assert!(IdentifierLiteral::parse("''").is_err());
    assert!(IdentifierLiteral::parse("'hello world'").is_err());
    assert!(IdentifierLiteral::parse("'1abc'").is_err());
}

#[test]
fn test_parse_roundtrip() {
    let literal = IdentifierLiteral::new("hello_world").unwrap();
    let display = literal.to_string();
    let recovered = IdentifierLiteral::from_str(&display).unwrap();
    assert_eq!(literal, recovered);
}

#[test]
fn test_display() {
    let literal = IdentifierLiteral::new("hello").unwrap();
    assert_eq!(literal.to_string(), "'hello'");
}

#[test]
fn test_parse_random() {
    let mut rng = TestRng::new();
    for _ in 0..ITERATIONS {
        let expected = rng.identifier();
        let display = expected.to_string();
        let recovered = IdentifierLiteral::from_str(&display).unwrap();
        assert_eq!(expected, recovered);
    }
}

#[test]
fn test_to_bits_length() {
    let literal = IdentifierLiteral::new("hello").unwrap();
    let bits = literal.to_bits_le();
    assert_eq!(bits.len(), IDENTIFIER_SIZE_IN_BITS);
}

#[test]
fn test_to_bits_le_roundtrip() {
    let mut rng = TestRng::new();
    for _ in 0..ITERATIONS {
        let literal = rng.identifier();
        let bits_le = literal.to_bits_le();
        let recovered_field = Field::from_bits_le(&bits_le).unwrap();
        assert_eq!(literal.to_field().unwrap(), recovered_field);
    }
}

#[test]
fn test_to_bits_be_roundtrip() {
    let mut rng = TestRng::new();
    for _ in 0..ITERATIONS {
        let literal = rng.identifier();
        let bits_be = literal.to_bits_be();
        let bits_le: Vec<bool> = bits_be.iter().rev().copied().collect();
        let recovered_field = Field::from_bits_le(&bits_le).unwrap();
        assert_eq!(literal.to_field().unwrap(), recovered_field);
    }
}

#[test]
fn test_to_field() {
    let mut rng = TestRng::new();
    for _ in 0..ITERATIONS {
        let expected = rng.identifier();
        let candidate = expected.to_field().unwrap();
        let candidate_bits_le = candidate.to_bits_le();
        assert_eq!(Field::size_in_bits(), candidate_bits_le.len());
        let expected_bits = expected.to_bits_le();
        for (i, (expected_bit, candidate_bit)) in
            expected_bits.iter().zip(&candidate_bits_le[..IDENTIFIER_SIZE_IN_BITS]).enumerate()
        {
            assert_eq!(expected_bit, candidate_bit, "Mismatch at bit {i}");
        }
        for candidate_bit in &candidate_bits_le[IDENTIFIER_SIZE_IN_BITS..] {
            assert!(!candidate_bit);
        }
        let recovered = IdentifierLiteral::from_field(&candidate).unwrap();
        assert_eq!(expected, recovered);
    }
}

#[test]
fn identifier_literal_new_rejects_bad_text() {
    assert!(IdentifierLiteral::new("").is_err());
    assert!(IdentifierLiteral::new("1abc").is_err());
    assert!(IdentifierLiteral::new("ab-c").is_err());
    assert!(IdentifierLiteral::new(&"a".repeat(32)).is_err());
    assert!(IdentifierLiteral::new(&"a".repeat(31)).is_ok());
}

#[test]
fn identifier_literal_bytes_layout() {
    let id = IdentifierLiteral::new("ab").unwrap();
    assert_eq!(to_bytes_le(&id), vec![2, b'a', b'b']);
    let mut padded = vec![b'a', b'b'];
    padded.resize(31, 0);
    assert_eq!(id.to_bytes_array(), padded);
}

#[test]
fn identifier_literal_read_accepts_trailing_zero_content() {
    // Content bytes after the first zero must be zero; the content ends at the first zero.
    let (id, end) = IdentifierLiteral::read_le(&[2, b'a', 0], 0).unwrap();
    assert_eq!(id, IdentifierLiteral::new("a").unwrap());
    assert_eq!(end, 3);
    assert!(IdentifierLiteral::read_le(&[3, b'a', 0, b'b'], 0).is_err());
}

#[test]
fn identifier_literal_from_bits_rejects_excess_one() {
    let mut bits = IdentifierLiteral::new("hello").unwrap().to_bits_le();
    bits.extend([false; 5]);
    assert_eq!(IdentifierLiteral::from_bits_le(&bits).unwrap(), IdentifierLiteral::new("hello").unwrap());
    bits.push(true);
    assert!(IdentifierLiteral::from_bits_le(&bits).is_err());
    assert!(IdentifierLiteral::from_bits_le(&bits[..100]).is_err());
}

#[test]
fn identifier_literal_field_value() {
    // 'a' is the number 0x61.
    let f = IdentifierLiteral::new("a").unwrap().to_field().unwrap();
    assert_eq!(f, Field::from_u64(0x61));
    let g = IdentifierLiteral::new("ab").unwrap().cast_to_field().unwrap();
    assert_eq!(g, Field::from_u64(0x6261));
}

#[test]
fn identifier_literal_casts() {
    let id = IdentifierLiteral::new("z").unwrap();
    assert!(id.cast_to_boolean().is_err());
    assert_eq!(id.cast_to_identifier().unwrap(), id);
}

#[test]
fn identifier_literal_equality() {
    let a = IdentifierLiteral::new("abc").unwrap();
    let b = IdentifierLiteral::new("abc").unwrap();
    let c = IdentifierLiteral::new("abd").unwrap();
    assert!(a.is_equal(&b));
    assert!(!a.is_not_equal(&b));
    assert!(!a.is_equal(&c));
    assert!(a.is_not_equal(&c));
}

#[test]
fn identifier_literal_from_field_rejects_inner_zero() {
    let mut bytes = vec![0u8; 32];
    bytes[0] = b'a';
    bytes[2] = b'b';
    let field = Field::read_le(&bytes, 0).unwrap();
    assert!(IdentifierLiteral::from_field(&field).is_err());
}

#[test]
fn identifier_literal_parse_too_long() {
    let text = format!("'{}'", "a".repeat(32));
    assert!(IdentifierLiteral::parse(&text).is_err());
    assert!(IdentifierLiteral::from_str("'abc'x").is_err());
}
