use aleo_core::dynamic::{DynamicFuture, DynamicRecord};
use aleo_core::error::Error;
use aleo_core::field::Field;

fn sample_record() -> DynamicRecord {
    DynamicRecord::new_unchecked(Field::from_u64(0x1234), Field::from_u64(0xabcdef), Field::from_u64(0), 0)
}

fn sample_mismatched_record() -> DynamicRecord {
    DynamicRecord::new_unchecked(Field::from_u64(0x1234), Field::from_u64(0xabcdee), Field::from_u64(0), 0)
}

#[test]
fn equal_test_is_equal() {
    let record = sample_record();
    let mismatched_record = sample_mismatched_record();
    assert!(record.is_equal(&record));
    assert!(!record.is_equal(&mismatched_record));
}

#[test]
fn test_is_not_equal() {
    let record = sample_record();
    let mismatched_record = sample_mismatched_record();
    assert!(record.is_not_equal(&mismatched_record));
    assert!(!record.is_not_equal(&record));
}

#[test]
fn dynamic_record_bytes_roundtrip() {
    let expected = DynamicRecord::new_unchecked(Field::from_u64(1), Field::from_u64(2), Field::from_u64(3), 1);
    let mut bytes = Vec::new();
    expected.write_le(&mut bytes);
    assert_eq!(bytes.len(), 98);
    assert_eq!(bytes[0], 1);
    let (candidate, end) = DynamicRecord::read_le(&bytes, 0).unwrap();
    assert_eq!(end, 98);
    assert_eq!(expected.owner(), candidate.owner());
    assert_eq!(expected.root(), candidate.root());
    assert_eq!(expected.nonce(), candidate.nonce());
    assert_eq!(expected.version(), candidate.version());
    bytes[0] = 2;
    assert_eq!(DynamicRecord::read_le(&bytes, 0), Err(Error::InvalidVersion));
    assert_eq!(DynamicRecord::read_le(&bytes[..97], 0).map(|_| ()), Err(Error::InvalidVersion));
}

#[test]
fn dynamic_record_bits_and_size() {
    let record = sample_record();
    let mut le = Vec::new();
    record.write_bits_le(&mut le);
    assert_eq!(le.len(), 767);
    assert_eq!(DynamicRecord::size_in_bits(), Ok(767));
    assert_eq!(DynamicRecord::size_in_bits_raw(), Ok(767));
    let mut be = Vec::new();
    record.write_bits_be(&mut be);
    assert_eq!(be.len(), 767);
    // The owner's bits come first, most significant first.
    let mut owner_le = Field::from_u64(0x1234).to_bits_le();
    owner_le.reverse();
    assert_eq!(&be[..253], &owner_le[..]);
}

#[test]
fn dynamic_future_bytes_and_equality() {
    let a = DynamicFuture::new_unchecked(Field::from_u64(1), Field::from_u64(2), Field::from_u64(3), Field::from_u64(4));
    let b = DynamicFuture::new_unchecked(Field::from_u64(1), Field::from_u64(2), Field::from_u64(3), Field::from_u64(5));
    assert!(a.is_equal(&a));
    assert!(a.is_not_equal(&b));
    let mut bytes = Vec::new();
    a.write_le(&mut bytes);
    assert_eq!(bytes.len(), 129);
    let (c, end) = DynamicFuture::read_le(&bytes, 0).unwrap();
    assert_eq!(end, 129);
    assert!(c.is_equal(&a));
    assert_eq!(c.checksum(), Field::from_u64(4));
    let mut bits = Vec::new();
    a.write_bits_le(&mut bits);
    assert_eq!(bits.len(), 1012);
    assert_eq!(DynamicFuture::size_in_bits(), Ok(1012));
}
