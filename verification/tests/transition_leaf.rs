use aleo_core::error::Error;
use aleo_core::field::Field;
use aleo_core::limbs::Limbs;
use aleo_core::transition_leaf::TransitionLeaf;

struct TestRng(u64);

impl TestRng {
    fn next(&mut self) -> u64 {
        self.0 ^= self.0 << 13;
        self.0 ^= self.0 >> 7;
        self.0 ^= self.0 << 17;
        self.0
    }

    fn field(&mut self) -> Field {
        let l3 = self.next() >> 4;
        Field::from_limbs(Limbs { l0: self.next(), l1: self.next(), l2: self.next(), l3 }).unwrap()
    }
}


fn to_bytes_le(leaf: &TransitionLeaf) -> Vec<u8> {
    let mut out = Vec::new();
    leaf.write_le(&mut out);
    out
}

#[test]
fn test_version_variant_validation() {
    let mut rng = TestRng(11);
    let id = rng.field();
    for variant in 0..=7 {
        let leaf = TransitionLeaf::new(0, variant, id);
        let bytes = to_bytes_le(&leaf);
        assert!(TransitionLeaf::read_le(&bytes[..], 0).is_ok());
    }
    let leaf_record = TransitionLeaf::new_record_with_dynamic_id(0, id);
    let bytes = to_bytes_le(&leaf_record);
    assert!(TransitionLeaf::read_le(&bytes[..], 0).is_ok());
    let leaf_external = TransitionLeaf::new_external_record_with_dynamic_id(0, id);
    let bytes = to_bytes_le(&leaf_external);
    assert!(TransitionLeaf::read_le(&bytes[..], 0).is_ok());
    for variant in [0u8, 1, 2, 5, 6, 7] {
        assert!(TransitionLeaf::from(2, 0, variant, id).is_err(), "Expected error for dynamic variant {variant}");
    }
}

#[test]
fn transition_leaf_layout_and_errors() {
    let leaf = TransitionLeaf::new(5, 3, Field::from_u64(1));
    let bytes = to_bytes_le(&leaf);
    assert_eq!(bytes.len(), 35);
    assert_eq!(&bytes[..4], &[1, 5, 3, 1]);
    assert_eq!(TransitionLeaf::from(3, 0, 0, Field::zero()), Err(Error::InvalidVersion));
    assert_eq!(TransitionLeaf::from(2, 0, 0, Field::zero()), Err(Error::InvalidVariant));
    assert_eq!(TransitionLeaf::read_le(&bytes[..34], 0), Err(Error::UnexpectedEnd));
    let mut bad = bytes.clone();
    bad[34] = 0xff;
    assert_eq!(TransitionLeaf::read_le(&bad, 0), Err(Error::NonCanonicalField));
}
