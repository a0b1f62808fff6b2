use aleo_core::error::Error;
use aleo_core::field::Field;
use aleo_core::plaintext_type::PlaintextType;
use aleo_core::literal_type::LiteralType;
use aleo_core::program_names::Identifier;
use aleo_core::register_type::ValueType;
use aleo_core::transition::{Input, Output, RecordCiphertext};

fn f(v: u64) -> Field {
    Field::from_u64(v)
}

/// A stand-in hash: the field element of the number of elements hashed.
fn count_hash(p: &[Field]) -> Result<Field, Error> {
    Ok(Field::from_u64(p.len() as u64))
}

/// A stand-in bit hash: the field element of the number of bits hashed.
fn count_bits_hash(p: &[bool]) -> Result<Field, Error> {
    Ok(Field::from_u64(p.len() as u64))
}

fn failing_hash(_p: &[Field]) -> Result<Field, Error> {
    Err(Error::Overflow)
}

#[test]
fn test_to_caller_input_record_with_dynamic_id() {
    let input = Input::RecordWithDynamicID(f(1), f(2), f(3));
    assert_eq!(input.to_caller_input(), Input::DynamicRecord(f(3)));
}

#[test]
fn test_to_caller_input_external_record_with_dynamic_id() {
    let input = Input::ExternalRecordWithDynamicID(f(10), f(20));
    assert_eq!(input.to_caller_input(), Input::DynamicRecord(f(20)));
}

#[test]
fn test_to_caller_input_non_dynamic_variants_unchanged() {
    let id = f(42);
    let constant = Input::Constant(id, None);
    assert_eq!(constant.to_caller_input(), constant);
    let public = Input::Public(id, None);
    assert_eq!(public.to_caller_input(), public);
    let dynamic_record = Input::DynamicRecord(id);
    assert_eq!(dynamic_record.to_caller_input(), dynamic_record);
    let external = Input::ExternalRecord(id);
    assert_eq!(external.to_caller_input(), external);
}

#[test]
fn test_to_caller_output_record_with_dynamic_id() {
    let output = Output::RecordWithDynamicID(f(1), f(2), None, None, f(3));
    assert_eq!(output.to_caller_output(), Output::DynamicRecord(f(3)));
}

#[test]
fn test_to_caller_output_external_record_with_dynamic_id() {
    let output = Output::ExternalRecordWithDynamicID(f(10), f(20));
    assert_eq!(output.to_caller_output(), Output::DynamicRecord(f(20)));
}

#[test]
fn test_to_caller_output_non_dynamic_variants_unchanged() {
    let id = f(42);
    let constant = Output::Constant(id, None);
    assert_eq!(constant.to_caller_output(), constant);
    let dynamic_record = Output::DynamicRecord(id);
    assert_eq!(dynamic_record.to_caller_output(), dynamic_record);
    let external = Output::ExternalRecord(id);
    assert_eq!(external.to_caller_output(), external);
}

#[test]
fn caller_view_is_idempotent() {
    let input = Input::RecordWithDynamicID(f(1), f(2), f(3));
    let once = input.to_caller_input();
    assert_eq!(once.to_caller_input(), once);
    let output = Output::ExternalRecordWithDynamicID(f(4), f(5));
    let once = output.to_caller_output();
    assert_eq!(once.to_caller_output(), once);
}

#[test]
fn input_variants_ids_and_leaves() {
    let inputs = [
        Input::Constant(f(1), None),
        Input::Public(f(2), None),
        Input::Private(f(3), None),
        Input::Record(f(4), f(40)),
        Input::ExternalRecord(f(5)),
        Input::DynamicRecord(f(6)),
        Input::RecordWithDynamicID(f(7), f(70), f(700)),
        Input::ExternalRecordWithDynamicID(f(8), f(800)),
    ];
    for (i, input) in inputs.iter().enumerate() {
        assert_eq!(input.variant() as usize, i);
        assert_eq!(input.id(), f(i as u64 + 1));
        let leaf = input.to_transition_leaf(9);
        assert_eq!(leaf.index(), 9);
        assert_eq!(leaf.id(), f(i as u64 + 1));
    }
    // A record input of a dynamic call is a record leaf of the dynamic leaf version.
    let leaf = inputs[6].to_transition_leaf(0);
    assert_eq!(leaf.variant(), 3);
    assert_eq!(leaf.version(), 2);
    let leaf = inputs[7].to_transition_leaf(0);
    assert_eq!(leaf.variant(), 4);
    assert_eq!(leaf.version(), 2);
    let leaf = inputs[0].to_transition_leaf(0);
    assert_eq!(leaf.version(), 1);

    assert_eq!(inputs[3].tag(), Some(f(40)));
    assert_eq!(inputs[6].tag(), Some(f(70)));
    assert_eq!(inputs[0].tag(), None);
    assert_eq!(inputs[3].serial_number(), Some(f(4)));
    assert_eq!(inputs[5].serial_number(), None);
    assert_eq!(inputs[6].dynamic_id(), Some(f(700)));
    assert_eq!(inputs[7].dynamic_id(), Some(f(800)));
    assert_eq!(inputs[4].dynamic_id(), None);
    assert_eq!(inputs[3].verifier_inputs(), vec![f(4), f(40)]);
    assert_eq!(inputs[1].verifier_inputs(), vec![f(2)]);
}

#[test]
fn input_is_type() {
    let literal = || PlaintextType::Literal(LiteralType::U64);
    let name = Identifier::from_str("token").unwrap();
    assert!(Input::Public(f(1), None).is_type(&ValueType::Public(literal())));
    assert!(!Input::Public(f(1), None).is_type(&ValueType::Private(literal())));
    assert!(Input::RecordWithDynamicID(f(1), f(2), f(3)).is_type(&ValueType::Record(name)));
    assert!(Input::DynamicRecord(f(1)).is_type(&ValueType::DynamicRecord));
    assert!(!Input::DynamicRecord(f(1)).is_type(&ValueType::DynamicFuture));
}

#[test]
fn input_verify_checks_the_hash() {
    let tcm = f(77);
    // The preimage of a public value is the function ID, its two field elements, the
    // transition commitment and the index: five elements.
    let good = Input::Public(f(5), Some(vec![f(1), f(2)]));
    assert!(good.verify(f(0), &tcm, 3, &count_hash));
    let bad = Input::Public(f(6), Some(vec![f(1), f(2)]));
    assert!(!bad.verify(f(0), &tcm, 3, &count_hash));
    // A private value hashes its field elements alone.
    let private = Input::Private(f(3), Some(vec![f(1), f(2), f(3)]));
    assert!(private.verify(f(0), &tcm, 0, &count_hash));
    // A missing value fails; a record passes.
    assert!(!Input::Constant(f(5), None).verify(f(0), &tcm, 0, &count_hash));
    assert!(Input::Record(f(1), f(2)).verify(f(0), &tcm, 0, &count_hash));
    // A hash that fails makes the check fail.
    assert!(!good.verify(f(0), &tcm, 3, &failing_hash));
}

#[test]
fn output_accessors() {
    let rc = RecordCiphertext { bits: vec![true; 16], version: 1, nonce: f(9) };
    let output = Output::Record(f(1), f(2), Some(rc), Some(f(3)));
    assert_eq!(output.variant(), 3);
    assert_eq!(output.id(), f(1));
    assert_eq!(output.commitment(), Some(f(1)));
    assert_eq!(output.checksum(), Some(f(2)));
    assert_eq!(output.nonce(), Some(f(9)));
    assert_eq!(output.sender_ciphertext(), Some(f(3)));
    assert_eq!(output.verifier_inputs(), vec![f(1), f(2), f(3)]);
    let future = Output::Future(f(4), None);
    assert_eq!(future.variant(), 5);
    assert_eq!(future.commitment(), None);
    assert_eq!(future.nonce(), None);
    let dynamic = Output::RecordWithDynamicID(f(1), f(2), None, None, f(3));
    assert_eq!(dynamic.dynamic_id(), Some(f(3)));
    assert_eq!(dynamic.variant(), 7);
    let leaf = dynamic.to_transition_leaf(4);
    assert_eq!(leaf.variant(), 3);
    assert_eq!(leaf.version(), 2);
}

#[test]
fn output_verify_checks_hashes_and_sender_ciphertext() {
    let tcm = f(77);
    // Version 1 record: the checksum hashes all sixteen bits.
    let rc = RecordCiphertext { bits: vec![true; 16], version: 1, nonce: f(9) };
    let output = Output::Record(f(1), f(16), Some(rc), Some(f(3)));
    assert!(output.verify(f(0), &tcm, 0, &count_hash, &count_bits_hash));
    // Version 0 record: the last eight bits (the version) are left out.
    let rc = RecordCiphertext { bits: vec![true; 16], version: 0, nonce: f(9) };
    let output = Output::Record(f(1), f(8), Some(rc), None);
    assert!(output.verify(f(0), &tcm, 0, &count_hash, &count_bits_hash));
    // A version 0 record with a sender ciphertext is refused.
    let rc = RecordCiphertext { bits: vec![true; 16], version: 0, nonce: f(9) };
    let output = Output::Record(f(1), f(8), Some(rc), Some(f(3)));
    assert!(!output.verify(f(0), &tcm, 0, &count_hash, &count_bits_hash));
    // A version 1 record needs a nonzero sender ciphertext.
    let rc = RecordCiphertext { bits: vec![true; 16], version: 1, nonce: f(9) };
    let output = Output::Record(f(1), f(16), Some(rc), Some(f(0)));
    assert!(!output.verify(f(0), &tcm, 0, &count_hash, &count_bits_hash));
    // A future hashes like a public value.
    let output = Output::Future(f(4), Some(vec![f(1)]));
    assert!(output.verify(f(0), &tcm, 0, &count_hash, &count_bits_hash));
    let output = Output::Future(f(5), Some(vec![f(1)]));
    assert!(!output.verify(f(0), &tcm, 0, &count_hash, &count_bits_hash));
    // External and dynamic records pass; a missing value fails.
    assert!(Output::ExternalRecord(f(1)).verify(f(0), &tcm, 0, &count_hash, &count_bits_hash));
    assert!(!Output::Private(f(1), None).verify(f(0), &tcm, 0, &count_hash, &count_bits_hash));
}

#[test]
fn taking_parts_of_inputs_and_outputs() {
    assert_eq!(Input::Record(f(1), f(2)).into_tag(), Some(f(2)));
    assert_eq!(Input::RecordWithDynamicID(f(1), f(2), f(3)).into_serial_number(), Some(f(1)));
    assert_eq!(Input::Public(f(1), None).into_tag(), None);
    assert_eq!(Input::DynamicRecord(f(1)).into_serial_number(), None);
    let rc = RecordCiphertext { bits: vec![true, false], version: 1, nonce: f(9) };
    let output = Output::RecordWithDynamicID(f(1), f(2), Some(rc), Some(f(3)), f(4));
    let (commitment, record) = output.into_record().unwrap();
    assert_eq!(commitment, f(1));
    assert_eq!(record.bits, vec![true, false]);
    assert_eq!(Output::Record(f(1), f(2), None, Some(f(3))).into_record(), None);
    assert_eq!(Output::Record(f(1), f(2), None, Some(f(3))).into_commitment(), Some(f(1)));
    assert_eq!(Output::Record(f(1), f(2), None, Some(f(3))).into_checksum(), Some(f(2)));
    assert_eq!(Output::Record(f(1), f(2), None, Some(f(3))).into_sender_ciphertext(), Some(f(3)));
    assert_eq!(Output::Record(f(1), f(2), None, Some(f(3))).into_nonce(), None);
    let rc = RecordCiphertext { bits: vec![], version: 0, nonce: f(9) };
    assert_eq!(Output::Record(f(1), f(2), Some(rc), None).into_nonce(), Some(f(9)));
    assert_eq!(Output::Future(f(1), None).into_commitment(), None);
}
