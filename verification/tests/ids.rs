use aleo_core::error::Error;
use aleo_core::field::Field;
use aleo_core::ids::{
    callback_outputs, output_mode, to_dynamic_input_ids, to_dynamic_output_ids, InputID, Mode, OutputID, Request, Response,
    ValueFields,
};
use aleo_core::literal_type::LiteralType;
use aleo_core::plaintext_type::PlaintextType;
use aleo_core::program_names::Identifier;
use aleo_core::register_type::ValueType;

fn f(v: u64) -> Field {
    Field::from_u64(v)
}

/// A stand-in hash: the field element of the sum of the low words of the elements hashed.
fn sum_hash(p: &[Field]) -> Result<Field, Error> {
    let mut total = 0u64;
    for x in p {
        total += x.limbs().l0;
    }
    Ok(Field::from_u64(total))
}

fn failing_hash(_p: &[Field]) -> Result<Field, Error> {
    Err(Error::Overflow)
}

#[test]
fn input_ids_hash_their_preimage() {
    let plaintext = ValueFields::Plaintext(vec![f(10), f(20)]);
    // function ID 1 + 10 + 20 + tcm 100 + index 3.
    assert_eq!(InputID::constant(f(1), &plaintext, f(100), 3, &sum_hash), Ok(InputID::Constant(f(134))));
    assert_eq!(InputID::public(f(1), &plaintext, f(100), 3, &sum_hash), Ok(InputID::Public(f(134))));
    assert_eq!(InputID::public(f(1), &plaintext, f(100), 3, &sum_hash).unwrap().id(), f(134));
    let record = ValueFields::Record(vec![f(5)]);
    assert_eq!(InputID::external_record(f(1), &record, f(7), 0, &sum_hash), Ok(InputID::ExternalRecord(f(13))));
    let dynamic = ValueFields::DynamicRecord(vec![f(5), f(6)]);
    assert_eq!(InputID::dynamic_record(f(1), &dynamic, f(7), 2, &sum_hash), Ok(InputID::DynamicRecord(f(21))));
    // The kind of the value must match.
    assert_eq!(InputID::constant(f(1), &record, f(100), 3, &sum_hash), Err(Error::InvalidVariant));
    assert_eq!(InputID::external_record(f(1), &plaintext, f(7), 0, &sum_hash), Err(Error::InvalidVariant));
    assert_eq!(InputID::dynamic_record(f(1), &record, f(7), 0, &sum_hash), Err(Error::InvalidVariant));
    // A failing hash fails the ID.
    assert_eq!(InputID::constant(f(1), &plaintext, f(100), 3, &failing_hash), Err(Error::Overflow));
    assert_eq!(InputID::Record(f(9), f(1), f(2), f(3), f(4)).id(), f(9));
}

#[test]
fn output_ids_hash_their_preimage() {
    let plaintext = ValueFields::Plaintext(vec![f(10)]);
    assert_eq!(OutputID::constant(f(1), &plaintext, f(100), 2, &sum_hash), Ok(OutputID::Constant(f(113))));
    assert_eq!(OutputID::public(f(1), &plaintext, f(100), 2, &sum_hash), Ok(OutputID::Public(f(113))));
    let future = ValueFields::Future(vec![f(4), f(4)]);
    assert_eq!(OutputID::future(f(1), &future, f(100), 2, &sum_hash), Ok(OutputID::Future(f(111))));
    assert_eq!(OutputID::future(f(1), &plaintext, f(100), 2, &sum_hash), Err(Error::InvalidVariant));
    let record = ValueFields::Record(vec![f(5)]);
    assert_eq!(OutputID::external_record(f(1), &record, f(7), 1, &sum_hash), Ok(OutputID::ExternalRecord(f(14))));
    let dynamic_record = ValueFields::DynamicRecord(vec![f(5)]);
    assert_eq!(
        OutputID::dynamic_record(f(1), &dynamic_record, f(7), 1, &sum_hash),
        Ok(OutputID::DynamicRecord(f(14)))
    );
    let dynamic_future = ValueFields::DynamicFuture(vec![f(5)]);
    assert_eq!(
        OutputID::dynamic_future(f(1), &dynamic_future, f(100), 1, &sum_hash),
        Ok(OutputID::DynamicFuture(f(107)))
    );
    assert_eq!(OutputID::dynamic_future(f(1), &dynamic_record, f(100), 1, &sum_hash), Err(Error::InvalidVariant));
    assert_eq!(OutputID::Record(f(9), f(1), f(2)).id(), f(9));
}

#[test]
fn dynamic_output_ids() {
    let output_ids = [OutputID::Public(f(50)), OutputID::Record(f(1), f(2), f(3)), OutputID::Future(f(4))];
    let caller_outputs = [
        ValueFields::Plaintext(vec![f(1)]),
        ValueFields::DynamicRecord(vec![f(5)]),
        ValueFields::DynamicFuture(vec![f(6)]),
    ];
    // With two inputs, the outputs take the indices 2, 3 and 4.
    let ids = to_dynamic_output_ids(&output_ids, &caller_outputs, f(1), 2, f(7), f(100), &sum_hash).unwrap();
    assert_eq!(ids, vec![OutputID::Public(f(50)), OutputID::DynamicRecord(f(16)), OutputID::DynamicFuture(f(111))]);
    // A record output whose caller form is not a dynamic record is refused.
    let wrong = [
        ValueFields::Plaintext(vec![f(1)]),
        ValueFields::Record(vec![f(5)]),
        ValueFields::DynamicFuture(vec![f(6)]),
    ];
    assert_eq!(
        to_dynamic_output_ids(&output_ids, &wrong, f(1), 2, f(7), f(100), &sum_hash),
        Err(Error::InvalidVariant)
    );
    assert_eq!(
        to_dynamic_output_ids(&output_ids, &caller_outputs[..2], f(1), 2, f(7), f(100), &sum_hash),
        Err(Error::InvalidLength)
    );
}

#[test]
fn dynamic_input_ids() {
    let input_ids = [
        InputID::Private(f(40)),
        InputID::Record(f(1), f(2), f(3), f(4), f(5)),
        InputID::ExternalRecord(f(6)),
        InputID::DynamicRecord(f(7)),
    ];
    let inputs = [
        ValueFields::Plaintext(vec![f(1)]),
        ValueFields::Record(vec![f(2)]),
        ValueFields::Record(vec![f(3)]),
        ValueFields::DynamicRecord(vec![f(4)]),
    ];
    let caller_inputs = [
        ValueFields::Plaintext(vec![f(1)]),
        ValueFields::DynamicRecord(vec![f(20)]),
        ValueFields::DynamicRecord(vec![f(30)]),
        ValueFields::DynamicRecord(vec![f(4)]),
    ];
    let ids = to_dynamic_input_ids(&input_ids, &inputs, &caller_inputs, f(1), f(7), &sum_hash).unwrap();
    // Record inputs become dynamic records at their own index: 1 + 20 + 7 + 1, 1 + 30 + 7 + 2.
    assert_eq!(
        ids,
        vec![InputID::Private(f(40)), InputID::DynamicRecord(f(29)), InputID::DynamicRecord(f(40)), InputID::DynamicRecord(f(7))]
    );
    // A mismatch of ID and value is refused.
    let mismatched = [
        ValueFields::Record(vec![f(1)]),
        ValueFields::Record(vec![f(2)]),
        ValueFields::Record(vec![f(3)]),
        ValueFields::DynamicRecord(vec![f(4)]),
    ];
    assert_eq!(
        to_dynamic_input_ids(&input_ids, &mismatched, &caller_inputs, f(1), f(7), &sum_hash),
        Err(Error::InvalidVariant)
    );
    assert_eq!(
        to_dynamic_input_ids(&input_ids[..3], &inputs, &caller_inputs, f(1), f(7), &sum_hash),
        Err(Error::InvalidLength)
    );
}

/// A stand-in cipher: each element's low word plus the key's.
fn add_cipher(p: &[Field], key: Field) -> Result<Vec<Field>, Error> {
    Ok(p.iter().map(|x| Field::from_u64(x.limbs().l0 + key.limbs().l0)).collect())
}

#[test]
fn private_ids_hash_the_ciphertext() {
    let plaintext = ValueFields::Plaintext(vec![f(10), f(20)]);
    // The view key is 1 + 7 + 2 = 10; the ciphertext is [20, 30]; its hash 50.
    assert_eq!(
        InputID::private(f(1), &plaintext, f(7), 2, &sum_hash, &add_cipher, &sum_hash),
        Ok(InputID::Private(f(50)))
    );
    assert_eq!(
        OutputID::private(f(1), &plaintext, f(7), 2, &sum_hash, &add_cipher, &sum_hash),
        Ok(OutputID::Private(f(50)))
    );
    let record = ValueFields::Record(vec![f(5)]);
    assert_eq!(
        InputID::private(f(1), &record, f(7), 2, &sum_hash, &add_cipher, &sum_hash),
        Err(Error::InvalidVariant)
    );
    assert_eq!(
        OutputID::private(f(1), &plaintext, f(7), 2, &failing_hash, &add_cipher, &sum_hash),
        Err(Error::Overflow)
    );
}

/// A stand-in record ID: the register's locator as the commitment, the name's length as
/// the checksum.
fn record_id(name: &Identifier, _record: &Vec<Field>, locator: u64) -> Result<(Field, Field, Field), Error> {
    Ok((Field::from_u64(locator), Field::from_u64(name.len() as u64), Field::from_u64(0)))
}

fn u64_type() -> PlaintextType {
    PlaintextType::Literal(LiteralType::U64)
}

#[test]
fn response_output_ids_by_type() {
    let outputs = vec![
        ValueFields::Plaintext(vec![f(10)]),
        ValueFields::Plaintext(vec![f(10)]),
        ValueFields::Record(vec![f(3)]),
        ValueFields::Future(vec![f(4)]),
        ValueFields::DynamicRecord(vec![f(5)]),
    ];
    let types = [
        ValueType::Public(u64_type()),
        ValueType::Private(u64_type()),
        ValueType::Record(Identifier::from_str("token").unwrap()),
        ValueType::Future(aleo_core::program_names::Locator::parse_at(b"credits.aleo/mint", 0).unwrap().0),
        ValueType::DynamicRecord,
    ];
    let registers = [None, None, Some(9), None, None];
    // One input: the outputs take the indices 1 to 5.
    let response = Response::new(
        f(1),
        1,
        f(7),
        f(100),
        outputs,
        &types,
        &registers,
        &sum_hash,
        &add_cipher,
        &sum_hash,
        &record_id,
    )
    .unwrap();
    // Public: 1 + 10 + 100 + 1. Private: key 1 + 7 + 2 = 10, ciphertext [20]. Record: by
    // its register. Future: 1 + 4 + 100 + 4. Dynamic record: 1 + 5 + 7 + 5.
    assert_eq!(
        response.output_ids(),
        &[
            OutputID::Public(f(112)),
            OutputID::Private(f(20)),
            OutputID::Record(f(9), f(5), f(0)),
            OutputID::Future(f(109)),
            OutputID::DynamicRecord(f(18)),
        ]
    );
    assert_eq!(response.outputs().len(), 5);
    // A record output needs a register.
    let missing = Response::new(
        f(1),
        0,
        f(7),
        f(100),
        vec![ValueFields::Record(vec![f(3)])],
        &[ValueType::Record(Identifier::from_str("token").unwrap())],
        &[None],
        &sum_hash,
        &add_cipher,
        &sum_hash,
        &record_id,
    );
    assert_eq!(missing.err(), Some(Error::Missing));
    // An output of the wrong kind for its type is refused.
    let wrong = Response::new(
        f(1),
        0,
        f(7),
        f(100),
        vec![ValueFields::Record(vec![f(3)])],
        &[ValueType::Public(u64_type())],
        &[None],
        &sum_hash,
        &add_cipher,
        &sum_hash,
        &record_id,
    );
    assert_eq!(wrong.err(), Some(Error::InvalidVariant));
    // A record type needs a record value.
    let not_a_record = Response::new(
        f(1),
        0,
        f(7),
        f(100),
        vec![ValueFields::Plaintext(vec![f(3)])],
        &[ValueType::Record(Identifier::from_str("token").unwrap())],
        &[Some(4)],
        &sum_hash,
        &add_cipher,
        &sum_hash,
        &record_id,
    );
    assert_eq!(not_a_record.err(), Some(Error::InvalidVariant));
    let name = Identifier::from_str("token").unwrap();
    assert_eq!(
        OutputID::record(&name, &ValueFields::Record(vec![f(3)]), 6, &record_id),
        Ok(OutputID::Record(f(6), f(5), f(0)))
    );
    assert_eq!(
        OutputID::record(&name, &ValueFields::Future(vec![f(3)]), 6, &record_id),
        Err(Error::InvalidVariant)
    );
}

#[test]
fn response_dynamic_output_ids() {
    let response = Response::new(
        f(1),
        2,
        f(7),
        f(100),
        vec![ValueFields::Plaintext(vec![f(1)]), ValueFields::Record(vec![f(3)])],
        &[ValueType::Constant(u64_type()), ValueType::Record(Identifier::from_str("token").unwrap())],
        &[None, Some(4)],
        &sum_hash,
        &add_cipher,
        &sum_hash,
        &record_id,
    )
    .unwrap();
    let caller_outputs = [ValueFields::Plaintext(vec![f(1)]), ValueFields::DynamicRecord(vec![f(30)])];
    let ids = response.to_dynamic_output_ids(&caller_outputs, f(1), 2, f(7), f(100), &sum_hash).unwrap();
    // The constant stays; the record becomes a dynamic record at index 3: 1 + 30 + 7 + 3.
    assert_eq!(ids, vec![response.output_ids()[0], OutputID::DynamicRecord(f(41))]);
}

/// A stand-in record check: the record's elements plus the name's length as the points.
fn record_points(name: &Identifier, record: &Vec<Field>, _id: &InputID) -> Result<Vec<Field>, Error> {
    let mut v = record.clone();
    v.push(Field::from_u64(name.len() as u64));
    Ok(v)
}

fn sample_request(constant_hash: u64, tcm: u64) -> Request {
    // tvk 5; function ID 1. Constant input 0: 1 + 10 + 20 + tcm 5 + 0 = 36.
    // Public input 1: 1 + 3 + 5 + 1 = 10. Record input 2: its tag is 4.
    Request::new(
        vec![InputID::Constant(f(constant_hash)), InputID::Public(f(10)), InputID::Record(f(1), f(2), f(3), f(0), f(4))],
        vec![
            ValueFields::Plaintext(vec![f(10), f(20)]),
            ValueFields::Plaintext(vec![f(3)]),
            ValueFields::Record(vec![f(7), f(8)]),
        ],
        f(5),
        f(tcm),
    )
}

fn sample_types() -> Vec<ValueType> {
    vec![
        ValueType::Constant(u64_type()),
        ValueType::Public(u64_type()),
        ValueType::Record(Identifier::from_str("token").unwrap()),
    ]
}

#[test]
fn request_verify_checks_inputs_and_signature() {
    let request = sample_request(36, 5);
    let types = sample_types();
    assert_eq!(request.input_ids().len(), 3);
    assert_eq!(request.tvk(), f(5));
    assert_eq!(request.tcm(), f(5));
    // The inputs add their hashes, and the record's points followed by its tag.
    let added = request.check_inputs(&types, f(1), &sum_hash, &add_cipher, &sum_hash, &record_points).unwrap();
    assert_eq!(added, vec![f(36), f(10), f(7), f(8), f(5), f(4)]);
    // The signed message: tvk, tcm, function ID, is_root, checksum, then what the inputs add.
    let expected = vec![f(5), f(5), f(1), f(1), f(99), f(36), f(10), f(7), f(8), f(5), f(4)];
    let signature = |m: &[Field]| m == expected.as_slice();
    assert!(request.verify(&types, true, Some(f(99)), f(1), &sum_hash, &sum_hash, &add_cipher, &sum_hash, &record_points, &signature));
    // Another root flag or checksum changes the message.
    assert!(!request.verify(&types, false, Some(f(99)), f(1), &sum_hash, &sum_hash, &add_cipher, &sum_hash, &record_points, &signature));
    assert!(!request.verify(&types, true, None, f(1), &sum_hash, &sum_hash, &add_cipher, &sum_hash, &record_points, &signature));
    // A signature that refuses refuses the request.
    let refuse = |_m: &[Field]| false;
    assert!(!request.verify(&types, true, Some(f(99)), f(1), &sum_hash, &sum_hash, &add_cipher, &sum_hash, &record_points, &refuse));
}

#[test]
fn request_verify_refusals() {
    let types = sample_types();
    let accept = |_m: &[Field]| true;
    // The transition commitment must be the hash of the transition view key.
    let wrong_tcm = sample_request(36, 6);
    assert!(!wrong_tcm.verify(&types, true, None, f(1), &sum_hash, &sum_hash, &add_cipher, &sum_hash, &record_points, &accept));
    assert!(!sample_request(36, 5).verify(&types, true, None, f(1), &failing_hash, &sum_hash, &add_cipher, &sum_hash, &record_points, &accept));
    // An input ID that differs from its recomputation.
    let wrong_id = sample_request(37, 5);
    assert_eq!(wrong_id.check_inputs(&types, f(1), &sum_hash, &add_cipher, &sum_hash, &record_points), Err(Error::Mismatch));
    assert!(!wrong_id.verify(&types, true, None, f(1), &sum_hash, &sum_hash, &add_cipher, &sum_hash, &record_points, &accept));
    // A record input whose type is not a record type.
    let mut bad_types = sample_types();
    bad_types[2] = ValueType::Public(u64_type());
    let request = sample_request(36, 5);
    assert_eq!(request.check_inputs(&bad_types, f(1), &sum_hash, &add_cipher, &sum_hash, &record_points), Err(Error::InvalidVariant));
    assert!(!request.verify(&bad_types, true, None, f(1), &sum_hash, &sum_hash, &add_cipher, &sum_hash, &record_points, &accept));
    // A failing input hash.
    assert_eq!(request.check_inputs(&types, f(1), &sum_hash, &add_cipher, &failing_hash, &record_points), Err(Error::Overflow));
    assert!(!request.verify(&types, true, None, f(1), &sum_hash, &sum_hash, &add_cipher, &failing_hash, &record_points, &accept));
    // With every check passing, the signature decides.
    assert!(request.verify(&types, true, None, f(1), &sum_hash, &sum_hash, &add_cipher, &sum_hash, &record_points, &accept));
}

#[test]
fn request_check_input_ids_with_and_without_message() {
    let request = sample_request(36, 5);
    let types = sample_types();
    // Constant and public inputs add one element each, the record input four.
    let message =
        request.check_input_ids(&types, f(1), true, &sum_hash, &add_cipher, &sum_hash, &record_points).unwrap().unwrap();
    assert_eq!(message.len(), 6);
    assert_eq!(request.check_input_ids(&types, f(1), false, &sum_hash, &add_cipher, &sum_hash, &record_points), Ok(None));
    let wrong_id = sample_request(37, 5);
    assert_eq!(
        wrong_id.check_input_ids(&types, f(1), false, &sum_hash, &add_cipher, &sum_hash, &record_points),
        Err(Error::Mismatch)
    );
}

#[test]
fn callback_outputs_take_their_modes() {
    let outputs = || {
        vec![
            ValueFields::Plaintext(vec![f(1)]),
            ValueFields::Plaintext(vec![f(2)]),
            ValueFields::Record(vec![f(3)]),
            ValueFields::DynamicRecord(vec![f(4)]),
        ]
    };
    let types = [
        ValueType::Constant(u64_type()),
        ValueType::Public(u64_type()),
        ValueType::Record(Identifier::from_str("token").unwrap()),
        ValueType::DynamicRecord,
    ];
    let registers = [None, None, Some(3), None];
    let r = callback_outputs(outputs(), &types, &registers);
    // A public output is taken as private.
    let modes: Vec<Mode> = r.iter().map(|(_, m)| *m).collect();
    assert_eq!(modes, vec![Mode::Constant, Mode::Private, Mode::Private, Mode::Private]);
    assert!(matches!(&r[0].0, ValueFields::Plaintext(v) if v == &vec![f(1)]));
    assert!(matches!(&r[1].0, ValueFields::Plaintext(v) if v == &vec![f(2)]));
    assert!(matches!(&r[2].0, ValueFields::Record(v) if v == &vec![f(3)]));
    assert!(matches!(&r[3].0, ValueFields::DynamicRecord(v) if v == &vec![f(4)]));
    assert_eq!(output_mode(&ValueType::Future(aleo_core::program_names::Locator::parse_at(b"credits.aleo/mint", 0).unwrap().0)), Mode::Private);
}
