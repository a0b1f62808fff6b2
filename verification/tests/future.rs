use aleo_core::dynamic::DynamicFuture;
use aleo_core::error::Error;
use aleo_core::field::Field;
use aleo_core::future::{Access, Argument, Future, Member, Plaintext, Value};
use aleo_core::literal_type::LiteralType;
use aleo_core::program_names::{Identifier, ProgramID};

fn id(s: &str) -> Identifier {
    Identifier::from_str(s).unwrap()
}

fn program(name: &str) -> ProgramID {
    ProgramID::try_from(id(name), id("aleo")).unwrap()
}

fn u64_literal(v: u64) -> Plaintext {
    Plaintext::Literal(LiteralType::U64, v.to_le_bytes().to_vec())
}

fn future(program_name: &str, function: &str, arguments: Vec<Argument>) -> Future {
    Future::new(program(program_name), id(function), arguments)
}

/// A dynamic future standing for `program_name`/`function`, by the field elements of
/// its names and a checksum.
fn dynamic(program_name: u64, function: u64, checksum: u64) -> DynamicFuture {
    DynamicFuture::new_unchecked(
        Field::from_u64(program_name),
        Field::from_u64(1),
        Field::from_u64(function),
        Field::from_u64(checksum),
    )
}

fn expect_plaintext(value: Value) -> Plaintext {
    match value {
        Value::Plaintext(p) => p,
        _ => panic!("expected a plaintext value"),
    }
}

#[test]
fn test_find_plaintext_argument() {
    let future = future(
        "test",
        "foo",
        vec![Argument::Plaintext(u64_literal(100)), Argument::Plaintext(u64_literal(200))],
    );
    let value = expect_plaintext(future.find(&[Access::Index(0)]).unwrap());
    assert!(value.is_equal(&u64_literal(100)));
    let value = expect_plaintext(future.find(&[Access::Index(1)]).unwrap());
    assert!(value.is_equal(&u64_literal(200)));
}

#[test]
fn test_find_nested_future_argument() {
    let inner = future("inner", "bar", vec![Argument::Plaintext(u64_literal(42))]);
    let outer = future("outer", "baz", vec![Argument::Future(inner.clone_value())]);
    match outer.find(&[Access::Index(0)]).unwrap() {
        Value::Future(found) => assert!(found.is_equal(&inner)),
        _ => panic!("expected a future value"),
    }
    // A path continues into the nested future's arguments.
    let value = expect_plaintext(outer.find(&[Access::Index(0), Access::Index(0)]).unwrap());
    assert!(value.is_equal(&u64_literal(42)));
}

#[test]
fn test_find_dynamic_future_argument() {
    let dynamic_inner = dynamic(7, 8, 9);
    let outer = future("outer", "baz", vec![Argument::DynamicFuture(dynamic_inner)]);
    match outer.find(&[Access::Index(0)]).unwrap() {
        Value::DynamicFuture(result) => {
            assert_eq!(result.program_name(), dynamic_inner.program_name());
            assert_eq!(result.program_network(), dynamic_inner.program_network());
            assert_eq!(result.function_name(), dynamic_inner.function_name());
            assert_eq!(result.checksum(), dynamic_inner.checksum());
        }
        _ => panic!("expected a dynamic future value"),
    }
}

#[test]
fn test_find_mixed_arguments() {
    let inner = future("inner", "bar", vec![]);
    let future = future(
        "test",
        "mixed",
        vec![Argument::Plaintext(u64_literal(100)), Argument::Future(inner), Argument::DynamicFuture(dynamic(1, 2, 3))],
    );
    assert!(matches!(future.find(&[Access::Index(0)]).unwrap(), Value::Plaintext(_)));
    assert!(matches!(future.find(&[Access::Index(1)]).unwrap(), Value::Future(_)));
    assert!(matches!(future.find(&[Access::Index(2)]).unwrap(), Value::DynamicFuture(_)));
}

#[test]
fn test_find_out_of_bounds() {
    let future = future("test", "foo", vec![Argument::Plaintext(u64_literal(100))]);
    assert_eq!(future.find(&[Access::Index(5)]).err(), Some(Error::NotFound));
}

#[test]
fn test_dynamic_future_fields_cannot_be_accessed() {
    let outer = future("outer", "baz", vec![Argument::DynamicFuture(dynamic(1, 2, 3))]);
    assert!(matches!(outer.find(&[Access::Index(0)]).unwrap(), Value::DynamicFuture(_)));
    assert_eq!(outer.find(&[Access::Index(0), Access::Index(0)]).err(), Some(Error::InvalidVariant));
}

#[test]
fn find_in_structs_and_arrays() {
    let point = Plaintext::Struct(vec![
        Member { name: id("x"), value: u64_literal(1) },
        Member { name: id("y"), value: Plaintext::Array(vec![u64_literal(2), u64_literal(3)]) },
    ]);
    let future = future("test", "foo", vec![Argument::Plaintext(point)]);
    let x = expect_plaintext(future.find(&[Access::Index(0), Access::Member(id("x"))]).unwrap());
    assert!(x.is_equal(&u64_literal(1)));
    let y1 = expect_plaintext(future.find(&[Access::Index(0), Access::Member(id("y")), Access::Index(1)]).unwrap());
    assert!(y1.is_equal(&u64_literal(3)));
    assert_eq!(future.find(&[Access::Index(0), Access::Member(id("z"))]).err(), Some(Error::NotFound));
    assert_eq!(
        future.find(&[Access::Index(0), Access::Member(id("y")), Access::Index(2)]).err(),
        Some(Error::NotFound)
    );
    // A member of an array, an index of a struct, a step into a literal or a future's
    // argument by name are refused.
    assert_eq!(
        future.find(&[Access::Index(0), Access::Member(id("y")), Access::Member(id("x"))]).err(),
        Some(Error::InvalidVariant)
    );
    assert_eq!(future.find(&[Access::Index(0), Access::Index(0)]).err(), Some(Error::InvalidVariant));
    assert_eq!(
        future.find(&[Access::Index(0), Access::Member(id("x")), Access::Index(0)]).err(),
        Some(Error::InvalidVariant)
    );
    assert_eq!(future.find(&[Access::Member(id("x"))]).err(), Some(Error::InvalidVariant));
    // An empty path is refused.
    assert_eq!(future.find(&[]).err(), Some(Error::Missing));
}

fn check_equality(same1: &Argument, same2: &Argument, different: &Argument) {
    assert!(same1.is_equal(same2));
    assert!(!same1.is_not_equal(same2));
    assert!(!same1.is_equal(different));
    assert!(same1.is_not_equal(different));
}

#[test]
fn test_argument_equality() {
    let p1 = Argument::Plaintext(u64_literal(42));
    let p2 = Argument::Plaintext(u64_literal(42));
    let p3 = Argument::Plaintext(u64_literal(100));
    check_equality(&p1, &p2, &p3);

    let make_future = |name: &str| future("test", name, vec![Argument::Plaintext(u64_literal(100))]);
    let f1 = Argument::Future(make_future("foo"));
    let f2 = Argument::Future(make_future("foo"));
    let f3 = Argument::Future(make_future("bar"));
    check_equality(&f1, &f2, &f3);

    let d1 = Argument::DynamicFuture(dynamic(5, 6, 7));
    let d2 = Argument::DynamicFuture(dynamic(5, 6, 7));
    let d3 = Argument::DynamicFuture(dynamic(4, 6, 7));
    check_equality(&d1, &d2, &d3);
}

#[test]
fn test_argument_equality_cross_variant() {
    let arg_plaintext = Argument::Plaintext(u64_literal(42));
    let arg_future = Argument::Future(future("test", "foo", vec![]));
    let arg_dynamic = Argument::DynamicFuture(dynamic(1, 2, 3));
    assert!(!arg_plaintext.is_equal(&arg_future));
    assert!(!arg_plaintext.is_equal(&arg_dynamic));
    assert!(!arg_future.is_equal(&arg_plaintext));
    assert!(!arg_future.is_equal(&arg_dynamic));
    assert!(!arg_dynamic.is_equal(&arg_plaintext));
    assert!(!arg_dynamic.is_equal(&arg_future));
    assert!(arg_plaintext.is_not_equal(&arg_future));
    assert!(arg_plaintext.is_not_equal(&arg_dynamic));
    assert!(arg_future.is_not_equal(&arg_plaintext));
    assert!(arg_future.is_not_equal(&arg_dynamic));
    assert!(arg_dynamic.is_not_equal(&arg_plaintext));
    assert!(arg_dynamic.is_not_equal(&arg_future));
}

#[test]
fn plaintext_equality_and_copies() {
    let a = Plaintext::Struct(vec![
        Member { name: id("x"), value: u64_literal(1) },
        Member { name: id("y"), value: Plaintext::Array(vec![u64_literal(2)]) },
    ]);
    let b = a.clone_value();
    assert!(a.is_equal(&b));
    let renamed = Plaintext::Struct(vec![
        Member { name: id("x"), value: u64_literal(1) },
        Member { name: id("z"), value: Plaintext::Array(vec![u64_literal(2)]) },
    ]);
    assert!(a.is_not_equal(&renamed));
    let shorter = Plaintext::Struct(vec![Member { name: id("x"), value: u64_literal(1) }]);
    assert!(!a.is_equal(&shorter));
    // The same bytes under another literal type differ.
    let as_i64 = Plaintext::Literal(LiteralType::I64, 1u64.to_le_bytes().to_vec());
    assert!(!u64_literal(1).is_equal(&as_i64));
    assert!(!u64_literal(1).is_equal(&Plaintext::Array(vec![])));
}
