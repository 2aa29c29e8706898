use vnodes::context::Vnodes;
use vnodes::conv::{FloatBits, ValueConv};
use vnodes::data::{RawValue, Value};
use vnodes::error::Error;
use vnodes::handle::NodeHandle;
use vnodes::intern::Interned;
use vnodes::node::MapNode;
use vnodes::path::InternedPathBuf;

/// `T` -> `Value` -> `RawValue` -> `Value` -> `T`.
fn there_and_back<'a, T: ValueConv<'a>>(start: T) -> Result<T, Error> {
    let value = start.into_value();
    let raw: RawValue = RawValue::from(value);
    assert!(raw.is_well_formed());
    let value = Value::from_raw(raw);
    T::from_value(value)
}

#[test]
fn check_primitives() {
    assert_eq!(there_and_back(99u64), Ok(99u64));
    assert_eq!(there_and_back(43i64), Ok(43i64));
    assert_eq!(there_and_back(-43i64), Ok(-43i64));
    assert_eq!(
        there_and_back(FloatBits((-3.14f64).to_bits())).map(|f| f64::from_bits(f.0)),
        Ok(-3.14f64)
    );
    assert_eq!(there_and_back(true), Ok(true));
    assert_eq!(there_and_back(false), Ok(false));
    assert_eq!(there_and_back(Interned::from("my_ident")), Ok(Interned::from("my_ident")));
}

#[test]
fn check_tuples() {
    assert_eq!(there_and_back((5u64, 19i64)), Ok((5u64, 19i64)));
    assert_eq!(
        there_and_back((5u64, true, FloatBits((-91.0f64).to_bits()))),
        Ok((5u64, true, FloatBits((-91.0f64).to_bits())))
    );
    assert_eq!(
        there_and_back((
            5u64,
            (Interned::from("nested"), Interned::from("tuples")),
            FloatBits((-91.0f64).to_bits()),
        )),
        Ok((
            5u64,
            (Interned::from("nested"), Interned::from("tuples")),
            FloatBits((-91.0f64).to_bits()),
        ))
    );
}

#[test]
fn check_paths() {
    assert_eq!(there_and_back(Interned::from("simple")), Ok(Interned::from("simple")));
    assert_eq!(
        there_and_back(InternedPathBuf::from("simple/path/to/hell")),
        Ok(InternedPathBuf::from("simple/path/to/hell"))
    );
}

#[test]
fn check_nodes() {
    let mut ctx = Vnodes::new();
    let node = MapNode::new_node(&mut ctx);
    let raw = node.raw();
    assert_eq!(there_and_back(node), Ok(NodeHandle::from_raw(raw)));
    let node = MapNode::new_node(&mut ctx);
    assert_eq!(there_and_back(node.handle_ref()), Ok(node.handle_ref()));
}

#[test]
fn tuples_of_four_and_five() {
    assert_eq!(there_and_back((1u64, 2i64, true, Interned(4))), Ok((1u64, 2i64, true, Interned(4))));
    assert_eq!(
        there_and_back((1u64, -2i64, false, Interned(4), ())),
        Ok((1u64, -2i64, false, Interned(4), ()))
    );
    assert_eq!(there_and_back(()), Ok(()));
}

#[test]
fn borrowed_paths_stay_borrowed() {
    let codes = [Interned(1), Interned(2)];
    let value = (&codes[..]).into_value();
    assert!(matches!(value, Value::InternedPathRef(_)));
    let raw = RawValue::from(value);
    assert_eq!(raw.flags.bits(), vnodes::data::INTERNED_PATH);
    assert_eq!(raw.extra, 2);
    let back: &[Interned] = ValueConv::from_value(Value::from_raw(raw)).unwrap();
    assert_eq!(back, &codes[..]);
    // An owned path is no borrowed one, and the other way round.
    let owned = InternedPathBuf::from("a/b").into_value();
    assert_eq!(<&[Interned]>::from_value(owned).err(), Some(Error::WrongType));
    let borrowed = (&codes[..]).into_value();
    assert_eq!(InternedPathBuf::from_value(borrowed).err(), Some(Error::WrongType));
}

#[test]
fn a_value_of_another_kind_is_the_wrong_type() {
    assert_eq!(u64::from_value(Value::Signed(1)), Err(Error::WrongType));
    assert_eq!(i64::from_value(Value::Unsigned(1)), Err(Error::WrongType));
    assert_eq!(bool::from_value(Value::Void), Err(Error::WrongType));
    assert_eq!(<()>::from_value(Value::Bool(true)), Err(Error::WrongType));
    assert_eq!(Interned::from_value(Value::Unsigned(1)), Err(Error::WrongType));
    assert_eq!(FloatBits::from_value(Value::Unsigned(1)), Err(Error::WrongType));
    assert_eq!(<(u64, u64)>::from_value(Value::Unsigned(1)), Err(Error::WrongType));
    assert_eq!(
        NodeHandle::from_value(Value::NodeRef(NodeHandle::from_raw(0).handle_ref())),
        Err(Error::WrongType)
    );
}

#[test]
fn a_tuple_needs_all_its_elements() {
    let two = (1u64, 2u64).into_value();
    assert_eq!(<(u64, u64, u64)>::from_value(two), Err(Error::InvalidArgumentTypes));
    let three = (1u64, 2u64, 3u64).into_value();
    assert_eq!(<(u64, u64)>::from_value(three), Ok((1, 2)));
    let mixed = (1u64, true).into_value();
    assert_eq!(<(u64, u64)>::from_value(mixed), Err(Error::WrongType));
}

#[test]
fn an_element_that_carries_a_failure_gives_it() {
    let value = (1u64, Value::Error(Error::NoSuchEntry)).into_value();
    assert_eq!(
        <(u64, Value)>::from_value(value).err(),
        Some(Error::NoSuchEntry)
    );
}
