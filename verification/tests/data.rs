use vnodes::data::{
    Action, Flags, RawValue, RawValueInner, Value, ALL_BITS, BOOL, ERROR, FLOAT, INTEGER,
    INTEGER_SIGNED, INTERNED, INTERNED_PATH, INTERNED_PATH_BUF, KIND_INTEGER, KIND_INTERNED,
    KIND_NODE, KIND_STRING, MOD_ARRAY, MOD_BOXED, MOD_SIGNED, NODE, NODE_BOXED, STRING,
    STRING_BOXED, VALUE_ARRAY, VALUE_ARRAY_BOXED, VOID,
};
use vnodes::error::Error;
use vnodes::handle::{NodeHandle, NodeHandleRef};
use vnodes::intern::Interned;
use vnodes::path::InternedPathBuf;

fn word(raw: &RawValue) -> u64 {
    match raw.value {
        RawValueInner::Word(w) => w,
        _ => panic!("the slot holds no word"),
    }
}

#[test]
fn flags_are_one_word() {
    assert_eq!(std::mem::size_of::<Flags>(), 4);
    assert_eq!(std::mem::size_of::<u32>(), 4);
}

#[test]
fn combined_flags_are_unions() {
    assert_eq!(INTEGER_SIGNED, KIND_INTEGER | MOD_SIGNED);
    assert_eq!(INTERNED_PATH, KIND_INTERNED | MOD_ARRAY);
    assert_eq!(INTERNED_PATH_BUF, KIND_INTERNED | MOD_ARRAY | MOD_BOXED);
    assert_eq!(NODE_BOXED, KIND_NODE | MOD_BOXED);
    assert_eq!(STRING_BOXED, KIND_STRING | MOD_BOXED);
    assert_eq!(VALUE_ARRAY, MOD_ARRAY);
    assert_eq!(VALUE_ARRAY_BOXED, MOD_ARRAY | MOD_BOXED);
    assert_eq!(VOID, 0);
    assert_eq!(Flags::empty().bits(), 0);
    assert_eq!(Flags::from_bits(0x80), None);
    assert_eq!(Flags::from_bits(0x1000), None);
    assert_eq!(Flags::from_bits(ALL_BITS).map(|f| f.bits()), Some(0xf7f));
    let boxed = Flags { bits: MOD_BOXED };
    assert!(Flags { bits: STRING_BOXED }.contains(boxed));
    assert!(!Flags { bits: STRING }.contains(boxed));
    assert_eq!(Flags { bits: STRING }.union(boxed).bits(), STRING_BOXED);
    assert!(Flags { bits: NODE_BOXED }.is_defined());
    assert!(!Flags { bits: KIND_NODE | KIND_STRING }.is_defined());
}

#[test]
fn action_tags() {
    assert_eq!(Action::Call.code(), 0x0);
    assert_eq!(Action::List.code(), 0x1);
    assert_eq!(Action::Get.code(), 0x10);
    assert_eq!(Action::SetEntry.code(), 0x11);
    assert_eq!(Action::Clone.code(), 0x20);
    assert_eq!(Action::Drop.code(), 0x21);
    for code in 0..=255u8 {
        match Action::from_code(code) {
            Some(action) => assert_eq!(action.code(), code),
            None => assert!(![0x0, 0x1, 0x10, 0x11, 0x20, 0x21].contains(&code)),
        }
    }
}

#[test]
fn error_codes() {
    let all = [
        (Error::ActionNotSupported, 1u8, "Action not supported"),
        (Error::ExpectedNode, 2, "Expected node"),
        (Error::InvalidArgumentTypes, 3, "Invalid argument types"),
        (Error::NoSuchEntry, 4, "No such entry"),
        (Error::PathEmpty, 5, "No such entry"),
        (Error::UnknownTypeFlags, 6, "Unknown type"),
        (Error::WrongType, 7, "Wrong type"),
    ];
    for (error, code, text) in all {
        assert_eq!(error.code(), code);
        assert_eq!(Error::from_code(code), Some(error));
        assert_eq!(error.message(), text);
    }
    assert_eq!(Error::from_code(0), None);
    assert_eq!(Error::from_code(8), None);
}

#[test]
fn scalars_lie_in_the_word() {
    let raw = RawValue::from(Value::Bool(true));
    assert_eq!((raw.flags.bits(), raw.extra, word(&raw)), (BOOL, 0, 1));
    let raw = RawValue::from(Value::Bool(false));
    assert_eq!((raw.flags.bits(), raw.extra, word(&raw)), (BOOL, 0, 0));
    let raw = RawValue::from(Value::Error(Error::NoSuchEntry));
    assert_eq!((raw.flags.bits(), raw.extra, word(&raw)), (ERROR, 0, 4));
    let raw = RawValue::from(Value::Float(1.5f64.to_bits()));
    assert_eq!((raw.flags.bits(), raw.extra, word(&raw)), (FLOAT, 0, 1.5f64.to_bits()));
    let raw = RawValue::from(Value::Unsigned(u64::MAX));
    assert_eq!((raw.flags.bits(), raw.extra, word(&raw)), (INTEGER, 0, u64::MAX));
    let raw = RawValue::from(Value::Signed(-5));
    assert_eq!((raw.flags.bits(), raw.extra, word(&raw)), (INTEGER_SIGNED, 0, (-5i64) as u64));
    let raw = RawValue::from(Value::Interned(Interned(66)));
    assert_eq!((raw.flags.bits(), raw.extra, word(&raw)), (INTERNED, 0, 66));
    let raw = RawValue::from(Value::Node(NodeHandle::from_raw(3)));
    assert_eq!((raw.flags.bits(), raw.extra, word(&raw)), (NODE_BOXED, 0, 3));
    let raw = RawValue::from(Value::NodeRef(NodeHandleRef::from_raw(3)));
    assert_eq!((raw.flags.bits(), raw.extra, word(&raw)), (NODE, 0, 3));
    let raw = RawValue::from(Value::Void);
    assert_eq!((raw.flags.bits(), raw.extra, word(&raw)), (VOID, 0, 0));
    let raw = RawValue::void();
    assert_eq!((raw.flags.bits(), raw.extra, word(&raw)), (VOID, 0, 0));
}

#[test]
fn buffers_carry_their_length() {
    let raw = RawValue::from(Value::String(b"hello".to_vec()));
    assert_eq!((raw.flags.bits(), raw.extra), (STRING_BOXED, 5));
    assert!(matches!(&raw.value, RawValueInner::String(b) if b == b"hello"));
    let text = b"hey";
    let raw = RawValue::from(Value::StringRef(text));
    assert_eq!((raw.flags.bits(), raw.extra), (STRING, 3));
    assert!(matches!(Value::from_raw(raw), Value::StringRef(b) if b == text));
    let raw = RawValue::from(Value::InternedPathBuf(InternedPathBuf::from("a/b/c")));
    assert_eq!((raw.flags.bits(), raw.extra), (INTERNED_PATH_BUF, 3));
    let items = vec![RawValue::from(Value::Unsigned(1)), RawValue::from(Value::Bool(true))];
    let raw = RawValue::from(Value::ValueArrayRef(&items));
    assert_eq!((raw.flags.bits(), raw.extra), (VALUE_ARRAY, 2));
    assert!(raw.is_well_formed());
    let raw = RawValue::from(Value::ValueArray(items));
    assert_eq!((raw.flags.bits(), raw.extra), (VALUE_ARRAY_BOXED, 2));
    assert!(raw.is_well_formed());
    match Value::from_raw(raw) {
        Value::ValueArray(back) => {
            assert_eq!(back.len(), 2);
            assert!(matches!(Value::from_raw(back[0].duplicate()), Value::Unsigned(1)));
            assert!(matches!(Value::from_raw(back[1].duplicate()), Value::Bool(true)));
        }
        other => panic!("not an owned array: {:?}", other),
    }
}

#[test]
fn flags_that_do_not_match_the_slot_are_told() {
    let wrong = |bits: u32, extra: u32, value: RawValueInner<'static>| {
        RawValue { flags: Flags { bits }, extra, value }.is_well_formed()
    };
    assert!(!wrong(BOOL, 0, RawValueInner::Word(2)));
    assert!(!wrong(ERROR, 0, RawValueInner::Word(0)));
    assert!(!wrong(ERROR, 0, RawValueInner::Word(8)));
    assert!(!wrong(0x80, 0, RawValueInner::Word(0)));
    assert!(!wrong(KIND_NODE | KIND_STRING, 0, RawValueInner::Word(0)));
    assert!(!wrong(STRING, 1, RawValueInner::String(vec![1])));
    assert!(!wrong(STRING_BOXED, 2, RawValueInner::String(vec![1])));
    assert!(wrong(STRING_BOXED, 1, RawValueInner::String(vec![1])));
    assert!(!wrong(INTERNED_PATH, 0, RawValueInner::InternedPath(vec![])));
    assert!(!wrong(
        VALUE_ARRAY_BOXED,
        1,
        RawValueInner::ValueArray(vec![RawValue {
            flags: Flags { bits: BOOL },
            extra: 0,
            value: RawValueInner::Word(9),
        }])
    ));
    assert!(wrong(FLOAT, 7, RawValueInner::Word(9)));
}

#[test]
fn results_and_error_values() {
    assert!(matches!(Value::from_res(Ok(Value::Unsigned(3))), Value::Unsigned(3)));
    assert!(matches!(
        Value::from_res(Err(Error::PathEmpty)),
        Value::Error(Error::PathEmpty)
    ));
    assert!(matches!(Value::Unsigned(3).into_res(), Ok(Value::Unsigned(3))));
    assert_eq!(Value::Error(Error::WrongType).into_res().err(), Some(Error::WrongType));
    assert_eq!(Value::Void.as_node_handle(), Err(Error::WrongType));
    assert_eq!(
        Value::Node(NodeHandle::from_raw(4)).as_node_handle(),
        Ok(NodeHandleRef::from_raw(4))
    );
    assert_eq!(
        Value::NodeRef(NodeHandleRef::from_raw(5)).as_node_handle().map(|n| n.raw()),
        Ok(5)
    );
}

#[test]
fn detaching_copies_what_was_borrowed() {
    let text = b"borrowed".to_vec();
    let codes = vec![Interned(1)];
    let inner = vec![RawValue::from(Value::StringRef(&text))];
    let items = vec![
        RawValue::from(Value::StringRef(&text)),
        RawValue::from(Value::InternedPathRef(&codes)),
        RawValue::from(Value::ValueArrayRef(&inner)),
        RawValue::from(Value::NodeRef(NodeHandleRef::from_raw(2))),
    ];
    let owned: Value<'static> = Value::ValueArrayRef(&items).detach();
    let back = match owned {
        Value::ValueArray(back) => back,
        other => panic!("not an owned array: {:?}", other),
    };
    assert_eq!(back[0].flags.bits(), STRING_BOXED);
    assert!(matches!(&back[0].value, RawValueInner::String(b) if b == &text));
    assert_eq!(back[1].flags.bits(), INTERNED_PATH_BUF);
    assert_eq!(back[2].flags.bits(), VALUE_ARRAY_BOXED);
    assert_eq!(back[3].flags.bits(), NODE);
    assert!(matches!(Value::StringRef(&text).detach(), Value::String(b) if b == text));
    assert!(matches!(
        Value::NodeRef(NodeHandleRef::from_raw(2)).detach(),
        Value::Node(n) if n.raw() == 2
    ));
    assert!(matches!(Value::String(text.clone()).borrowed(), Value::StringRef(b) if b == &text[..]));
    assert!(matches!(Value::Signed(-1).duplicate(), Value::Signed(-1)));
}

#[test]
fn unknown_flags_are_reported() {
    let odd = RawValue { flags: Flags { bits: 0x80 }, extra: 0, value: RawValueInner::Word(0) };
    assert_eq!(Value::try_from_raw(odd).err(), Some(Error::UnknownTypeFlags));
    let mixed = RawValue {
        flags: Flags { bits: STRING },
        extra: 0,
        value: RawValueInner::Word(0),
    };
    assert_eq!(Value::try_from_raw(mixed).err(), Some(Error::UnknownTypeFlags));
    let fine = RawValue::from(Value::Signed(-1));
    assert!(matches!(Value::try_from_raw(fine), Ok(Value::Signed(-1))));
    assert!(Value::String(vec![1, 2]).is_well_formed());
    let bad = vec![RawValue { flags: Flags { bits: BOOL }, extra: 0, value: RawValueInner::Word(3) }];
    assert!(!Value::ValueArrayRef(&bad).is_well_formed());
}
