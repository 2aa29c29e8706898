use vnodes::stack::{Error, Stack, StackId, StackTooSmall, Ty, UnexpectedTy};

#[test]
fn ty_from_byte() {
    for i in 1..=0xC {
        assert_eq!(i, Ty::try_from(i).unwrap().code());
    }
}

#[test]
fn bytes_that_are_no_tag() {
    assert_eq!(Ty::try_from(0), None);
    assert_eq!(Ty::try_from(0xD), None);
    assert_eq!(Ty::try_from(0xFF), None);
    assert_eq!(Ty::Uint.name(), "Uint");
    assert_eq!(Ty::Array.code(), 1);
    assert_eq!(Ty::Void.code(), 0xC);
}

#[test]
fn push_then_pop_gives_the_value_back() {
    let mut stack = Stack::new();
    let id = stack.push(0x0102_0304_0506_0708u64);
    assert_eq!(id, StackId(9));
    assert_eq!(id.into_inner(), 9);
    stack.push(true);
    assert_eq!(stack.len(), 11);
    assert_eq!(stack.pop::<bool>(), Ok(true));
    assert_eq!(stack.pop::<u64>(), Ok(0x0102_0304_0506_0708));
    assert_eq!(stack.len(), 0);
}

#[test]
fn numbers_lie_least_significant_byte_first() {
    let mut stack = Stack::new();
    stack.push_u64(0x0102_0304_0506_0708);
    assert_eq!(stack.pop_untagged_byte(), 0x01);
    assert_eq!(stack.pop_untagged_bytes(3), vec![0x05, 0x04, 0x03, 0x02][1..].to_vec());
    assert_eq!(stack.len(), 4);
    stack.push_untagged_bytes(&[1, 0, 0, 0]);
    assert_eq!(stack.pop_u64(), 0x0000_0001_0506_0708);
}

#[test]
fn pop_of_the_wrong_type_leaves_the_stack() {
    let mut stack = Stack::new();
    stack.push(7u64);
    assert_eq!(
        stack.pop::<bool>(),
        Err(Error::UnexpectedTy(UnexpectedTy { expected: Ty::Bool, got: Ty::Uint }))
    );
    assert_eq!(stack.len(), 9);
    assert_eq!(stack.peek_tag(), Ok(Ty::Uint));
    assert_eq!(stack.expect_tag(Ty::Uint), Ok(()));
    assert_eq!(stack.len(), 8);
}

#[test]
fn an_empty_stack_is_too_small() {
    let mut stack = Stack::new();
    assert_eq!(
        stack.peek_tag(),
        Err(Error::StackTooSmall(StackTooSmall { what: "tag" }))
    );
    assert_eq!(
        stack.pop::<u64>(),
        Err(Error::StackTooSmall(StackTooSmall { what: "tag" }))
    );
    stack.push_tag(Ty::Uint);
    assert_eq!(
        stack.pop::<u64>(),
        Err(Error::StackTooSmall(StackTooSmall { what: "u64" }))
    );
    stack.push_tag(Ty::Bool);
    assert_eq!(
        stack.pop::<bool>(),
        Err(Error::StackTooSmall(StackTooSmall { what: "bool" }))
    );
    assert_eq!(
        Error::from_tuple_mismatch(vnodes::stack::TupleMismatch { expected: 2, got: 3 }),
        Error::TupleMismatch(vnodes::stack::TupleMismatch { expected: 2, got: 3 })
    );
}
