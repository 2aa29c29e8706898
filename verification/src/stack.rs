//! A byte stack of tagged values: a value's bytes lie below the tag that
//! names its type, so that a reader meets the tag first.

use vstd::bytes::{
    lemma_auto_spec_u64_to_from_le_bytes, spec_u64_from_le_bytes, spec_u64_to_le_bytes,
    u64_from_le_bytes, u64_to_le_bytes,
};
use vstd::pervasive::unreached;
use vstd::prelude::*;
use vstd::slice::slice_subrange;

verus! {

/// The type of a value on the stack.
#[derive(Clone, Copy, Debug, PartialEq, Eq, Structural, Hash, PartialOrd, Ord)]
pub enum Ty {
    /// From the top: tag, element type, length, elements.
    Array,
    Bool,
    /// A type that scripts cannot read, only pass on.
    Custom,
    Float,
    Int,
    Interned,
    Node,
    /// A plain copyable struct with a known layout.
    Plain,
    String,
    /// From the top: tag, length (above zero), types, elements.
    Tuple,
    Uint,
    Void,
}

impl Ty {
    /// The byte that stands for this type on the stack.
    pub open spec fn spec_code(self) -> u8 {
        match self {
            Ty::Array => 0x1,
            Ty::Bool => 0x2,
            Ty::Custom => 0x3,
            Ty::Float => 0x4,
            Ty::Int => 0x5,
            Ty::Interned => 0x6,
            Ty::Node => 0x7,
            Ty::Plain => 0x8,
            Ty::String => 0x9,
            Ty::Tuple => 0xa,
            Ty::Uint => 0xb,
            Ty::Void => 0xc,
        }
    }

    /// The type that a byte stands for.
    pub open spec fn spec_try_from(byte: u8) -> Option<Ty> {
        match byte {
            0x1 => Some(Ty::Array),
            0x2 => Some(Ty::Bool),
            0x3 => Some(Ty::Custom),
            0x4 => Some(Ty::Float),
            0x5 => Some(Ty::Int),
            0x6 => Some(Ty::Interned),
            0x7 => Some(Ty::Node),
            0x8 => Some(Ty::Plain),
            0x9 => Some(Ty::String),
            0xa => Some(Ty::Tuple),
            0xb => Some(Ty::Uint),
            0xc => Some(Ty::Void),
            _ => None,
        }
    }

    /// The byte that stands for this type on the stack.
    pub fn code(self) -> (code: u8)
        ensures
            code == self.spec_code(),
            1 <= code <= 0xc,
            Ty::spec_try_from(code) == Some(self),
    {
        match self {
            Ty::Array => 0x1,
            Ty::Bool => 0x2,
            Ty::Custom => 0x3,
            Ty::Float => 0x4,
            Ty::Int => 0x5,
            Ty::Interned => 0x6,
            Ty::Node => 0x7,
            Ty::Plain => 0x8,
            Ty::String => 0x9,
            Ty::Tuple => 0xa,
            Ty::Uint => 0xb,
            Ty::Void => 0xc,
        }
    }

    /// The type that a byte stands for, if it stands for one.
    pub fn try_from(byte: u8) -> (ty: Option<Self>)
        ensures
            ty == Ty::spec_try_from(byte),
            ty.is_some() <==> 1 <= byte <= 0xc,
            ty matches Some(t) ==> t.spec_code() == byte,
    {
        match byte {
            0x1 => Some(Ty::Array),
            0x2 => Some(Ty::Bool),
            0x3 => Some(Ty::Custom),
            0x4 => Some(Ty::Float),
            0x5 => Some(Ty::Int),
            0x6 => Some(Ty::Interned),
            0x7 => Some(Ty::Node),
            0x8 => Some(Ty::Plain),
            0x9 => Some(Ty::String),
            0xa => Some(Ty::Tuple),
            0xb => Some(Ty::Uint),
            0xc => Some(Ty::Void),
            _ => None,
        }
    }

    /// The name of this type.
    pub fn name(&self) -> (name: &'static str)
        ensures
            name@ == (match *self {
                Ty::Array => "Array"@,
                Ty::Bool => "Bool"@,
                Ty::Custom => "Custom"@,
                Ty::Float => "Float"@,
                Ty::Int => "Int"@,
                Ty::Interned => "Interned"@,
                Ty::Node => "Node"@,
                Ty::Plain => "Plain"@,
                Ty::String => "String"@,
                Ty::Tuple => "Tuple"@,
                Ty::Uint => "Uint"@,
                Ty::Void => "Void"@,
            }),
    {
        match self {
            Ty::Array => "Array",
            Ty::Bool => "Bool",
            Ty::Custom => "Custom",
            Ty::Float => "Float",
            Ty::Int => "Int",
            Ty::Interned => "Interned",
            Ty::Node => "Node",
            Ty::Plain => "Plain",
            Ty::String => "String",
            Ty::Tuple => "Tuple",
            Ty::Uint => "Uint",
            Ty::Void => "Void",
        }
    }
}

/// The stack held too few bytes to read `what`.
#[derive(Clone, Debug, PartialEq)]
pub struct StackTooSmall {
    pub what: &'static str,
}

/// A tuple had `got` elements where `expected` were asked for.
#[derive(Clone, Debug, PartialEq)]
pub struct TupleMismatch {
    pub expected: usize,
    pub got: usize,
}

/// The value on top of the stack had type `got` where `expected` was asked for.
#[derive(Clone, Debug, PartialEq)]
pub struct UnexpectedTy {
    pub expected: Ty,
    pub got: Ty,
}

/// A failure to read from the stack.
#[derive(Clone, Debug, PartialEq)]
pub enum Error {
    External,
    StackTooSmall(StackTooSmall),
    TupleMismatch(TupleMismatch),
    UnexpectedTy(UnexpectedTy),
}

/// The result of reading from the stack.
pub type Result<T> = core::result::Result<T, Error>;

impl Error {
    /// The failure that wraps `e`.
    pub fn from_too_small(e: StackTooSmall) -> (error: Error)
        ensures
            error == Error::StackTooSmall(e),
    {
        Error::StackTooSmall(e)
    }

    /// The failure that wraps `e`.
    pub fn from_tuple_mismatch(e: TupleMismatch) -> (error: Error)
        ensures
            error == Error::TupleMismatch(e),
    {
        Error::TupleMismatch(e)
    }

    /// The failure that wraps `e`.
    pub fn from_unexpected(e: UnexpectedTy) -> (error: Error)
        ensures
            error == Error::UnexpectedTy(e),
    {
        Error::UnexpectedTy(e)
    }
}

/// A position on the stack: the number of bytes below it.
#[derive(Clone, Copy, Debug, PartialEq, Eq, Structural, Hash, PartialOrd, Ord)]
pub struct StackId(pub usize);

impl StackId {
    /// The position as a number.
    pub fn into_inner(self) -> (position: usize)
        ensures
            position == self.0,
    {
        self.0
    }
}

/// The byte stack.
pub struct Stack {
    cursor: Option<usize>,
    inner: Vec<u8>,
}

impl View for Stack {
    type V = Seq<u8>;

    closed spec fn view(&self) -> Seq<u8> {
        self.inner@
    }
}

/// What looking at the tag on top of `s` gives. An empty stack is too small
/// to read a tag.
pub open spec fn peek_spec(s: Seq<u8>) -> core::result::Result<Ty, Error> {
    if s.len() == 0 {
        Err(Error::StackTooSmall(StackTooSmall { what: "tag" }))
    } else {
        Ok(Ty::spec_try_from(s.last()).unwrap())
    }
}

/// Whether the byte on top of `s`, if there is one, is a tag.
pub open spec fn top_is_tag(s: Seq<u8>) -> bool {
    s.len() > 0 ==> Ty::spec_try_from(s.last()).is_some()
}

/// What taking the tag `tag` off the top of `s` gives and leaves.
pub open spec fn expect_spec(s: Seq<u8>, tag: Ty) -> (Seq<u8>, core::result::Result<(), Error>) {
    match peek_spec(s) {
        Err(e) => (s, Err(e)),
        Ok(got) => if got == tag {
            (s.drop_last(), Ok(()))
        } else {
            (s, Err(Error::UnexpectedTy(UnexpectedTy { expected: tag, got })))
        },
    }
}

impl Stack {
    /// An empty stack.
    pub fn new() -> (stack: Self)
        ensures
            stack@ == Seq::<u8>::empty(),
    {
        Stack { cursor: None, inner: Vec::new() }
    }

    /// The number of bytes on the stack.
    pub fn len(&self) -> (n: usize)
        ensures
            n == self@.len(),
    {
        self.inner.len()
    }

    /// Pushes a value: its bytes, then its tags on top. Returns the position
    /// above it.
    pub fn push<V: Push>(&mut self, value: V) -> (id: StackId)
        ensures
            final(self)@ == old(self)@ + value.value_bytes() + V::tag_bytes(),
            id.0 == final(self)@.len(),
    {
        V::push_value(self, value);
        V::push_tags(self);
        StackId(self.inner.len())
    }

    /// Pushes the byte of a tag.
    pub fn push_tag(&mut self, tag: Ty)
        ensures
            final(self)@ == old(self)@.push(tag.spec_code()),
    {
        self.inner.push(tag.code());
    }

    /// Pushes the eight bytes of a number, the least significant first.
    pub fn push_u64(&mut self, v: u64)
        ensures
            final(self)@ == old(self)@ + spec_u64_to_le_bytes(v),
    {
        let bytes = u64_to_le_bytes(v);
        self.push_untagged_bytes(bytes.as_slice());
    }

    /// Pushes bytes as they are.
    pub fn push_untagged_bytes(&mut self, bytes: &[u8])
        ensures
            final(self)@ == old(self)@ + bytes@,
    {
        let mut i: usize = 0;
        while i < bytes.len()
            invariant
                i <= bytes.len(),
                self@ == old(self)@ + bytes@.take(i as int),
            decreases bytes.len() - i,
        {
            self.inner.push(bytes[i]);
            proof {
                assert(bytes@.take(i + 1) =~= bytes@.take(i as int).push(bytes@[i as int]));
                assert(self@ =~= old(self)@ + bytes@.take(i + 1));
            }
            i += 1;
        }
        proof {
            assert(bytes@.take(bytes@.len() as int) =~= bytes@);
        }
    }

    /// Pops a value of type `V`.
    pub fn pop<V: Pop>(&mut self) -> (value: Result<V>)
        requires
            top_is_tag(old(self)@),
        ensures
            (final(self)@, value) == V::pop_spec(old(self)@),
    {
        V::pop(self)
    }

    /// The tag on top of the stack, which stays there.
    pub fn peek_tag(&mut self) -> (tag: Result<Ty>)
        requires
            top_is_tag(old(self)@),
        ensures
            final(self)@ == old(self)@,
            tag == peek_spec(old(self)@),
    {
        if self.inner.len() == 0 {
            return Err(Error::from_too_small(StackTooSmall { what: "tag" }));
        }
        match Ty::try_from(self.inner[self.inner.len() - 1]) {
            Some(ty) => Ok(ty),
            None => unreached(),
        }
    }

    /// Pops the eight bytes of a number.
    pub fn pop_u64(&mut self) -> (v: u64)
        requires
            old(self)@.len() >= 8,
        ensures
            final(self)@ == old(self)@.take(old(self)@.len() - 8),
            v == spec_u64_from_le_bytes(old(self)@.skip(old(self)@.len() - 8)),
    {
        let len = self.inner.len();
        let v = u64_from_le_bytes(slice_subrange(self.inner.as_slice(), len - 8, len));
        self.inner.truncate(len - 8);
        proof {
            assert(old(self)@.subrange(len - 8, len as int) =~= old(self)@.skip(len - 8));
            assert(self@ =~= old(self)@.take(len - 8));
        }
        v
    }

    /// Pops one byte.
    pub fn pop_untagged_byte(&mut self) -> (byte: u8)
        requires
            old(self)@.len() > 0,
        ensures
            final(self)@ == old(self)@.drop_last(),
            byte == old(self)@.last(),
    {
        self.inner.pop().unwrap()
    }

    /// Pops the top `len` bytes, in the order in which they were pushed.
    pub fn pop_untagged_bytes(&mut self, len: usize) -> (bytes: Vec<u8>)
        requires
            old(self)@.len() >= len,
        ensures
            final(self)@ == old(self)@.take(old(self)@.len() - len),
            bytes@ == old(self)@.skip(old(self)@.len() - len),
    {
        let start = self.inner.len() - len;
        let bytes = self.inner.split_off(start);
        proof {
            assert(self@ =~= old(self)@.take(start as int));
            assert(bytes@ =~= old(self)@.skip(start as int));
        }
        bytes
    }

    /// Takes the tag `tag` off the top of the stack. A stack with another
    /// tag on top stays as it is.
    pub fn expect_tag(&mut self, tag: Ty) -> (done: Result<()>)
        requires
            top_is_tag(old(self)@),
        ensures
            (final(self)@, done) == expect_spec(old(self)@, tag),
    {
        match self.peek_tag() {
            Err(e) => Err(e),
            Ok(got) => {
                if got == tag {
                    self.pop_untagged_byte();
                    Ok(())
                } else {
                    Err(Error::from_unexpected(UnexpectedTy { expected: tag, got }))
                }
            },
        }
    }
}

/// A type whose values can be pushed.
pub trait Push: Sized {
    /// The bytes of a value, without its tags.
    spec fn value_bytes(&self) -> Seq<u8>;

    /// The tags that lie on top of a value of this type.
    spec fn tag_bytes() -> Seq<u8>;

    /// Pushes the tags of this type.
    fn push_tags(stack: &mut Stack)
        ensures
            final(stack)@ == old(stack)@ + Self::tag_bytes(),
    ;

    /// Pushes the bytes of a value.
    fn push_value(stack: &mut Stack, value: Self)
        ensures
            final(stack)@ == old(stack)@ + value.value_bytes(),
    ;
}

/// A type whose values can be popped.
pub trait Pop: Sized {
    /// What popping a value of this type off `s` gives and leaves.
    spec fn pop_spec(s: Seq<u8>) -> (Seq<u8>, core::result::Result<Self, Error>);

    /// Pops a value of this type.
    fn pop(stack: &mut Stack) -> (value: Result<Self>)
        requires
            top_is_tag(old(stack)@),
        ensures
            (final(stack)@, value) == Self::pop_spec(old(stack)@),
    ;
}

impl Push for u64 {
    open spec fn value_bytes(&self) -> Seq<u8> {
        spec_u64_to_le_bytes(*self)
    }

    open spec fn tag_bytes() -> Seq<u8> {
        seq![Ty::Uint.spec_code()]
    }

    fn push_tags(stack: &mut Stack) {
        stack.push_tag(Ty::Uint);
        proof {
            assert(stack@ =~= old(stack)@ + Self::tag_bytes());
        }
    }

    fn push_value(stack: &mut Stack, value: Self) {
        stack.push_u64(value);
    }
}

impl Pop for u64 {
    open spec fn pop_spec(s: Seq<u8>) -> (Seq<u8>, core::result::Result<Self, Error>) {
        match expect_spec(s, Ty::Uint) {
            (rest, Err(e)) => (rest, Err(e)),
            (rest, Ok(())) => if rest.len() < 8 {
                (rest, Err(Error::StackTooSmall(StackTooSmall { what: "u64" })))
            } else {
                (rest.take(rest.len() - 8), Ok(spec_u64_from_le_bytes(rest.skip(rest.len() - 8))))
            },
        }
    }

    fn pop(stack: &mut Stack) -> (value: Result<Self>) {
        match stack.expect_tag(Ty::Uint) {
            Err(e) => Err(e),
            Ok(()) => {
                if stack.len() < 8 {
                    Err(Error::from_too_small(StackTooSmall { what: "u64" }))
                } else {
                    Ok(stack.pop_u64())
                }
            },
        }
    }
}

impl Push for bool {
    open spec fn value_bytes(&self) -> Seq<u8> {
        seq![
            if *self {
                1u8
            } else {
                0u8
            },
        ]
    }

    open spec fn tag_bytes() -> Seq<u8> {
        seq![Ty::Bool.spec_code()]
    }

    fn push_tags(stack: &mut Stack) {
        stack.push_tag(Ty::Bool);
        proof {
            assert(stack@ =~= old(stack)@ + Self::tag_bytes());
        }
    }

    fn push_value(stack: &mut Stack, value: Self) {
        let byte: u8 = if value {
            1
        } else {
            0
        };
        let mut bytes: Vec<u8> = Vec::new();
        bytes.push(byte);
        stack.push_untagged_bytes(bytes.as_slice());
        proof {
            assert(bytes@ =~= value.value_bytes());
        }
    }
}

impl Pop for bool {
    open spec fn pop_spec(s: Seq<u8>) -> (Seq<u8>, core::result::Result<Self, Error>) {
        match expect_spec(s, Ty::Bool) {
            (rest, Err(e)) => (rest, Err(e)),
            (rest, Ok(())) => if rest.len() < 1 {
                (rest, Err(Error::StackTooSmall(StackTooSmall { what: "bool" })))
            } else {
                (rest.drop_last(), Ok(rest.last() != 0))
            },
        }
    }

    fn pop(stack: &mut Stack) -> (value: Result<Self>) {
        match stack.expect_tag(Ty::Bool) {
            Err(e) => Err(e),
            Ok(()) => {
                if stack.len() < 1 {
                    Err(Error::from_too_small(StackTooSmall { what: "bool" }))
                } else {
                    Ok(stack.pop_untagged_byte() != 0)
                }
            },
        }
    }
}

/// A pushed number pops as itself and leaves the stack as it was.
pub proof fn lemma_push_pop_u64(s: Seq<u8>, v: u64)
    ensures
        top_is_tag(s + v.value_bytes() + <u64 as Push>::tag_bytes()),
        <u64 as Pop>::pop_spec(s + v.value_bytes() + <u64 as Push>::tag_bytes()) == (
            s,
            Ok::<u64, Error>(v),
        ),
{
    lemma_auto_spec_u64_to_from_le_bytes();
    let bytes = spec_u64_to_le_bytes(v);
    let full = s + bytes + <u64 as Push>::tag_bytes();
    let rest = s + bytes;
    assert(full.last() == Ty::Uint.spec_code());
    assert(full.drop_last() =~= rest);
    assert(rest.take(rest.len() - 8) =~= s);
    assert(rest.skip(rest.len() - 8) =~= bytes);
}

/// A pushed boolean pops as itself and leaves the stack as it was.
pub proof fn lemma_push_pop_bool(s: Seq<u8>, v: bool)
    ensures
        top_is_tag(s + v.value_bytes() + <bool as Push>::tag_bytes()),
        <bool as Pop>::pop_spec(s + v.value_bytes() + <bool as Push>::tag_bytes()) == (
            s,
            Ok::<bool, Error>(v),
        ),
{
    let bytes = v.value_bytes();
    let full = s + bytes + <bool as Push>::tag_bytes();
    let rest = s + bytes;
    assert(full.last() == Ty::Bool.spec_code());
    assert(full.drop_last() =~= rest);
    assert(rest.drop_last() =~= s);
}

} // verus!
