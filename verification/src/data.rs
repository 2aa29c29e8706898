//! The dynamic value in its two forms: the flat record that crosses the
//! dispatch boundary, and the native tagged form used away from it.

use crate::error::{Error, Result};
use crate::handle::{NodeHandle, NodeHandleRef};
use crate::intern::Interned;
use crate::path::InternedPathBuf;
use vstd::pervasive::unreached;
use vstd::prelude::*;

verus! {

// Kind bits: a flat value has at most one of them.
/// A node.
pub const KIND_NODE: u32 = 0x1;

/// A string of bytes.
pub const KIND_STRING: u32 = 0x2;

/// An integer.
pub const KIND_INTEGER: u32 = 0x4;

/// A floating-point number.
pub const KIND_FLOAT: u32 = 0x8;

/// A boolean.
pub const KIND_BOOL: u32 = 0x10;

/// An interned code.
pub const KIND_INTERNED: u32 = 0x20;

/// A failure.
pub const KIND_ERROR: u32 = 0x40;

// Modifier bits.
/// The integer is signed.
pub const MOD_SIGNED: u32 = 0x100;

/// Reserved for values whose storage was allocated for them.
pub const MOD_ALLOCATED: u32 = 0x200;

/// The value owns what its slot points to.
pub const MOD_BOXED: u32 = 0x400;

/// The slot points to a sequence, whose length the length field holds.
pub const MOD_ARRAY: u32 = 0x800;

// The combinations that a flat value may carry.
/// A boolean, in the word.
pub const BOOL: u32 = 0x10;

/// A failure, by its code in the word.
pub const ERROR: u32 = 0x40;

/// A floating-point number, by its bits in the word.
pub const FLOAT: u32 = 0x8;

/// An unsigned integer, in the word.
pub const INTEGER: u32 = 0x4;

/// A signed integer, in the word.
pub const INTEGER_SIGNED: u32 = 0x104;

/// An interned code, in the word.
pub const INTERNED: u32 = 0x20;

/// A borrowed sequence of interned codes.
pub const INTERNED_PATH: u32 = 0x820;

/// An owned sequence of interned codes.
pub const INTERNED_PATH_BUF: u32 = 0xc20;

/// A borrowed handle to a node, by its slot in the word.
pub const NODE: u32 = 0x1;

/// An owning handle to a node, by its slot in the word.
pub const NODE_BOXED: u32 = 0x401;

/// A borrowed string of bytes.
pub const STRING: u32 = 0x2;

/// An owned string of bytes.
pub const STRING_BOXED: u32 = 0x402;

/// A borrowed sequence of flat values.
pub const VALUE_ARRAY: u32 = 0x800;

/// An owned sequence of flat values.
pub const VALUE_ARRAY_BOXED: u32 = 0xc00;

/// No value.
pub const VOID: u32 = 0x0;

/// Every bit that has a meaning.
pub const ALL_BITS: u32 = 0xf7f;

/// The combined constants are the unions of the kind and modifier bits that
/// their names give.
pub proof fn lemma_combined_flags()
    ensures
        INTEGER_SIGNED == KIND_INTEGER | MOD_SIGNED,
        INTERNED_PATH == KIND_INTERNED | MOD_ARRAY,
        INTERNED_PATH_BUF == KIND_INTERNED | MOD_ARRAY | MOD_BOXED,
        NODE_BOXED == KIND_NODE | MOD_BOXED,
        STRING_BOXED == KIND_STRING | MOD_BOXED,
        VALUE_ARRAY == MOD_ARRAY,
        VALUE_ARRAY_BOXED == MOD_ARRAY | MOD_BOXED,
        ALL_BITS == KIND_NODE | KIND_STRING | KIND_INTEGER | KIND_FLOAT | KIND_BOOL | KIND_INTERNED
            | KIND_ERROR | MOD_SIGNED | MOD_ALLOCATED | MOD_BOXED | MOD_ARRAY,
{
    assert(0x104u32 == 0x4u32 | 0x100u32) by (bit_vector);
    assert(0x820u32 == 0x20u32 | 0x800u32) by (bit_vector);
    assert(0xc20u32 == 0x20u32 | 0x800u32 | 0x400u32) by (bit_vector);
    assert(0x401u32 == 0x1u32 | 0x400u32) by (bit_vector);
    assert(0x402u32 == 0x2u32 | 0x400u32) by (bit_vector);
    assert(0xc00u32 == 0x800u32 | 0x400u32) by (bit_vector);
    assert(0xf7fu32 == 0x1u32 | 0x2u32 | 0x4u32 | 0x8u32 | 0x10u32 | 0x20u32 | 0x40u32 | 0x100u32
        | 0x200u32 | 0x400u32 | 0x800u32) by (bit_vector);
}

/// Whether `bits` is one of the combinations that a flat value may carry.
pub open spec fn is_defined_flags(bits: u32) -> bool {
    ||| bits == BOOL
    ||| bits == ERROR
    ||| bits == FLOAT
    ||| bits == INTEGER
    ||| bits == INTEGER_SIGNED
    ||| bits == INTERNED
    ||| bits == INTERNED_PATH
    ||| bits == INTERNED_PATH_BUF
    ||| bits == NODE
    ||| bits == NODE_BOXED
    ||| bits == STRING
    ||| bits == STRING_BOXED
    ||| bits == VALUE_ARRAY
    ||| bits == VALUE_ARRAY_BOXED
    ||| bits == VOID
}

/// The type and ownership flags of a flat value.
#[derive(Clone, Copy, Debug, PartialEq, Eq, Structural)]
pub struct Flags {
    pub bits: u32,
}

impl Flags {
    /// The flags with no bit set: those of the void value.
    pub fn empty() -> (flags: Flags)
        ensures
            flags.bits == VOID,
    {
        Flags { bits: 0 }
    }

    /// The flags with the given bits, unless a bit without meaning is among them.
    pub fn from_bits(bits: u32) -> (flags: Option<Flags>)
        ensures
            flags == (if bits & !ALL_BITS == 0 {
                Some(Flags { bits })
            } else {
                None
            }),
    {
        if bits & !ALL_BITS == 0 {
            Some(Flags { bits })
        } else {
            None
        }
    }

    /// The bits as a number.
    pub fn bits(&self) -> (bits: u32)
        ensures
            bits == self.bits,
    {
        self.bits
    }

    /// Whether every bit of `other` is set in `self`.
    pub fn contains(&self, other: Flags) -> (all: bool)
        ensures
            all == (self.bits & other.bits == other.bits),
    {
        self.bits & other.bits == other.bits
    }

    /// The bits of both.
    pub fn union(&self, other: Flags) -> (both: Flags)
        ensures
            both.bits == self.bits | other.bits,
    {
        Flags { bits: self.bits | other.bits }
    }

    /// Whether these flags are one of the combinations that a flat value may carry.
    pub fn is_defined(&self) -> (defined: bool)
        ensures
            defined == is_defined_flags(self.bits),
    {
        let b = self.bits;
        b == BOOL || b == ERROR || b == FLOAT || b == INTEGER || b == INTEGER_SIGNED || b
            == INTERNED || b == INTERNED_PATH || b == INTERNED_PATH_BUF || b == NODE || b
            == NODE_BOXED || b == STRING || b == STRING_BOXED || b == VALUE_ARRAY || b
            == VALUE_ARRAY_BOXED || b == VOID
    }
}

/// The operation that a dispatch call asks of a node.
#[derive(Clone, Copy, Debug, PartialEq, Eq, Structural)]
pub enum Action {
    Call,
    List,
    Get,
    SetEntry,
    Clone,
    Drop,
}

impl Action {
    /// The one-byte tag of this operation.
    pub open spec fn spec_code(self) -> u8 {
        match self {
            Action::Call => 0x0,
            Action::List => 0x1,
            Action::Get => 0x10,
            Action::SetEntry => 0x11,
            Action::Clone => 0x20,
            Action::Drop => 0x21,
        }
    }

    /// The one-byte tag of this operation.
    pub fn code(self) -> (code: u8)
        ensures
            code == self.spec_code(),
    {
        match self {
            Action::Call => 0x0,
            Action::List => 0x1,
            Action::Get => 0x10,
            Action::SetEntry => 0x11,
            Action::Clone => 0x20,
            Action::Drop => 0x21,
        }
    }

    /// The operation that a tag stands for, if it stands for one.
    pub fn from_code(code: u8) -> (action: Option<Action>)
        ensures
            match action {
                Some(a) => a.spec_code() == code,
                None => forall|a: Action| a.spec_code() != code,
            },
    {
        match code {
            0x0 => Some(Action::Call),
            0x1 => Some(Action::List),
            0x10 => Some(Action::Get),
            0x11 => Some(Action::SetEntry),
            0x20 => Some(Action::Clone),
            0x21 => Some(Action::Drop),
            _ => None,
        }
    }
}

/// What the slot of a flat value holds: a machine word, or a buffer that the
/// value owns or borrows.
pub enum SlotView {
    Word(u64),
    Bytes { owned: bool, bytes: Seq<u8> },
    Codes { owned: bool, codes: Seq<Interned> },
    Values { owned: bool, items: Seq<RawView> },
}

/// What a flat value holds.
pub struct RawView {
    pub flags: u32,
    pub extra: u32,
    pub slot: SlotView,
}

/// What a native value holds. `Float` holds the 64 bits of the number.
pub enum ValueView {
    Bool(bool),
    Error(Error),
    Float(u64),
    Interned(Interned),
    Path { owned: bool, codes: Seq<Interned> },
    Node { owned: bool, id: usize },
    Signed(i64),
    String { owned: bool, bytes: Seq<u8> },
    Unsigned(u64),
    Array { owned: bool, items: Seq<RawView> },
    Void,
}

/// The flags decide which slot is valid and what the length field means:
/// a scalar kind has a word, a buffer kind has a buffer of `extra` elements
/// that is owned exactly if the boxed bit is set, and an array's elements are
/// well-formed in turn. Other flags are no value at all.
pub open spec fn raw_wf(r: RawView) -> bool
    decreases r,
{
    match r.slot {
        SlotView::Word(w) => {
            ||| r.flags == BOOL && w <= 1
            ||| r.flags == ERROR && 1 <= w <= 7
            ||| r.flags == FLOAT
            ||| r.flags == INTEGER
            ||| r.flags == INTEGER_SIGNED
            ||| r.flags == INTERNED
            ||| r.flags == NODE && w <= usize::MAX
            ||| r.flags == NODE_BOXED && w <= usize::MAX
            ||| r.flags == VOID
        },
        SlotView::Bytes { owned, bytes } => {
            &&& r.flags == (if owned {
                STRING_BOXED
            } else {
                STRING
            })
            &&& bytes.len() == r.extra
        },
        SlotView::Codes { owned, codes } => {
            &&& r.flags == (if owned {
                INTERNED_PATH_BUF
            } else {
                INTERNED_PATH
            })
            &&& codes.len() == r.extra
        },
        SlotView::Values { owned, items } => {
            &&& r.flags == (if owned {
                VALUE_ARRAY_BOXED
            } else {
                VALUE_ARRAY
            })
            &&& items.len() == r.extra
            &&& forall|i: int| 0 <= i < items.len() ==> raw_wf(#[trigger] items[i])
        },
    }
}

/// A native value that has a flat form: its buffer's length fits the length
/// field, and the elements of an array are well-formed flat values.
pub open spec fn value_wf(v: ValueView) -> bool {
    match v {
        ValueView::Path { owned, codes } => codes.len() <= u32::MAX,
        ValueView::String { owned, bytes } => bytes.len() <= u32::MAX,
        ValueView::Array { owned, items } => {
            &&& items.len() <= u32::MAX
            &&& forall|i: int| 0 <= i < items.len() ==> raw_wf(#[trigger] items[i])
        },
        _ => true,
    }
}

/// The flat form of a native value.
pub open spec fn to_flat_spec(v: ValueView) -> RawView {
    match v {
        ValueView::Bool(b) => RawView {
            flags: BOOL,
            extra: 0,
            slot: SlotView::Word(
                if b {
                    1
                } else {
                    0
                },
            ),
        },
        ValueView::Error(e) => RawView {
            flags: ERROR,
            extra: 0,
            slot: SlotView::Word(e.spec_code() as u64),
        },
        ValueView::Float(bits) => RawView { flags: FLOAT, extra: 0, slot: SlotView::Word(bits) },
        ValueView::Interned(i) => RawView { flags: INTERNED, extra: 0, slot: SlotView::Word(i.0) },
        ValueView::Path { owned, codes } => RawView {
            flags: if owned {
                INTERNED_PATH_BUF
            } else {
                INTERNED_PATH
            },
            extra: codes.len() as u32,
            slot: SlotView::Codes { owned, codes },
        },
        ValueView::Node { owned, id } => RawView {
            flags: if owned {
                NODE_BOXED
            } else {
                NODE
            },
            extra: 0,
            slot: SlotView::Word(id as u64),
        },
        ValueView::Signed(s) => RawView {
            flags: INTEGER_SIGNED,
            extra: 0,
            slot: SlotView::Word(s as u64),
        },
        ValueView::String { owned, bytes } => RawView {
            flags: if owned {
                STRING_BOXED
            } else {
                STRING
            },
            extra: bytes.len() as u32,
            slot: SlotView::Bytes { owned, bytes },
        },
        ValueView::Unsigned(u) => RawView { flags: INTEGER, extra: 0, slot: SlotView::Word(u) },
        ValueView::Array { owned, items } => RawView {
            flags: if owned {
                VALUE_ARRAY_BOXED
            } else {
                VALUE_ARRAY
            },
            extra: items.len() as u32,
            slot: SlotView::Values { owned, items },
        },
        ValueView::Void => RawView { flags: VOID, extra: 0, slot: SlotView::Word(0) },
    }
}

/// The native form of a well-formed flat value.
pub open spec fn from_flat_spec(r: RawView) -> ValueView {
    match r.slot {
        SlotView::Word(w) => {
            if r.flags == BOOL {
                ValueView::Bool(w != 0)
            } else if r.flags == ERROR {
                ValueView::Error(Error::spec_from_code(w as u8).unwrap())
            } else if r.flags == FLOAT {
                ValueView::Float(w)
            } else if r.flags == INTEGER {
                ValueView::Unsigned(w)
            } else if r.flags == INTEGER_SIGNED {
                ValueView::Signed(w as i64)
            } else if r.flags == INTERNED {
                ValueView::Interned(Interned(w))
            } else if r.flags == NODE {
                ValueView::Node { owned: false, id: w as usize }
            } else if r.flags == NODE_BOXED {
                ValueView::Node { owned: true, id: w as usize }
            } else {
                ValueView::Void
            }
        },
        SlotView::Bytes { owned, bytes } => ValueView::String { owned, bytes },
        SlotView::Codes { owned, codes } => ValueView::Path { owned, codes },
        SlotView::Values { owned, items } => ValueView::Array { owned, items },
    }
}

/// Round trip: the flat form of a native value is well-formed, and reading
/// it back gives the value again, ownership included.
pub proof fn lemma_flat_round_trip(v: ValueView)
    requires
        value_wf(v),
    ensures
        raw_wf(to_flat_spec(v)),
        from_flat_spec(to_flat_spec(v)) == v,
{
    match v {
        ValueView::Signed(s) => {
            assert((s as u64) as i64 == s) by (bit_vector);
        },
        ValueView::Error(e) => {
            assert(Error::spec_from_code(e.spec_code()) == Some(e));
        },
        _ => {},
    }
}

/// The slot of a flat value.
#[derive(Debug)]
pub enum RawValueInner<'a> {
    Word(u64),
    String(Vec<u8>),
    StringRef(&'a [u8]),
    InternedPath(Vec<Interned>),
    InternedPathRef(&'a [Interned]),
    ValueArray(Vec<RawValue<'a>>),
    ValueArrayRef(&'a Vec<RawValue<'a>>),
}

/// The flat value: flags, a length for the buffer kinds, and one slot.
#[derive(Debug)]
pub struct RawValue<'a> {
    pub flags: Flags,
    pub extra: u32,
    pub value: RawValueInner<'a>,
}

/// The native value: one case per kind, each owning or borrowing what it holds.
/// `Float` holds the 64 bits of the number.
#[derive(Debug)]
pub enum Value<'a> {
    Bool(bool),
    Error(Error),
    Float(u64),
    Interned(Interned),
    InternedPathBuf(InternedPathBuf),
    InternedPathRef(&'a [Interned]),
    Node(NodeHandle),
    NodeRef(NodeHandleRef),
    Signed(i64),
    String(Vec<u8>),
    StringRef(&'a [u8]),
    Unsigned(u64),
    ValueArray(Vec<RawValue<'a>>),
    ValueArrayRef(&'a Vec<RawValue<'a>>),
    Void,
}

/// What each flat value of a sequence holds.
pub open spec fn raw_views(s: Seq<RawValue<'_>>) -> Seq<RawView> {
    Seq::new(s.len(), |i: int| s[i]@)
}

impl<'a> RawValueInner<'a> {
    /// What the slot holds.
    pub open spec fn view(&self) -> SlotView
        decreases self,
    {
        match self {
            RawValueInner::Word(w) => SlotView::Word(*w),
            RawValueInner::String(b) => SlotView::Bytes { owned: true, bytes: b@ },
            RawValueInner::StringRef(b) => SlotView::Bytes { owned: false, bytes: b@ },
            RawValueInner::InternedPath(p) => SlotView::Codes { owned: true, codes: p@ },
            RawValueInner::InternedPathRef(p) => SlotView::Codes { owned: false, codes: p@ },
            RawValueInner::ValueArray(a) => SlotView::Values {
                owned: true,
                items: Seq::new(
                    a@.len(),
                    |i: int|
                        if 0 <= i < a@.len() {
                            a@[i].view()
                        } else {
                            arbitrary()
                        },
                ),
            },
            RawValueInner::ValueArrayRef(a) => SlotView::Values {
                owned: false,
                items: Seq::new(
                    a@.len(),
                    |i: int|
                        if 0 <= i < a@.len() {
                            a@[i].view()
                        } else {
                            arbitrary()
                        },
                ),
            },
        }
    }
}

impl<'a> RawValue<'a> {
    /// What the flat value holds.
    pub open spec fn view(&self) -> RawView
        decreases self,
    {
        RawView { flags: self.flags.bits, extra: self.extra, slot: self.value.view() }
    }

    /// Whether the flags match what the slot holds.
    pub open spec fn wf(&self) -> bool {
        raw_wf(self@)
    }
}

impl<'a> Value<'a> {
    /// What the value holds.
    pub open spec fn view(&self) -> ValueView {
        match self {
            Value::Bool(b) => ValueView::Bool(*b),
            Value::Error(e) => ValueView::Error(*e),
            Value::Float(bits) => ValueView::Float(*bits),
            Value::Interned(i) => ValueView::Interned(*i),
            Value::InternedPathBuf(p) => ValueView::Path { owned: true, codes: p@ },
            Value::InternedPathRef(p) => ValueView::Path { owned: false, codes: p@ },
            Value::Node(n) => ValueView::Node { owned: true, id: n.id() },
            Value::NodeRef(n) => ValueView::Node { owned: false, id: n.id() },
            Value::Signed(s) => ValueView::Signed(*s),
            Value::String(b) => ValueView::String { owned: true, bytes: b@ },
            Value::StringRef(b) => ValueView::String { owned: false, bytes: b@ },
            Value::Unsigned(u) => ValueView::Unsigned(*u),
            Value::ValueArray(a) => ValueView::Array { owned: true, items: raw_views(a@) },
            Value::ValueArrayRef(a) => ValueView::Array { owned: false, items: raw_views(a@) },
            Value::Void => ValueView::Void,
        }
    }

    /// Whether the value has a flat form.
    pub open spec fn wf(&self) -> bool {
        value_wf(self@)
    }
}

/// The slot of an array holds what its elements hold.
pub proof fn lemma_array_slot(a: Seq<RawValue<'_>>, v: Vec<RawValue<'_>>)
    requires
        v@ == a,
    ensures
        RawValueInner::ValueArray(v)@ == (SlotView::Values { owned: true, items: raw_views(a) }),
        RawValueInner::ValueArrayRef(&v)@ == (SlotView::Values {
            owned: false,
            items: raw_views(a),
        }),
{
    assert(RawValueInner::ValueArray(v)@->Values_items =~= raw_views(a));
    assert(RawValueInner::ValueArrayRef(&v)@->Values_items =~= raw_views(a));
}

/// A copy of a byte buffer.
pub fn copy_bytes(src: &[u8]) -> (dst: Vec<u8>)
    ensures
        dst@ == src@,
{
    let mut dst: Vec<u8> = Vec::new();
    let mut i: usize = 0;
    while i < src.len()
        invariant
            i <= src.len(),
            dst@ == src@.take(i as int),
        decreases src.len() - i,
    {
        dst.push(src[i]);
        proof {
            assert(src@.take(i + 1) =~= src@.take(i as int).push(src@[i as int]));
        }
        i += 1;
    }
    proof {
        assert(src@.take(src@.len() as int) =~= src@);
    }
    dst
}

/// A copy of a sequence of codes.
pub fn copy_codes(src: &[Interned]) -> (dst: Vec<Interned>)
    ensures
        dst@ == src@,
{
    let mut dst: Vec<Interned> = Vec::new();
    let mut i: usize = 0;
    while i < src.len()
        invariant
            i <= src.len(),
            dst@ == src@.take(i as int),
        decreases src.len() - i,
    {
        dst.push(src[i]);
        proof {
            assert(src@.take(i + 1) =~= src@.take(i as int).push(src@[i as int]));
        }
        i += 1;
    }
    proof {
        assert(src@.take(src@.len() as int) =~= src@);
    }
    dst
}

impl<'a> RawValue<'a> {
    /// The flat form of the void value.
    pub fn void() -> (raw: RawValue<'a>)
        ensures
            raw@ == to_flat_spec(ValueView::Void),
            raw.wf(),
    {
        RawValue { flags: Flags { bits: VOID }, extra: 0, value: RawValueInner::Word(0) }
    }

    /// Lays a native value out flat. An owned buffer moves into the slot, its
    /// length into the length field; a borrowed one stays borrowed.
    pub fn from(value: Value<'a>) -> (raw: RawValue<'a>)
        requires
            value.wf(),
        ensures
            raw@ == to_flat_spec(value@),
            raw.wf(),
            from_flat_spec(raw@) == value@,
    {
        proof {
            lemma_flat_round_trip(value@);
        }
        match value {
            Value::Bool(boolean) => RawValue {
                flags: Flags { bits: BOOL },
                extra: 0,
                value: RawValueInner::Word(
                    if boolean {
                        1
                    } else {
                        0
                    },
                ),
            },
            Value::Error(error) => RawValue {
                flags: Flags { bits: ERROR },
                extra: 0,
                value: RawValueInner::Word(error.code() as u64),
            },
            Value::Float(float) => RawValue {
                flags: Flags { bits: FLOAT },
                extra: 0,
                value: RawValueInner::Word(float),
            },
            Value::Interned(interned) => RawValue {
                flags: Flags { bits: INTERNED },
                extra: 0,
                value: RawValueInner::Word(interned.0),
            },
            Value::InternedPathBuf(b) => {
                let codes = b.into_vec();
                RawValue {
                    flags: Flags { bits: INTERNED_PATH_BUF },
                    extra: codes.len() as u32,
                    value: RawValueInner::InternedPath(codes),
                }
            },
            Value::InternedPathRef(r) => RawValue {
                flags: Flags { bits: INTERNED_PATH },
                extra: r.len() as u32,
                value: RawValueInner::InternedPathRef(r),
            },
            Value::Node(node) => RawValue {
                flags: Flags { bits: NODE_BOXED },
                extra: 0,
                value: RawValueInner::Word(NodeHandle::into_raw(node) as u64),
            },
            Value::NodeRef(node) => RawValue {
                flags: Flags { bits: NODE },
                extra: 0,
                value: RawValueInner::Word(node.raw() as u64),
            },
            Value::Signed(signed) => RawValue {
                flags: Flags { bits: INTEGER_SIGNED },
                extra: 0,
                value: RawValueInner::Word(signed as u64),
            },
            Value::String(s) => RawValue {
                flags: Flags { bits: STRING_BOXED },
                extra: s.len() as u32,
                value: RawValueInner::String(s),
            },
            Value::StringRef(s) => RawValue {
                flags: Flags { bits: STRING },
                extra: s.len() as u32,
                value: RawValueInner::StringRef(s),
            },
            Value::Unsigned(unsigned) => RawValue {
                flags: Flags { bits: INTEGER },
                extra: 0,
                value: RawValueInner::Word(unsigned),
            },
            Value::ValueArray(array) => {
                proof {
                    lemma_array_slot(array@, array);
                }
                RawValue {
                    flags: Flags { bits: VALUE_ARRAY_BOXED },
                    extra: array.len() as u32,
                    value: RawValueInner::ValueArray(array),
                }
            },
            Value::ValueArrayRef(array) => {
                proof {
                    lemma_array_slot(array@, *array);
                }
                RawValue {
                    flags: Flags { bits: VALUE_ARRAY },
                    extra: array.len() as u32,
                    value: RawValueInner::ValueArrayRef(array),
                }
            },
            Value::Void => RawValue {
                flags: Flags::empty(),
                extra: 0,
                value: RawValueInner::Word(0),
            },
        }
    }

    /// Tells whether the flags match what the slot holds, here and in every
    /// element of an array.
    pub fn is_well_formed(&self) -> (ok: bool)
        ensures
            ok == self.wf(),
        decreases self,
    {
        let f = self.flags.bits;
        match &self.value {
            RawValueInner::Word(w) => {
                (f == BOOL && *w <= 1) || (f == ERROR && 1 <= *w && *w <= 7) || f == FLOAT || f
                    == INTEGER || f == INTEGER_SIGNED || f == INTERNED || (f == NODE && *w
                    <= usize::MAX as u64) || (f == NODE_BOXED && *w <= usize::MAX as u64) || f
                    == VOID
            },
            RawValueInner::String(b) => f == STRING_BOXED && b.len() == self.extra as usize,
            RawValueInner::StringRef(b) => f == STRING && b.len() == self.extra as usize,
            RawValueInner::InternedPath(p) => f == INTERNED_PATH_BUF && p.len()
                == self.extra as usize,
            RawValueInner::InternedPathRef(p) => f == INTERNED_PATH && p.len()
                == self.extra as usize,
            RawValueInner::ValueArray(a) => {
                proof {
                    lemma_array_slot(a@, *a);
                }
                f == VALUE_ARRAY_BOXED && a.len() == self.extra as usize && all_well_formed(a)
            },
            RawValueInner::ValueArrayRef(a) => {
                proof {
                    lemma_array_slot(a@, **a);
                }
                f == VALUE_ARRAY && a.len() == self.extra as usize && all_well_formed(*a)
            },
        }
    }
}

/// Tells whether every flat value of an array is well-formed.
pub fn all_well_formed(a: &Vec<RawValue<'_>>) -> (ok: bool)
    ensures
        ok == (forall|i: int| 0 <= i < a@.len() ==> raw_wf(#[trigger] raw_views(a@)[i])),
    decreases a,
{
    let mut i: usize = 0;
    while i < a.len()
        invariant
            i <= a.len(),
            forall|j: int| 0 <= j < i ==> raw_wf(#[trigger] raw_views(a@)[j]),
        decreases a.len() - i,
    {
        if !a[i].is_well_formed() {
            proof {
                assert(!raw_wf(raw_views(a@)[i as int]));
            }
            return false;
        }
        i += 1;
    }
    true
}

impl<'a> Value<'a> {
    /// Reads a flat value back into its native form. A buffer that the flat
    /// value owns is owned by the native value afterwards.
    pub fn from_raw(raw: RawValue<'a>) -> (value: Value<'a>)
        requires
            raw.wf(),
        ensures
            value@ == from_flat_spec(raw@),
            value.wf(),
    {
        let flags = raw.flags.bits;
        match raw.value {
            RawValueInner::Word(w) => {
                if flags == BOOL {
                    Value::Bool(w != 0)
                } else if flags == ERROR {
                    match Error::from_code(w as u8) {
                        Some(e) => Value::Error(e),
                        None => unreached(),
                    }
                } else if flags == FLOAT {
                    Value::Float(w)
                } else if flags == INTEGER {
                    Value::Unsigned(w)
                } else if flags == INTEGER_SIGNED {
                    Value::Signed(w as i64)
                } else if flags == INTERNED {
                    Value::Interned(Interned(w))
                } else if flags == NODE {
                    Value::NodeRef(NodeHandleRef::from_raw(w as usize))
                } else if flags == NODE_BOXED {
                    Value::Node(NodeHandle::from_raw(w as usize))
                } else {
                    Value::Void
                }
            },
            RawValueInner::String(b) => Value::String(b),
            RawValueInner::StringRef(b) => Value::StringRef(b),
            RawValueInner::InternedPath(p) => Value::InternedPathBuf(InternedPathBuf::from_iter(p)),
            RawValueInner::InternedPathRef(p) => Value::InternedPathRef(p),
            RawValueInner::ValueArray(a) => {
                proof {
                    lemma_array_slot(a@, a);
                }
                Value::ValueArray(a)
            },
            RawValueInner::ValueArrayRef(a) => {
                proof {
                    lemma_array_slot(a@, *a);
                }
                Value::ValueArrayRef(a)
            },
        }
    }

    /// A value for a result: the value itself, or the error as a value.
    pub fn from_res(res: Result<Self>) -> (value: Self)
        ensures
            value == (match res {
                Ok(x) => x,
                Err(e) => Value::Error(e),
            }),
    {
        match res {
            Ok(x) => x,
            Err(e) => Value::Error(e),
        }
    }

    /// A result for a value: the error it carries, or the value itself.
    pub fn into_res(self) -> (res: Result<Self>)
        ensures
            res == (match self {
                Value::Error(e) => Err::<Self, Error>(e),
                x => Ok(x),
            }),
    {
        match self {
            Value::Error(e) => Err(e),
            x => Ok(x),
        }
    }

    /// A borrowed handle to the node that the value holds, owned or
    /// borrowed; `WrongType` for any other kind of value.
    pub fn as_node_handle(&self) -> (node: Result<NodeHandleRef>)
        ensures
            match self@ {
                ValueView::Node { owned, id } => node.is_ok() && node.unwrap().id() == id,
                _ => node == Err::<NodeHandleRef, Error>(Error::WrongType),
            },
    {
        match self {
            Value::Node(node) => Ok(node.handle_ref()),
            Value::NodeRef(node) => Ok(*node),
            _ => Err(Error::WrongType),
        }
    }
}


/// A flat value with every buffer owned: a borrowed buffer becomes an owned
/// copy and its flags gain the boxed bit, in the value and in the elements
/// of an array. Words stay as they are.
pub open spec fn owned_raw_spec(r: RawView) -> RawView
    decreases r,
{
    match r.slot {
        SlotView::Word(w) => r,
        SlotView::Bytes { owned, bytes } => RawView {
            flags: STRING_BOXED,
            extra: r.extra,
            slot: SlotView::Bytes { owned: true, bytes },
        },
        SlotView::Codes { owned, codes } => RawView {
            flags: INTERNED_PATH_BUF,
            extra: r.extra,
            slot: SlotView::Codes { owned: true, codes },
        },
        SlotView::Values { owned, items } => RawView {
            flags: VALUE_ARRAY_BOXED,
            extra: r.extra,
            slot: SlotView::Values {
                owned: true,
                items: Seq::new(
                    items.len(),
                    |i: int|
                        if 0 <= i < items.len() {
                            owned_raw_spec(items[i])
                        } else {
                            arbitrary()
                        },
                ),
            },
        },
    }
}

/// Owning every buffer keeps a flat value well-formed.
pub proof fn lemma_owned_raw_wf(r: RawView)
    requires
        raw_wf(r),
    ensures
        raw_wf(owned_raw_spec(r)),
    decreases r,
{
    match r.slot {
        SlotView::Values { owned, items } => {
            let out = owned_raw_spec(r);
            assert forall|i: int| 0 <= i < items.len() implies raw_wf(
                #[trigger] out.slot->Values_items[i],
            ) by {
                lemma_owned_raw_wf(items[i]);
            }
        },
        _ => {},
    }
}

impl<'a> RawValue<'a> {
    /// A copy of this flat value. An owned buffer is copied, a borrowed one
    /// is borrowed once more.
    pub fn duplicate(&self) -> (copy: RawValue<'a>)
        ensures
            copy@ == self@,
        decreases self,
    {
        let value = match &self.value {
            RawValueInner::Word(w) => RawValueInner::Word(*w),
            RawValueInner::String(b) => RawValueInner::String(copy_bytes(b.as_slice())),
            RawValueInner::StringRef(b) => RawValueInner::StringRef(*b),
            RawValueInner::InternedPath(p) => RawValueInner::InternedPath(
                copy_codes(p.as_slice()),
            ),
            RawValueInner::InternedPathRef(p) => RawValueInner::InternedPathRef(*p),
            RawValueInner::ValueArray(a) => {
                let copy = duplicate_all(a);
                proof {
                    lemma_array_slot(a@, *a);
                    lemma_array_slot(copy@, copy);
                }
                RawValueInner::ValueArray(copy)
            },
            RawValueInner::ValueArrayRef(a) => RawValueInner::ValueArrayRef(*a),
        };
        RawValue { flags: self.flags, extra: self.extra, value }
    }

    /// A copy of this flat value that borrows nothing.
    pub fn to_owned_raw(&self) -> (copy: RawValue<'static>)
        ensures
            copy@ == owned_raw_spec(self@),
        decreases self,
    {
        match &self.value {
            RawValueInner::Word(w) => RawValue {
                flags: self.flags,
                extra: self.extra,
                value: RawValueInner::Word(*w),
            },
            RawValueInner::String(b) => RawValue {
                flags: Flags { bits: STRING_BOXED },
                extra: self.extra,
                value: RawValueInner::String(copy_bytes(b.as_slice())),
            },
            RawValueInner::StringRef(b) => RawValue {
                flags: Flags { bits: STRING_BOXED },
                extra: self.extra,
                value: RawValueInner::String(copy_bytes(*b)),
            },
            RawValueInner::InternedPath(p) => RawValue {
                flags: Flags { bits: INTERNED_PATH_BUF },
                extra: self.extra,
                value: RawValueInner::InternedPath(copy_codes(p.as_slice())),
            },
            RawValueInner::InternedPathRef(p) => RawValue {
                flags: Flags { bits: INTERNED_PATH_BUF },
                extra: self.extra,
                value: RawValueInner::InternedPath(copy_codes(*p)),
            },
            RawValueInner::ValueArray(a) => {
                let copy = owned_all(a);
                proof {
                    lemma_array_slot(a@, *a);
                    lemma_array_slot(copy@, copy);
                    assert(raw_views(copy@) =~= owned_raw_spec(self@).slot->Values_items);
                }
                RawValue {
                    flags: Flags { bits: VALUE_ARRAY_BOXED },
                    extra: self.extra,
                    value: RawValueInner::ValueArray(copy),
                }
            },
            RawValueInner::ValueArrayRef(a) => {
                let copy = owned_all(*a);
                proof {
                    lemma_array_slot(a@, **a);
                    lemma_array_slot(copy@, copy);
                    assert(raw_views(copy@) =~= owned_raw_spec(self@).slot->Values_items);
                }
                RawValue {
                    flags: Flags { bits: VALUE_ARRAY_BOXED },
                    extra: self.extra,
                    value: RawValueInner::ValueArray(copy),
                }
            },
        }
    }
}

/// A copy of each flat value of an array.
pub fn duplicate_all<'a>(a: &Vec<RawValue<'a>>) -> (copy: Vec<RawValue<'a>>)
    ensures
        raw_views(copy@) == raw_views(a@),
        copy@.len() == a@.len(),
    decreases a,
{
    let mut copy: Vec<RawValue<'a>> = Vec::new();
    let mut i: usize = 0;
    while i < a.len()
        invariant
            i <= a.len(),
            copy@.len() == i,
            forall|j: int| 0 <= j < i ==> (#[trigger] copy@[j])@ == a@[j]@,
        decreases a.len() - i,
    {
        copy.push(a[i].duplicate());
        i += 1;
    }
    proof {
        assert(raw_views(copy@) =~= raw_views(a@));
    }
    copy
}

/// A copy of each flat value of an array, borrowing nothing.
pub fn owned_all(a: &Vec<RawValue<'_>>) -> (copy: Vec<RawValue<'static>>)
    ensures
        copy@.len() == a@.len(),
        forall|j: int| 0 <= j < a@.len() ==> (#[trigger] copy@[j])@ == owned_raw_spec(a@[j]@),
    decreases a,
{
    let mut copy: Vec<RawValue<'static>> = Vec::new();
    let mut i: usize = 0;
    while i < a.len()
        invariant
            i <= a.len(),
            copy@.len() == i,
            forall|j: int| 0 <= j < i ==> (#[trigger] copy@[j])@ == owned_raw_spec(a@[j]@),
        decreases a.len() - i,
    {
        copy.push(a[i].to_owned_raw());
        i += 1;
    }
    copy
}

impl<'a> Value<'a> {
    /// A copy of this value. An owned buffer is copied, a borrowed one is
    /// borrowed once more, and a handle names the same node: the copy of an
    /// owning handle is owed a unit of the node's count by whoever keeps it.
    pub fn duplicate(&self) -> (copy: Value<'a>)
        ensures
            copy@ == self@,
    {
        match self {
            Value::Bool(b) => Value::Bool(*b),
            Value::Error(e) => Value::Error(*e),
            Value::Float(f) => Value::Float(*f),
            Value::Interned(i) => Value::Interned(*i),
            Value::InternedPathBuf(p) => Value::InternedPathBuf(
                InternedPathBuf::from_iter(copy_codes(p.path())),
            ),
            Value::InternedPathRef(p) => Value::InternedPathRef(*p),
            Value::Node(n) => Value::Node(NodeHandle::from_raw(n.raw())),
            Value::NodeRef(n) => Value::NodeRef(*n),
            Value::Signed(s) => Value::Signed(*s),
            Value::String(b) => Value::String(copy_bytes(b.as_slice())),
            Value::StringRef(b) => Value::StringRef(*b),
            Value::Unsigned(u) => Value::Unsigned(*u),
            Value::ValueArray(a) => Value::ValueArray(duplicate_all(a)),
            Value::ValueArrayRef(a) => Value::ValueArrayRef(*a),
            Value::Void => Value::Void,
        }
    }
}


/// A native value that borrows nothing: a borrowed buffer becomes an owned
/// copy, a borrowed handle an owning one, and the elements of an array own
/// their buffers.
pub open spec fn own_spec(v: ValueView) -> ValueView {
    match v {
        ValueView::Path { owned, codes } => ValueView::Path { owned: true, codes },
        ValueView::Node { owned, id } => ValueView::Node { owned: true, id },
        ValueView::String { owned, bytes } => ValueView::String { owned: true, bytes },
        ValueView::Array { owned, items } => ValueView::Array {
            owned: true,
            items: Seq::new(items.len(), |i: int| owned_raw_spec(items[i])),
        },
        other => other,
    }
}

/// The node whose borrowed handle a value holds, if it holds one: the node
/// whose count rises when the value is made owned.
pub open spec fn promoted_id(v: ValueView) -> Option<usize> {
    match v {
        ValueView::Node { owned: false, id } => Some(id),
        _ => None,
    }
}

/// Owning keeps a value's flat form.
pub proof fn lemma_own_wf(v: ValueView)
    requires
        value_wf(v),
    ensures
        value_wf(own_spec(v)),
{
    match v {
        ValueView::Array { owned, items } => {
            let out = own_spec(v)->Array_items;
            assert forall|i: int| 0 <= i < out.len() implies raw_wf(#[trigger] out[i]) by {
                assert(raw_wf(items[i]));
                lemma_owned_raw_wf(items[i]);
            }
        },
        _ => {},
    }
}

impl<'a> Value<'a> {
    /// This value with nothing borrowed. The owning handle made from a
    /// borrowed one is owed a unit of its node's count.
    pub fn detach(self) -> (owned: Value<'static>)
        ensures
            owned@ == own_spec(self@),
    {
        match self {
            Value::Bool(b) => Value::Bool(b),
            Value::Error(e) => Value::Error(e),
            Value::Float(f) => Value::Float(f),
            Value::Interned(i) => Value::Interned(i),
            Value::InternedPathBuf(b) => Value::InternedPathBuf(b),
            Value::InternedPathRef(r) => Value::InternedPathBuf(InternedPathBuf::from_iter(copy_codes(r))),
            Value::Node(n) => Value::Node(n),
            Value::NodeRef(n) => Value::Node(NodeHandle::from_raw(n.raw())),
            Value::Signed(s) => Value::Signed(s),
            Value::String(s) => Value::String(s),
            Value::StringRef(s) => Value::String(copy_bytes(s)),
            Value::Unsigned(u) => Value::Unsigned(u),
            Value::ValueArray(a) => {
                let copy = owned_all(&a);
                proof {
                    assert(raw_views(copy@) =~= own_spec(self@)->Array_items);
                }
                Value::ValueArray(copy)
            },
            Value::ValueArrayRef(a) => {
                let copy = owned_all(a);
                proof {
                    assert(raw_views(copy@) =~= own_spec(self@)->Array_items);
                }
                Value::ValueArray(copy)
            },
            Value::Void => Value::Void,
        }
    }
}


/// A native value as a borrower sees it: buffers and handles borrowed, the
/// contents the same.
pub open spec fn borrow_spec(v: ValueView) -> ValueView {
    match v {
        ValueView::Path { owned, codes } => ValueView::Path { owned: false, codes },
        ValueView::Node { owned, id } => ValueView::Node { owned: false, id },
        ValueView::String { owned, bytes } => ValueView::String { owned: false, bytes },
        ValueView::Array { owned, items } => ValueView::Array { owned: false, items },
        other => other,
    }
}

impl<'a> Value<'a> {
    /// This value, borrowed: nothing is copied, and a handle owns no unit.
    pub fn borrowed<'b>(&'b self) -> (value: Value<'b>)
        ensures
            value@ == borrow_spec(self@),
    {
        match self {
            Value::Bool(b) => Value::Bool(*b),
            Value::Error(e) => Value::Error(*e),
            Value::Float(f) => Value::Float(*f),
            Value::Interned(i) => Value::Interned(*i),
            Value::InternedPathBuf(p) => Value::InternedPathRef(p.path()),
            Value::InternedPathRef(p) => Value::InternedPathRef(*p),
            Value::Node(n) => Value::NodeRef(n.handle_ref()),
            Value::NodeRef(n) => Value::NodeRef(*n),
            Value::Signed(s) => Value::Signed(*s),
            Value::String(b) => Value::StringRef(b.as_slice()),
            Value::StringRef(b) => Value::StringRef(*b),
            Value::Unsigned(u) => Value::Unsigned(*u),
            Value::ValueArray(a) => Value::ValueArrayRef(a),
            Value::ValueArrayRef(a) => Value::ValueArrayRef(*a),
            Value::Void => Value::Void,
        }
    }
}


impl<'a> Value<'a> {
    /// Tells whether the value has a flat form: whether its buffer fits the
    /// length field and the elements of an array are well-formed.
    pub fn is_well_formed(&self) -> (ok: bool)
        ensures
            ok == self.wf(),
    {
        match self {
            Value::InternedPathBuf(p) => p.path().len() <= u32::MAX as usize,
            Value::InternedPathRef(p) => p.len() <= u32::MAX as usize,
            Value::String(b) => b.len() <= u32::MAX as usize,
            Value::StringRef(b) => b.len() <= u32::MAX as usize,
            Value::ValueArray(a) => a.len() <= u32::MAX as usize && all_well_formed(a),
            Value::ValueArrayRef(a) => a.len() <= u32::MAX as usize && all_well_formed(*a),
            _ => true,
        }
    }
}


impl<'a> Value<'a> {
    /// Reads a flat value back into its native form if its flags match what
    /// its slot holds, and reports `UnknownTypeFlags` if they do not.
    pub fn try_from_raw(raw: RawValue<'a>) -> (value: Result<Value<'a>>)
        ensures
            raw.wf() ==> (value matches Ok(v) && v@ == from_flat_spec(raw@) && v.wf()),
            !raw.wf() ==> (value matches Err(e) && e == Error::UnknownTypeFlags),
    {
        if raw.is_well_formed() {
            Ok(Value::from_raw(raw))
        } else {
            Err(Error::UnknownTypeFlags)
        }
    }
}


} // verus!
