//! The typed layer: which native types travel as dynamic values, and how.

use crate::data::{
    from_flat_spec, lemma_flat_round_trip, raw_views, raw_wf, to_flat_spec, value_wf, RawValue,
    RawView, Value, ValueView,
};
use crate::error::{Error, Result};
use crate::handle::{NodeHandle, NodeHandleRef};
use crate::intern::Interned;
use crate::path::InternedPathBuf;
use vstd::prelude::*;

verus! {

/// A type that travels as a dynamic value.
pub trait ValueConv<'a>: Sized {
    /// The value that `self` travels as.
    spec fn value_of(&self) -> ValueView;

    /// Whether `self` has a dynamic value: whether its buffers fit the
    /// length field of the flat form.
    spec fn conv_wf(&self) -> bool;

    /// What reading a value as this type gives: the value that the result
    /// travels as, or the failure.
    spec fn conv_spec(v: ValueView) -> core::result::Result<ValueView, Error>;

    /// Whether `self` comes back from its dynamic value. A tuple does not
    /// where one of its elements carries a failure: reading it gives that
    /// failure.
    spec fn round_trips(&self) -> bool;

    /// Reads a value as this type.
    fn from_value(value: Value<'a>) -> (converted: Result<Self>)
        requires
            value.wf(),
        ensures
            match Self::conv_spec(value@) {
                Ok(view) => converted matches Ok(x) && x.value_of() == view && x.conv_wf(),
                Err(e) => converted matches Err(x) && x == e,
            },
    ;

    /// The value that `self` travels as.
    fn into_value(self) -> (value: Value<'a>)
        requires
            self.conv_wf(),
        ensures
            value@ == self.value_of(),
            value.wf(),
    ;

    /// Round trip: what `self` travels as has a flat form, and reading it
    /// back gives `self` again.
    proof fn lemma_conv_round_trip(&self)
        requires
            self.conv_wf(),
            self.round_trips(),
        ensures
            value_wf(self.value_of()),
            Self::conv_spec(self.value_of()) == Ok::<ValueView, Error>(self.value_of()),
    ;
}

/// The unit type travels as the void value.
impl<'a> ValueConv<'a> for () {
    open spec fn value_of(&self) -> ValueView {
        ValueView::Void
    }

    open spec fn conv_wf(&self) -> bool {
        true
    }

    open spec fn conv_spec(v: ValueView) -> core::result::Result<ValueView, Error> {
        match v {
            ValueView::Void => Ok(v),
            _ => Err(Error::WrongType),
        }
    }

    open spec fn round_trips(&self) -> bool {
        true
    }

    fn from_value(value: Value<'a>) -> (converted: Result<Self>) {
        match value {
            Value::Void => Ok(()),
            _ => Err(Error::WrongType),
        }
    }

    fn into_value(self) -> (value: Value<'a>) {
        Value::Void
    }

    proof fn lemma_conv_round_trip(&self) {
    }
}

/// A dynamic value travels as itself.
impl<'a> ValueConv<'a> for Value<'a> {
    open spec fn value_of(&self) -> ValueView {
        self@
    }

    open spec fn conv_wf(&self) -> bool {
        self.wf()
    }

    open spec fn conv_spec(v: ValueView) -> core::result::Result<ValueView, Error> {
        Ok(v)
    }

    open spec fn round_trips(&self) -> bool {
        true
    }

    fn from_value(value: Value<'a>) -> (converted: Result<Self>) {
        Ok(value)
    }

    fn into_value(self) -> (value: Value<'a>) {
        self
    }

    proof fn lemma_conv_round_trip(&self) {
    }
}

/// A signed integer travels as a signed integer value.
impl<'a> ValueConv<'a> for i64 {
    open spec fn value_of(&self) -> ValueView {
        ValueView::Signed(*self)
    }

    open spec fn conv_wf(&self) -> bool {
        true
    }

    open spec fn conv_spec(v: ValueView) -> core::result::Result<ValueView, Error> {
        match v {
            ValueView::Signed(s) => Ok(v),
            _ => Err(Error::WrongType),
        }
    }

    open spec fn round_trips(&self) -> bool {
        true
    }

    fn from_value(value: Value<'a>) -> (converted: Result<Self>) {
        match value {
            Value::Signed(x) => Ok(x),
            _ => Err(Error::WrongType),
        }
    }

    fn into_value(self) -> (value: Value<'a>) {
        Value::Signed(self)
    }

    proof fn lemma_conv_round_trip(&self) {
    }
}

/// An unsigned integer travels as an unsigned integer value.
impl<'a> ValueConv<'a> for u64 {
    open spec fn value_of(&self) -> ValueView {
        ValueView::Unsigned(*self)
    }

    open spec fn conv_wf(&self) -> bool {
        true
    }

    open spec fn conv_spec(v: ValueView) -> core::result::Result<ValueView, Error> {
        match v {
            ValueView::Unsigned(u) => Ok(v),
            _ => Err(Error::WrongType),
        }
    }

    open spec fn round_trips(&self) -> bool {
        true
    }

    fn from_value(value: Value<'a>) -> (converted: Result<Self>) {
        match value {
            Value::Unsigned(x) => Ok(x),
            _ => Err(Error::WrongType),
        }
    }

    fn into_value(self) -> (value: Value<'a>) {
        Value::Unsigned(self)
    }

    proof fn lemma_conv_round_trip(&self) {
    }
}

/// A boolean travels as a boolean value.
impl<'a> ValueConv<'a> for bool {
    open spec fn value_of(&self) -> ValueView {
        ValueView::Bool(*self)
    }

    open spec fn conv_wf(&self) -> bool {
        true
    }

    open spec fn conv_spec(v: ValueView) -> core::result::Result<ValueView, Error> {
        match v {
            ValueView::Bool(b) => Ok(v),
            _ => Err(Error::WrongType),
        }
    }

    open spec fn round_trips(&self) -> bool {
        true
    }

    fn from_value(value: Value<'a>) -> (converted: Result<Self>) {
        match value {
            Value::Bool(x) => Ok(x),
            _ => Err(Error::WrongType),
        }
    }

    fn into_value(self) -> (value: Value<'a>) {
        Value::Bool(self)
    }

    proof fn lemma_conv_round_trip(&self) {
    }
}

/// An interned code travels as an interned value.
impl<'a> ValueConv<'a> for Interned {
    open spec fn value_of(&self) -> ValueView {
        ValueView::Interned(*self)
    }

    open spec fn conv_wf(&self) -> bool {
        true
    }

    open spec fn conv_spec(v: ValueView) -> core::result::Result<ValueView, Error> {
        match v {
            ValueView::Interned(i) => Ok(v),
            _ => Err(Error::WrongType),
        }
    }

    open spec fn round_trips(&self) -> bool {
        true
    }

    fn from_value(value: Value<'a>) -> (converted: Result<Self>) {
        match value {
            Value::Interned(x) => Ok(x),
            _ => Err(Error::WrongType),
        }
    }

    fn into_value(self) -> (value: Value<'a>) {
        Value::Interned(self)
    }

    proof fn lemma_conv_round_trip(&self) {
    }
}

/// The 64 bits of a floating-point number, which travel as a float value.
#[derive(Clone, Copy, Debug, PartialEq, Eq, Structural)]
pub struct FloatBits(pub u64);

impl<'a> ValueConv<'a> for FloatBits {
    open spec fn value_of(&self) -> ValueView {
        ValueView::Float(self.0)
    }

    open spec fn conv_wf(&self) -> bool {
        true
    }

    open spec fn conv_spec(v: ValueView) -> core::result::Result<ValueView, Error> {
        match v {
            ValueView::Float(f) => Ok(v),
            _ => Err(Error::WrongType),
        }
    }

    open spec fn round_trips(&self) -> bool {
        true
    }

    fn from_value(value: Value<'a>) -> (converted: Result<Self>) {
        match value {
            Value::Float(x) => Ok(FloatBits(x)),
            _ => Err(Error::WrongType),
        }
    }

    fn into_value(self) -> (value: Value<'a>) {
        Value::Float(self.0)
    }

    proof fn lemma_conv_round_trip(&self) {
    }
}

/// An owned path travels as an owned path value.
impl<'a> ValueConv<'a> for InternedPathBuf {
    open spec fn value_of(&self) -> ValueView {
        ValueView::Path { owned: true, codes: self@ }
    }

    open spec fn conv_wf(&self) -> bool {
        self@.len() <= u32::MAX
    }

    open spec fn conv_spec(v: ValueView) -> core::result::Result<ValueView, Error> {
        match v {
            ValueView::Path { owned: true, codes } => Ok(v),
            _ => Err(Error::WrongType),
        }
    }

    open spec fn round_trips(&self) -> bool {
        true
    }

    fn from_value(value: Value<'a>) -> (converted: Result<Self>) {
        match value {
            Value::InternedPathBuf(x) => Ok(x),
            _ => Err(Error::WrongType),
        }
    }

    fn into_value(self) -> (value: Value<'a>) {
        Value::InternedPathBuf(self)
    }

    proof fn lemma_conv_round_trip(&self) {
    }
}

/// A borrowed path travels as a borrowed path value.
impl<'a> ValueConv<'a> for &'a [Interned] {
    open spec fn value_of(&self) -> ValueView {
        ValueView::Path { owned: false, codes: self@ }
    }

    open spec fn conv_wf(&self) -> bool {
        self@.len() <= u32::MAX
    }

    open spec fn conv_spec(v: ValueView) -> core::result::Result<ValueView, Error> {
        match v {
            ValueView::Path { owned: false, codes } => Ok(v),
            _ => Err(Error::WrongType),
        }
    }

    open spec fn round_trips(&self) -> bool {
        true
    }

    fn from_value(value: Value<'a>) -> (converted: Result<Self>) {
        match value {
            Value::InternedPathRef(x) => Ok(x),
            _ => Err(Error::WrongType),
        }
    }

    fn into_value(self) -> (value: Value<'a>) {
        Value::InternedPathRef(self)
    }

    proof fn lemma_conv_round_trip(&self) {
    }
}

/// An owning handle travels as an owned node value.
impl<'a> ValueConv<'a> for NodeHandle {
    open spec fn value_of(&self) -> ValueView {
        ValueView::Node { owned: true, id: self.id() }
    }

    open spec fn conv_wf(&self) -> bool {
        true
    }

    open spec fn conv_spec(v: ValueView) -> core::result::Result<ValueView, Error> {
        match v {
            ValueView::Node { owned: true, id } => Ok(v),
            _ => Err(Error::WrongType),
        }
    }

    open spec fn round_trips(&self) -> bool {
        true
    }

    fn from_value(value: Value<'a>) -> (converted: Result<Self>) {
        match value {
            Value::Node(x) => Ok(x),
            _ => Err(Error::WrongType),
        }
    }

    fn into_value(self) -> (value: Value<'a>) {
        Value::Node(self)
    }

    proof fn lemma_conv_round_trip(&self) {
    }
}

/// A borrowed handle travels as a borrowed node value.
impl<'a> ValueConv<'a> for NodeHandleRef {
    open spec fn value_of(&self) -> ValueView {
        ValueView::Node { owned: false, id: self.id() }
    }

    open spec fn conv_wf(&self) -> bool {
        true
    }

    open spec fn conv_spec(v: ValueView) -> core::result::Result<ValueView, Error> {
        match v {
            ValueView::Node { owned: false, id } => Ok(v),
            _ => Err(Error::WrongType),
        }
    }

    open spec fn round_trips(&self) -> bool {
        true
    }

    fn from_value(value: Value<'a>) -> (converted: Result<Self>) {
        match value {
            Value::NodeRef(x) => Ok(x),
            _ => Err(Error::WrongType),
        }
    }

    fn into_value(self) -> (value: Value<'a>) {
        Value::NodeRef(self)
    }

    proof fn lemma_conv_round_trip(&self) {
    }
}

/// What reading element `k` of a value array as a `T` gives: a missing
/// element is `InvalidArgumentTypes`, and an element that carries a failure
/// gives that failure.
pub open spec fn element_spec<'a, T: ValueConv<'a>>(items: Seq<RawView>, k: int) -> core::result::Result<
    ValueView,
    Error,
> {
    if k >= items.len() {
        Err(Error::InvalidArgumentTypes)
    } else {
        match from_flat_spec(items[k]) {
            ValueView::Error(e) => Err(e),
            v => T::conv_spec(v),
        }
    }
}

/// Reads element `k` of a value array as a `T`.
pub fn conv_opt<'a, T: ValueConv<'a>>(items: &Vec<RawValue<'a>>, k: usize) -> (converted: Result<T>)
    requires
        forall|i: int| 0 <= i < items@.len() ==> raw_wf(#[trigger] raw_views(items@)[i]),
    ensures
        match element_spec::<T>(raw_views(items@), k as int) {
            Ok(view) => converted matches Ok(x) && x.value_of() == view && x.conv_wf(),
            Err(e) => converted matches Err(x) && x == e,
        },
{
    if k >= items.len() {
        return Err(Error::InvalidArgumentTypes);
    }
    proof {
        assert(raw_wf(raw_views(items@)[k as int]));
    }
    match Value::from_raw(items[k].duplicate()).into_res() {
        Ok(value) => T::from_value(value),
        Err(e) => Err(e),
    }
}

/// The flat form of what `x` travels as.
pub fn flat_of<'a, T: ValueConv<'a>>(x: T) -> (raw: RawValue<'a>)
    requires
        x.conv_wf(),
    ensures
        raw@ == to_flat_spec(x.value_of()),
        raw.wf(),
{
    RawValue::from(x.into_value())
}

/// Round trip through the flat form: a value of a type that travels, laid
/// out flat and read back as that type, is the value again.
pub proof fn lemma_typed_round_trip<'a, T: ValueConv<'a>>(x: T)
    requires
        x.conv_wf(),
        x.round_trips(),
    ensures
        raw_wf(to_flat_spec(x.value_of())),
        T::conv_spec(from_flat_spec(to_flat_spec(x.value_of()))) == Ok::<ValueView, Error>(
            x.value_of(),
        ),
{
    x.lemma_conv_round_trip();
    lemma_flat_round_trip(x.value_of());
}

/// An element comes back from the flat form of what it travels as, unless it
/// carries a failure.
pub proof fn lemma_element_round_trip<'a, T: ValueConv<'a>>(x: T, items: Seq<RawView>, k: int)
    requires
        x.conv_wf(),
        x.round_trips(),
        !(x.value_of() is Error),
        0 <= k < items.len(),
        items[k] == to_flat_spec(x.value_of()),
    ensures
        element_spec::<T>(items, k) == Ok::<ValueView, Error>(x.value_of()),
        raw_wf(items[k]),
{
    x.lemma_conv_round_trip();
    lemma_flat_round_trip(x.value_of());
}

/// The flat forms of what the elements of a pair travel as.
pub open spec fn flat_items_2<'a, A: ValueConv<'a>, B: ValueConv<'a>>(t: (A, B)) -> Seq<RawView> {
    seq![
        to_flat_spec(t.0.value_of()),
        to_flat_spec(t.1.value_of()),
    ]
}

/// A pair travels as an owned value array of its elements' flat forms.
impl<'a, A: ValueConv<'a>, B: ValueConv<'a>> ValueConv<'a> for (A, B) {
    open spec fn value_of(&self) -> ValueView {
        ValueView::Array { owned: true, items: flat_items_2(*self) }
    }

    open spec fn conv_wf(&self) -> bool {
        &&& self.0.conv_wf()
        &&& self.1.conv_wf()
    }

    open spec fn conv_spec(v: ValueView) -> core::result::Result<ValueView, Error> {
        match v {
            ValueView::Array { owned, items } => {
                match element_spec::<A>(items, 0) {
                    Err(e) => Err(e),
                    Ok(x0) => match element_spec::<B>(items, 1) {
                        Err(e) => Err(e),
                        Ok(x1) => Ok(
                            ValueView::Array {
                                owned: true,
                                items: seq![
                                    to_flat_spec(x0),
                                    to_flat_spec(x1),
                                ],
                            },
                        ),
                    },
                }
            },
            _ => Err(Error::WrongType),
        }
    }

    open spec fn round_trips(&self) -> bool {
        &&& self.0.round_trips()
        &&& !(self.0.value_of() is Error)
        &&& self.1.round_trips()
        &&& !(self.1.value_of() is Error)
    }

    fn from_value(value: Value<'a>) -> (converted: Result<Self>) {
        match &value {
            Value::ValueArray(a) => read_2::<A, B>(a),
            Value::ValueArrayRef(a) => read_2::<A, B>(*a),
            _ => Err(Error::WrongType),
        }
    }

    fn into_value(self) -> (value: Value<'a>) {
        let ghost flat = flat_items_2(self);
        let mut items: Vec<RawValue<'a>> = Vec::new();
        items.push(flat_of(self.0));
        items.push(flat_of(self.1));
        proof {
            assert(raw_views(items@) =~= flat);
        }
        Value::ValueArray(items)
    }

    proof fn lemma_conv_round_trip(&self) {
        let items = flat_items_2(*self);
        lemma_element_round_trip::<A>(self.0, items, 0);
        lemma_element_round_trip::<B>(self.1, items, 1);
    }
}

/// Reads the first two elements of a value array as the elements of
/// a pair.
pub fn read_2<'a, A: ValueConv<'a>, B: ValueConv<'a>>(items: &Vec<RawValue<'a>>) -> (converted: Result<
    (A, B),
>)
    requires
        forall|i: int| 0 <= i < items@.len() ==> raw_wf(#[trigger] raw_views(items@)[i]),
    ensures
        match <(A, B) as ValueConv<'a>>::conv_spec(
            ValueView::Array { owned: true, items: raw_views(items@) },
        ) {
            Ok(view) => converted matches Ok(x) && x.value_of() == view && x.conv_wf(),
            Err(e) => converted matches Err(x) && x == e,
        },
{
    match conv_opt::<A>(items, 0) {
        Err(e) => Err(e),
        Ok(x0) => match conv_opt::<B>(items, 1) {
            Err(e) => Err(e),
            Ok(x1) => Ok((x0, x1)),
        },
    }
}

/// The flat forms of what the elements of a triple travel as.
pub open spec fn flat_items_3<'a, A: ValueConv<'a>, B: ValueConv<'a>, C: ValueConv<'a>>(t: (A, B, C)) -> Seq<RawView> {
    seq![
        to_flat_spec(t.0.value_of()),
        to_flat_spec(t.1.value_of()),
        to_flat_spec(t.2.value_of()),
    ]
}

/// A triple travels as an owned value array of its elements' flat forms.
impl<'a, A: ValueConv<'a>, B: ValueConv<'a>, C: ValueConv<'a>> ValueConv<'a> for (A, B, C) {
    open spec fn value_of(&self) -> ValueView {
        ValueView::Array { owned: true, items: flat_items_3(*self) }
    }

    open spec fn conv_wf(&self) -> bool {
        &&& self.0.conv_wf()
        &&& self.1.conv_wf()
        &&& self.2.conv_wf()
    }

    open spec fn conv_spec(v: ValueView) -> core::result::Result<ValueView, Error> {
        match v {
            ValueView::Array { owned, items } => {
                match element_spec::<A>(items, 0) {
                    Err(e) => Err(e),
                    Ok(x0) => match element_spec::<B>(items, 1) {
                        Err(e) => Err(e),
                        Ok(x1) => match element_spec::<C>(items, 2) {
                            Err(e) => Err(e),
                            Ok(x2) => Ok(
                                ValueView::Array {
                                    owned: true,
                                    items: seq![
                                        to_flat_spec(x0),
                                        to_flat_spec(x1),
                                        to_flat_spec(x2),
                                    ],
                                },
                            ),
                        },
                    },
                }
            },
            _ => Err(Error::WrongType),
        }
    }

    open spec fn round_trips(&self) -> bool {
        &&& self.0.round_trips()
        &&& !(self.0.value_of() is Error)
        &&& self.1.round_trips()
        &&& !(self.1.value_of() is Error)
        &&& self.2.round_trips()
        &&& !(self.2.value_of() is Error)
    }

    fn from_value(value: Value<'a>) -> (converted: Result<Self>) {
        match &value {
            Value::ValueArray(a) => read_3::<A, B, C>(a),
            Value::ValueArrayRef(a) => read_3::<A, B, C>(*a),
            _ => Err(Error::WrongType),
        }
    }

    fn into_value(self) -> (value: Value<'a>) {
        let ghost flat = flat_items_3(self);
        let mut items: Vec<RawValue<'a>> = Vec::new();
        items.push(flat_of(self.0));
        items.push(flat_of(self.1));
        items.push(flat_of(self.2));
        proof {
            assert(raw_views(items@) =~= flat);
        }
        Value::ValueArray(items)
    }

    proof fn lemma_conv_round_trip(&self) {
        let items = flat_items_3(*self);
        lemma_element_round_trip::<A>(self.0, items, 0);
        lemma_element_round_trip::<B>(self.1, items, 1);
        lemma_element_round_trip::<C>(self.2, items, 2);
    }
}

/// Reads the first three elements of a value array as the elements of
/// a triple.
pub fn read_3<'a, A: ValueConv<'a>, B: ValueConv<'a>, C: ValueConv<'a>>(items: &Vec<RawValue<'a>>) -> (converted: Result<
    (A, B, C),
>)
    requires
        forall|i: int| 0 <= i < items@.len() ==> raw_wf(#[trigger] raw_views(items@)[i]),
    ensures
        match <(A, B, C) as ValueConv<'a>>::conv_spec(
            ValueView::Array { owned: true, items: raw_views(items@) },
        ) {
            Ok(view) => converted matches Ok(x) && x.value_of() == view && x.conv_wf(),
            Err(e) => converted matches Err(x) && x == e,
        },
{
    match conv_opt::<A>(items, 0) {
        Err(e) => Err(e),
        Ok(x0) => match conv_opt::<B>(items, 1) {
            Err(e) => Err(e),
            Ok(x1) => match conv_opt::<C>(items, 2) {
                Err(e) => Err(e),
                Ok(x2) => Ok((x0, x1, x2)),
            },
        },
    }
}

/// The flat forms of what the elements of a tuple of four travel as.
pub open spec fn flat_items_4<'a, A: ValueConv<'a>, B: ValueConv<'a>, C: ValueConv<'a>, D: ValueConv<'a>>(t: (A, B, C, D)) -> Seq<RawView> {
    seq![
        to_flat_spec(t.0.value_of()),
        to_flat_spec(t.1.value_of()),
        to_flat_spec(t.2.value_of()),
        to_flat_spec(t.3.value_of()),
    ]
}

/// A tuple of four travels as an owned value array of its elements' flat forms.
impl<'a, A: ValueConv<'a>, B: ValueConv<'a>, C: ValueConv<'a>, D: ValueConv<'a>> ValueConv<'a> for (A, B, C, D) {
    open spec fn value_of(&self) -> ValueView {
        ValueView::Array { owned: true, items: flat_items_4(*self) }
    }

    open spec fn conv_wf(&self) -> bool {
        &&& self.0.conv_wf()
        &&& self.1.conv_wf()
        &&& self.2.conv_wf()
        &&& self.3.conv_wf()
    }

    open spec fn conv_spec(v: ValueView) -> core::result::Result<ValueView, Error> {
        match v {
            ValueView::Array { owned, items } => {
                match element_spec::<A>(items, 0) {
                    Err(e) => Err(e),
                    Ok(x0) => match element_spec::<B>(items, 1) {
                        Err(e) => Err(e),
                        Ok(x1) => match element_spec::<C>(items, 2) {
                            Err(e) => Err(e),
                            Ok(x2) => match element_spec::<D>(items, 3) {
                                Err(e) => Err(e),
                                Ok(x3) => Ok(
                                    ValueView::Array {
                                        owned: true,
                                        items: seq![
                                            to_flat_spec(x0),
                                            to_flat_spec(x1),
                                            to_flat_spec(x2),
                                            to_flat_spec(x3),
                                        ],
                                    },
                                ),
                            },
                        },
                    },
                }
            },
            _ => Err(Error::WrongType),
        }
    }

    open spec fn round_trips(&self) -> bool {
        &&& self.0.round_trips()
        &&& !(self.0.value_of() is Error)
        &&& self.1.round_trips()
        &&& !(self.1.value_of() is Error)
        &&& self.2.round_trips()
        &&& !(self.2.value_of() is Error)
        &&& self.3.round_trips()
        &&& !(self.3.value_of() is Error)
    }

    fn from_value(value: Value<'a>) -> (converted: Result<Self>) {
        match &value {
            Value::ValueArray(a) => read_4::<A, B, C, D>(a),
            Value::ValueArrayRef(a) => read_4::<A, B, C, D>(*a),
            _ => Err(Error::WrongType),
        }
    }

    fn into_value(self) -> (value: Value<'a>) {
        let ghost flat = flat_items_4(self);
        let mut items: Vec<RawValue<'a>> = Vec::new();
        items.push(flat_of(self.0));
        items.push(flat_of(self.1));
        items.push(flat_of(self.2));
        items.push(flat_of(self.3));
        proof {
            assert(raw_views(items@) =~= flat);
        }
        Value::ValueArray(items)
    }

    proof fn lemma_conv_round_trip(&self) {
        let items = flat_items_4(*self);
        lemma_element_round_trip::<A>(self.0, items, 0);
        lemma_element_round_trip::<B>(self.1, items, 1);
        lemma_element_round_trip::<C>(self.2, items, 2);
        lemma_element_round_trip::<D>(self.3, items, 3);
    }
}

/// Reads the first four elements of a value array as the elements of
/// a tuple of four.
pub fn read_4<'a, A: ValueConv<'a>, B: ValueConv<'a>, C: ValueConv<'a>, D: ValueConv<'a>>(items: &Vec<RawValue<'a>>) -> (converted: Result<
    (A, B, C, D),
>)
    requires
        forall|i: int| 0 <= i < items@.len() ==> raw_wf(#[trigger] raw_views(items@)[i]),
    ensures
        match <(A, B, C, D) as ValueConv<'a>>::conv_spec(
            ValueView::Array { owned: true, items: raw_views(items@) },
        ) {
            Ok(view) => converted matches Ok(x) && x.value_of() == view && x.conv_wf(),
            Err(e) => converted matches Err(x) && x == e,
        },
{
    match conv_opt::<A>(items, 0) {
        Err(e) => Err(e),
        Ok(x0) => match conv_opt::<B>(items, 1) {
            Err(e) => Err(e),
            Ok(x1) => match conv_opt::<C>(items, 2) {
                Err(e) => Err(e),
                Ok(x2) => match conv_opt::<D>(items, 3) {
                    Err(e) => Err(e),
                    Ok(x3) => Ok((x0, x1, x2, x3)),
                },
            },
        },
    }
}

/// The flat forms of what the elements of a tuple of five travel as.
pub open spec fn flat_items_5<'a, A: ValueConv<'a>, B: ValueConv<'a>, C: ValueConv<'a>, D: ValueConv<'a>, E: ValueConv<'a>>(t: (A, B, C, D, E)) -> Seq<RawView> {
    seq![
        to_flat_spec(t.0.value_of()),
        to_flat_spec(t.1.value_of()),
        to_flat_spec(t.2.value_of()),
        to_flat_spec(t.3.value_of()),
        to_flat_spec(t.4.value_of()),
    ]
}

/// A tuple of five travels as an owned value array of its elements' flat forms.
impl<'a, A: ValueConv<'a>, B: ValueConv<'a>, C: ValueConv<'a>, D: ValueConv<'a>, E: ValueConv<'a>> ValueConv<'a> for (A, B, C, D, E) {
    open spec fn value_of(&self) -> ValueView {
        ValueView::Array { owned: true, items: flat_items_5(*self) }
    }

    open spec fn conv_wf(&self) -> bool {
        &&& self.0.conv_wf()
        &&& self.1.conv_wf()
        &&& self.2.conv_wf()
        &&& self.3.conv_wf()
        &&& self.4.conv_wf()
    }

    open spec fn conv_spec(v: ValueView) -> core::result::Result<ValueView, Error> {
        match v {
            ValueView::Array { owned, items } => {
                match element_spec::<A>(items, 0) {
                    Err(e) => Err(e),
                    Ok(x0) => match element_spec::<B>(items, 1) {
                        Err(e) => Err(e),
                        Ok(x1) => match element_spec::<C>(items, 2) {
                            Err(e) => Err(e),
                            Ok(x2) => match element_spec::<D>(items, 3) {
                                Err(e) => Err(e),
                                Ok(x3) => match element_spec::<E>(items, 4) {
                                    Err(e) => Err(e),
                                    Ok(x4) => Ok(
                                        ValueView::Array {
                                            owned: true,
                                            items: seq![
                                                to_flat_spec(x0),
                                                to_flat_spec(x1),
                                                to_flat_spec(x2),
                                                to_flat_spec(x3),
                                                to_flat_spec(x4),
                                            ],
                                        },
                                    ),
                                },
                            },
                        },
                    },
                }
            },
            _ => Err(Error::WrongType),
        }
    }

    open spec fn round_trips(&self) -> bool {
        &&& self.0.round_trips()
        &&& !(self.0.value_of() is Error)
        &&& self.1.round_trips()
        &&& !(self.1.value_of() is Error)
        &&& self.2.round_trips()
        &&& !(self.2.value_of() is Error)
        &&& self.3.round_trips()
        &&& !(self.3.value_of() is Error)
        &&& self.4.round_trips()
        &&& !(self.4.value_of() is Error)
    }

    fn from_value(value: Value<'a>) -> (converted: Result<Self>) {
        match &value {
            Value::ValueArray(a) => read_5::<A, B, C, D, E>(a),
            Value::ValueArrayRef(a) => read_5::<A, B, C, D, E>(*a),
            _ => Err(Error::WrongType),
        }
    }

    fn into_value(self) -> (value: Value<'a>) {
        let ghost flat = flat_items_5(self);
        let mut items: Vec<RawValue<'a>> = Vec::new();
        items.push(flat_of(self.0));
        items.push(flat_of(self.1));
        items.push(flat_of(self.2));
        items.push(flat_of(self.3));
        items.push(flat_of(self.4));
        proof {
            assert(raw_views(items@) =~= flat);
        }
        Value::ValueArray(items)
    }

    proof fn lemma_conv_round_trip(&self) {
        let items = flat_items_5(*self);
        lemma_element_round_trip::<A>(self.0, items, 0);
        lemma_element_round_trip::<B>(self.1, items, 1);
        lemma_element_round_trip::<C>(self.2, items, 2);
        lemma_element_round_trip::<D>(self.3, items, 3);
        lemma_element_round_trip::<E>(self.4, items, 4);
    }
}

/// Reads the first five elements of a value array as the elements of
/// a tuple of five.
pub fn read_5<'a, A: ValueConv<'a>, B: ValueConv<'a>, C: ValueConv<'a>, D: ValueConv<'a>, E: ValueConv<'a>>(items: &Vec<RawValue<'a>>) -> (converted: Result<
    (A, B, C, D, E),
>)
    requires
        forall|i: int| 0 <= i < items@.len() ==> raw_wf(#[trigger] raw_views(items@)[i]),
    ensures
        match <(A, B, C, D, E) as ValueConv<'a>>::conv_spec(
            ValueView::Array { owned: true, items: raw_views(items@) },
        ) {
            Ok(view) => converted matches Ok(x) && x.value_of() == view && x.conv_wf(),
            Err(e) => converted matches Err(x) && x == e,
        },
{
    match conv_opt::<A>(items, 0) {
        Err(e) => Err(e),
        Ok(x0) => match conv_opt::<B>(items, 1) {
            Err(e) => Err(e),
            Ok(x1) => match conv_opt::<C>(items, 2) {
                Err(e) => Err(e),
                Ok(x2) => match conv_opt::<D>(items, 3) {
                    Err(e) => Err(e),
                    Ok(x3) => match conv_opt::<E>(items, 4) {
                        Err(e) => Err(e),
                        Ok(x4) => Ok((x0, x1, x2, x3, x4)),
                    },
                },
            },
        },
    }
}

} // verus!
