//! The dispatch protocol as a mathematical function: what each operation
//! does to the table and what it answers.

use crate::data::{
    from_flat_spec, own_spec, promoted_id, to_flat_spec, Action, RawView, ValueView,
};
use crate::error::Error;
use crate::map::{lookup, stored_keys, stored_values};
use crate::table::{
    alive, count_limit, owned_id, release_all, release_spec, retain_spec, NodeState, Table,
};
use vstd::prelude::*;

verus! {

/// The flat value that carries a failure.
pub open spec fn error_raw(e: Error) -> RawView {
    to_flat_spec(ValueView::Error(e))
}

/// The flat void value.
pub open spec fn void_raw() -> RawView {
    to_flat_spec(ValueView::Void)
}

/// The table after the count of the node that `id` names, if any, is raised.
pub open spec fn retain_opt(t: Table, id: Option<usize>) -> Table {
    match id {
        Some(id) => retain_spec(t, id as int),
        None => t,
    }
}

/// The table after a unit of the node that `id` names, if any, is given up.
pub open spec fn release_opt(t: Table, id: Option<usize>) -> Table {
    match id {
        Some(id) => release_spec(t, id as int),
        None => t,
    }
}

/// Whether the count of the node that `id` names, if it names a live one,
/// may be raised.
pub open spec fn can_retain(t: Table, id: Option<usize>) -> bool {
    match id {
        Some(id) => alive(t, id as int) ==> t[id as int].unwrap().strong <= count_limit(),
        None => true,
    }
}

/// The key and the value that the argument of a set operation carries: the
/// first two elements of a value array, the first an interned code. An
/// argument of another kind, or a first element of another kind, is a
/// `WrongType`; a missing element is `InvalidArgumentTypes`; an element that
/// carries a failure gives that failure.
pub open spec fn pair_of(v: ValueView) -> Result<(u64, ValueView), Error> {
    match v {
        ValueView::Array { owned, items } => {
            if items.len() < 1 {
                Err(Error::InvalidArgumentTypes)
            } else {
                match from_flat_spec(items[0]) {
                    ValueView::Error(e) => Err(e),
                    ValueView::Interned(k) => {
                        if items.len() < 2 {
                            Err(Error::InvalidArgumentTypes)
                        } else {
                            match from_flat_spec(items[1]) {
                                ValueView::Error(e) => Err(e),
                                v => Ok((k.0, v)),
                            }
                        }
                    },
                    _ => Err(Error::WrongType),
                }
            }
        },
        _ => Err(Error::WrongType),
    }
}

/// The key and the value that the flat argument of a set operation carries.
pub open spec fn set_args(arg: RawView) -> Result<(u64, ValueView), Error> {
    pair_of(from_flat_spec(arg))
}

/// The node with `value` stored under `key`.
pub open spec fn store_spec(n: NodeState, key: u64, value: ValueView) -> NodeState {
    NodeState {
        strong: n.strong,
        map: n.map,
        keys: stored_keys(n.keys, key),
        values: stored_values(n.keys, n.values, key, value),
        place: n.place,
    }
}

/// What a get operation on live node `id` does and answers: a copy of the
/// value bound to the code, whose node, if the value owns one, gains a unit.
pub open spec fn get_spec(t: Table, id: int, arg: RawView) -> (Table, RawView) {
    let n = t[id].unwrap();
    match from_flat_spec(arg) {
        ValueView::Interned(k) => {
            if !n.map {
                (t, error_raw(Error::ActionNotSupported))
            } else {
                match lookup(n.keys, n.values, k.0) {
                    Some(v) => (retain_opt(t, owned_id(v)), to_flat_spec(v)),
                    None => (t, error_raw(Error::NoSuchEntry)),
                }
            }
        },
        _ => (t, error_raw(Error::WrongType)),
    }
}

/// What a set operation on live node `id` does and answers. The value is
/// made owned, which raises the count of a node it borrowed; it is then
/// stored, and the value it replaces gives up the unit it owned. A node that
/// stores nothing gives the value's unit up again.
pub open spec fn set_spec(t: Table, id: int, arg: RawView) -> (Table, RawView) {
    match set_args(arg) {
        Ok((key, value)) => {
            let t1 = retain_opt(t, promoted_id(value));
            let stored = own_spec(value);
            let n = t1[id].unwrap();
            if !n.map {
                (release_opt(t1, owned_id(stored)), error_raw(Error::ActionNotSupported))
            } else {
                let t2 = t1.update(id, Some(store_spec(n, key, stored)));
                match lookup(n.keys, n.values, key) {
                    Some(previous) => (release_opt(t2, owned_id(previous)), void_raw()),
                    None => (t2, void_raw()),
                }
            }
        },
        Err(e) => (t, error_raw(e)),
    }
}

/// What an operation on the node in slot `id` does to the table, and what it
/// answers. A slot without a live node answers `ExpectedNode`, whatever is
/// asked of it.
pub open spec fn action_spec(t: Table, id: int, action: Action, arg: RawView) -> (Table, RawView) {
    if !alive(t, id) {
        (t, error_raw(Error::ExpectedNode))
    } else {
        match action {
            Action::Call => (t, error_raw(Error::ActionNotSupported)),
            Action::List => (t, error_raw(Error::ActionNotSupported)),
            Action::Get => get_spec(t, id, arg),
            Action::SetEntry => set_spec(t, id, arg),
            Action::Clone => (retain_spec(t, id), void_raw()),
            Action::Drop => (release_spec(t, id), void_raw()),
        }
    }
}

/// Whether an operation can be carried out without a count passing half the
/// range of the counter, which is fatal.
pub open spec fn action_ok(t: Table, id: int, action: Action, arg: RawView) -> bool {
    alive(t, id) ==> match action {
        Action::Get => match from_flat_spec(arg) {
            ValueView::Interned(k) => t[id].unwrap().map ==> match lookup(
                t[id].unwrap().keys,
                t[id].unwrap().values,
                k.0,
            ) {
                Some(v) => can_retain(t, owned_id(v)),
                None => true,
            },
            _ => true,
        },
        Action::SetEntry => match set_args(arg) {
            Ok((key, value)) => can_retain(t, promoted_id(value)),
            Err(e) => true,
        },
        Action::Clone => t[id].unwrap().strong <= count_limit(),
        _ => true,
    }
}

/// The answer of every operation is the flat form of a value: reading it and
/// laying the value out flat again gives the answer back.
pub proof fn lemma_answer_is_flat(t: Table, id: int, action: Action, arg: RawView)
    requires
        crate::table::table_wf(t),
    ensures
        to_flat_spec(from_flat_spec(action_spec(t, id, action, arg).1)) == action_spec(
            t,
            id,
            action,
            arg,
        ).1,
{
    let answer = action_spec(t, id, action, arg).1;
    crate::data::lemma_flat_round_trip(ValueView::Void);
    assert forall|e: Error| to_flat_spec(from_flat_spec(error_raw(e))) == error_raw(e) by {
        crate::data::lemma_flat_round_trip(ValueView::Error(e));
    }
    if alive(t, id) && action == Action::Get {
        match from_flat_spec(arg) {
            ValueView::Interned(k) => {
                let n = t[id].unwrap();
                if n.map {
                    match lookup(n.keys, n.values, k.0) {
                        Some(v) => {
                            crate::map::lemma_lower_index_parts(n.keys, k.0);
                            assert(crate::table::node_wf(n));
                            crate::data::lemma_flat_round_trip(v);
                        },
                        None => {},
                    }
                }
            },
            _ => {},
        }
    }
}


} // verus!
