//! The context: the owner of the node table, of the root node and of the
//! "current" node. Every operation on a node goes through it.

use crate::conv::ValueConv;
use crate::data::{
    from_flat_spec, lemma_own_wf, own_spec, raw_views, to_flat_spec, value_wf, Action, RawValue,
    Value, ValueView,
};
use crate::dispatch::{
    action_ok, action_spec, can_retain, error_raw, get_spec, pair_of, release_opt, retain_opt,
    set_spec, store_spec,
};
use crate::error::{Error, Result};
use crate::handle::{NodeHandle, NodeHandleRef};
use crate::intern::Interned;
use crate::node::{FsNode, MapNode, NodeData, NodeKind};
use crate::path::{is_path, path_spec, InternedPathBuf};
use crate::resolve::{all_empty, entry_spec, resolve_spec, target_spec, walk_spec};
use crate::table::{
    alive, children, count_limit, lemma_live_count_update, lemma_live_count_vacate, live_count,
    node_wf, owned_id, release_all, release_spec, retain_spec, table_wf, with_count, NodeState,
    Table,
};
use vstd::prelude::*;
use vstd::string::StringSliceAdditionalSpecFns;

verus! {

/// What a slot of the table holds.
pub open spec fn slot_state(slot: Option<NodeData>) -> Option<NodeState> {
    match slot {
        Some(d) => Some(d.state()),
        None => None,
    }
}

/// What the slots of the table hold.
pub open spec fn slot_states(slots: Seq<Option<NodeData>>) -> Table {
    Seq::new(slots.len(), |i: int| slot_state(slots[i]))
}

/// The root namespace: the table of nodes, an owning handle to the root node
/// and one to the current node, from which relative paths start.
pub struct Vnodes {
    nodes: Vec<Option<NodeData>>,
    root: NodeHandle,
    current: NodeHandle,
}

impl Vnodes {
    /// What the table holds.
    pub closed spec fn table(&self) -> Table {
        slot_states(self.nodes@)
    }

    /// The slot of the root node.
    pub closed spec fn root_id(&self) -> usize {
        self.root.id()
    }

    /// The slot of the current node.
    pub closed spec fn current_id(&self) -> usize {
        self.current.id()
    }

    /// Every live node of the table is well-formed.
    pub open spec fn wf(&self) -> bool {
        table_wf(self.table())
    }

    /// In a well-formed context every record is well-formed.
    proof fn lemma_records(&self)
        requires
            self.wf(),
        ensures
            forall|i: int|
                0 <= i < self.nodes@.len() && self.nodes@[i].is_some() ==> (
                #[trigger] self.nodes@[i]).unwrap().wf(),
    {
        assert forall|i: int| 0 <= i < self.nodes@.len() && self.nodes@[i].is_some() implies (
        #[trigger] self.nodes@[i]).unwrap().wf() by {
            assert(alive(self.table(), i));
            assert(node_wf(self.table()[i].unwrap()));
            self.nodes@[i].unwrap().lemma_wf();
        }
    }

    /// A context whose records are all well-formed is well-formed.
    proof fn lemma_wf_from_records(&self)
        requires
            forall|i: int|
                0 <= i < self.nodes@.len() && self.nodes@[i].is_some() ==> (
                #[trigger] self.nodes@[i]).unwrap().wf(),
        ensures
            self.wf(),
    {
        assert forall|id: int| alive(self.table(), id) implies node_wf(
            #[trigger] self.table()[id].unwrap(),
        ) by {
            assert(self.nodes@[id].is_some());
            self.nodes@[id].unwrap().lemma_wf();
        }
    }

    /// A context with one node, an empty sorted-array node, which is both
    /// the root and the current node. Its count is two: one unit for each of
    /// the context's two handles.
    pub fn new() -> (ctx: Self)
        ensures
            ctx.wf(),
            ctx.root_id() == 0,
            ctx.current_id() == 0,
            ctx.table() == seq![
                Some(
                    NodeState {
                        strong: 2,
                        map: true,
                        keys: Seq::<u64>::empty(),
                        values: Seq::<ValueView>::empty(),
                        place: Seq::<char>::empty(),
                    },
                ),
            ],
    {
        let node = MapNode::new();
        let ghost state = NodeKind::Sorted(node).state(2);
        let mut nodes: Vec<Option<NodeData>> = Vec::new();
        nodes.push(Some(NodeData { node: NodeKind::Sorted(node), strong: 2 }));
        let ctx = Vnodes { nodes, root: NodeHandle::from_raw(0), current: NodeHandle::from_raw(0) };
        proof {
            assert(state.keys =~= Seq::<u64>::empty());
            assert(state.values =~= Seq::<ValueView>::empty());
            assert(ctx.table() =~= seq![Some(state)]);
            ctx.lemma_wf_from_records();
        }
        ctx
    }

    /// The number of slots of the table: of nodes ever made.
    pub fn len(&self) -> (n: usize)
        ensures
            n == self.table().len(),
    {
        self.nodes.len()
    }

    /// A borrowed handle to the root node.
    pub fn root(&self) -> (node: NodeHandleRef)
        ensures
            node.id() == self.root_id(),
    {
        self.root.handle_ref()
    }

    /// A borrowed handle to the current node.
    pub fn current(&self) -> (node: NodeHandleRef)
        ensures
            node.id() == self.current_id(),
    {
        self.current.handle_ref()
    }

    /// Tells whether the handle names a live node.
    pub fn is_alive(&self, node: NodeHandleRef) -> (live: bool)
        ensures
            live == alive(self.table(), node.id() as int),
    {
        let id = node.raw();
        id < self.nodes.len() && self.nodes[id].is_some()
    }

    /// The strong count of the node that the handle names, if it is alive.
    pub fn strong_count(&self, node: NodeHandleRef) -> (count: Option<usize>)
        ensures
            count == (if alive(self.table(), node.id() as int) {
                Some(self.table()[node.id() as int].unwrap().strong)
            } else {
                None
            }),
    {
        let id = node.raw();
        if id < self.nodes.len() {
            match &self.nodes[id] {
                Some(d) => Some(d.strong),
                None => None,
            }
        } else {
            None
        }
    }

    /// Tells whether the count of the node that the handle names may be
    /// raised: whether it has not passed half the range of the counter. Of a
    /// slot without a live node nothing is raised, so the answer is yes.
    pub fn may_retain(&self, node: NodeHandleRef) -> (ok: bool)
        ensures
            ok == can_retain(self.table(), Some(node.id())),
    {
        match self.strong_count(node) {
            Some(count) => count <= usize::MAX / 2,
            None => true,
        }
    }

    /// Puts a new node into the table, with a count of one, and returns the
    /// handle that owns that one unit.
    pub fn add(&mut self, node: NodeKind) -> (handle: NodeHandle)
        requires
            old(self).wf(),
            node.wf(),
        ensures
            final(self).wf(),
            handle.id() == old(self).table().len(),
            final(self).table() == old(self).table().push(Some(node.state(1))),
            final(self).root_id() == old(self).root_id(),
            final(self).current_id() == old(self).current_id(),
    {
        proof {
            self.lemma_records();
        }
        let id = self.nodes.len();
        self.nodes.push(Some(NodeData::new(node)));
        proof {
            assert(self.table() =~= old(self).table().push(Some(node.state(1))));
            self.lemma_wf_from_records();
        }
        NodeHandle::from_raw(id)
    }

    /// Adds one unit to the count of a node. A slot without a live node
    /// stays as it is.
    pub fn retain(&mut self, id: usize)
        requires
            old(self).wf(),
            alive(old(self).table(), id as int) ==> old(self).table()[id as int].unwrap().strong
                <= count_limit(),
        ensures
            final(self).wf(),
            final(self).table() == retain_spec(old(self).table(), id as int),
            final(self).root_id() == old(self).root_id(),
            final(self).current_id() == old(self).current_id(),
    {
        proof {
            self.lemma_records();
        }
        if id < self.nodes.len() {
            let mut slot: Option<NodeData> = None;
            core::mem::swap(&mut self.nodes[id], &mut slot);
            match slot {
                Some(d) => {
                    let NodeData { node, strong } = d;
                    self.nodes[id] = Some(NodeData { node, strong: strong + 1 });
                },
                None => {},
            }
        }
        proof {
            assert(self.table() =~= retain_spec(old(self).table(), id as int));
            self.lemma_wf_from_records();
        }
    }

    /// Gives up one unit of the count of a node. The last unit destroys the
    /// node, and the units that its values owned are given up in turn. A
    /// slot without a live node stays as it is.
    pub fn release(&mut self, id: usize)
        requires
            old(self).wf(),
        ensures
            final(self).wf(),
            final(self).table() == release_spec(old(self).table(), id as int),
            final(self).root_id() == old(self).root_id(),
            final(self).current_id() == old(self).current_id(),
    {
        let mut pending: Vec<usize> = Vec::new();
        pending.push(id);
        proof {
            assert(pending@ =~= seq![id]);
        }
        while pending.len() > 0
            invariant
                self.wf(),
                release_all(self.table(), pending@) == release_spec(old(self).table(), id as int),
                self.root_id() == old(self).root_id(),
                self.current_id() == old(self).current_id(),
            decreases live_count(self.table()), pending.len(),
        {
            let ghost before = self.table();
            let ghost queue = pending@;
            proof {
                self.lemma_records();
            }
            let p = pending.pop().unwrap();
            if p < self.nodes.len() {
                let mut slot: Option<NodeData> = None;
                core::mem::swap(&mut self.nodes[p], &mut slot);
                match slot {
                    Some(d) => {
                        let NodeData { node, strong } = d;
                        if strong > 1 {
                            self.nodes[p] = Some(NodeData { node, strong: strong - 1 });
                            proof {
                                assert(self.table() =~= with_count(
                                    before,
                                    p as int,
                                    (strong - 1) as usize,
                                ));
                                lemma_live_count_update(
                                    before,
                                    p as int,
                                    self.table()[p as int].unwrap(),
                                );
                                self.lemma_wf_from_records();
                            }
                        } else {
                            let mut owned = match &node {
                                NodeKind::Sorted(m) => m.owned_children(),
                                NodeKind::Fs(_) => Vec::new(),
                            };
                            pending.append(&mut owned);
                            proof {
                                assert(self.table() =~= before.update(p as int, None));
                                assert(pending@ =~= queue.drop_last() + children(
                                    before[p as int].unwrap().values,
                                ));
                                lemma_live_count_vacate(before, p as int);
                                self.lemma_wf_from_records();
                            }
                        }
                    },
                    None => {
                        proof {
                            assert(self.table() =~= before);
                        }
                    },
                }
            }
        }
    }
}

/// The flat value that carries a failure.
pub fn error_value(e: Error) -> (raw: RawValue<'static>)
    ensures
        raw@ == error_raw(e),
        raw.wf(),
{
    RawValue::from(Value::Error(e))
}

/// The node that an owning handle in a value names, if the value is one.
pub fn owned_node(value: &Value<'_>) -> (id: Option<usize>)
    ensures
        id == crate::table::owned_id(value@),
{
    match value {
        Value::Node(n) => Some(n.raw()),
        _ => None,
    }
}

/// The node whose borrowed handle a value holds, if it holds one.
pub fn borrowed_node(value: &Value<'_>) -> (id: Option<usize>)
    ensures
        id == crate::data::promoted_id(value@),
{
    match value {
        Value::NodeRef(n) => Some(n.raw()),
        _ => None,
    }
}

/// Takes the argument of a set operation apart into the key and the value.
pub fn split_pair<'a>(arg: Value<'a>) -> (pair: Result<(Interned, Value<'a>)>)
    requires
        arg.wf(),
    ensures
        match pair_of(arg@) {
            Ok((key, value)) => pair.is_ok() && pair.unwrap().0.0 == key && pair.unwrap().1@
                == value && pair.unwrap().1.wf(),
            Err(e) => pair.is_err() && pair.unwrap_err() == e,
        },
{
    match &arg {
        Value::ValueArray(a) => split_items(a),
        Value::ValueArrayRef(a) => split_items(*a),
        _ => Err(Error::WrongType),
    }
}

/// Takes the elements of a set operation's argument apart into the key and
/// the value.
pub fn split_items<'a>(items: &Vec<RawValue<'a>>) -> (pair: Result<(Interned, Value<'a>)>)
    requires
        forall|i: int| 0 <= i < items@.len() ==> crate::data::raw_wf(#[trigger] raw_views(items@)[i]),
    ensures
        match pair_of(ValueView::Array { owned: true, items: raw_views(items@) }) {
            Ok((key, value)) => pair.is_ok() && pair.unwrap().0.0 == key && pair.unwrap().1@
                == value && pair.unwrap().1.wf(),
            Err(e) => pair.is_err() && pair.unwrap_err() == e,
        },
        pair_of(ValueView::Array { owned: true, items: raw_views(items@) }) == pair_of(
            ValueView::Array { owned: false, items: raw_views(items@) },
        ),
{
    if items.len() < 1 {
        return Err(Error::InvalidArgumentTypes);
    }
    proof {
        assert(crate::data::raw_wf(raw_views(items@)[0]));
    }
    let key = match Value::from_raw(items[0].duplicate()) {
        Value::Error(e) => {
            return Err(e);
        },
        Value::Interned(k) => k,
        _ => {
            return Err(Error::WrongType);
        },
    };
    if items.len() < 2 {
        return Err(Error::InvalidArgumentTypes);
    }
    proof {
        assert(crate::data::raw_wf(raw_views(items@)[1]));
    }
    match Value::from_raw(items[1].duplicate()) {
        Value::Error(e) => Err(e),
        value => Ok((key, value)),
    }
}

impl Vnodes {
    /// The one entry point of every node: carries out `action` on the node
    /// that `node` names, with the flat argument `arg`, and answers with a
    /// flat value. A failure is answered as an error value.
    pub fn action(&mut self, node: NodeHandleRef, action: Action, arg: RawValue<'_>) -> (answer:
        RawValue<'static>)
        requires
            old(self).wf(),
            arg.wf(),
            action_ok(old(self).table(), node.id() as int, action, arg@),
        ensures
            final(self).wf(),
            (final(self).table(), answer@) == action_spec(
                old(self).table(),
                node.id() as int,
                action,
                arg@,
            ),
            answer.wf(),
            final(self).root_id() == old(self).root_id(),
            final(self).current_id() == old(self).current_id(),
    {
        let id = node.raw();
        if !self.is_alive(node) {
            return error_value(Error::ExpectedNode);
        }
        match action {
            Action::Call => error_value(Error::ActionNotSupported),
            Action::List => error_value(Error::ActionNotSupported),
            Action::Get => self.action_get(id, arg),
            Action::SetEntry => self.action_set(id, arg),
            Action::Clone => {
                self.retain(id);
                RawValue::void()
            },
            Action::Drop => {
                self.release(id);
                RawValue::void()
            },
        }
    }

    /// The get operation on a live node.
    fn action_get(&mut self, id: usize, arg: RawValue<'_>) -> (answer: RawValue<'static>)
        requires
            old(self).wf(),
            arg.wf(),
            alive(old(self).table(), id as int),
            action_ok(old(self).table(), id as int, Action::Get, arg@),
        ensures
            final(self).wf(),
            (final(self).table(), answer@) == get_spec(old(self).table(), id as int, arg@),
            answer.wf(),
            final(self).root_id() == old(self).root_id(),
            final(self).current_id() == old(self).current_id(),
    {
        proof {
            self.lemma_records();
        }
        let ident = match Value::from_raw(arg) {
            Value::Interned(k) => k,
            _ => {
                return error_value(Error::WrongType);
            },
        };
        let found = match &self.nodes[id] {
            Some(d) => match &d.node {
                NodeKind::Sorted(m) => m.get(ident),
                NodeKind::Fs(f) => f.get(ident),
            },
            None => Err(Error::ExpectedNode),
        };
        match found {
            Ok(value) => {
                match owned_node(&value) {
                    Some(child) => {
                        self.retain(child);
                    },
                    None => {},
                }
                RawValue::from(value)
            },
            Err(e) => error_value(e),
        }
    }

    /// The set operation on a live node.
    fn action_set(&mut self, id: usize, arg: RawValue<'_>) -> (answer: RawValue<'static>)
        requires
            old(self).wf(),
            arg.wf(),
            alive(old(self).table(), id as int),
            action_ok(old(self).table(), id as int, Action::SetEntry, arg@),
        ensures
            final(self).wf(),
            (final(self).table(), answer@) == set_spec(old(self).table(), id as int, arg@),
            answer.wf(),
            final(self).root_id() == old(self).root_id(),
            final(self).current_id() == old(self).current_id(),
    {
        let (key, value) = match split_pair(Value::from_raw(arg)) {
            Ok(pair) => pair,
            Err(e) => {
                return error_value(e);
            },
        };
        match borrowed_node(&value) {
            Some(child) => {
                self.retain(child);
            },
            None => {},
        }
        proof {
            lemma_own_wf(value@);
        }
        let stored = value.detach();
        let given = owned_node(&stored);
        match self.store(id, key, stored) {
            Ok(previous) => {
                match previous {
                    Some(p) => {
                        self.release(p);
                    },
                    None => {},
                }
                RawValue::void()
            },
            Err(e) => {
                match given {
                    Some(g) => {
                        self.release(g);
                    },
                    None => {},
                }
                error_value(e)
            },
        }
    }

    /// Stores `value` under `key` in the live node `id` and hands back the
    /// node that the replaced value owned a unit of, if it owned one. A node
    /// that stores nothing answers `ActionNotSupported`.
    fn store(&mut self, id: usize, key: Interned, value: Value<'static>) -> (previous: Result<
        Option<usize>,
    >)
        requires
            old(self).wf(),
            value.wf(),
            alive(old(self).table(), id as int),
        ensures
            final(self).wf(),
            final(self).root_id() == old(self).root_id(),
            final(self).current_id() == old(self).current_id(),
            old(self).table()[id as int].unwrap().map ==> {
                let n = old(self).table()[id as int].unwrap();
                &&& final(self).table() == old(self).table().update(
                    id as int,
                    Some(store_spec(n, key.0, value@)),
                )
                &&& previous.is_ok()
                &&& previous.unwrap() == (match crate::map::lookup(n.keys, n.values, key.0) {
                    Some(v) => crate::table::owned_id(v),
                    None => None,
                })
            },
            !old(self).table()[id as int].unwrap().map ==> {
                &&& final(self).table() == old(self).table()
                &&& previous == Err::<Option<usize>, Error>(Error::ActionNotSupported)
            },
    {
        proof {
            self.lemma_records();
        }
        let ghost before = self.table();
        let mut slot: Option<NodeData> = None;
        core::mem::swap(&mut self.nodes[id], &mut slot);
        match slot {
            Some(d) => {
                let NodeData { node, strong } = d;
                match node {
                    NodeKind::Sorted(m) => {
                        let mut m = m;
                        let previous = m.replace(key, value);
                        let child = match &previous {
                            Some(v) => owned_node(v),
                            None => None,
                        };
                        self.nodes[id] = Some(NodeData { node: NodeKind::Sorted(m), strong });
                        proof {
                            assert(self.table() =~= before.update(
                                id as int,
                                Some(store_spec(before[id as int].unwrap(), key.0, value@)),
                            ));
                            self.lemma_wf_from_records();
                        }
                        Ok(child)
                    },
                    NodeKind::Fs(f) => {
                        self.nodes[id] = Some(NodeData { node: NodeKind::Fs(f), strong });
                        proof {
                            assert(self.table() =~= before);
                        }
                        Err(Error::ActionNotSupported)
                    },
                }
            },
            None => Err(Error::ExpectedNode),
        }
    }
}


/// The flat argument of a set operation that stores `value` under `key`.
pub open spec fn pair_raw(key: u64, value: ValueView) -> crate::data::RawView {
    to_flat_spec(
        ValueView::Array {
            owned: true,
            items: seq![to_flat_spec(ValueView::Interned(Interned(key))), to_flat_spec(value)],
        },
    )
}

/// What a failure or success answered as a flat value is as a result.
pub open spec fn answer_spec(answer: crate::data::RawView) -> core::result::Result<(), Error> {
    match from_flat_spec(answer) {
        ValueView::Error(e) => Err(e),
        ValueView::Void => Ok(()),
        _ => Err(Error::WrongType),
    }
}

/// What an insertion of `value` at `path` does to the table and what it
/// returns. Where the path names no place to store at, the value is dropped:
/// the unit that it owned is given up. Otherwise the set operation is asked of
/// the node that the path's prefix leads to.
pub open spec fn insert_spec(
    t: Table,
    root: int,
    current: int,
    path: Seq<Interned>,
    value: ValueView,
) -> (Table, core::result::Result<(), Error>) {
    match target_spec(t, root, current, path) {
        Err(e) => (release_opt(t, owned_id(value)), Err(e)),
        Ok((node, key)) => {
            let (after, answer) = action_spec(
                t,
                node as int,
                Action::SetEntry,
                pair_raw(key, value),
            );
            (after, answer_spec(answer))
        },
    }
}

/// Whether an insertion can be carried out without a count passing half the
/// range of the counter.
pub open spec fn insert_ok(
    t: Table,
    root: int,
    current: int,
    path: Seq<Interned>,
    value: ValueView,
) -> bool {
    match target_spec(t, root, current, path) {
        Err(e) => true,
        Ok((node, key)) => action_ok(t, node as int, Action::SetEntry, pair_raw(key, value)),
    }
}

/// What reading the value at `path` as a `T` does to the table and what it
/// returns, the result given as the value it travels as. The value is copied
/// out of the tree; a node that the copy owns a unit of gains that unit.
pub open spec fn get_spec_at<T: ValueConv<'static>>(
    t: Table,
    root: int,
    current: int,
    path: Seq<Interned>,
) -> (Table, core::result::Result<ValueView, Error>) {
    match resolve_spec(t, root, current, path) {
        Err(e) => (t, Err(e)),
        Ok(v) => match T::conv_spec(own_spec(v)) {
            Ok(view) => (retain_opt(t, owned_id(own_spec(v))), Ok(view)),
            Err(e) => (t, Err(e)),
        },
    }
}

/// Whether the value at `path` can be read as a `T` without a count passing
/// half the range of the counter.
pub open spec fn get_ok<T: ValueConv<'static>>(
    t: Table,
    root: int,
    current: int,
    path: Seq<Interned>,
) -> bool {
    match resolve_spec(t, root, current, path) {
        Err(e) => true,
        Ok(v) => T::conv_spec(own_spec(v)).is_ok() ==> can_retain(t, owned_id(own_spec(v))),
    }
}

impl Vnodes {
    /// The value that live node `node` binds `key` to, borrowed.
    pub fn entry<'b>(&'b self, node: NodeHandleRef, key: Interned) -> (found: Result<Value<'b>>)
        requires
            self.wf(),
        ensures
            match (if alive(self.table(), node.id() as int) {
                entry_spec(self.table()[node.id() as int].unwrap(), key.0)
            } else {
                Err(Error::ExpectedNode)
            }) {
                Ok(v) => found matches Ok(x) && x@ == crate::data::borrow_spec(v) && x.wf(),
                Err(e) => found matches Err(x) && x == e,
            },
    {
        proof {
            self.lemma_records();
        }
        let id = node.raw();
        if id >= self.nodes.len() {
            return Err(Error::ExpectedNode);
        }
        match &self.nodes[id] {
            Some(d) => match &d.node {
                NodeKind::Sorted(m) => match m.peek(key) {
                    Some(v) => Ok(v.borrowed()),
                    None => Err(Error::NoSuchEntry),
                },
                NodeKind::Fs(_) => Err(Error::ActionNotSupported),
            },
            None => Err(Error::ExpectedNode),
        }
    }

    /// Follows the segments from node `start` to the value they lead to,
    /// which is handed out borrowed.
    pub fn walk<'b>(&'b self, start: NodeHandleRef, segs: &[Interned]) -> (found: Result<
        Value<'b>,
    >)
        requires
            self.wf(),
        ensures
            match walk_spec(self.table(), start.id() as int, segs@) {
                Ok(v) => found matches Ok(x) && x@ == v && x.wf(),
                Err(e) => found matches Err(x) && x == e,
            },
    {
        proof {
            self.lemma_records();
        }
        let mut stop: usize = segs.len();
        while stop > 0 && segs[stop - 1].is_empty()
            invariant
                stop <= segs.len(),
                forall|k: int| stop <= k < segs@.len() ==> (#[trigger] segs@[k]).0 == 0,
            decreases stop,
        {
            stop -= 1;
        }
        let mut node: usize = start.raw();
        let mut i: usize = 0;
        proof {
            assert(segs@.skip(0) =~= segs@);
        }
        while i < segs.len()
            invariant
                i <= segs.len(),
                stop <= segs.len(),
                forall|k: int| stop <= k < segs@.len() ==> (#[trigger] segs@[k]).0 == 0,
                stop > 0 ==> segs@[stop - 1].0 != 0,
                self.wf(),
                forall|k: int|
                    0 <= k < self.nodes@.len() && self.nodes@[k].is_some() ==> (
                    #[trigger] self.nodes@[k]).unwrap().wf(),
                walk_spec(self.table(), start.id() as int, segs@) == walk_spec(
                    self.table(),
                    node as int,
                    segs@.skip(i as int),
                ),
            decreases segs.len() - i,
        {
            let ghost rest = segs@.skip(i as int);
            proof {
                assert(rest.len() == segs.len() - i);
                assert(rest[0] == segs@[i as int]);
                assert(rest.skip(1) =~= segs@.skip(i + 1));
            }
            if node >= self.nodes.len() {
                return Err(Error::ExpectedNode);
            }
            let data = match &self.nodes[node] {
                Some(d) => d,
                None => {
                    return Err(Error::ExpectedNode);
                },
            };
            proof {
                if i >= stop {
                    assert forall|k: int| 0 <= k < rest.len() implies (#[trigger] rest[k]).0
                        == 0 by {
                        assert(rest[k] == segs@[i + k]);
                    }
                } else {
                    assert(rest[stop - 1 - i] == segs@[stop - 1]);
                    assert(!all_empty(rest));
                }
            }
            if i >= stop {
                return Ok(Value::NodeRef(NodeHandleRef::from_raw(node)));
            }
            let last = i + 1 == segs.len();
            let value = match &data.node {
                NodeKind::Sorted(m) => match m.peek(segs[i]) {
                    Some(v) => v,
                    None => {
                        return Err(Error::NoSuchEntry);
                    },
                },
                NodeKind::Fs(_) => {
                    return Err(Error::ActionNotSupported);
                },
            };
            if last {
                return Ok(value.borrowed());
            }
            match value.as_node_handle() {
                Ok(next) => {
                    node = next.raw();
                },
                Err(_) => {
                    return Err(Error::ExpectedNode);
                },
            }
            i += 1;
        }
        Ok(Value::NodeRef(NodeHandleRef::from_raw(node)))
    }

    /// The value that a path of interned segments leads to, borrowed. A path
    /// whose first segment is empty starts at the root, any other at the
    /// current node.
    pub fn resolve<'b>(&'b self, path: &[Interned]) -> (found: Result<Value<'b>>)
        requires
            self.wf(),
        ensures
            match resolve_spec(
                self.table(),
                self.root_id() as int,
                self.current_id() as int,
                path@,
            ) {
                Ok(v) => found matches Ok(x) && x@ == v && x.wf(),
                Err(e) => found matches Err(x) && x == e,
            },
    {
        if path.len() > 0 && path[0].is_empty() {
            let rest = vstd::slice::slice_subrange(path, 1, path.len());
            proof {
                assert(rest@ =~= path@.skip(1));
            }
            self.walk(self.root(), rest)
        } else {
            self.walk(self.current(), path)
        }
    }

    /// Reads the value at a path of interned segments as a `T`.
    pub fn get_at<T: ValueConv<'static>>(&mut self, path: &[Interned]) -> (value: Result<T>)
        requires
            old(self).wf(),
            get_ok::<T>(
                old(self).table(),
                old(self).root_id() as int,
                old(self).current_id() as int,
                path@,
            ),
        ensures
            final(self).wf(),
            final(self).root_id() == old(self).root_id(),
            final(self).current_id() == old(self).current_id(),
            final(self).table() == get_spec_at::<T>(
                old(self).table(),
                old(self).root_id() as int,
                old(self).current_id() as int,
                path@,
            ).0,
            match get_spec_at::<T>(
                old(self).table(),
                old(self).root_id() as int,
                old(self).current_id() as int,
                path@,
            ).1 {
                Ok(view) => value matches Ok(x) && x.value_of() == view && x.conv_wf(),
                Err(e) => value matches Err(x) && x == e,
            },
    {
        let owned = match self.resolve(path) {
            Ok(v) => {
                proof {
                    lemma_own_wf(v@);
                }
                v.detach()
            },
            Err(e) => {
                return Err(e);
            },
        };
        let node = owned_node(&owned);
        match T::from_value(owned) {
            Ok(x) => {
                match node {
                    Some(id) => {
                        self.retain(id);
                    },
                    None => {},
                }
                Ok(x)
            },
            Err(e) => Err(e),
        }
    }

    /// Reads the value at a path as a `T`, copying it out of the tree.
    pub fn get<T: ValueConv<'static>>(&mut self, path: &str) -> (value: Result<T>)
        requires
            old(self).wf(),
            is_path(path.spec_bytes()),
            get_ok::<T>(
                old(self).table(),
                old(self).root_id() as int,
                old(self).current_id() as int,
                path_spec(path.spec_bytes()),
            ),
        ensures
            final(self).wf(),
            final(self).root_id() == old(self).root_id(),
            final(self).current_id() == old(self).current_id(),
            final(self).table() == get_spec_at::<T>(
                old(self).table(),
                old(self).root_id() as int,
                old(self).current_id() as int,
                path_spec(path.spec_bytes()),
            ).0,
            match get_spec_at::<T>(
                old(self).table(),
                old(self).root_id() as int,
                old(self).current_id() as int,
                path_spec(path.spec_bytes()),
            ).1 {
                Ok(view) => value matches Ok(x) && x.value_of() == view && x.conv_wf(),
                Err(e) => value matches Err(x) && x == e,
            },
    {
        let codes = InternedPathBuf::from(path);
        self.get_at::<T>(codes.path())
    }

    /// Stores `value` at a path of interned segments: under the last segment,
    /// in the node that the segments before it lead to.
    pub fn insert_at<T: ValueConv<'static>>(&mut self, path: &[Interned], value: T) -> (done:
        Result<()>)
        requires
            old(self).wf(),
            value.conv_wf(),
            insert_ok(
                old(self).table(),
                old(self).root_id() as int,
                old(self).current_id() as int,
                path@,
                value.value_of(),
            ),
        ensures
            final(self).wf(),
            final(self).root_id() == old(self).root_id(),
            final(self).current_id() == old(self).current_id(),
            (final(self).table(), done) == insert_spec(
                old(self).table(),
                old(self).root_id() as int,
                old(self).current_id() as int,
                path@,
                value.value_of(),
            ),
    {
        let value = value.into_value();
        let given = owned_node(&value);
        let target = self.target(path);
        match target {
            Err(e) => {
                match given {
                    Some(g) => {
                        self.release(g);
                    },
                    None => {},
                }
                Err(e)
            },
            Ok((node, key)) => {
                let arg = crate::conv::flat_of((key, value));
                let answer = self.action(node, Action::SetEntry, arg);
                match Value::from_raw(answer) {
                    Value::Error(e) => Err(e),
                    Value::Void => Ok(()),
                    _ => Err(Error::WrongType),
                }
            },
        }
    }

    /// The node in which an insertion at `path` stores, and the key it
    /// stores under.
    pub fn target(&self, path: &[Interned]) -> (target: Result<(NodeHandleRef, Interned)>)
        requires
            self.wf(),
        ensures
            match target_spec(
                self.table(),
                self.root_id() as int,
                self.current_id() as int,
                path@,
            ) {
                Ok((node, key)) => target matches Ok(x) && x.0.id() == node && x.1.0 == key,
                Err(e) => target matches Err(x) && x == e,
            },
    {
        if path.len() == 0 {
            return Err(Error::PathEmpty);
        }
        let key = path[path.len() - 1];
        if key.is_empty() {
            return Err(Error::PathEmpty);
        }
        let prefix = vstd::slice::slice_subrange(path, 0, path.len() - 1);
        proof {
            assert(prefix@ =~= path@.drop_last());
        }
        match self.resolve(prefix) {
            Ok(v) => match v.as_node_handle() {
                Ok(node) => Ok((node, key)),
                Err(_) => Err(Error::ExpectedNode),
            },
            Err(e) => Err(e),
        }
    }

    /// Stores `value` at a path: under the path's last segment, in the node
    /// that the segments before it lead to.
    pub fn insert<T: ValueConv<'static>>(&mut self, path: &str, value: T) -> (done: Result<()>)
        requires
            old(self).wf(),
            is_path(path.spec_bytes()),
            value.conv_wf(),
            insert_ok(
                old(self).table(),
                old(self).root_id() as int,
                old(self).current_id() as int,
                path_spec(path.spec_bytes()),
                value.value_of(),
            ),
        ensures
            final(self).wf(),
            final(self).root_id() == old(self).root_id(),
            final(self).current_id() == old(self).current_id(),
            (final(self).table(), done) == insert_spec(
                old(self).table(),
                old(self).root_id() as int,
                old(self).current_id() as int,
                path_spec(path.spec_bytes()),
                value.value_of(),
            ),
    {
        let codes = InternedPathBuf::from(path);
        self.insert_at::<T>(codes.path(), value)
    }
}


impl Vnodes {
    /// Makes `node` the current node. The context takes the handle's unit
    /// over and gives up the unit it held for the node that was current.
    pub fn set_current(&mut self, node: NodeHandle)
        requires
            old(self).wf(),
        ensures
            final(self).wf(),
            final(self).root_id() == old(self).root_id(),
            final(self).current_id() == node.id(),
            final(self).table() == release_spec(
                old(self).table(),
                old(self).current_id() as int,
            ),
    {
        let mut node = node;
        core::mem::swap(&mut self.current, &mut node);
        self.release(NodeHandle::into_raw(node));
    }

    /// The number of live nodes.
    pub fn live(&self) -> (n: usize)
        ensures
            n == live_count(self.table()),
    {
        let mut n: usize = 0;
        let mut i: usize = 0;
        proof {
            assert(self.table().take(0) =~= Seq::<Option<NodeState>>::empty());
        }
        while i < self.nodes.len()
            invariant
                i <= self.nodes@.len(),
                n <= i,
                n == live_count(self.table().take(i as int)),
            decreases self.nodes@.len() - i,
        {
            proof {
                let next = self.table().take(i + 1);
                assert(next.drop_last() =~= self.table().take(i as int));
                assert(next.last() == slot_state(self.nodes@[i as int]));
            }
            if self.nodes[i].is_some() {
                n += 1;
            }
            i += 1;
        }
        proof {
            assert(self.table().take(self.nodes@.len() as int) =~= self.table());
        }
        n
    }

    /// Tears the context down: gives up the unit it holds for the current
    /// node, then the one for the root, and returns the number of nodes that
    /// are alive after that, held by handles that are still out.
    pub fn close(self) -> (left: usize)
        requires
            self.wf(),
        ensures
            left == live_count(
                release_spec(
                    release_spec(self.table(), self.current_id() as int),
                    self.root_id() as int,
                ),
            ),
    {
        let mut ctx = self;
        let current = ctx.current.raw();
        let root = ctx.root.raw();
        ctx.release(current);
        ctx.release(root);
        ctx.live()
    }
}

impl NodeHandle {
    /// Puts `node` into the context's table and returns the handle that owns
    /// its one unit of count.
    pub fn new(ctx: &mut Vnodes, node: NodeKind) -> (handle: Self)
        requires
            old(ctx).wf(),
            node.wf(),
        ensures
            final(ctx).wf(),
            handle.id() == old(ctx).table().len(),
            final(ctx).table() == old(ctx).table().push(Some(node.state(1))),
            final(ctx).root_id() == old(ctx).root_id(),
            final(ctx).current_id() == old(ctx).current_id(),
    {
        ctx.add(node)
    }

    /// Another owning handle to the same node: the node's count rises by one.
    pub fn clone(&self, ctx: &mut Vnodes) -> (handle: Self)
        requires
            old(ctx).wf(),
            can_retain(old(ctx).table(), Some(self.id())),
        ensures
            final(ctx).wf(),
            handle.id() == self.id(),
            final(ctx).table() == retain_spec(old(ctx).table(), self.id() as int),
            final(ctx).root_id() == old(ctx).root_id(),
            final(ctx).current_id() == old(ctx).current_id(),
    {
        self.handle_ref().to_handle(ctx)
    }

    /// Gives the handle up: the node's count falls by one, and the node is
    /// destroyed if this was its last unit.
    pub fn drop(self, ctx: &mut Vnodes)
        requires
            old(ctx).wf(),
        ensures
            final(ctx).wf(),
            final(ctx).table() == release_spec(old(ctx).table(), self.id() as int),
            final(ctx).root_id() == old(ctx).root_id(),
            final(ctx).current_id() == old(ctx).current_id(),
    {
        let mut node = self.handle_ref();
        let _ = NodeHandle::into_raw(self);
        NodeHandleRef::drop(&mut node, ctx);
    }

    /// Asks the node for the value bound to `ident`.
    pub fn get(&self, ctx: &mut Vnodes, ident: Interned) -> (value: Value<'static>)
        requires
            old(ctx).wf(),
            action_ok(
                old(ctx).table(),
                self.id() as int,
                Action::Get,
                to_flat_spec(ValueView::Interned(ident)),
            ),
        ensures
            final(ctx).wf(),
            (final(ctx).table(), to_flat_spec(value@)) == action_spec(
                old(ctx).table(),
                self.id() as int,
                Action::Get,
                to_flat_spec(ValueView::Interned(ident)),
            ),
            value.wf(),
            final(ctx).root_id() == old(ctx).root_id(),
            final(ctx).current_id() == old(ctx).current_id(),
    {
        self.handle_ref().get(ctx, ident)
    }

    /// Asks the node to bind `ident` to `value`.
    pub fn insert(&self, ctx: &mut Vnodes, ident: Interned, value: Value<'static>)
        requires
            old(ctx).wf(),
            value.wf(),
            action_ok(
                old(ctx).table(),
                self.id() as int,
                Action::SetEntry,
                pair_raw(ident.0, value@),
            ),
        ensures
            final(ctx).wf(),
            final(ctx).table() == action_spec(
                old(ctx).table(),
                self.id() as int,
                Action::SetEntry,
                pair_raw(ident.0, value@),
            ).0,
            final(ctx).root_id() == old(ctx).root_id(),
            final(ctx).current_id() == old(ctx).current_id(),
    {
        self.handle_ref().insert(ctx, ident, value)
    }
}

impl NodeHandleRef {
    /// Promotes the borrowed handle to an owning one: the node's count rises
    /// by one.
    pub fn to_handle(&self, ctx: &mut Vnodes) -> (handle: NodeHandle)
        requires
            old(ctx).wf(),
            can_retain(old(ctx).table(), Some(self.id())),
        ensures
            final(ctx).wf(),
            handle.id() == self.id(),
            final(ctx).table() == retain_spec(old(ctx).table(), self.id() as int),
            final(ctx).root_id() == old(ctx).root_id(),
            final(ctx).current_id() == old(ctx).current_id(),
    {
        Self::clone(self, ctx);
        NodeHandle::from_raw(self.raw())
    }

    /// Asks `action` of the node, with the flat argument `arg`, and reads
    /// the flat answer back into a native value.
    pub fn action(this: &Self, ctx: &mut Vnodes, action: Action, arg: RawValue<'_>) -> (value:
        Value<'static>)
        requires
            old(ctx).wf(),
            arg.wf(),
            action_ok(old(ctx).table(), this.id() as int, action, arg@),
        ensures
            final(ctx).wf(),
            final(ctx).table() == action_spec(old(ctx).table(), this.id() as int, action, arg@).0,
            value@ == from_flat_spec(
                action_spec(old(ctx).table(), this.id() as int, action, arg@).1,
            ),
            value.wf(),
            final(ctx).root_id() == old(ctx).root_id(),
            final(ctx).current_id() == old(ctx).current_id(),
    {
        Value::from_raw(ctx.action(*this, action, arg))
    }

    /// Asks the node to raise its count by one.
    pub fn clone(this: &Self, ctx: &mut Vnodes)
        requires
            old(ctx).wf(),
            can_retain(old(ctx).table(), Some(this.id())),
        ensures
            final(ctx).wf(),
            final(ctx).table() == retain_spec(old(ctx).table(), this.id() as int),
            final(ctx).root_id() == old(ctx).root_id(),
            final(ctx).current_id() == old(ctx).current_id(),
    {
        let _ = Self::action(this, ctx, Action::Clone, RawValue::void());
    }

    /// Asks the node to lower its count by one; the node is destroyed if
    /// this was its last unit.
    pub fn drop(this: &mut Self, ctx: &mut Vnodes)
        requires
            old(ctx).wf(),
        ensures
            *final(this) == *old(this),
            final(ctx).wf(),
            final(ctx).table() == release_spec(old(ctx).table(), old(this).id() as int),
            final(ctx).root_id() == old(ctx).root_id(),
            final(ctx).current_id() == old(ctx).current_id(),
    {
        proof {
            if !alive(ctx.table(), this.id() as int) {
                crate::table::lemma_release_absent(ctx.table(), this.id() as int);
            }
        }
        let _ = Self::action(this, ctx, Action::Drop, RawValue::void());
    }

    /// Asks the node for the value bound to `ident`.
    pub fn get(&self, ctx: &mut Vnodes, ident: Interned) -> (value: Value<'static>)
        requires
            old(ctx).wf(),
            action_ok(
                old(ctx).table(),
                self.id() as int,
                Action::Get,
                to_flat_spec(ValueView::Interned(ident)),
            ),
        ensures
            final(ctx).wf(),
            (final(ctx).table(), to_flat_spec(value@)) == action_spec(
                old(ctx).table(),
                self.id() as int,
                Action::Get,
                to_flat_spec(ValueView::Interned(ident)),
            ),
            value.wf(),
            final(ctx).root_id() == old(ctx).root_id(),
            final(ctx).current_id() == old(ctx).current_id(),
    {
        let arg = RawValue::from(Value::Interned(ident));
        let answer = ctx.action(*self, Action::Get, arg);
        let value = Value::from_raw(answer);
        proof {
            crate::dispatch::lemma_answer_is_flat(
                old(ctx).table(),
                self.id() as int,
                Action::Get,
                to_flat_spec(ValueView::Interned(ident)),
            );
        }
        value
    }

    /// Asks the node to bind `ident` to `value`.
    pub fn insert(&self, ctx: &mut Vnodes, ident: Interned, value: Value<'static>)
        requires
            old(ctx).wf(),
            value.wf(),
            action_ok(
                old(ctx).table(),
                self.id() as int,
                Action::SetEntry,
                pair_raw(ident.0, value@),
            ),
        ensures
            final(ctx).wf(),
            final(ctx).table() == action_spec(
                old(ctx).table(),
                self.id() as int,
                Action::SetEntry,
                pair_raw(ident.0, value@),
            ).0,
            final(ctx).root_id() == old(ctx).root_id(),
            final(ctx).current_id() == old(ctx).current_id(),
    {
        let arg = crate::conv::flat_of((ident, value));
        let _ = ctx.action(*self, Action::SetEntry, arg);
    }
}

impl MapNode {
    /// A new, empty sorted-array node in the context's table, and the handle
    /// that owns its one unit of count.
    pub fn new_node(ctx: &mut Vnodes) -> (handle: NodeHandle)
        requires
            old(ctx).wf(),
        ensures
            final(ctx).wf(),
            handle.id() == old(ctx).table().len(),
            final(ctx).table() == old(ctx).table().push(
                Some(
                    NodeState {
                        strong: 1,
                        map: true,
                        keys: Seq::<u64>::empty(),
                        values: Seq::<ValueView>::empty(),
                        place: Seq::<char>::empty(),
                    },
                ),
            ),
            final(ctx).root_id() == old(ctx).root_id(),
            final(ctx).current_id() == old(ctx).current_id(),
    {
        let node = MapNode::new();
        proof {
            assert(node.keys() =~= Seq::<u64>::empty());
            assert(node.values() =~= Seq::<ValueView>::empty());
        }
        NodeHandle::new(ctx, NodeKind::Sorted(node))
    }
}

impl FsNode {
    /// A new file-system node in the context's table, and the handle that
    /// owns its one unit of count.
    pub fn new_node(ctx: &mut Vnodes, path: String) -> (handle: NodeHandle)
        requires
            old(ctx).wf(),
        ensures
            final(ctx).wf(),
            handle.id() == old(ctx).table().len(),
            final(ctx).table() == old(ctx).table().push(
                Some(
                    NodeState {
                        strong: 1,
                        map: false,
                        keys: Seq::<u64>::empty(),
                        values: Seq::<ValueView>::empty(),
                        place: path@,
                    },
                ),
            ),
            final(ctx).root_id() == old(ctx).root_id(),
            final(ctx).current_id() == old(ctx).current_id(),
    {
        NodeHandle::new(ctx, NodeKind::Fs(FsNode::new(path)))
    }
}

impl<'a> Value<'a> {
    /// This value with nothing borrowed: a borrowed buffer is copied, and a
    /// borrowed handle is promoted to an owning one, which raises its node's
    /// count by one.
    pub fn make_owned(self, ctx: &mut Vnodes) -> (owned: Value<'static>)
        requires
            old(ctx).wf(),
            can_retain(old(ctx).table(), crate::data::promoted_id(self@)),
        ensures
            final(ctx).wf(),
            owned@ == own_spec(self@),
            final(ctx).table() == retain_opt(old(ctx).table(), crate::data::promoted_id(self@)),
            final(ctx).root_id() == old(ctx).root_id(),
            final(ctx).current_id() == old(ctx).current_id(),
    {
        match borrowed_node(&self) {
            Some(id) => {
                ctx.retain(id);
            },
            None => {},
        }
        self.detach()
    }
}


/// The argument of a set operation carries the key and the value it was
/// made of, unless the value carries a failure.
pub proof fn lemma_pair_args(key: u64, value: ValueView)
    requires
        value_wf(value),
        !(value is Error),
    ensures
        crate::dispatch::set_args(pair_raw(key, value)) == Ok::<(u64, ValueView), Error>(
            (key, value),
        ),
        crate::data::raw_wf(pair_raw(key, value)),
{
    let first = to_flat_spec(ValueView::Interned(Interned(key)));
    let second = to_flat_spec(value);
    let items = seq![first, second];
    crate::data::lemma_flat_round_trip(ValueView::Interned(Interned(key)));
    crate::data::lemma_flat_round_trip(value);
    assert(items[0] == first && items[1] == second);
    assert forall|i: int| 0 <= i < items.len() implies crate::data::raw_wf(#[trigger] items[i]) by {
        if i == 0 {
        } else {
        }
    }
    crate::data::lemma_flat_round_trip(ValueView::Array { owned: true, items });
}

/// What a set operation leaves in the node it was asked of: in a table
/// where the operation stored `value` under `key` in live node `node`, and
/// the node outlived the value that was replaced, the node binds `key` to the
/// value, made owned.
pub proof fn lemma_set_binds(t: Table, node: int, key: u64, value: ValueView)
    requires
        table_wf(t),
        alive(t, node),
        t[node].unwrap().map,
        value_wf(value),
        !(value is Error),
        action_ok(t, node, Action::SetEntry, pair_raw(key, value)),
        alive(action_spec(t, node, Action::SetEntry, pair_raw(key, value)).0, node),
    ensures
        action_spec(t, node, Action::SetEntry, pair_raw(key, value)).1 == to_flat_spec(
            ValueView::Void,
        ),
        entry_spec(
            action_spec(t, node, Action::SetEntry, pair_raw(key, value)).0[node].unwrap(),
            key,
        ) == Ok::<ValueView, Error>(own_spec(value)),
{
    lemma_pair_args(key, value);
    let t1 = retain_opt(t, crate::data::promoted_id(value));
    let stored = own_spec(value);
    assert(alive(t1, node));
    assert(node_wf(t[node].unwrap()));
    assert(node_wf(t1[node].unwrap()));
    let n = t1[node].unwrap();
    let t2 = t1.update(node, Some(store_spec(n, key, stored)));
    let after = action_spec(t, node, Action::SetEntry, pair_raw(key, value)).0;
    crate::map::lemma_store(n.keys, n.values, key, stored);
    match crate::map::lookup(n.keys, n.values, key) {
        Some(previous) => {
            match owned_id(previous) {
                Some(p) => {
                    assert(after == release_all(t2, seq![p]));
                    crate::resolve::lemma_release_entries(t2, seq![p], node);
                },
                None => {
                    assert(after == t2);
                },
            }
        },
        None => {
            assert(after == t2);
        },
    }
}

/// A stored value is the value that is fetched: a get operation that
/// follows a set operation on the same node and key answers with the value
/// that was stored, as long as the node outlived the value that was replaced
/// and the count of a node that the value owns may be raised.
pub proof fn lemma_set_then_get(t: Table, node: int, key: u64, value: ValueView)
    requires
        table_wf(t),
        alive(t, node),
        t[node].unwrap().map,
        value_wf(value),
        !(value is Error),
        action_ok(t, node, Action::SetEntry, pair_raw(key, value)),
        alive(action_spec(t, node, Action::SetEntry, pair_raw(key, value)).0, node),
    ensures
        action_spec(
            action_spec(t, node, Action::SetEntry, pair_raw(key, value)).0,
            node,
            Action::Get,
            to_flat_spec(ValueView::Interned(Interned(key))),
        ).1 == to_flat_spec(own_spec(value)),
{
    lemma_set_binds(t, node, key, value);
    crate::data::lemma_flat_round_trip(ValueView::Interned(Interned(key)));
}

/// A stored value is found by its path, at any depth: where segments lead
/// from `start` to the node in which a set operation stored `value` under a
/// name, the segments followed by the name lead to the value. The segments
/// are those that lead to the node after the operation, none of them empty.
pub proof fn lemma_set_then_walk(
    t: Table,
    start: int,
    segs: Seq<Interned>,
    node: usize,
    key: u64,
    value: ValueView,
)
    requires
        table_wf(t),
        alive(t, node as int),
        t[node as int].unwrap().map,
        0 <= start <= usize::MAX,
        key != 0,
        forall|i: int| 0 <= i < segs.len() ==> (#[trigger] segs[i]).0 != 0,
        value_wf(value),
        !(value is Error),
        action_ok(t, node as int, Action::SetEntry, pair_raw(key, value)),
        alive(action_spec(t, node as int, Action::SetEntry, pair_raw(key, value)).0, node as int),
        walk_spec(
            action_spec(t, node as int, Action::SetEntry, pair_raw(key, value)).0,
            start,
            segs,
        ) matches Ok(ValueView::Node { owned, id }) && id == node,
    ensures
        walk_spec(
            action_spec(t, node as int, Action::SetEntry, pair_raw(key, value)).0,
            start,
            segs.push(Interned(key)),
        ) == Ok::<ValueView, Error>(crate::data::borrow_spec(own_spec(value))),
{
    let after = action_spec(t, node as int, Action::SetEntry, pair_raw(key, value)).0;
    lemma_set_binds(t, node as int, key, value);
    crate::resolve::lemma_walk_last(after, start, segs, key);
}

/// Path equivalence: while the current node is the root, storing a value
/// under a name at the root succeeds, and both the absolute and the relative
/// path of that name then lead to the value, as long as the root itself
/// outlives the value that was replaced.
pub proof fn lemma_insert_then_get(t: Table, root: int, key: u64, value: ValueView)
    requires
        table_wf(t),
        alive(t, root),
        root <= usize::MAX,
        t[root].unwrap().map,
        key != 0,
        value_wf(value),
        !(value is Error),
        insert_ok(t, root, root, seq![Interned(0), Interned(key)], value),
        alive(insert_spec(t, root, root, seq![Interned(0), Interned(key)], value).0, root),
    ensures
        insert_spec(t, root, root, seq![Interned(key)], value) == insert_spec(
            t,
            root,
            root,
            seq![Interned(0), Interned(key)],
            value,
        ),
        insert_spec(t, root, root, seq![Interned(key)], value).1 == Ok::<(), Error>(()),
        resolve_spec(
            insert_spec(t, root, root, seq![Interned(key)], value).0,
            root,
            root,
            seq![Interned(0), Interned(key)],
        ) == Ok::<ValueView, Error>(crate::data::borrow_spec(own_spec(value))),
        resolve_spec(
            insert_spec(t, root, root, seq![Interned(key)], value).0,
            root,
            root,
            seq![Interned(key)],
        ) == Ok::<ValueView, Error>(crate::data::borrow_spec(own_spec(value))),
{
    let relative = seq![Interned(key)];
    let absolute = seq![Interned(0), Interned(key)];
    assert(absolute =~= seq![Interned(0)] + relative);
    crate::resolve::lemma_absolute_or_relative(t, root, relative);
    assert(relative.drop_last() =~= Seq::<Interned>::empty());
    assert(target_spec(t, root, root, relative) == Ok::<(usize, u64), Error>(
        (root as usize, key),
    ));
    crate::data::lemma_flat_round_trip(ValueView::Void);
    let after = insert_spec(t, root, root, relative, value).0;
    let none = Seq::<Interned>::empty();
    assert(walk_spec(after, root, none) == Ok::<ValueView, Error>(
        ValueView::Node { owned: false, id: root as usize },
    ));
    lemma_set_then_walk(t, root, none, root as usize, key, value);
    assert(none.push(Interned(key)) =~= relative);
    assert(absolute.skip(1) =~= relative);
}

} // verus!
