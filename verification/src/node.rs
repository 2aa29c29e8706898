//! The nodes that a context can hold: the sorted-array node, which binds
//! interned codes to values, and the file-system node, which is reserved.

use crate::data::{value_wf, Value, ValueView};
use crate::error::{Error, Result};
use crate::intern::Interned;
use crate::map::{lookup, stored_keys, stored_values, strictly_ascending, InternedMap};
use crate::table::{children, node_wf, NodeState};
use vstd::prelude::*;

verus! {

/// What each value of a sequence holds.
pub open spec fn value_views(s: Seq<Value<'static>>) -> Seq<ValueView> {
    Seq::new(s.len(), |i: int| s[i]@)
}

/// A node that keeps its children in two sorted parallel arrays.
pub struct MapNode {
    map: InternedMap<Value<'static>>,
}

impl MapNode {
    /// The keys, in ascending order.
    pub closed spec fn keys(&self) -> Seq<u64> {
        self.map.key_seq()
    }

    /// What the values hold, each at the position of its key.
    pub closed spec fn values(&self) -> Seq<ValueView> {
        value_views(self.map.value_seq())
    }

    /// The arrays match, the keys ascend strictly, and every value has a flat form.
    pub open spec fn wf(&self) -> bool {
        &&& self.keys().len() == self.values().len()
        &&& strictly_ascending(self.keys())
        &&& forall|i: int| 0 <= i < self.values().len() ==> value_wf(#[trigger] self.values()[i])
    }

    /// A node without entries.
    pub fn new() -> (node: Self)
        ensures
            node.wf(),
            node.keys().len() == 0,
            node.values().len() == 0,
    {
        MapNode { map: InternedMap::new() }
    }

    /// The number of entries.
    pub fn len(&self) -> (n: usize)
        ensures
            n == self.keys().len(),
    {
        self.map.keys().len()
    }

    /// The value bound to `ident`, borrowed.
    pub fn peek(&self, ident: Interned) -> (value: Option<&Value<'static>>)
        requires
            self.wf(),
        ensures
            match value {
                Some(v) => lookup(self.keys(), self.values(), ident.0) == Some(v@) && v.wf(),
                None => lookup(self.keys(), self.values(), ident.0).is_none(),
            },
    {
        let found = self.map.get(ident);
        proof {
            crate::map::lemma_lower_index_parts(self.keys(), ident.0);
        }
        found
    }

    /// A copy of the value bound to `ident`, or `NoSuchEntry`. The copy of an
    /// owning handle is owed a unit of its node's count.
    pub fn get(&self, ident: Interned) -> (value: Result<Value<'static>>)
        requires
            self.wf(),
        ensures
            match lookup(self.keys(), self.values(), ident.0) {
                Some(v) => value.is_ok() && value.unwrap()@ == v && value.unwrap().wf(),
                None => value == Err::<Value<'static>, Error>(Error::NoSuchEntry),
            },
    {
        match self.peek(ident) {
            Some(v) => Ok(v.duplicate()),
            None => Err(Error::NoSuchEntry),
        }
    }

    /// Binds `ident` to `value` and hands back the value it was bound to
    /// before, if any.
    pub fn replace(&mut self, ident: Interned, value: Value<'static>) -> (previous: Option<
        Value<'static>,
    >)
        requires
            old(self).wf(),
            value.wf(),
        ensures
            final(self).wf(),
            final(self).keys() == stored_keys(old(self).keys(), ident.0),
            final(self).values() == stored_values(
                old(self).keys(),
                old(self).values(),
                ident.0,
                value@,
            ),
            match lookup(old(self).keys(), old(self).values(), ident.0) {
                Some(v) => previous.is_some() && previous.unwrap()@ == v,
                None => previous.is_none(),
            },
    {
        proof {
            crate::map::lemma_lower_index_parts(self.keys(), ident.0);
            crate::map::lemma_store(self.keys(), self.values(), ident.0, value@);
        }
        let ghost before = self.values();
        let previous = self.map.insert(ident, value);
        proof {
            assert(self.values() =~= stored_values(old(self).keys(), before, ident.0, value@));
        }
        previous
    }

    /// Binds `ident` to `value`. The value it was bound to before is dropped
    /// as it is: a unit of count that it owned is not given up.
    pub fn set(&mut self, ident: Interned, value: Value<'static>) -> (done: Result<()>)
        requires
            old(self).wf(),
            value.wf(),
        ensures
            done.is_ok(),
            final(self).wf(),
            final(self).keys() == stored_keys(old(self).keys(), ident.0),
            final(self).values() == stored_values(
                old(self).keys(),
                old(self).values(),
                ident.0,
                value@,
            ),
    {
        let _ = self.replace(ident, value);
        Ok(())
    }

    /// Calling a node is reserved: `ActionNotSupported`.
    pub fn call(&self, args: &[Value]) -> (value: Result<Value<'static>>)
        ensures
            value == Err::<Value<'static>, Error>(Error::ActionNotSupported),
    {
        Err(Error::ActionNotSupported)
    }

    /// The nodes that the values own a unit of, in the order of the values.
    pub fn owned_children(&self) -> (ids: Vec<usize>)
        ensures
            ids@ == children(self.values()),
    {
        let values = self.map.values();
        let mut ids: Vec<usize> = Vec::new();
        let mut i: usize = 0;
        proof {
            assert(self.values().take(0) =~= Seq::<ValueView>::empty());
        }
        while i < values.len()
            invariant
                i <= values.len(),
                values@ == self.map.value_seq(),
                ids@ == children(self.values().take(i as int)),
            decreases values.len() - i,
        {
            proof {
                let next = self.values().take(i + 1);
                assert(next.drop_last() =~= self.values().take(i as int));
                assert(next.last() == values@[i as int]@);
            }
            match &values[i] {
                Value::Node(n) => {
                    ids.push(n.raw());
                },
                _ => {},
            }
            i += 1;
        }
        proof {
            assert(self.values().take(values@.len() as int) =~= self.values());
        }
        ids
    }
}

/// A node that stands for a place in the file system. Every operation on it
/// is reserved.
pub struct FsNode {
    path: String,
}

impl FsNode {
    /// A node for the given place.
    pub fn new(path: String) -> (node: Self)
        ensures
            node.path_spec() == path@,
    {
        FsNode { path }
    }

    /// The place this node stands for.
    pub closed spec fn path_spec(&self) -> Seq<char> {
        self.path@
    }

    /// The place this node stands for.
    pub fn path(&self) -> (path: &String)
        ensures
            path@ == self.path_spec(),
    {
        &self.path
    }

    /// Reserved: `ActionNotSupported`.
    pub fn call(&self, args: &[Value]) -> (value: Result<Value<'static>>)
        ensures
            value == Err::<Value<'static>, Error>(Error::ActionNotSupported),
    {
        Err(Error::ActionNotSupported)
    }

    /// Reserved: `ActionNotSupported`.
    pub fn get(&self, ident: Interned) -> (value: Result<Value<'static>>)
        ensures
            value == Err::<Value<'static>, Error>(Error::ActionNotSupported),
    {
        Err(Error::ActionNotSupported)
    }

    /// Reserved: `ActionNotSupported`.
    pub fn set(&self, ident: Interned, value: Value<'static>) -> (done: Result<()>)
        ensures
            done == Err::<(), Error>(Error::ActionNotSupported),
    {
        Err(Error::ActionNotSupported)
    }
}

/// A node of one of the kinds that a context can hold.
pub enum NodeKind {
    Sorted(MapNode),
    Fs(FsNode),
}

impl NodeKind {
    /// What the node holds, beside a count of `strong`.
    pub open spec fn state(&self, strong: usize) -> NodeState {
        match self {
            NodeKind::Sorted(m) => NodeState {
                strong,
                map: true,
                keys: m.keys(),
                values: m.values(),
                place: Seq::empty(),
            },
            NodeKind::Fs(f) => NodeState {
                strong,
                map: false,
                keys: Seq::empty(),
                values: Seq::empty(),
                place: f.path_spec(),
            },
        }
    }

    /// Whether the node is well-formed.
    pub open spec fn wf(&self) -> bool {
        match self {
            NodeKind::Sorted(m) => m.wf(),
            NodeKind::Fs(_) => true,
        }
    }
}

/// A node's record in the table: the node and its strong count.
pub struct NodeData {
    pub node: NodeKind,
    pub strong: usize,
}

impl NodeData {
    /// What the record holds.
    pub open spec fn state(&self) -> NodeState {
        self.node.state(self.strong)
    }

    /// Whether the record is well-formed: the node is, and the count is not zero.
    pub open spec fn wf(&self) -> bool {
        self.node.wf() && self.strong >= 1
    }

    /// The record of a new node: its count starts at one.
    pub fn new(node: NodeKind) -> (data: Self)
        ensures
            data.node == node,
            data.strong == 1,
    {
        NodeData { node, strong: 1 }
    }

    /// A record is well-formed exactly if what it holds is.
    pub proof fn lemma_wf(&self)
        ensures
            self.wf() == node_wf(self.state()),
    {
    }
}

} // verus!
