//! Handles to nodes. A node lives in a slot of its context's table, and a
//! handle names that slot. An owning handle stands for one unit of the node's
//! reference count; a borrowed one stands for none.

use vstd::prelude::*;

verus! {

/// An owning handle: the holder of one unit of the node's count. It is given
/// up through the context, which lowers the count again.
#[derive(Debug, PartialEq, Eq)]
pub struct NodeHandle {
    id: usize,
}

/// A borrowed handle: names the node without owning a unit of its count.
#[derive(Clone, Copy, Debug, PartialEq, Eq, Structural)]
pub struct NodeHandleRef {
    id: usize,
}

impl NodeHandle {
    /// The slot this handle names.
    pub closed spec fn id(&self) -> usize {
        self.id
    }

    /// Takes over a unit of count that the caller holds for slot `raw`.
    pub fn from_raw(raw: usize) -> (handle: Self)
        ensures
            handle.id() == raw,
    {
        NodeHandle { id: raw }
    }

    /// The slot this handle names.
    pub fn raw(&self) -> (raw: usize)
        ensures
            raw == self.id(),
    {
        self.id
    }

    /// The slot this handle names.
    pub fn as_raw(&self) -> (raw: usize)
        ensures
            raw == self.id(),
    {
        self.id
    }

    /// Gives the handle up for the slot it names; the unit of count goes to
    /// whoever holds the number.
    pub fn into_raw(this: Self) -> (raw: usize)
        ensures
            raw == this.id(),
    {
        this.id
    }

    /// A borrowed handle to the same node.
    pub fn handle_ref(&self) -> (borrowed: NodeHandleRef)
        ensures
            borrowed.id() == self.id(),
    {
        NodeHandleRef { id: self.id }
    }
}

impl NodeHandleRef {
    /// The slot this handle names.
    pub closed spec fn id(&self) -> usize {
        self.id
    }

    /// A borrowed handle to slot `raw`.
    pub fn from_raw(raw: usize) -> (handle: Self)
        ensures
            handle.id() == raw,
    {
        NodeHandleRef { id: raw }
    }

    /// The slot this handle names.
    pub fn raw(&self) -> (raw: usize)
        ensures
            raw == self.id(),
    {
        self.id
    }
}

} // verus!
