//! Path resolution as a mathematical function: which value a path of
//! interned segments leads to, from the root or from the current node.

use crate::data::{borrow_spec, ValueView};
use crate::error::Error;
use crate::intern::Interned;
use crate::map::lookup;
use crate::table::{alive, release_all, NodeState, Table};
use vstd::prelude::*;

verus! {

/// The value that live node `node` binds `key` to: `ActionNotSupported`
/// from a node that binds nothing, `NoSuchEntry` where the key is not bound.
pub open spec fn entry_spec(n: NodeState, key: u64) -> Result<ValueView, Error> {
    if !n.map {
        Err(Error::ActionNotSupported)
    } else {
        match lookup(n.keys, n.values, key) {
            Some(v) => Ok(v),
            None => Err(Error::NoSuchEntry),
        }
    }
}

/// Whether every segment is empty.
pub open spec fn all_empty(segs: Seq<Interned>) -> bool {
    forall|i: int| 0 <= i < segs.len() ==> (#[trigger] segs[i]).0 == 0
}

/// The value that the segments lead to from `node`, as a borrower sees it.
/// No segments lead to the node itself, and so do segments that are all
/// empty, once the node is seen to be alive: empty segments at the end of a
/// path name the node rather than a value under it. Each other segment is
/// looked up in the node reached so far, and all but the last must be bound
/// to a live node: `ExpectedNode` where one is not.
pub open spec fn walk_spec(t: Table, node: int, segs: Seq<Interned>) -> Result<ValueView, Error>
    decreases segs.len(),
{
    if segs.len() == 0 {
        Ok(ValueView::Node { owned: false, id: node as usize })
    } else if !alive(t, node) {
        Err(Error::ExpectedNode)
    } else if all_empty(segs) {
        Ok(ValueView::Node { owned: false, id: node as usize })
    } else {
        match entry_spec(t[node].unwrap(), segs[0].0) {
            Err(e) => Err(e),
            Ok(v) => {
                if segs.len() == 1 {
                    Ok(borrow_spec(v))
                } else {
                    match v {
                        ValueView::Node { owned, id } => walk_spec(t, id as int, segs.skip(1)),
                        _ => Err(Error::ExpectedNode),
                    }
                }
            },
        }
    }
}

/// The value that a path leads to. A path whose first segment is empty
/// starts at the root, any other at the current node.
pub open spec fn resolve_spec(t: Table, root: int, current: int, path: Seq<Interned>) -> Result<
    ValueView,
    Error,
> {
    if path.len() > 0 && path[0].0 == 0 {
        walk_spec(t, root, path.skip(1))
    } else {
        walk_spec(t, current, path)
    }
}

/// The node in which an insertion at `path` stores, and the key it stores
/// under: the last segment is the key, and the segments before it must lead
/// to a node. `PathEmpty` where there is no last segment or it is empty.
pub open spec fn target_spec(t: Table, root: int, current: int, path: Seq<Interned>) -> Result<
    (usize, u64),
    Error,
> {
    if path.len() == 0 || path.last().0 == 0 {
        Err(Error::PathEmpty)
    } else {
        match resolve_spec(t, root, current, path.drop_last()) {
            Err(e) => Err(e),
            Ok(ValueView::Node { owned, id }) => Ok((id, path.last().0)),
            Ok(_) => Err(Error::ExpectedNode),
        }
    }
}

/// Path equivalence: while the current node is the root, a path leads to the
/// same value with and without the empty first segment that makes it absolute.
pub proof fn lemma_absolute_or_relative(t: Table, root: int, path: Seq<Interned>)
    requires
        path.len() > 0,
        path[0].0 != 0,
    ensures
        resolve_spec(t, root, root, path) == resolve_spec(t, root, root, seq![Interned(0)] + path),
        target_spec(t, root, root, path) == target_spec(t, root, root, seq![Interned(0)] + path),
{
    let absolute = seq![Interned(0)] + path;
    assert(absolute.skip(1) =~= path);
    assert(absolute.last() == path.last());
    let prefix = path.drop_last();
    assert(absolute.drop_last() =~= seq![Interned(0)] + prefix);
    assert(absolute.drop_last().skip(1) =~= prefix);
    if prefix.len() > 0 {
        assert(prefix[0] == path[0]);
    }
}

/// What the last step of a walk does with the value that the steps before
/// it led to: the value must be a live node, and the last segment is looked
/// up in it.
pub open spec fn last_step(t: Table, before: Result<ValueView, Error>, key: u64) -> Result<
    ValueView,
    Error,
> {
    match before {
        Err(e) => Err(e),
        Ok(ValueView::Node { owned, id }) => {
            if !alive(t, id as int) {
                Err(Error::ExpectedNode)
            } else {
                match entry_spec(t[id as int].unwrap(), key) {
                    Err(e) => Err(e),
                    Ok(v) => Ok(borrow_spec(v)),
                }
            }
        },
        Ok(_) => Err(Error::ExpectedNode),
    }
}

/// A path is walked segment by segment: the walk of a path that ends in a
/// name is the walk of the segments before the name, followed by the lookup
/// of the name in the node they lead to. This holds where no segment before
/// the name is empty.
pub proof fn lemma_walk_last(t: Table, start: int, segs: Seq<Interned>, key: u64)
    requires
        0 <= start <= usize::MAX,
        key != 0,
        forall|i: int| 0 <= i < segs.len() ==> (#[trigger] segs[i]).0 != 0,
    ensures
        walk_spec(t, start, segs.push(Interned(key))) == last_step(
            t,
            walk_spec(t, start, segs),
            key,
        ),
    decreases segs.len(),
{
    let full = segs.push(Interned(key));
    assert(full[full.len() - 1].0 != 0);
    if segs.len() == 0 {
        assert(full[0] == Interned(key));
    } else {
        assert(full[0] == segs[0]);
        assert(segs[0].0 != 0);
        assert(full.skip(1) =~= segs.skip(1).push(Interned(key)));
        if alive(t, start) {
            match entry_spec(t[start].unwrap(), segs[0].0) {
                Err(e) => {},
                Ok(v) => {
                    match v {
                        ValueView::Node { owned, id } => {
                            let rest = segs.skip(1);
                            assert forall|i: int| 0 <= i < rest.len() implies (
                            #[trigger] rest[i]).0 != 0 by {
                                assert(rest[i] == segs[i + 1]);
                            }
                            lemma_walk_last(t, id as int, rest, key);
                            if rest.len() == 0 {
                                assert(segs.len() == 1);
                            }
                        },
                        _ => {},
                    }
                },
            }
        }
    }
}

/// Giving up units changes no entry of a node that stays alive.
pub proof fn lemma_release_entries(t: Table, pending: Seq<usize>, id: int)
    requires
        alive(release_all(t, pending), id),
    ensures
        alive(t, id),
        release_all(t, pending)[id].unwrap().keys == t[id].unwrap().keys,
        release_all(t, pending)[id].unwrap().values == t[id].unwrap().values,
        release_all(t, pending)[id].unwrap().map == t[id].unwrap().map,
        release_all(t, pending)[id].unwrap().place == t[id].unwrap().place,
    decreases crate::table::live_count(t), pending.len(),
{
    if pending.len() > 0 {
        let p = pending.last() as int;
        let rest = pending.drop_last();
        if !alive(t, p) {
            lemma_release_entries(t, rest, id);
        } else if t[p].unwrap().strong > 1 {
            let n = NodeState { strong: (t[p].unwrap().strong - 1) as usize, ..t[p].unwrap() };
            crate::table::lemma_live_count_update(t, p, n);
            lemma_release_entries(t.update(p, Some(n)), rest, id);
        } else {
            crate::table::lemma_live_count_vacate(t, p);
            lemma_release_entries(
                t.update(p, None),
                rest + crate::table::children(t[p].unwrap().values),
                id,
            );
        }
    }
}

} // verus!
