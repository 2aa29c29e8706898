//! The node table as a mathematical object: what each slot holds, and what
//! raising and lowering a reference count does to it.

use crate::data::{value_wf, ValueView};
use crate::map::strictly_ascending;
use vstd::prelude::*;

verus! {

/// What a live node holds: its reference count and, for a sorted-array node,
/// its keys and values. A node of another kind has no entries; a file-system
/// node has the place it stands for.
pub struct NodeState {
    pub strong: usize,
    pub map: bool,
    pub keys: Seq<u64>,
    pub values: Seq<ValueView>,
    pub place: Seq<char>,
}

/// The table: one slot per node ever made, `None` once the node is destroyed.
pub type Table = Seq<Option<NodeState>>;

/// The largest count from which a count may still be raised.
pub open spec fn count_limit() -> int {
    (usize::MAX / 2) as int
}

/// Whether slot `id` holds a live node.
pub open spec fn alive(t: Table, id: int) -> bool {
    0 <= id < t.len() && t[id].is_some()
}

/// A well-formed node: a count of at least one, parallel arrays, keys in
/// strictly ascending order, every value with a flat form.
pub open spec fn node_wf(n: NodeState) -> bool {
    &&& n.strong >= 1
    &&& n.keys.len() == n.values.len()
    &&& strictly_ascending(n.keys)
    &&& forall|i: int| 0 <= i < n.values.len() ==> value_wf(#[trigger] n.values[i])
    &&& !n.map ==> n.keys.len() == 0
}

/// A well-formed table: every live node is well-formed.
pub open spec fn table_wf(t: Table) -> bool {
    forall|id: int| alive(t, id) ==> node_wf(#[trigger] t[id].unwrap())
}

/// The number of live nodes.
pub open spec fn live_count(t: Table) -> nat
    decreases t.len(),
{
    if t.len() == 0 {
        0
    } else {
        live_count(t.drop_last()) + (if t.last().is_some() {
            1nat
        } else {
            0nat
        })
    }
}

/// Destroying a live node leaves one live node fewer.
pub proof fn lemma_live_count_vacate(t: Table, id: int)
    requires
        alive(t, id),
    ensures
        live_count(t.update(id, None)) + 1 == live_count(t),
    decreases t.len(),
{
    let u = t.update(id, None);
    if id == t.len() - 1 {
        assert(u.drop_last() =~= t.drop_last());
    } else {
        assert(u.drop_last() =~= t.drop_last().update(id, None));
        lemma_live_count_vacate(t.drop_last(), id);
    }
}

/// Changing what a live node holds leaves the number of live nodes as it is.
pub proof fn lemma_live_count_update(t: Table, id: int, n: NodeState)
    requires
        alive(t, id),
    ensures
        live_count(t.update(id, Some(n))) == live_count(t),
    decreases t.len(),
{
    let u = t.update(id, Some(n));
    if id == t.len() - 1 {
        assert(u.drop_last() =~= t.drop_last());
    } else {
        assert(u.drop_last() =~= t.drop_last().update(id, Some(n)));
        lemma_live_count_update(t.drop_last(), id, n);
    }
}

/// The node that an owning handle in a value names, if the value is one.
pub open spec fn owned_id(v: ValueView) -> Option<usize> {
    match v {
        ValueView::Node { owned: true, id } => Some(id),
        _ => None,
    }
}

/// The nodes that the values of a node own a unit of, in the order of the values.
pub open spec fn children(values: Seq<ValueView>) -> Seq<usize>
    decreases values.len(),
{
    if values.len() == 0 {
        Seq::empty()
    } else {
        match owned_id(values.last()) {
            Some(id) => children(values.drop_last()).push(id),
            None => children(values.drop_last()),
        }
    }
}

/// The table with the count of node `id` set to `strong`.
pub open spec fn with_count(t: Table, id: int, strong: usize) -> Table {
    t.update(id, Some(NodeState { strong, ..t[id].unwrap() }))
}

/// The table after one unit is added to the count of node `id`. A slot
/// without a live node stays as it is.
pub open spec fn retain_spec(t: Table, id: int) -> Table {
    if alive(t, id) {
        with_count(t, id, (t[id].unwrap().strong + 1) as usize)
    } else {
        t
    }
}

/// The table after the units of count named in `pending` are given up, the
/// last one first. Giving up a unit lowers the count; giving up the last unit
/// of a node destroys it, and the units that its values owned are given up in
/// turn. A slot without a live node stays as it is.
pub open spec fn release_all(t: Table, pending: Seq<usize>) -> Table
    decreases live_count(t), pending.len(),
{
    if pending.len() == 0 {
        t
    } else {
        let id = pending.last() as int;
        let rest = pending.drop_last();
        if !alive(t, id) {
            release_all(t, rest)
        } else if t[id].unwrap().strong > 1 {
            proof {
                lemma_live_count_update(
                    t,
                    id,
                    NodeState { strong: (t[id].unwrap().strong - 1) as usize, ..t[id].unwrap() },
                );
            }
            release_all(with_count(t, id, (t[id].unwrap().strong - 1) as usize), rest)
        } else {
            proof {
                lemma_live_count_vacate(t, id);
            }
            release_all(t.update(id, None), rest + children(t[id].unwrap().values))
        }
    }
}

/// The table after one unit of the count of node `id` is given up.
pub open spec fn release_spec(t: Table, id: int) -> Table {
    release_all(t, seq![id as usize])
}

/// The table after `n` units are added to the count of node `id`.
pub open spec fn retain_n(t: Table, id: int, n: nat) -> Table
    decreases n,
{
    if n == 0 {
        t
    } else {
        retain_spec(retain_n(t, id, (n - 1) as nat), id)
    }
}

/// The table after `n` units of the count of node `id` are given up, one
/// after the other.
pub open spec fn release_n(t: Table, id: int, n: nat) -> Table
    decreases n,
{
    if n == 0 {
        t
    } else {
        release_spec(release_n(t, id, (n - 1) as nat), id)
    }
}

/// Giving up a unit of a slot without a live node changes nothing.
pub proof fn lemma_release_absent(t: Table, id: int)
    requires
        !alive(t, id),
        0 <= id <= usize::MAX,
    ensures
        release_spec(t, id) == t,
{
    let pending = seq![id as usize];
    assert(pending.last() == id as usize);
    assert(pending.drop_last() =~= Seq::<usize>::empty());
    assert(release_all(t, Seq::<usize>::empty()) == t);
}

/// Giving up a unit of a node whose count is above one lowers the count by
/// one and changes nothing else.
pub proof fn lemma_release_shared(t: Table, id: int)
    requires
        alive(t, id),
        t[id].unwrap().strong > 1,
        id <= usize::MAX,
    ensures
        release_spec(t, id) == with_count(t, id, (t[id].unwrap().strong - 1) as usize),
{
    let pending = seq![id as usize];
    assert(pending.last() == id as usize);
    assert(pending.drop_last() =~= Seq::<usize>::empty());
    let u = with_count(t, id, (t[id].unwrap().strong - 1) as usize);
    assert(release_all(u, Seq::<usize>::empty()) == u);
}

/// A unit that is added and given up again leaves the table as it was.
pub proof fn lemma_retain_release(t: Table, id: int)
    requires
        alive(t, id),
        1 <= t[id].unwrap().strong < usize::MAX,
        id <= usize::MAX,
    ensures
        release_spec(retain_spec(t, id), id) == t,
{
    let u = retain_spec(t, id);
    lemma_release_shared(u, id);
    assert(with_count(u, id, (u[id].unwrap().strong - 1) as usize) =~= t);
}

/// Giving up the last unit of a node that owns no other node destroys that
/// node and changes nothing else.
pub proof fn lemma_release_last(t: Table, id: int)
    requires
        alive(t, id),
        t[id].unwrap().strong <= 1,
        children(t[id].unwrap().values).len() == 0,
        id <= usize::MAX,
    ensures
        release_spec(t, id) == t.update(id, None),
{
    let pending = seq![id as usize];
    assert(pending.last() == id as usize);
    assert(pending.drop_last() =~= Seq::<usize>::empty());
    assert(pending.drop_last() + children(t[id].unwrap().values) =~= Seq::<usize>::empty());
    let u = t.update(id, None);
    assert(release_all(u, Seq::<usize>::empty()) == u);
}

/// Adding `n` units to a live node adds `n` to its count and changes nothing else.
pub proof fn lemma_retain_n(t: Table, id: int, n: nat)
    requires
        alive(t, id),
        t[id].unwrap().strong + n <= usize::MAX,
    ensures
        retain_n(t, id, n) == with_count(t, id, (t[id].unwrap().strong + n) as usize),
    decreases n,
{
    if n == 0 {
        assert(with_count(t, id, t[id].unwrap().strong) =~= t);
    } else {
        lemma_retain_n(t, id, (n - 1) as nat);
        let u = retain_n(t, id, (n - 1) as nat);
        assert(retain_spec(u, id) =~= with_count(t, id, (t[id].unwrap().strong + n) as usize));
    }
}

/// Giving up `k` units of a live node whose count is above `k` lowers the
/// count by `k` and changes nothing else: the node lives on.
pub proof fn lemma_release_n(t: Table, id: int, k: nat)
    requires
        alive(t, id),
        k < t[id].unwrap().strong,
        id <= usize::MAX,
    ensures
        release_n(t, id, k) == with_count(t, id, (t[id].unwrap().strong - k) as usize),
    decreases k,
{
    if k == 0 {
        assert(with_count(t, id, t[id].unwrap().strong) =~= t);
    } else {
        lemma_release_n(t, id, (k - 1) as nat);
        let u = release_n(t, id, (k - 1) as nat);
        lemma_release_shared(u, id);
        assert(with_count(u, id, (u[id].unwrap().strong - 1) as usize) =~= with_count(
            t,
            id,
            (t[id].unwrap().strong - k) as usize,
        ));
    }
}

/// Reference counting: a node whose one handle is cloned `n` times is alive,
/// with a count of `1 + n - k`, after any `k <= n` of the handles are
/// dropped, and is destroyed by the drop after those, not before and not
/// again: a destroyed node stays destroyed.
pub proof fn lemma_clone_drop(t: Table, id: int, n: nat, k: nat)
    requires
        alive(t, id),
        t[id].unwrap().strong == 1,
        1 + n <= usize::MAX,
        id <= usize::MAX,
        k <= n,
    ensures
        alive(release_n(retain_n(t, id, n), id, k), id),
        release_n(retain_n(t, id, n), id, k)[id].unwrap().strong == 1 + n - k,
        !alive(release_n(retain_n(t, id, n), id, n + 1), id),
        forall|m: nat| m > n ==> !alive(#[trigger] release_n(retain_n(t, id, n), id, m), id),
{
    lemma_retain_n(t, id, n);
    let u = retain_n(t, id, n);
    lemma_release_n(u, id, k);
    assert forall|m: nat| m > n implies !alive(#[trigger] release_n(u, id, m), id) by {
        lemma_release_past(u, id, m);
    }
}

/// Once the count of units is used up the node is gone, however many more
/// units are given up.
pub proof fn lemma_release_past(t: Table, id: int, m: nat)
    requires
        alive(t, id),
        id <= usize::MAX,
        m >= t[id].unwrap().strong,
        t[id].unwrap().strong >= 1,
    ensures
        !alive(release_n(t, id, m), id),
    decreases m,
{
    let c = t[id].unwrap().strong as nat;
    if m == c {
        lemma_release_n(t, id, (c - 1) as nat);
        let u = release_n(t, id, (c - 1) as nat);
        assert(u[id].unwrap().strong == 1);
        lemma_release_gone(u, seq![id as usize], id);
    } else {
        lemma_release_past(t, id, (m - 1) as nat);
        let u = release_n(t, id, (m - 1) as nat);
        lemma_release_dead(u, seq![id as usize], id);
    }
}

/// Giving up units never brings a node back.
pub proof fn lemma_release_dead(t: Table, pending: Seq<usize>, id: int)
    requires
        !alive(t, id),
    ensures
        !alive(release_all(t, pending), id),
        release_all(t, pending).len() == t.len(),
    decreases live_count(t), pending.len(),
{
    if pending.len() > 0 {
        let p = pending.last() as int;
        let rest = pending.drop_last();
        if !alive(t, p) {
            lemma_release_dead(t, rest, id);
        } else if t[p].unwrap().strong > 1 {
            let n = NodeState { strong: (t[p].unwrap().strong - 1) as usize, ..t[p].unwrap() };
            lemma_live_count_update(t, p, n);
            lemma_release_dead(t.update(p, Some(n)), rest, id);
        } else {
            lemma_live_count_vacate(t, p);
            lemma_release_dead(t.update(p, None), rest + children(t[p].unwrap().values), id);
        }
    }
}

/// Giving up the last unit of a node destroys it.
pub proof fn lemma_release_gone(t: Table, pending: Seq<usize>, id: int)
    requires
        alive(t, id),
        t[id].unwrap().strong <= 1,
        pending.len() > 0,
        pending.last() == id,
    ensures
        !alive(release_all(t, pending), id),
{
    lemma_live_count_vacate(t, id);
    lemma_release_dead(
        t.update(id, None),
        pending.drop_last() + children(t[id].unwrap().values),
        id,
    );
}

/// Giving up units keeps the table's length and its well-formedness, and
/// never adds a live node.
pub proof fn lemma_release_wf(t: Table, pending: Seq<usize>)
    requires
        table_wf(t),
    ensures
        table_wf(release_all(t, pending)),
        release_all(t, pending).len() == t.len(),
        live_count(release_all(t, pending)) <= live_count(t),
        forall|id: int| alive(release_all(t, pending), id) ==> alive(t, id),
    decreases live_count(t), pending.len(),
{
    if pending.len() > 0 {
        let p = pending.last() as int;
        let rest = pending.drop_last();
        if !alive(t, p) {
            lemma_release_wf(t, rest);
        } else if t[p].unwrap().strong > 1 {
            let n = NodeState { strong: (t[p].unwrap().strong - 1) as usize, ..t[p].unwrap() };
            lemma_live_count_update(t, p, n);
            let u = t.update(p, Some(n));
            assert(table_wf(u)) by {
                assert forall|id: int| alive(u, id) implies node_wf(#[trigger] u[id].unwrap()) by {
                    if id != p {
                        assert(alive(t, id));
                    } else {
                        assert(node_wf(t[p].unwrap()));
                    }
                }
            }
            lemma_release_wf(u, rest);
            assert forall|id: int| alive(release_all(t, pending), id) implies alive(t, id) by {
                assert(alive(u, id));
            }
        } else {
            lemma_live_count_vacate(t, p);
            let u = t.update(p, None);
            assert(table_wf(u)) by {
                assert forall|id: int| alive(u, id) implies node_wf(#[trigger] u[id].unwrap()) by {
                    assert(alive(t, id));
                }
            }
            lemma_release_wf(u, rest + children(t[p].unwrap().values));
            assert forall|id: int| alive(release_all(t, pending), id) implies alive(t, id) by {
                assert(alive(u, id));
            }
        }
    }
}

} // verus!
