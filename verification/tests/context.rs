use vnodes::context::Vnodes;
use vnodes::data::{Action, RawValue, Value};
use vnodes::error::Error;
use vnodes::handle::{NodeHandle, NodeHandleRef};
use vnodes::intern::Interned;
use vnodes::node::{FsNode, MapNode};

#[test]
fn insert_then_get_absolute_and_relative() {
    let mut nodes = Vnodes::new();
    assert_eq!(nodes.insert("/foo", -5i64), Ok(()));
    assert_eq!(nodes.get::<i64>("/foo"), Ok(-5));
    assert_eq!(nodes.get::<i64>("foo"), Ok(-5));
}

#[test]
fn insert_under_a_node() {
    let mut nodes = Vnodes::new();
    let bar = MapNode::new_node(&mut nodes);
    assert_eq!(nodes.insert("/bar", bar), Ok(()));
    assert_eq!(nodes.insert("bar/abc", 1u64), Ok(()));
    assert_eq!(nodes.get::<u64>("/bar/abc"), Ok(1));
}

#[test]
fn a_key_that_is_not_bound() {
    let mut nodes = Vnodes::new();
    let bar = MapNode::new_node(&mut nodes);
    assert_eq!(nodes.insert("/bar", bar), Ok(()));
    assert_eq!(nodes.insert("bar/abc", 1u64), Ok(()));
    assert_eq!(nodes.get::<u64>("/bar/5"), Err(Error::NoSuchEntry));
    assert_eq!(nodes.get::<u64>("/missing"), Err(Error::NoSuchEntry));
}

#[test]
fn a_small_tree() {
    let mut nodes = Vnodes::new();
    assert_eq!(nodes.insert("/foo", -5i64), Ok(()));
    let bar = MapNode::new_node(&mut nodes);
    assert_eq!(nodes.insert("/bar", bar), Ok(()));
    assert_eq!(nodes.insert("bar/abc", 1u64), Ok(()));
    assert_eq!(nodes.insert("/bar/5", 55u64), Ok(()));
    assert_eq!(nodes.get("/foo"), Ok(-5i64));
    assert_eq!(nodes.get("/bar/5"), Ok(55u64));
}

#[test]
fn errors_of_insert_and_walk() {
    let mut nodes = Vnodes::new();
    assert_eq!(nodes.insert("", 1u64), Err(Error::PathEmpty));
    assert_eq!(nodes.insert("/", 1u64), Err(Error::PathEmpty));
    assert_eq!(nodes.insert("foo/", 1u64), Err(Error::PathEmpty));
    assert_eq!(nodes.insert_at(&[], 1u64), Err(Error::PathEmpty));
    assert_eq!(nodes.insert("/foo", -5i64), Ok(()));
    // `foo` is bound to a number, not to a node.
    assert_eq!(nodes.get::<u64>("/foo/bar"), Err(Error::ExpectedNode));
    assert_eq!(nodes.insert("/foo/bar", 1u64), Err(Error::ExpectedNode));
    assert_eq!(nodes.get::<u64>("/foo/"), Err(Error::ExpectedNode));
    assert_eq!(nodes.get::<u64>("/nothing/bar"), Err(Error::NoSuchEntry));
    assert_eq!(nodes.insert("/nothing/bar", 1u64), Err(Error::NoSuchEntry));
    // The value is there, but it is no unsigned integer.
    assert_eq!(nodes.get::<u64>("/foo"), Err(Error::WrongType));
    // Storing a failure as a value reports the failure.
    assert_eq!(nodes.insert("/bad", Value::Error(Error::NoSuchEntry)), Err(Error::NoSuchEntry));
    assert_eq!(nodes.get::<Value>("/bad").err(), Some(Error::NoSuchEntry));
}

#[test]
fn a_path_may_name_a_node_itself() {
    let mut nodes = Vnodes::new();
    let bar = MapNode::new_node(&mut nodes);
    let bar_id = bar.raw();
    assert_eq!(nodes.insert("/bar", bar), Ok(()));
    assert_eq!(nodes.strong_count(NodeHandleRef::from_raw(bar_id)), Some(1));
    // An owning handle comes out, and the count goes up with it.
    let handle: NodeHandle = nodes.get("/bar/").unwrap();
    assert_eq!(handle.raw(), bar_id);
    assert_eq!(nodes.strong_count(handle.handle_ref()), Some(2));
    let again: NodeHandle = nodes.get("/bar").unwrap();
    assert_eq!(nodes.strong_count(again.handle_ref()), Some(3));
    again.drop(&mut nodes);
    handle.drop(&mut nodes);
    assert_eq!(nodes.strong_count(NodeHandleRef::from_raw(bar_id)), Some(1));
    // The root, by the empty path and by the lone separator.
    let root: NodeHandle = nodes.get("").unwrap();
    assert_eq!(root.raw(), nodes.root().raw());
    assert_eq!(nodes.strong_count(nodes.root()), Some(3));
    let root2: NodeHandle = nodes.get("/").unwrap();
    assert_eq!(nodes.strong_count(nodes.root()), Some(4));
    root.drop(&mut nodes);
    root2.drop(&mut nodes);
    assert_eq!(nodes.strong_count(nodes.root()), Some(2));
}

#[test]
fn relative_paths_start_at_the_current_node() {
    let mut nodes = Vnodes::new();
    let bar = MapNode::new_node(&mut nodes);
    assert_eq!(nodes.insert("/bar", bar), Ok(()));
    assert_eq!(nodes.insert("/bar/abc", 1u64), Ok(()));
    assert_eq!(nodes.insert("/abc", 2u64), Ok(()));
    let bar: NodeHandle = nodes.get("/bar").unwrap();
    nodes.set_current(bar);
    assert_eq!(nodes.current().raw(), 1);
    assert_eq!(nodes.strong_count(nodes.root()), Some(1));
    assert_eq!(nodes.strong_count(nodes.current()), Some(2));
    assert_eq!(nodes.get::<u64>("abc"), Ok(1));
    assert_eq!(nodes.get::<u64>("/abc"), Ok(2));
    assert_eq!(nodes.insert("xyz", 3u64), Ok(()));
    assert_eq!(nodes.get::<u64>("/bar/xyz"), Ok(3));
    assert_eq!(nodes.get::<u64>("/xyz"), Err(Error::NoSuchEntry));
}

#[test]
fn clone_three_times_drop_four_times() {
    let mut nodes = Vnodes::new();
    let first = MapNode::new_node(&mut nodes);
    let node = first.handle_ref();
    assert_eq!(nodes.strong_count(node), Some(1));
    let second = first.clone(&mut nodes);
    let third = first.clone(&mut nodes);
    let fourth = first.clone(&mut nodes);
    assert_eq!(nodes.strong_count(node), Some(4));
    first.drop(&mut nodes);
    assert!(nodes.is_alive(node));
    second.drop(&mut nodes);
    assert!(nodes.is_alive(node));
    third.drop(&mut nodes);
    assert_eq!(nodes.strong_count(node), Some(1));
    assert!(nodes.is_alive(node));
    fourth.drop(&mut nodes);
    assert!(!nodes.is_alive(node));
    assert_eq!(nodes.strong_count(node), None);
    // A destroyed node stays destroyed, whatever is asked of its slot.
    let mut stale = node;
    NodeHandleRef::drop(&mut stale, &mut nodes);
    NodeHandleRef::clone(&stale, &mut nodes);
    assert!(!nodes.is_alive(node));
    assert_eq!(nodes.len(), 2);
}

#[test]
fn destroying_a_node_gives_up_what_it_owned() {
    let mut nodes = Vnodes::new();
    let outer = MapNode::new_node(&mut nodes);
    let inner = MapNode::new_node(&mut nodes);
    let shared = MapNode::new_node(&mut nodes);
    let (outer_ref, inner_ref, shared_ref) =
        (outer.handle_ref(), inner.handle_ref(), shared.handle_ref());
    let keep = shared.clone(&mut nodes);
    outer.insert(&mut nodes, Interned::from("inner"), Value::Node(inner));
    inner_ref.insert(&mut nodes, Interned::from("shared"), Value::Node(shared));
    assert_eq!(nodes.strong_count(inner_ref), Some(1));
    assert_eq!(nodes.strong_count(shared_ref), Some(2));
    outer.drop(&mut nodes);
    assert!(!nodes.is_alive(outer_ref));
    assert!(!nodes.is_alive(inner_ref));
    assert_eq!(nodes.strong_count(shared_ref), Some(1));
    keep.drop(&mut nodes);
    assert!(!nodes.is_alive(shared_ref));
}

#[test]
fn replacing_a_node_gives_up_its_unit() {
    let mut nodes = Vnodes::new();
    let old = MapNode::new_node(&mut nodes);
    let old_ref = old.handle_ref();
    assert_eq!(nodes.insert("/slot", old), Ok(()));
    assert!(nodes.is_alive(old_ref));
    assert_eq!(nodes.insert("/slot", 7u64), Ok(()));
    assert!(!nodes.is_alive(old_ref));
    assert_eq!(nodes.get::<u64>("/slot"), Ok(7));
}

#[test]
fn a_value_that_cannot_be_stored_is_dropped() {
    let mut nodes = Vnodes::new();
    let node = MapNode::new_node(&mut nodes);
    let node_ref = node.handle_ref();
    assert_eq!(nodes.insert("/missing/place", node), Err(Error::NoSuchEntry));
    assert!(!nodes.is_alive(node_ref));
}

#[test]
fn dispatch_answers_flat_values() {
    let mut nodes = Vnodes::new();
    let root = nodes.root();
    let key = Interned::from("key");
    let pair = vec![RawValue::from(Value::Interned(key)), RawValue::from(Value::Signed(-9))];
    let answer = nodes.action(root, Action::SetEntry, RawValue::from(Value::ValueArray(pair)));
    assert!(matches!(Value::from_raw(answer), Value::Void));
    let answer = nodes.action(root, Action::Get, RawValue::from(Value::Interned(key)));
    assert_eq!(answer.flags.bits(), vnodes::data::INTEGER_SIGNED);
    assert!(matches!(Value::from_raw(answer), Value::Signed(-9)));
    let answer = nodes.action(root, Action::Get, RawValue::from(Value::Interned(Interned(9))));
    assert!(matches!(Value::from_raw(answer), Value::Error(Error::NoSuchEntry)));
    // An argument of the wrong shape or kind.
    let answer = nodes.action(root, Action::Get, RawValue::from(Value::Unsigned(1)));
    assert!(matches!(Value::from_raw(answer), Value::Error(Error::WrongType)));
    let answer = nodes.action(root, Action::SetEntry, RawValue::from(Value::Unsigned(1)));
    assert!(matches!(Value::from_raw(answer), Value::Error(Error::WrongType)));
    let one = vec![RawValue::from(Value::Interned(key))];
    let answer = nodes.action(root, Action::SetEntry, RawValue::from(Value::ValueArray(one)));
    assert!(matches!(Value::from_raw(answer), Value::Error(Error::InvalidArgumentTypes)));
    let none: Vec<RawValue> = vec![];
    let answer = nodes.action(root, Action::SetEntry, RawValue::from(Value::ValueArray(none)));
    assert!(matches!(Value::from_raw(answer), Value::Error(Error::InvalidArgumentTypes)));
    let swapped = vec![RawValue::from(Value::Signed(1)), RawValue::from(Value::Interned(key))];
    let answer = nodes.action(root, Action::SetEntry, RawValue::from(Value::ValueArray(swapped)));
    assert!(matches!(Value::from_raw(answer), Value::Error(Error::WrongType)));
    // Reserved operations.
    let answer = nodes.action(root, Action::Call, RawValue::void());
    assert!(matches!(Value::from_raw(answer), Value::Error(Error::ActionNotSupported)));
    let answer = nodes.action(root, Action::List, RawValue::void());
    assert!(matches!(Value::from_raw(answer), Value::Error(Error::ActionNotSupported)));
    // Clone and drop answer void and move the count.
    assert_eq!(nodes.strong_count(root), Some(2));
    let answer = nodes.action(root, Action::Clone, RawValue::void());
    assert!(matches!(Value::from_raw(answer), Value::Void));
    assert_eq!(nodes.strong_count(root), Some(3));
    let answer = nodes.action(root, Action::Drop, RawValue::void());
    assert!(matches!(Value::from_raw(answer), Value::Void));
    assert_eq!(nodes.strong_count(root), Some(2));
    // A slot without a node.
    let nobody = NodeHandleRef::from_raw(40);
    let answer = nodes.action(nobody, Action::Get, RawValue::from(Value::Interned(key)));
    assert!(matches!(Value::from_raw(answer), Value::Error(Error::ExpectedNode)));
}

#[test]
fn get_of_a_node_value_raises_its_count() {
    let mut nodes = Vnodes::new();
    let child = MapNode::new_node(&mut nodes);
    let child_ref = child.handle_ref();
    let root = nodes.root();
    root.insert(&mut nodes, Interned::from("child"), Value::Node(child));
    assert_eq!(nodes.strong_count(child_ref), Some(1));
    let got = root.get(&mut nodes, Interned::from("child"));
    assert_eq!(nodes.strong_count(child_ref), Some(2));
    match got {
        Value::Node(handle) => handle.drop(&mut nodes),
        other => panic!("not an owning handle: {:?}", other),
    }
    assert_eq!(nodes.strong_count(child_ref), Some(1));
    // Storing a borrowed handle promotes it.
    root.insert(&mut nodes, Interned::from("again"), Value::NodeRef(child_ref));
    assert_eq!(nodes.strong_count(child_ref), Some(2));
    let promoted = Value::NodeRef(child_ref).make_owned(&mut nodes);
    assert!(matches!(promoted, Value::Node(ref n) if n.raw() == child_ref.raw()));
    assert_eq!(nodes.strong_count(child_ref), Some(3));
    let handle = child_ref.to_handle(&mut nodes);
    assert_eq!(nodes.strong_count(child_ref), Some(4));
    handle.drop(&mut nodes);
    let text = b"text";
    assert!(matches!(Value::StringRef(text).make_owned(&mut nodes), Value::String(b) if b == text));
}

#[test]
fn a_reserved_node_supports_nothing() {
    let mut nodes = Vnodes::new();
    let fs = FsNode::new_node(&mut nodes, String::from("/tmp"));
    let fs_ref = fs.handle_ref();
    assert_eq!(nodes.insert("/fs", fs), Ok(()));
    assert_eq!(nodes.get::<u64>("/fs/file"), Err(Error::ActionNotSupported));
    assert_eq!(nodes.insert("/fs/file", 1u64), Err(Error::ActionNotSupported));
    let child = MapNode::new_node(&mut nodes);
    let child_ref = child.handle_ref();
    // The node stores nothing, so the handle is given up again.
    assert_eq!(nodes.insert("/fs/child", child), Err(Error::ActionNotSupported));
    assert!(!nodes.is_alive(child_ref));
    assert!(nodes.is_alive(fs_ref));
    assert_eq!(FsNode::new(String::from("/etc")).path(), "/etc");
}

#[test]
fn five_hundred_entries_in_one_node() {
    let prefixes = [
        "abc", "hello", "okay", "makes", "sense", "w1th", "numb3", "s0m3", "m0r3", "last",
    ];
    let mut nodes = Vnodes::new();
    for (p, prefix) in prefixes.iter().enumerate() {
        for suffix in 0..50u64 {
            let name = format!("/{}{}", prefix, suffix);
            assert_eq!(nodes.insert(&name, p as u64 * 50 + suffix), Ok(()));
        }
    }
    for (p, prefix) in prefixes.iter().enumerate() {
        for suffix in 0..50u64 {
            let name = format!("{}{}", prefix, suffix);
            assert_eq!(nodes.get::<u64>(&name), Ok(p as u64 * 50 + suffix));
        }
    }
    assert_eq!(nodes.get::<u64>("abc999"), Err(Error::NoSuchEntry));
}

#[test]
fn map_node_on_its_own() {
    let mut node = MapNode::new();
    assert_eq!(node.len(), 0);
    assert_eq!(node.get(Interned(1)).err(), Some(Error::NoSuchEntry));
    assert_eq!(node.set(Interned(1), Value::Unsigned(5)), Ok(()));
    assert!(matches!(node.get(Interned(1)), Ok(Value::Unsigned(5))));
    assert!(matches!(node.replace(Interned(1), Value::Bool(true)), Some(Value::Unsigned(5))));
    assert!(matches!(node.peek(Interned(1)), Some(Value::Bool(true))));
    assert!(node.replace(Interned(0), Value::Node(NodeHandle::from_raw(9))).is_none());
    assert_eq!(node.owned_children(), vec![9]);
    assert_eq!(node.call(&[]).err(), Some(Error::ActionNotSupported));
}

#[test]
fn closing_a_context_frees_its_tree() {
    let nodes = Vnodes::new();
    assert_eq!(nodes.live(), 1);
    assert_eq!(nodes.close(), 0);

    let mut nodes = Vnodes::new();
    let bar = MapNode::new_node(&mut nodes);
    assert_eq!(nodes.insert("/bar", bar), Ok(()));
    let deep = MapNode::new_node(&mut nodes);
    assert_eq!(nodes.insert("/bar/deep", deep), Ok(()));
    assert_eq!(nodes.live(), 3);
    assert_eq!(nodes.close(), 0);

    // A handle that is still out keeps its node alive.
    let mut nodes = Vnodes::new();
    let bar = MapNode::new_node(&mut nodes);
    let kept = bar.clone(&mut nodes);
    assert_eq!(nodes.insert("/bar", bar), Ok(()));
    assert_eq!(kept.raw(), 1);
    assert_eq!(nodes.close(), 1);
}

#[test]
fn entries_are_seen_without_being_copied() {
    let mut nodes = Vnodes::new();
    assert_eq!(nodes.insert("/text", Value::String(b"abc".to_vec())), Ok(()));
    let root = nodes.root();
    assert!(matches!(
        nodes.entry(root, Interned::from("text")),
        Ok(Value::StringRef(b)) if b == b"abc"
    ));
    assert_eq!(nodes.entry(root, Interned(9)).err(), Some(Error::NoSuchEntry));
    assert_eq!(
        nodes.entry(NodeHandleRef::from_raw(7), Interned(9)).err(),
        Some(Error::ExpectedNode)
    );
    assert!(nodes.may_retain(root));
    assert!(nodes.may_retain(NodeHandleRef::from_raw(7)));
    let path = [Interned(0), Interned::from("text")];
    assert!(matches!(nodes.resolve(&path), Ok(Value::StringRef(b)) if b == b"abc"));
    assert_eq!(
        nodes.target(&path).map(|(node, key)| (node.raw(), key)),
        Ok((0, Interned::from("text")))
    );
    assert_eq!(nodes.get_at::<Value>(&path).map(|v| matches!(v, Value::String(_))), Ok(true));
}

#[test]
fn empty_segments_at_the_end_name_the_node() {
    let mut nodes = Vnodes::new();
    let bar = MapNode::new_node(&mut nodes);
    let bar_id = bar.raw();
    assert_eq!(nodes.insert("/bar", bar), Ok(()));
    assert_eq!(nodes.insert("/bar/abc", 1u64), Ok(()));
    for path in ["/bar/", "/bar//", "bar///"] {
        let handle: NodeHandle = nodes.get(path).unwrap();
        assert_eq!(handle.raw(), bar_id);
        handle.drop(&mut nodes);
    }
    // An empty segment in the middle is a name like any other, and it is not bound.
    assert_eq!(nodes.get::<u64>("/bar//abc"), Err(Error::NoSuchEntry));
    // What comes before the empty segments must be a node.
    assert_eq!(nodes.get::<u64>("/bar/abc//"), Err(Error::ExpectedNode));
    assert_eq!(nodes.strong_count(NodeHandleRef::from_raw(bar_id)), Some(1));
}
