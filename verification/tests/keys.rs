//! Keys, errors, frames and texts.
use picante::error::panic_message;
use picante::frame::{
    find_cycle, has_active_frame, push_frame, record_dep, ActiveFrameHandle, FrameStack,
};
use picante::graph::DepGraph;
use picante::table::{CellTable, SharedTable};
use picante::text::{push_decimal, push_hex, push_short_hex};
use picante::{Dep, DynKey, Key, PicanteError, QueryKindId, Revision, Runtime, RuntimeId};
use std::sync::Arc;

fn node(kind: u32, bytes: &[u8]) -> DynKey {
    DynKey { kind: QueryKindId(kind), key: Key::from_bytes(bytes.to_vec()) }
}

#[test]
fn kind_ids_are_fnv_hashes() {
    assert_eq!(QueryKindId::from_str("").as_u32(), 0x811c_9dc5);
    assert_eq!(QueryKindId::from_str("a").as_u32(), 0xe40c_292c);
    assert_eq!(QueryKindId::from_str("foobar").as_u32(), 0xbf9c_f968);
    assert_eq!(QueryKindId(7).as_u32(), 7);
}

#[test]
fn keys_are_compared_by_their_bytes() {
    let a = Key::from_bytes(vec![1, 2, 3]);
    let b = Key::from_bytes(vec![1, 2, 3]);
    let c = Key::from_bytes(vec![1, 2]);
    assert!(a == b);
    assert!(a != c);
    assert_eq!(a.hash(), b.hash());
    assert_ne!(a.hash(), c.hash());
    assert_eq!(a.bytes(), &[1, 2, 3]);
    assert_eq!(a.len(), 3);
    assert!(!a.is_empty());
    assert!(Key::from_bytes(vec![]).is_empty());
    assert!(a.clone() == a);
    assert!(node(1, b"x") == node(1, b"x"));
    assert!(node(1, b"x") != node(2, b"x"));
    assert!(node(1, b"x").to_dep().to_dyn_key() == node(1, b"x"));
}

#[test]
fn numbers_are_encoded_as_varints() {
    assert_eq!(Key::for_u32(0).unwrap().bytes(), &[0]);
    assert_eq!(Key::for_u32(127).unwrap().bytes(), &[127]);
    assert_eq!(Key::for_u32(300).unwrap().bytes(), &[172, 2]);
    assert_eq!(Key::for_u32(u32::MAX).unwrap().as_u32().unwrap(), u32::MAX);
    match &*Key::from_bytes(vec![]).as_u32().unwrap_err() {
        PicanteError::Decode { what, .. } => assert_eq!(*what, "key"),
        other => panic!("expected Decode, got {other:?}"),
    }
}

#[test]
fn errors_are_shown() {
    let message = |e: PicanteError| e.message();
    assert_eq!(
        message(PicanteError::Encode { what: "key", message: "m".to_string() }),
        "encode key failed: m"
    );
    assert_eq!(
        message(PicanteError::Decode { what: "key", message: "m".to_string() }),
        "decode key failed: m"
    );
    assert_eq!(message(PicanteError::Cache { message: "m".to_string() }), "cache error: m");
    assert_eq!(
        message(PicanteError::MissingInternedValue { kind: QueryKindId(3), id: 4 }),
        "missing interned value (kind 3, id 4)"
    );
    assert_eq!(
        message(PicanteError::MissingInputValue { kind: QueryKindId(3), key_hash: 0xab }),
        "missing input value (kind 3, key 00000000000000ab)"
    );
    assert_eq!(message(PicanteError::Panic { message: "m".to_string() }), "query panicked: m");
    assert_eq!(panic_message(Some("a"), Some(&"b".to_string())), "a");
    assert_eq!(panic_message(None, Some(&"b".to_string())), "b");
    assert_eq!(panic_message(None, None), "non-string panic payload");
}

#[test]
fn frames_record_what_is_read() {
    let mut stack = FrameStack::new();
    assert!(!has_active_frame(&stack));
    record_dep(&mut stack, node(1, b"lost").to_dep());
    let mut guard = push_frame(&mut stack, ActiveFrameHandle::new(node(2, b"q"), Revision(3)));
    assert!(has_active_frame(&stack));
    record_dep(&mut stack, node(1, b"a").to_dep());
    record_dep(&mut stack, node(1, b"a").to_dep());
    assert!(find_cycle(&stack, &node(2, b"other")).is_none());
    let cycle = find_cycle(&stack, &node(2, b"q")).unwrap();
    assert_eq!(cycle.len(), 1);
    assert!(cycle[0] == node(2, b"q"));

    let mut frame = guard.pop_frame(&mut stack).unwrap();
    assert!(*frame.dyn_key() == node(2, b"q"));
    assert_eq!(frame.started_at(), Revision(3));
    let deps = frame.take_deps();
    assert_eq!(deps.len(), 2);
    assert!(deps.iter().all(|d| *d == node(1, b"a").to_dep()));
    assert!(frame.take_deps().is_empty());
    assert!(guard.pop_frame(&mut stack).is_none());
    assert!(!has_active_frame(&stack));
}

#[test]
fn numbers_are_written() {
    let mut out = String::new();
    push_decimal(&mut out, 0);
    out.push(' ');
    push_decimal(&mut out, u64::MAX);
    out.push(' ');
    push_hex(&mut out, 0xabc, 4);
    out.push(' ');
    push_short_hex(&mut out, 0xabc);
    push_short_hex(&mut out, 0);
    assert_eq!(out, "0 18446744073709551615 0abc abc0");
}

#[test]
fn tables_hold_what_was_filed() {
    let mut shared: SharedTable<u32> = SharedTable::new();
    assert_eq!(shared.insert(b"a", 1), None);
    assert_eq!(shared.insert(b"b", 2), None);
    assert_eq!(shared.insert(b"a", 3), Some(1));
    assert_eq!(shared.get(b"a"), Some(&3));
    assert_eq!(shared.len(), 2);
    assert_eq!(shared.insert(b"b", 9), Some(2));
    assert_eq!(shared.remove(b"a"), Some(3));
    assert_eq!(shared.remove(b"a"), None);
    assert!(!shared.contains(b"a"));
    assert_eq!(shared.key_at(0), b"b");
    assert_eq!(*shared.value_at(0), 9);
    shared.clear();
    assert_eq!(shared.len(), 0);

    let mut cells: CellTable<u32> = CellTable::new();
    cells.insert(b"a", 1);
    cells.insert(b"b", 2);
    let frozen = cells.snapshot();
    cells.insert(b"a", 5);
    cells.remove(b"b");
    assert_eq!(frozen.get(b"a"), Some(&1));
    assert_eq!(frozen.get(b"b"), Some(&2));
    assert_eq!(cells.get(b"a"), Some(&5));
    assert_eq!(cells.len(), 1);
    // A snapshot can be changed, too, and the table goes on by itself.
    let mut other = cells.snapshot();
    other.insert(b"c", 7);
    other.insert(b"a", 8);
    assert_eq!(other.len(), 2);
    assert_eq!(cells.get(b"a"), Some(&5));
    assert!(!cells.contains(b"c"));
    assert_eq!(frozen.len(), 2);
}

fn deps(list: &[(u32, &[u8])]) -> Arc<Vec<Dep>> {
    Arc::new(list.iter().map(|(k, b)| node(*k, b).to_dep()).collect())
}

#[test]
fn dependents_are_found_transitively() {
    let mut graph = DepGraph::new();
    graph.update(&node(2, b"x"), deps(&[(1, b"a")]));
    graph.update(&node(3, b"y"), deps(&[(2, b"x"), (1, b"b")]));
    graph.update(&node(4, b"z"), deps(&[(3, b"y")]));
    let found = graph.transitive_dependents(&node(1, b"a"));
    assert_eq!(found.len(), 3);
    assert!(found[0] == node(2, b"x"));
    assert!(found[1] == node(3, b"y"));
    assert!(found[2] == node(4, b"z"));

    // New dependencies take the place of the old ones.
    graph.update(&node(3, b"y"), deps(&[(1, b"b")]));
    assert_eq!(graph.transitive_dependents(&node(1, b"a")).len(), 1);
    assert_eq!(graph.transitive_dependents(&node(1, b"b")).len(), 2);
    graph.clear();
    assert!(graph.transitive_dependents(&node(1, b"b")).is_empty());
}

#[test]
fn a_runtime_counts_revisions() {
    let mut runtime = Runtime::new(RuntimeId(5));
    assert_eq!(runtime.id(), RuntimeId(5));
    assert_eq!(runtime.bump_revision(), Revision(1));
    runtime.set_current_revision(Revision(9));
    let snapshot = Runtime::new_for_snapshot(&runtime, RuntimeId(6));
    assert_eq!(snapshot.id(), RuntimeId(5));
    assert_eq!(snapshot.current_revision(), Revision(9));
    assert_eq!(runtime.take_events().len(), 2);
    assert!(runtime.take_events().is_empty());
}

#[test]
fn a_changed_snapshot_has_an_identity_of_its_own() {
    let mut runtime = Runtime::new(RuntimeId(5));
    let mut snapshot = Runtime::new_for_snapshot(&runtime, RuntimeId(6));
    let unchanged = Runtime::new_for_snapshot(&snapshot, RuntimeId(7));

    // Both move on to the same revision, and can be told apart.
    assert_eq!(runtime.bump_revision(), Revision(1));
    assert_eq!(snapshot.bump_revision(), Revision(1));
    assert_eq!(runtime.id(), RuntimeId(5));
    assert_eq!(snapshot.id(), RuntimeId(6));
    assert_eq!(unchanged.id(), RuntimeId(5));

    // It keeps that identity, and its own snapshots share it.
    assert_eq!(snapshot.bump_revision(), Revision(2));
    assert_eq!(snapshot.id(), RuntimeId(6));
    let mut second = Runtime::new_for_snapshot(&snapshot, RuntimeId(8));
    assert_eq!(second.id(), RuntimeId(6));
    second.set_current_revision(Revision(4));
    assert_eq!(second.id(), RuntimeId(8));

    // A database that is loaded from elsewhere is another one.
    runtime.part(RuntimeId(9));
    assert_eq!(runtime.id(), RuntimeId(9));
    assert_eq!(runtime.current_revision(), Revision(1));
}
