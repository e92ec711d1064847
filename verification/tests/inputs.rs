//! Inputs, interned values and the events they cause.
use picante::frame::{push_frame, ActiveFrameHandle, FrameStack};
use picante::ingredient::{InputEntry, InputIngredient, InternId, InternedIngredient};
use picante::{DynKey, Key, PicanteError, PicanteResult, QueryKindId};
use picante::{Revision, Runtime, RuntimeEvent, RuntimeId};
use std::sync::Arc;

fn key(text: &str) -> PicanteResult<Key> {
    Key::encode_facet(facet_postcard::to_vec(&text.to_string()).map_err(|e| format!("{e:?}")))
}

fn text_of(key: &Key) -> String {
    Key::decode_facet(
        facet_postcard::from_slice::<String>(key.bytes()).map_err(|e| format!("{e:?}")),
    )
    .unwrap()
}

fn same(a: &String, b: &String) -> bool {
    a == b
}

fn text_input() -> InputIngredient<String> {
    InputIngredient::new(QueryKindId(1), "Text")
}

fn read(input: &InputIngredient<String>, name: &str) -> Option<String> {
    let mut stack = FrameStack::new();
    input.get(&mut stack, key(name)).unwrap().map(|v| v.to_string())
}

#[test]
fn revision_watch_updates_on_input_set() {
    let mut runtime = Runtime::new(RuntimeId(1));
    assert_eq!(runtime.current_revision(), Revision(0));

    let mut input = text_input();
    input.set(&mut runtime, key("a"), "hello".to_string(), same);

    assert_eq!(runtime.current_revision(), Revision(1));
}

#[test]
fn input_set_and_remove_emit_events() {
    let mut runtime = Runtime::new(RuntimeId(1));
    let mut input = text_input();

    input.set(&mut runtime, key("a"), "hello".to_string(), same);
    let events = runtime.take_events();
    assert_eq!(events.len(), 2);

    match &events[0] {
        RuntimeEvent::RevisionBumped { revision } => assert_eq!(*revision, Revision(1)),
        other => panic!("expected RevisionBumped, got {other:?}"),
    }
    match &events[1] {
        RuntimeEvent::InputSet { revision, kind, key, .. } => {
            assert_eq!(*revision, Revision(1));
            assert_eq!(*kind, QueryKindId(1));
            assert_eq!(text_of(key), "a");
        }
        other => panic!("expected InputSet, got {other:?}"),
    }

    input.remove(&mut runtime, key("a"));
    let events = runtime.take_events();
    assert_eq!(events.len(), 2);

    match &events[0] {
        RuntimeEvent::RevisionBumped { revision } => assert_eq!(*revision, Revision(2)),
        other => panic!("expected RevisionBumped, got {other:?}"),
    }
    match &events[1] {
        RuntimeEvent::InputRemoved { revision, kind, key, .. } => {
            assert_eq!(*revision, Revision(2));
            assert_eq!(*kind, QueryKindId(1));
            assert_eq!(text_of(key), "a");
        }
        other => panic!("expected InputRemoved, got {other:?}"),
    }
}

#[test]
fn input_set_same_value_is_noop() {
    let mut runtime = Runtime::new(RuntimeId(1));
    let mut input = text_input();

    let r1 = input.set(&mut runtime, key("a"), "hello".to_string(), same);
    assert_eq!(r1, Revision(1));
    assert_eq!(runtime.take_events().len(), 2);

    let rev_before = runtime.current_revision();

    let r2 = input.set(&mut runtime, key("a"), "hello".to_string(), same);
    assert_eq!(r2, r1);
    assert_eq!(runtime.current_revision(), rev_before);
    assert!(runtime.take_events().is_empty());
}

#[test]
fn input_remove_missing_is_noop() {
    let mut runtime = Runtime::new(RuntimeId(1));
    let mut input = text_input();

    let r1 = input.remove(&mut runtime, key("a"));
    assert_eq!(r1, Revision(0));
    assert_eq!(runtime.current_revision(), Revision(0));
    assert!(runtime.take_events().is_empty());
}

#[test]
fn input_remove_twice_second_is_noop() {
    let mut runtime = Runtime::new(RuntimeId(1));
    let mut input = text_input();

    input.set(&mut runtime, key("a"), "hello".to_string(), same);
    assert_eq!(runtime.take_events().len(), 2);

    input.remove(&mut runtime, key("a"));
    assert_eq!(runtime.take_events().len(), 2);

    let rev_before = runtime.current_revision();

    let r2 = input.remove(&mut runtime, key("a"));
    assert_eq!(r2, rev_before);
    assert_eq!(runtime.current_revision(), rev_before);
    assert!(runtime.take_events().is_empty());
}

#[test]
fn input_snapshot_captures_state_at_creation_time() {
    let mut runtime = Runtime::new(RuntimeId(1));
    let mut input = text_input();

    input.set(&mut runtime, key("a"), "hello".to_string(), same);
    input.set(&mut runtime, key("b"), "world".to_string(), same);

    let snapshot = input.snapshot();

    assert_eq!(snapshot.len(), 2);
    assert_eq!(
        snapshot.get(&key("a").unwrap()).unwrap().value.map(|v| v.to_string()),
        Some("hello".to_string())
    );
    assert_eq!(
        snapshot.get(&key("b").unwrap()).unwrap().value.map(|v| v.to_string()),
        Some("world".to_string())
    );
}

#[test]
fn input_snapshot_remains_valid_after_modification() {
    let mut runtime = Runtime::new(RuntimeId(1));
    let mut input = text_input();

    input.set(&mut runtime, key("a"), "v1".to_string(), same);

    let snapshot = input.snapshot();

    input.set(&mut runtime, key("a"), "v2".to_string(), same);
    input.set(&mut runtime, key("b"), "new".to_string(), same);

    assert_eq!(snapshot.len(), 1);
    assert_eq!(
        snapshot.get(&key("a").unwrap()).unwrap().value.map(|v| v.to_string()),
        Some("v1".to_string())
    );
    assert!(snapshot.get(&key("b").unwrap()).is_none());

    assert_eq!(read(&input, "a"), Some("v2".to_string()));
    assert_eq!(read(&input, "b"), Some("new".to_string()));
}

#[test]
fn an_input_made_from_a_snapshot_is_independent() {
    let mut runtime = Runtime::new(RuntimeId(1));
    let mut input = text_input();
    input.set(&mut runtime, key("a"), "old".to_string(), same);

    let frozen = InputIngredient::new_from_snapshot(input.kind(), input.kind_name(), input.snapshot());
    input.set(&mut runtime, key("a"), "new".to_string(), same);

    assert_eq!(frozen.kind(), QueryKindId(1));
    assert_eq!(frozen.kind_name(), "Text");
    assert_eq!(read(&frozen, "a"), Some("old".to_string()));
    assert_eq!(read(&input, "a"), Some("new".to_string()));
}

#[test]
fn reading_an_input_records_a_dependency() {
    let mut runtime = Runtime::new(RuntimeId(1));
    let mut input = text_input();
    input.set(&mut runtime, key("a"), "hello".to_string(), same);

    let mut stack = FrameStack::new();
    let query = DynKey { kind: QueryKindId(2), key: key("q").unwrap() };
    let mut guard = push_frame(&mut stack, ActiveFrameHandle::new(query, Revision(1)));
    input.get(&mut stack, key("a")).unwrap();
    let mut frame = guard.pop_frame(&mut stack).unwrap();
    let deps = frame.take_deps();
    assert_eq!(deps.len(), 1);
    assert_eq!(deps[0].kind, QueryKindId(1));
    assert_eq!(text_of(&deps[0].key), "a");
}

#[test]
fn touching_and_changed_at_follow_the_last_change() {
    let mut runtime = Runtime::new(RuntimeId(1));
    let mut input = text_input();
    assert_eq!(input.touch(&key("a").unwrap()), Revision(0));
    assert_eq!(input.changed_at(key("a")), None);

    input.set(&mut runtime, key("b"), "x".to_string(), same);
    input.set(&mut runtime, key("a"), "x".to_string(), same);
    assert_eq!(input.touch(&key("a").unwrap()), Revision(2));
    assert_eq!(input.changed_at(key("a")), Some(Revision(2)));

    input.remove(&mut runtime, key("a"));
    assert_eq!(input.touch(&key("a").unwrap()), Revision(3));
    assert_eq!(read(&input, "a"), None);
}

#[test]
fn a_key_that_cannot_be_encoded_changes_nothing() {
    let mut runtime = Runtime::new(RuntimeId(1));
    let mut input = text_input();
    let broken = || Key::encode_facet(Err("no".to_string()));

    let r = input.set(&mut runtime, broken(), "x".to_string(), same);
    assert_eq!(r, Revision(0));
    assert!(runtime.take_events().is_empty());
    assert_eq!(input.remove(&mut runtime, broken()), Revision(0));
    let mut stack = FrameStack::new();
    match &*input.get(&mut stack, broken()).unwrap_err() {
        PicanteError::Encode { what, message } => {
            assert_eq!(*what, "key");
            assert_eq!(message, "no");
        }
        other => panic!("expected Encode, got {other:?}"),
    }
}

#[test]
fn interning_gives_stable_ids() {
    let mut words: InternedIngredient<String> = InternedIngredient::new(QueryKindId(7), "Word");
    let w1 = words.intern(key("hello"), "hello".to_string()).unwrap();
    let w2 = words.intern(key("hello"), "hello".to_string()).unwrap();
    let w3 = words.intern(key("world"), "world".to_string()).unwrap();
    assert_eq!(w1, w2);
    assert_ne!(w1, w3);
    assert_eq!(w1, InternId(0));
    assert_eq!(w3, InternId(1));

    let mut stack = FrameStack::new();
    assert_eq!(*words.get(&mut stack, w1).unwrap(), "hello".to_string());
    assert_eq!(*words.get(&mut stack, w3).unwrap(), "world".to_string());
    match &*words.get(&mut stack, InternId(9)).unwrap_err() {
        PicanteError::MissingInternedValue { kind, id } => {
            assert_eq!(*kind, QueryKindId(7));
            assert_eq!(*id, 9);
        }
        other => panic!("expected MissingInternedValue, got {other:?}"),
    }
    assert_eq!(words.save_incremental_records(0).len(), 0);
}

#[test]
fn interned_values_are_saved_by_id_and_loaded() {
    let mut words: InternedIngredient<String> = InternedIngredient::new(QueryKindId(7), "Word");
    words.intern(key("b"), "b".to_string()).unwrap();
    words.intern(key("a"), "a".to_string()).unwrap();
    let records = words
        .save_records(|id, value| Ok(facet_postcard::to_vec(&(id.0, value.to_string())).unwrap()))
        .unwrap();
    assert_eq!(records.len(), 2);

    let mut copy: InternedIngredient<String> = InternedIngredient::new(QueryKindId(7), "Word");
    copy.load_records(&records, |bytes| {
        let (id, value) = facet_postcard::from_slice::<(u32, String)>(bytes).unwrap();
        Ok(picante::ingredient::interned::LoadedValue {
            id: InternId(id),
            key: key(&value),
            value: std::sync::Arc::new(value),
        })
    })
    .unwrap();
    assert_eq!(copy.intern(key("b"), "b".to_string()).unwrap(), InternId(0));
    assert_eq!(copy.intern(key("a"), "a".to_string()).unwrap(), InternId(1));
    assert_eq!(copy.intern(key("c"), "c".to_string()).unwrap(), InternId(2));
}

#[test]
fn loading_refuses_an_id_or_a_value_that_occurs_twice() {
    let load = |records: Vec<(u32, &str)>| {
        let encoded: Vec<Vec<u8>> = records
            .iter()
            .map(|(id, value)| facet_postcard::to_vec(&(*id, value.to_string())).unwrap())
            .collect();
        let mut words: InternedIngredient<String> = InternedIngredient::new(QueryKindId(7), "Word");
        words.load_records(&encoded, |bytes| {
            let (id, value) = facet_postcard::from_slice::<(u32, String)>(bytes).unwrap();
            Ok(picante::ingredient::interned::LoadedValue {
                id: InternId(id),
                key: key(&value),
                value: std::sync::Arc::new(value),
            })
        })
    };
    assert!(load(vec![(0, "a"), (1, "b")]).is_ok());
    assert_eq!(
        load(vec![(0, "a"), (0, "b")]).unwrap_err().message(),
        "cache error: duplicate interned id 0 in `Word`"
    );
    assert_eq!(
        load(vec![(0, "a"), (3, "a")]).unwrap_err().message(),
        "cache error: duplicate interned value for `Word` (ids 0 and 3)"
    );
}

#[test]
fn touching_an_interned_value_says_revision_zero() {
    let mut words: InternedIngredient<String> = InternedIngredient::new(QueryKindId(7), "Word");
    let id = words.intern(key("hello"), "hello".to_string()).unwrap();
    let known = Key::for_u32(id.0).unwrap();
    assert_eq!(words.touch(&known).unwrap(), Revision(0));
    assert!(words.touch(&Key::for_u32(5).unwrap()).is_err());
    assert!(words.touch(&Key::from_bytes(vec![])).is_err());
}

#[test]
fn touching_an_input_says_when_it_changed() {
    let mut runtime = Runtime::new(RuntimeId(1));
    let mut texts = text_input();
    let a = key("a").unwrap();
    assert_eq!(texts.touch(&a), Revision(0));
    texts.set(&mut runtime, key("a"), "one".to_string(), same);
    assert_eq!(texts.touch(&a), Revision(1));
    // Neither another key nor an equal value is a change.
    texts.set(&mut runtime, key("b"), "two".to_string(), same);
    texts.set(&mut runtime, key("a"), "one".to_string(), same);
    assert_eq!(texts.touch(&a), Revision(1));
    texts.remove(&mut runtime, key("a"));
    assert_eq!(texts.touch(&a), Revision(3));
}

fn encode_entry(key: &[u8], entry: &InputEntry<Arc<String>>) -> PicanteResult<Vec<u8>> {
    let value = entry.value.as_ref().map(|v| v.to_string());
    let wire = (key.to_vec(), value, entry.changed_at.0);
    facet_postcard::to_vec(&wire).map_err(|e| {
        Arc::new(PicanteError::Encode { what: "input record", message: format!("{e:?}") })
    })
}

fn decode_entry(bytes: &[u8]) -> PicanteResult<(Key, InputEntry<Arc<String>>)> {
    let (key, value, changed_at): (Vec<u8>, Option<String>, u64) =
        facet_postcard::from_slice(bytes).map_err(|e| {
            Arc::new(PicanteError::Decode { what: "input record", message: format!("{e:?}") })
        })?;
    let entry = InputEntry { value: value.map(Arc::new), changed_at: Revision(changed_at) };
    Ok((Key::from_bytes(key), entry))
}

#[test]
fn saved_inputs_are_loaded_again() {
    let mut runtime = Runtime::new(RuntimeId(1));
    let mut input = text_input();
    input.set(&mut runtime, key("a"), "1".to_string(), same);
    input.set(&mut runtime, key("b"), "2".to_string(), same);
    input.remove(&mut runtime, key("a"));
    let records = input.save_records(encode_entry).unwrap();
    assert_eq!(records.len(), 2);

    let mut loaded = text_input();
    loaded.load_records(&records, decode_entry).unwrap();
    assert_eq!(read(&loaded, "a"), None);
    assert_eq!(loaded.changed_at(key("a")), Some(Revision(3)));
    assert_eq!(read(&loaded, "b"), Some("2".to_string()));
    assert_eq!(loaded.changed_at(key("b")), Some(Revision(2)));

    // The records before a broken one stay loaded.
    let mut broken = text_input();
    let records = vec![records[1].clone(), vec![255], records[0].clone()];
    assert!(broken.load_records(&records, decode_entry).is_err());
    assert_eq!(broken.snapshot().len(), 1);
    assert_eq!(read(&broken, "b"), Some("2".to_string()));
}

#[test]
fn the_first_encoding_that_fails_ends_a_save() {
    let mut runtime = Runtime::new(RuntimeId(1));
    let mut input = text_input();
    for name in ["a", "b", "c"] {
        input.set(&mut runtime, key(name), name.to_string(), same);
    }
    let refuse = |name: &str| Arc::new(PicanteError::Cache { message: name.to_string() });
    let saved = input.save_records(|_, entry| match entry.value.as_ref() {
        Some(value) if value.as_str() != "a" => Err(refuse(value)),
        _ => Ok(vec![]),
    });
    assert_eq!(saved.unwrap_err().message(), "cache error: b");
    // What did not change is not encoded.
    let saved = input.save_incremental_records(2, |_, entry| match entry.value.as_ref() {
        Some(value) => Err(refuse(value)),
        None => Ok((vec![], None)),
    });
    assert_eq!(saved.unwrap_err().message(), "cache error: c");
    assert!(input
        .save_incremental_records(3, |_, _| Err(refuse("never")))
        .unwrap()
        .is_empty());
}

#[test]
fn replaying_changes_on_a_snapshot_catches_up() {
    let mut runtime = Runtime::new(RuntimeId(1));
    let mut input = text_input();
    input.set(&mut runtime, key("a"), "1".to_string(), same);
    input.set(&mut runtime, key("b"), "2".to_string(), same);
    let mut base = InputIngredient::new_from_snapshot(QueryKindId(1), "Text", input.snapshot());
    let since = runtime.current_revision().0;
    input.remove(&mut runtime, key("a"));
    input.set(&mut runtime, key("c"), "3".to_string(), same);

    let changes = input
        .save_incremental_records(since, |key, entry| {
            Ok((key.to_vec(), entry.value.as_ref().map(|v| v.as_bytes().to_vec())))
        })
        .unwrap();
    assert_eq!(changes.len(), 2);
    for (revision, key, value) in changes {
        let value = value.map(|v| Arc::new(String::from_utf8(v).unwrap()));
        base.apply_wal_entry(revision, &Key::from_bytes(key), value);
    }
    for name in ["a", "b", "c"] {
        assert_eq!(read(&base, name), read(&input, name));
        assert_eq!(base.changed_at(key(name)), input.changed_at(key(name)));
    }
    assert_eq!(read(&base, "a"), None);
    assert_eq!(read(&base, "c"), Some("3".to_string()));
}

#[test]
fn an_input_reads_as_it_was_last_written() {
    let mut runtime = Runtime::new(RuntimeId(1));
    let mut input = text_input();
    assert_eq!(read(&input, "a"), None);
    input.set(&mut runtime, key("a"), "1".to_string(), same);
    input.set(&mut runtime, key("b"), "2".to_string(), same);
    input.remove(&mut runtime, key("a"));
    input.set(&mut runtime, key("a"), "3".to_string(), same);
    input.set(&mut runtime, key("a"), "3".to_string(), same);
    input.remove(&mut runtime, key("b"));
    input.remove(&mut runtime, key("c"));
    assert_eq!(read(&input, "a"), Some("3".to_string()));
    assert_eq!(read(&input, "b"), None);
    assert_eq!(read(&input, "c"), None);
    assert_eq!(runtime.current_revision(), Revision(5));
}

#[test]
fn ids_count_the_values_in_order_of_first_use() {
    let mut words: InternedIngredient<String> = InternedIngredient::new(QueryKindId(3), "Word");
    let mut ids = Vec::new();
    for word in ["x", "y", "x", "z", "y", "x"] {
        ids.push(words.intern(key(word), word.to_string()).unwrap().0);
    }
    assert_eq!(ids, [0, 1, 0, 2, 1, 0]);
    let mut stack = FrameStack::new();
    for (id, word) in [(0, "x"), (1, "y"), (2, "z")] {
        assert_eq!(*words.get(&mut stack, InternId(id)).unwrap(), word.to_string());
    }
    match &*words.get(&mut stack, InternId(3)).unwrap_err() {
        PicanteError::MissingInternedValue { kind, id } => {
            assert_eq!((*kind, *id), (QueryKindId(3), 3));
        }
        other => panic!("expected MissingInternedValue, got {other:?}"),
    }
}
