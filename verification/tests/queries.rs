//! Derived queries: caching, revalidation, sharing, cycles, failures and persistence.
use picante::frame::FrameStack;
use picante::inflight::{InFlightEntry, InFlightRegistry, InFlightState, SharedCache};
use picante::ingredient::access::{
    Access, AccessAction, AccessEvent, AccessStep, ComputeOutcome, ErasedAccessResult, Touch,
};
use picante::ingredient::derived::{
    dep_records, deps_from_records, DepRecord, RecordCheck, RecordStep,
};
use picante::ingredient::{DerivedCore, ErasedReadyRecord, InputEntry, InputIngredient};
use picante::ingredient::{InternId, InternedIngredient};
use picante::persist::load::{plan_load, IngredientInfo, LoadPlan};
use picante::persist::log::{append_changes, plan_replay};
use picante::persist::save::{build_section, encode_for_save, ensure_unique_kinds};
use picante::persist::{CacheLoadOptions, CacheSaveOptions, Section, SectionType};
use picante::wal::WalWriter;
use picante::{Dep, Key, PicanteError, PicanteResult, QueryKindId};
use picante::{Revision, Runtime, RuntimeEvent, RuntimeId};
use std::cell::Cell;
use std::sync::{Arc, Mutex};

type Entry = Mutex<InFlightEntry<u64>>;

const TEXT: QueryKindId = QueryKindId(1);
const LEN: QueryKindId = QueryKindId(2);

/// What all snapshots of a database have in common.
struct Shared {
    cache: SharedCache<u64>,
    registry: InFlightRegistry<Entry>,
}

impl Shared {
    fn new() -> Self {
        Shared { cache: SharedCache::new(), registry: InFlightRegistry::new() }
    }
}

/// A database with one input and one derived query.
struct Db {
    tag: u64,
    snapshots: Cell<u64>,
    runtime: Runtime,
    stack: FrameStack,
    text: InputIngredient<String>,
    core: DerivedCore<u64>,
    executions: usize,
    compute: fn(&mut Db, &mut Shared, &Key) -> ComputeOutcome<u64>,
}

fn key(text: &str) -> Key {
    Key::encode_facet(facet_postcard::to_vec(&text.to_string()).map_err(|e| format!("{e:?}")))
        .unwrap()
}

fn text_of(key: &Key) -> String {
    facet_postcard::from_slice::<String>(key.bytes()).unwrap()
}

fn same(a: &String, b: &String) -> bool {
    a == b
}

fn outcome(r: PicanteResult<u64>) -> ComputeOutcome<u64> {
    match r {
        Ok(value) => ComputeOutcome::Value { value: Arc::new(value), unchanged: false },
        Err(error) => ComputeOutcome::Failed(error),
    }
}

/// The length of the text under the same key.
fn text_len(db: &mut Db, _shared: &mut Shared, key: &Key) -> ComputeOutcome<u64> {
    db.executions += 1;
    match db.text.get(&mut db.stack, Ok(key.clone())) {
        Ok(Some(text)) => outcome(Ok(text.len() as u64)),
        Ok(None) => ComputeOutcome::Panicked("missing input".to_string()),
        Err(error) => outcome(Err(error)),
    }
}

impl Db {
    fn new(compute: fn(&mut Db, &mut Shared, &Key) -> ComputeOutcome<u64>) -> Self {
        Db {
            tag: 1,
            snapshots: Cell::new(0),
            runtime: Runtime::new(RuntimeId(1)),
            stack: FrameStack::new(),
            text: InputIngredient::new(TEXT, "Text"),
            core: DerivedCore::new(LEN, "Len"),
            executions: 0,
            compute,
        }
    }

    fn set(&mut self, name: &str, value: &str) -> Revision {
        self.text.set(&mut self.runtime, Ok(key(name)), value.to_string(), same)
    }

    fn snapshot(&self) -> Db {
        let mut core = DerivedCore::new(self.core.kind(), self.core.kind_name());
        core.load_cells(self.core.snapshot_cells_deep());
        let taken = self.snapshots.get() + 1;
        self.snapshots.set(taken);
        let tag = self.tag * 100 + taken;
        Db {
            tag,
            snapshots: Cell::new(0),
            runtime: Runtime::new_for_snapshot(&self.runtime, RuntimeId(tag)),
            stack: FrameStack::new(),
            text: InputIngredient::new_from_snapshot(TEXT, "Text", self.text.snapshot()),
            core,
            executions: 0,
            compute: self.compute,
        }
    }

    fn step(
        &mut self,
        shared: &mut Shared,
        access: &mut Access<u64, Entry>,
        fresh: &Arc<Entry>,
        event: AccessEvent<u64>,
    ) -> AccessStep<u64, Entry> {
        let step = access.advance(
            &mut self.core,
            &mut self.runtime,
            &mut shared.cache,
            &mut shared.registry,
            &mut self.stack,
            fresh,
            None,
            event,
        );
        match &step.publish {
            Some(InFlightState::Done { value, deps, changed_at }) => {
                fresh.lock().unwrap().complete(value.clone(), deps.clone(), *changed_at)
            }
            Some(InFlightState::Failed(error)) => fresh.lock().unwrap().fail(error.clone()),
            Some(InFlightState::Cancelled) => fresh.lock().unwrap().cancel(),
            Some(InFlightState::Running) | None => {}
        }
        step
    }

    fn touch(&mut self, shared: &mut Shared, dep: &Dep) -> Option<PicanteResult<Touch>> {
        if dep.kind == TEXT {
            Some(Ok(Touch::of_source(self.text.touch(&dep.key))))
        } else if dep.kind == LEN {
            Some(self.access(shared, dep.key.clone(), false).map(|r| Touch::of_query(&r)))
        } else {
            None
        }
    }

    fn access(
        &mut self,
        shared: &mut Shared,
        key: Key,
        want_value: bool,
    ) -> PicanteResult<ErasedAccessResult<u64>> {
        let mut access = Access::begin(&mut self.core, &mut self.stack, key.clone(), want_value)?;
        let fresh: Arc<Entry> = Arc::new(Mutex::new(InFlightEntry::new()));
        let mut event = AccessEvent::Poll;
        loop {
            let step = self.step(shared, &mut access, &fresh, event);
            event = match step.action {
                AccessAction::Return(result) => return result,
                AccessAction::Retry => AccessEvent::Poll,
                AccessAction::Touch(dep) => AccessEvent::Touched(self.touch(shared, &dep)),
                AccessAction::Follow(entry) => AccessEvent::Leader(entry.lock().unwrap().state()),
                AccessAction::Wait => panic!("nothing else is running"),
                AccessAction::Run { previous } => {
                    let compute = self.compute;
                    AccessEvent::Computed(match compute(self, shared, &key) {
                        ComputeOutcome::Value { value, .. } => {
                            let unchanged = previous.is_some_and(|p| *p == *value);
                            ComputeOutcome::Value { value, unchanged }
                        }
                        other => other,
                    })
                }
            };
        }
    }

    fn get(&mut self, shared: &mut Shared, name: &str) -> PicanteResult<u64> {
        Ok(*self.access(shared, key(name), true)?.value.unwrap())
    }
}

#[test]
fn derived_caches_and_invalidates() {
    let mut shared = Shared::new();
    let mut db = Db::new(text_len);
    db.set("a", "hello");

    let v1 = db.get(&mut shared, "a").unwrap();
    let v2 = db.get(&mut shared, "a").unwrap();
    assert_eq!(v1, 5);
    assert_eq!(v2, 5);
    assert_eq!(db.executions, 1);

    db.set("a", "hello!!!");

    let v3 = db.get(&mut shared, "a").unwrap();
    assert_eq!(v3, 8);
    assert_eq!(db.executions, 2);
}

#[test]
fn derived_singleflight_across_tasks() {
    fn slow(db: &mut Db, _shared: &mut Shared, _key: &Key) -> ComputeOutcome<u64> {
        db.executions += 1;
        outcome(Ok(42))
    }
    let mut shared = Shared::new();
    let mut db = Db::new(slow);

    let fresh: Vec<Arc<Entry>> =
        (0..10).map(|_| Arc::new(Mutex::new(InFlightEntry::new()))).collect();
    let mut tasks: Vec<Access<u64, Entry>> = Vec::new();
    for _ in 0..10 {
        tasks.push(Access::begin(&mut db.core, &mut db.stack, key("k"), true).unwrap());
    }

    // The first task runs the query; the others find it running.
    let first = db.step(&mut shared, &mut tasks[0], &fresh[0], AccessEvent::Poll);
    assert!(matches!(first.action, AccessAction::Run { .. }));
    // Every task has a stack of its own.
    let mut other_stack = FrameStack::new();
    std::mem::swap(&mut db.stack, &mut other_stack);
    for i in 1..10 {
        let step = db.step(&mut shared, &mut tasks[i], &fresh[i], AccessEvent::Poll);
        assert!(matches!(step.action, AccessAction::Wait));
    }
    std::mem::swap(&mut db.stack, &mut other_stack);

    let value = slow(&mut db, &mut shared, &key("k"));
    let done = db.step(&mut shared, &mut tasks[0], &fresh[0], AccessEvent::Computed(value));
    assert!(done.wake);
    match done.action {
        AccessAction::Return(Ok(result)) => assert_eq!(*result.value.unwrap(), 42),
        _ => panic!("expected a value"),
    }

    for i in 1..10 {
        let step = db.step(&mut shared, &mut tasks[i], &fresh[i], AccessEvent::Poll);
        match step.action {
            AccessAction::Return(Ok(result)) => assert_eq!(*result.value.unwrap(), 42),
            _ => panic!("expected a value"),
        }
    }
    assert_eq!(db.executions, 1);
}

#[test]
fn detects_cycles_within_task() {
    fn cycle(db: &mut Db, shared: &mut Shared, key: &Key) -> ComputeOutcome<u64> {
        outcome(db.access(shared, key.clone(), true).map(|r| *r.value.unwrap()))
    }
    let mut shared = Shared::new();
    let mut db = Db::new(cycle);

    let err = db.get(&mut shared, "k").unwrap_err();
    match &*err {
        PicanteError::Cycle { .. } => {}
        other => panic!("expected cycle error, got {other:?}"),
    }
    let hash = format!("{:016x}", key("k").hash());
    assert_eq!(
        err.message(),
        format!(
            "dependency cycle detected\n  → kind_2, key_{hash}  (initial)\n  → kind_2, key_{hash}  ← cycle (already in stack)"
        )
    );
}

#[test]
fn poisoned_cells_recompute_after_revision_bump() {
    fn maybe_panic(db: &mut Db, _shared: &mut Shared, _key: &Key) -> ComputeOutcome<u64> {
        let n = db.executions;
        db.executions += 1;
        if n == 0 {
            return ComputeOutcome::Panicked(picante::error::panic_message(Some("boom"), None));
        }
        outcome(Ok(42))
    }
    let mut shared = Shared::new();
    let mut db = Db::new(maybe_panic);

    let err1 = db.get(&mut shared, "k").unwrap_err();
    match &*err1 {
        PicanteError::Panic { .. } => {}
        other => panic!("expected panic error, got {other:?}"),
    }
    assert_eq!(err1.message(), "query panicked: boom");

    let err2 = db.get(&mut shared, "k").unwrap_err();
    match &*err2 {
        PicanteError::Panic { .. } => {}
        other => panic!("expected panic error, got {other:?}"),
    }

    assert_eq!(db.executions, 1);

    // Bump revision so the poisoned value becomes stale and can be recomputed.
    db.runtime.bump_revision();

    let v = db.get(&mut shared, "k").unwrap();
    assert_eq!(v, 42);
    assert_eq!(db.executions, 2);
}

#[test]
fn derived_snapshot_captures_cells() {
    let mut shared = Shared::new();
    let mut db = Db::new(text_len);
    db.set("a", "hello");

    let _ = db.get(&mut shared, "a").unwrap();

    let snapshot = db.core.snapshot();

    assert_eq!(snapshot.len(), 1);
    assert!(snapshot.get(&key("a")).is_some());
}

#[test]
fn derived_snapshot_remains_valid_after_modification() {
    let mut shared = Shared::new();
    let mut db = Db::new(text_len);
    db.set("a", "hello");

    let _ = db.get(&mut shared, "a").unwrap();

    let snapshot = db.core.snapshot();

    // Compute another value on the live ingredient.
    let _ = db.get(&mut shared, "b");

    assert_eq!(snapshot.len(), 1);
    assert!(snapshot.get(&key("a")).is_some());
    assert!(snapshot.get(&key("b")).is_none());

    let live_snapshot = db.core.snapshot();
    assert_eq!(live_snapshot.len(), 2);
}

#[test]
fn shared_cache_reuses_across_snapshots_and_unrelated_revisions() {
    let mut shared = Shared::new();
    shared.cache.set_max_entries(1000);
    let mut db = Db::new(text_len);
    db.set("a", "hello");
    db.set("b", "world");

    // Snapshot 1 computes.
    let mut snap1 = db.snapshot();
    assert_eq!(snap1.get(&mut shared, "a").unwrap(), 5);
    assert_eq!(snap1.executions, 1);

    // Snapshot 2 at the same revision adopts from the shared cache (no recompute).
    let mut snap2 = db.snapshot();
    assert_eq!(snap2.get(&mut shared, "a").unwrap(), 5);
    assert_eq!(snap2.executions, 0);

    // Bump an unrelated input to a new revision. The query depends only on `a`,
    // so revalidation succeeds and adoption still avoids the recompute.
    db.set("b", "world!!!");

    let mut snap3 = db.snapshot();
    assert_eq!(snap3.get(&mut shared, "a").unwrap(), 5);
    assert_eq!(snap3.executions, 0);
}

#[test]
fn a_shared_record_that_is_stale_is_not_adopted() {
    let mut shared = Shared::new();
    let mut db = Db::new(text_len);
    db.set("a", "hello");
    let mut snap1 = db.snapshot();
    assert_eq!(snap1.get(&mut shared, "a").unwrap(), 5);

    db.set("a", "hi");
    let mut snap2 = db.snapshot();
    assert_eq!(snap2.get(&mut shared, "a").unwrap(), 2);
    assert_eq!(snap2.executions, 1);
    // The first snapshot still sees what it was taken of.
    assert_eq!(snap1.get(&mut shared, "a").unwrap(), 5);
    assert_eq!(snap1.executions, 1);
}

#[test]
fn unrelated_databases_do_not_share() {
    let mut shared = Shared::new();
    let mut one = Db::new(text_len);
    let mut two = Db::new(text_len);
    two.runtime = Runtime::new(RuntimeId(2));
    one.set("a", "hello");
    two.set("a", "world");
    assert_eq!(one.get(&mut shared, "a").unwrap(), 5);
    assert_eq!(two.get(&mut shared, "a").unwrap(), 5);
    assert_eq!(one.executions, 1);
    assert_eq!(two.executions, 1);
}

#[test]
fn an_equal_result_keeps_its_changed_at() {
    let mut shared = Shared::new();
    let mut db = Db::new(text_len);
    db.set("a", "hello");
    let first = db.access(&mut shared, key("a"), true).unwrap();
    assert_eq!(first.changed_at, Revision(1));
    db.set("a", "world");
    let second = db.access(&mut shared, key("a"), true).unwrap();
    assert_eq!(second.changed_at, Revision(1));
    assert_eq!(db.executions, 2);
    db.set("a", "longer");
    let third = db.access(&mut shared, key("a"), true).unwrap();
    assert_eq!(third.changed_at, Revision(3));
    assert_eq!(*third.value.unwrap(), 6);
}

#[test]
fn a_value_is_revalidated_against_when_it_was_last_valid() {
    let mut shared = Shared::new();
    let mut db = Db::new(text_len);
    db.set("a", "hello");
    assert_eq!(db.get(&mut shared, "a").unwrap(), 5);
    db.set("a", "world");
    assert_eq!(db.get(&mut shared, "a").unwrap(), 5);
    assert_eq!(db.executions, 2);

    // Nothing that was read has changed since the second run.
    db.set("b", "x");
    let third = db.access(&mut shared, key("a"), true).unwrap();
    assert_eq!(*third.value.unwrap(), 5);
    assert_eq!(third.changed_at, Revision(1));
    assert_eq!(db.executions, 2);

    db.set("a", "hi");
    assert_eq!(db.get(&mut shared, "a").unwrap(), 2);
    assert_eq!(db.executions, 3);
}

#[test]
fn a_change_that_nobody_saw_does_not_count() {
    let mut shared = Shared::new();
    let mut db = Db::new(text_len);
    db.set("a", "hello");
    let first = db.access(&mut shared, key("a"), true).unwrap();
    assert_eq!(first.changed_at, Revision(1));

    // The value changes and changes back before anyone looks again.
    db.set("a", "hi");
    db.set("a", "world");
    let second = db.access(&mut shared, key("a"), true).unwrap();
    assert_eq!(*second.value.unwrap(), 5);
    assert_eq!(second.changed_at, Revision(1));
    assert_eq!(db.executions, 2);

    // Where someone looks in between, it does.
    db.set("a", "hi");
    assert_eq!(db.get(&mut shared, "a").unwrap(), 2);
    db.set("a", "hello");
    let last = db.access(&mut shared, key("a"), true).unwrap();
    assert_eq!(*last.value.unwrap(), 5);
    assert_eq!(last.changed_at, db.runtime.current_revision());
}

#[test]
fn a_record_is_right_for_snapshots_that_agree() {
    let mut shared = Shared::new();
    let mut db = Db::new(text_len);
    db.set("a", "hello");

    // Two snapshots of the same revision agree on everything.
    let mut one = db.snapshot();
    let mut two = db.snapshot();
    assert_eq!(one.get(&mut shared, "a").unwrap(), 5);
    assert_eq!(two.get(&mut shared, "a").unwrap(), 5);
    assert_eq!(two.executions, 0);

    // A snapshot that was changed on its own shares with nobody but its own snapshots.
    let mut three = db.snapshot();
    three.set("a", "hi");
    assert_eq!(three.get(&mut shared, "a").unwrap(), 2);
    assert_eq!(three.executions, 1);
    let mut four = three.snapshot();
    four.core = DerivedCore::new(LEN, "Len");
    assert_eq!(four.get(&mut shared, "a").unwrap(), 2);
    assert_eq!(four.executions, 0);
}

#[test]
fn a_snapshot_is_not_told_what_was_computed_later() {
    let mut shared = Shared::new();
    let mut db = Db::new(text_len);
    db.set("a", "hello");
    let mut snapshot = db.snapshot();

    // The database changes and computes before the snapshot is first asked.
    db.set("a", "hello!!!");
    assert_eq!(db.get(&mut shared, "a").unwrap(), 8);

    assert_eq!(snapshot.get(&mut shared, "a").unwrap(), 5);
    assert_eq!(snapshot.executions, 1);
    assert_eq!(snapshot.runtime.current_revision(), Revision(1));

    // And the other way round: what the snapshot has found out is of an earlier revision.
    let mut second = db.snapshot();
    second.core = DerivedCore::new(LEN, "Len");
    assert_eq!(second.get(&mut shared, "a").unwrap(), 8);
    assert_eq!(db.get(&mut shared, "a").unwrap(), 8);
    assert_eq!(snapshot.get(&mut shared, "a").unwrap(), 5);
}

#[test]
fn views_that_were_changed_on_their_own_do_not_share() {
    let mut shared = Shared::new();
    let mut db = Db::new(text_len);
    db.set("a", "hello");
    let mut snapshot = db.snapshot();
    assert_eq!(snapshot.runtime.id(), db.runtime.id());

    // Both are changed once, and are at the same revision.
    db.set("a", "hello!!!");
    snapshot.set("a", "hi");
    assert_eq!(snapshot.runtime.current_revision(), db.runtime.current_revision());
    assert_ne!(snapshot.runtime.id(), db.runtime.id());

    assert_eq!(db.get(&mut shared, "a").unwrap(), 8);
    assert_eq!(snapshot.get(&mut shared, "a").unwrap(), 2);
    assert_eq!(db.get(&mut shared, "a").unwrap(), 8);

    // Nor do they follow each other.
    db.set("a", "hello, world");
    snapshot.set("a", "");
    let fresh: Arc<Entry> = Arc::new(Mutex::new(InFlightEntry::new()));
    let mut leader: Access<u64, Entry> =
        Access::begin(&mut db.core, &mut db.stack, key("a"), true).unwrap();
    let step = db.step(&mut shared, &mut leader, &fresh, AccessEvent::Poll);
    let dep = match step.action {
        AccessAction::Touch(dep) => dep,
        _ => panic!("expected to check the value at hand"),
    };
    let touched = db.touch(&mut shared, &dep);
    let step = db.step(&mut shared, &mut leader, &fresh, AccessEvent::Touched(touched));
    assert!(matches!(step.action, AccessAction::Touch(_)));
    let touched = db.touch(&mut shared, &dep);
    let step = db.step(&mut shared, &mut leader, &fresh, AccessEvent::Touched(touched));
    assert!(matches!(step.action, AccessAction::Run { .. }));
    assert_eq!(snapshot.get(&mut shared, "a").unwrap(), 0);
}

/// Twice the length of the text that follows `2*` in the key, or the length of the text.
fn twice_len(db: &mut Db, shared: &mut Shared, at: &Key) -> ComputeOutcome<u64> {
    match text_of(at).strip_prefix("2*") {
        Some(rest) => {
            db.executions += 1;
            outcome(db.get(shared, rest).map(|n| 2 * n))
        }
        None => text_len(db, shared, at),
    }
}

#[test]
fn what_is_taken_over_goes_with_what_it_was_computed_from() {
    let mut shared = Shared::new();
    let mut db = Db::new(twice_len);
    db.set("a", "hello");
    assert_eq!(db.get(&mut shared, "a").unwrap(), 5);

    // A snapshot computes at the next revision, and the database takes the result over.
    db.set("a", "hi");
    let mut snapshot = db.snapshot();
    assert_eq!(snapshot.get(&mut shared, "2*a").unwrap(), 4);
    assert_eq!(db.get(&mut shared, "2*a").unwrap(), 4);

    // The length changes back: that is a change to the database, too.
    db.set("a", "world");
    assert_eq!(db.get(&mut shared, "2*a").unwrap(), 10);
    assert_eq!(snapshot.get(&mut shared, "2*a").unwrap(), 4);
}

#[test]
fn an_older_record_is_not_taken_over_on_a_length_that_came_back() {
    let mut shared = Shared::new();
    let mut db = Db::new(twice_len);
    db.set("a", "hello");
    assert_eq!(db.get(&mut shared, "a").unwrap(), 5);

    // Only a snapshot looks at the second revision.
    db.set("a", "hi");
    let mut snapshot = db.snapshot();
    assert_eq!(snapshot.get(&mut shared, "2*a").unwrap(), 4);

    // To the database the length has not changed since the first revision.
    db.set("a", "world");
    let length = db.access(&mut shared, key("a"), true).unwrap();
    assert_eq!(*length.value.unwrap(), 5);
    assert_eq!(length.changed_at, Revision(1));
    assert!(!length.settled);
    assert_eq!(db.get(&mut shared, "2*a").unwrap(), 10);
}

#[test]
fn results_of_results_are_taken_over_at_unrelated_revisions() {
    let mut shared = Shared::new();
    let mut db = Db::new(twice_len);
    db.set("a", "hello");
    let mut one = db.snapshot();
    assert_eq!(one.get(&mut shared, "2*a").unwrap(), 10);
    assert_eq!(one.executions, 2);

    db.set("b", "world");
    let mut two = db.snapshot();
    let taken = two.access(&mut shared, key("2*a"), true).unwrap();
    assert_eq!(*taken.value.unwrap(), 10);
    assert_eq!(taken.changed_at, Revision(1));
    assert!(taken.settled);
    assert_eq!(two.executions, 0);

    // So they are where part of it is at hand already.
    assert_eq!(db.get(&mut shared, "a").unwrap(), 5);
    db.set("b", "hello");
    assert_eq!(db.get(&mut shared, "a").unwrap(), 5);
    let mut three = db.snapshot();
    assert_eq!(three.get(&mut shared, "2*a").unwrap(), 10);
    assert_eq!(three.executions, 0);
    assert_eq!(db.executions, 0);
}

/// Seven, whatever comes of the length of the text.
fn seven_anyway(db: &mut Db, shared: &mut Shared, at: &Key) -> ComputeOutcome<u64> {
    match text_of(at).strip_prefix("7:") {
        Some(rest) => {
            let _ = db.get(shared, rest);
            outcome(Ok(7))
        }
        None => text_len(db, shared, at),
    }
}

#[test]
fn a_failure_that_a_query_copes_with_is_not_passed_on() {
    let mut shared = Shared::new();
    let mut db = Db::new(seven_anyway);
    db.set("b", "world");
    let mut one = db.snapshot();
    assert_eq!(one.get(&mut shared, "7:a").unwrap(), 7);

    // At the same revision the result is taken over, at another one it is computed.
    let mut two = db.snapshot();
    assert_eq!(two.get(&mut shared, "7:a").unwrap(), 7);
    db.set("b", "hello");
    let mut three = db.snapshot();
    assert_eq!(three.get(&mut shared, "7:a").unwrap(), 7);
    assert!(two.get(&mut shared, "a").is_err());
}

#[test]
fn nothing_is_taken_over_once_the_database_has_moved_on() {
    let mut shared = Shared::new();
    let mut db = Db::new(text_len);
    db.set("a", "hello");
    let mut snapshot = db.snapshot();
    assert_eq!(snapshot.get(&mut shared, "a").unwrap(), 5);

    let fresh: Arc<Entry> = Arc::new(Mutex::new(InFlightEntry::new()));
    let mut access: Access<u64, Entry> =
        Access::begin(&mut db.core, &mut db.stack, key("a"), true).unwrap();
    let step = db.step(&mut shared, &mut access, &fresh, AccessEvent::Poll);
    let dep = match step.action {
        AccessAction::Touch(dep) => dep,
        _ => panic!("expected to look at the record"),
    };
    db.set("a", "hi");
    let touched = db.touch(&mut shared, &dep);
    let step = db.step(&mut shared, &mut access, &fresh, AccessEvent::Touched(touched));
    assert!(matches!(step.action, AccessAction::Retry));
    assert!(step.wake);
    assert!(db.core.cell_for_key(&key("a")).unwrap().ready_record().is_none());
    assert_eq!(db.get(&mut shared, "a").unwrap(), 2);
    assert_eq!(snapshot.get(&mut shared, "a").unwrap(), 5);
}

/// Whether a record is valid on a database at its current revision.
fn is_valid_on(
    db: &mut Db,
    shared: &mut Shared,
    record: &ErasedReadyRecord<u64>,
) -> PicanteResult<bool> {
    let (mut check, mut step) = RecordCheck::begin(record, db.runtime.current_revision());
    loop {
        let dep = match step {
            RecordStep::Touch(dep) => dep,
            RecordStep::Verdict(verdict) => return verdict,
        };
        let touched = db.touch(shared, &dep);
        step = check.touched(touched);
    }
}

fn record_in(db: &Db, name: &str) -> ErasedReadyRecord<u64> {
    db.core.cell_for_key(&key(name)).unwrap().ready_record().unwrap()
}

#[test]
fn a_valid_record_can_be_promoted() {
    let mut shared = Shared::new();
    let mut db = Db::new(twice_len);
    db.set("a", "hello");
    let mut snapshot = db.snapshot();
    assert_eq!(snapshot.get(&mut shared, "2*a").unwrap(), 10);
    let record = record_in(&snapshot, "2*a");

    // At the revision of the snapshot, and after an unrelated change.
    assert!(is_valid_on(&mut db, &mut shared, &record).unwrap());
    db.set("b", "world");
    assert!(is_valid_on(&mut db, &mut shared, &record).unwrap());
    db.core.insert_ready_record(&key("2*a"), record_in(&snapshot, "2*a"));
    assert_eq!(db.get(&mut shared, "2*a").unwrap(), 10);
    assert_eq!(db.executions, 0);

    // Not once the text has changed.
    db.set("a", "hi");
    assert!(!is_valid_on(&mut db, &mut shared, &record).unwrap());
    assert_eq!(db.get(&mut shared, "2*a").unwrap(), 4);

    // Nor on a database that has not come as far, or that does not know what the query reads.
    let later = record_in(&db, "2*a");
    assert!(!is_valid_on(&mut snapshot, &mut shared, &later).unwrap());
    let strange = ErasedReadyRecord {
        value: Arc::new(1),
        verified_at: Revision(1),
        changed_at: Revision(1),
        deps: Arc::new(vec![Dep { kind: QueryKindId(99), key: key("a") }]),
    };
    assert!(!is_valid_on(&mut db, &mut shared, &strange).unwrap());
}

#[test]
fn a_record_is_not_promoted_on_a_length_that_came_back() {
    let mut shared = Shared::new();
    let mut db = Db::new(twice_len);
    db.set("a", "hello");
    assert_eq!(db.get(&mut shared, "a").unwrap(), 5);
    db.set("a", "hi");
    let mut snapshot = db.snapshot();
    assert_eq!(snapshot.get(&mut shared, "2*a").unwrap(), 4);
    let record = record_in(&snapshot, "2*a");

    db.set("a", "world");
    assert!(!is_valid_on(&mut db, &mut shared, &record).unwrap());
}

#[test]
fn a_cancelled_computation_leaves_the_cell_as_it_was() {
    let mut shared = Shared::new();
    let mut db = Db::new(text_len);
    db.set("a", "hello");
    let fresh: Arc<Entry> = Arc::new(Mutex::new(InFlightEntry::new()));
    let mut access: Access<u64, Entry> =
        Access::begin(&mut db.core, &mut db.stack, key("a"), true).unwrap();
    let step = db.step(&mut shared, &mut access, &fresh, AccessEvent::Poll);
    assert!(matches!(step.action, AccessAction::Run { .. }));
    let farewell = access.abandon(
        &mut db.core,
        &db.runtime,
        &shared.cache,
        &mut shared.registry,
        &mut db.stack,
    );
    assert!(farewell.wake);
    assert!(matches!(farewell.publish, Some(InFlightState::Cancelled)));
    assert_eq!(db.get(&mut shared, "a").unwrap(), 5);
    assert_eq!(db.executions, 1);
}

#[test]
fn followers_take_the_leaders_result() {
    let mut shared = Shared::new();
    let mut db = Db::new(text_len);
    db.set("a", "hello");
    let mut snap1 = db.snapshot();
    let mut snap2 = db.snapshot();

    let fresh1: Arc<Entry> = Arc::new(Mutex::new(InFlightEntry::new()));
    let mut leader: Access<u64, Entry> =
        Access::begin(&mut snap1.core, &mut snap1.stack, key("a"), true).unwrap();
    let step = snap1.step(&mut shared, &mut leader, &fresh1, AccessEvent::Poll);
    assert!(matches!(step.action, AccessAction::Run { .. }));

    let fresh2: Arc<Entry> = Arc::new(Mutex::new(InFlightEntry::new()));
    let mut follower: Access<u64, Entry> =
        Access::begin(&mut snap2.core, &mut snap2.stack, key("a"), true).unwrap();
    let step = snap2.step(&mut shared, &mut follower, &fresh2, AccessEvent::Poll);
    let entry = match step.action {
        AccessAction::Follow(entry) => entry,
        _ => panic!("expected to follow"),
    };
    assert!(Arc::ptr_eq(&entry, &fresh1));

    let value = text_len(&mut snap1, &mut shared, &key("a"));
    snap1.step(&mut shared, &mut leader, &fresh1, AccessEvent::Computed(value));
    let state = entry.lock().unwrap().state();
    assert!(matches!(state, InFlightState::Done { .. }));
    let step = snap2.step(&mut shared, &mut follower, &fresh2, AccessEvent::Leader(state));
    // The follower looks at what the result was computed from.
    let dep = match step.action {
        AccessAction::Touch(dep) => dep,
        _ => panic!("expected a dependency"),
    };
    assert!(dep.kind == TEXT && dep.key == key("a"));
    let touched = snap2.touch(&mut shared, &dep);
    let step = snap2.step(&mut shared, &mut follower, &fresh2, AccessEvent::Touched(touched));
    assert!(step.wake);
    match step.action {
        AccessAction::Return(Ok(result)) => assert_eq!(*result.value.unwrap(), 5),
        _ => panic!("expected a value"),
    }
    assert_eq!(snap1.executions, 1);
    assert_eq!(snap2.executions, 0);
    assert_eq!(snap2.get(&mut shared, "a").unwrap(), 5);
    assert_eq!(snap2.executions, 0);
}

#[test]
fn followers_are_not_told_what_was_computed_across_a_change() {
    let mut shared = Shared::new();
    let mut db = Db::new(text_len);
    db.set("a", "hello");
    let mut snapshot = db.snapshot();

    let fresh1: Arc<Entry> = Arc::new(Mutex::new(InFlightEntry::new()));
    let mut leader: Access<u64, Entry> =
        Access::begin(&mut db.core, &mut db.stack, key("a"), true).unwrap();
    let step = db.step(&mut shared, &mut leader, &fresh1, AccessEvent::Poll);
    assert!(matches!(step.action, AccessAction::Run { .. }));

    let fresh2: Arc<Entry> = Arc::new(Mutex::new(InFlightEntry::new()));
    let mut follower: Access<u64, Entry> =
        Access::begin(&mut snapshot.core, &mut snapshot.stack, key("a"), true).unwrap();
    let step = snapshot.step(&mut shared, &mut follower, &fresh2, AccessEvent::Poll);
    assert!(matches!(step.action, AccessAction::Follow(_)));

    // The input changes before the leader reads it.
    db.set("a", "hello!!!");
    let value = text_len(&mut db, &mut shared, &key("a"));
    let step = db.step(&mut shared, &mut leader, &fresh1, AccessEvent::Computed(value));
    assert!(matches!(step.action, AccessAction::Retry));
    assert!(matches!(step.publish, Some(InFlightState::Cancelled)));

    let state = fresh1.lock().unwrap().state();
    let step = snapshot.step(&mut shared, &mut follower, &fresh2, AccessEvent::Leader(state));
    assert!(matches!(step.action, AccessAction::Retry));
    assert_eq!(snapshot.get(&mut shared, "a").unwrap(), 5);
    assert_eq!(db.get(&mut shared, "a").unwrap(), 8);
}

// Persistence. Records are encoded as tuples.

type TextRecord = (String, Option<String>, u64);
type LenRecord = (String, u64, (u64, u64), Vec<(u32, Vec<u8>)>);

fn encode_text(key: &[u8], entry: &InputEntry<Arc<String>>) -> PicanteResult<Vec<u8>> {
    let name = facet_postcard::from_slice::<String>(key).unwrap();
    let record: TextRecord =
        (name, entry.value.as_ref().map(|v| v.to_string()), entry.changed_at.0);
    Ok(facet_postcard::to_vec(&record).unwrap())
}

fn decode_text(bytes: &[u8]) -> PicanteResult<(Key, InputEntry<Arc<String>>)> {
    match facet_postcard::from_slice::<TextRecord>(bytes) {
        Ok((name, value, changed_at)) => Ok((
            key(&name),
            InputEntry { value: value.map(Arc::new), changed_at: Revision(changed_at) },
        )),
        Err(e) => Err(Arc::new(PicanteError::Decode {
            what: "input record",
            message: format!("{e:?}"),
        })),
    }
}

fn encode_len(key: &[u8], record: &ErasedReadyRecord<u64>) -> PicanteResult<Vec<u8>> {
    let name = facet_postcard::from_slice::<String>(key).unwrap();
    let deps = dep_records(&record.deps).into_iter().map(|d| (d.kind_id, d.key_bytes)).collect();
    let record: LenRecord =
        (name, *record.value, (record.verified_at.0, record.changed_at.0), deps);
    Ok(facet_postcard::to_vec(&record).unwrap())
}

fn decode_len(bytes: &[u8]) -> PicanteResult<(Key, ErasedReadyRecord<u64>)> {
    let (name, value, (verified_at, changed_at), deps) =
        facet_postcard::from_slice::<LenRecord>(bytes).map_err(|e| {
            Arc::new(PicanteError::Decode { what: "derived record", message: format!("{e:?}") })
        })?;
    let records: Vec<DepRecord> =
        deps.into_iter().map(|(kind_id, key_bytes)| DepRecord { kind_id, key_bytes }).collect();
    Ok((
        key(&name),
        ErasedReadyRecord {
            value: Arc::new(value),
            verified_at: Revision(verified_at),
            changed_at: Revision(changed_at),
            deps: Arc::new(deps_from_records(&records)),
        },
    ))
}

fn infos(db: &Db) -> Vec<IngredientInfo> {
    vec![
        IngredientInfo {
            kind: db.text.kind(),
            kind_name: db.text.kind_name(),
            section_type: SectionType::Input,
        },
        IngredientInfo {
            kind: db.core.kind(),
            kind_name: db.core.kind_name(),
            section_type: SectionType::Derived,
        },
    ]
}

fn save(db: &Db, options: &CacheSaveOptions) -> PicanteResult<Vec<u8>> {
    ensure_unique_kinds(&[db.text.kind(), db.core.kind()])?;
    let sections: Vec<Section> = vec![
        build_section(
            db.text.kind(),
            db.text.kind_name(),
            SectionType::Input,
            db.text.save_records(encode_text)?,
            options,
        ),
        build_section(
            db.core.kind(),
            db.core.kind_name(),
            SectionType::Derived,
            db.core.save_records(encode_len)?,
            options,
        ),
    ];
    encode_for_save(db.runtime.current_revision().0, sections, options)
}

fn carry_out(db: &mut Db, plan: LoadPlan) -> PicanteResult<bool> {
    db.runtime.clear_dependency_graph();
    db.text.clear();
    db.core.clear();
    for load in plan.loads {
        if load.ingredient == 0 {
            db.text.load_records(&load.records, decode_text)?;
        } else {
            db.core.load_records(&load.records, decode_len)?;
        }
    }
    if let Some(failure) = plan.failure {
        return Err(failure);
    }
    db.core.restore_runtime_state(&mut db.runtime);
    db.runtime.set_current_revision(plan.revision);
    Ok(true)
}

fn load(db: &mut Db, bytes: &[u8], options: &CacheLoadOptions) -> PicanteResult<bool> {
    let plan = plan_load(bytes, &infos(db), options)?;
    carry_out(db, plan)
}

#[test]
fn persistence_roundtrip() {
    let mut shared = Shared::new();
    let mut db = Db::new(text_len);
    db.set("a", "hello");

    let v = db.get(&mut shared, "a").unwrap();
    assert_eq!(v, 5);
    assert_eq!(db.executions, 1);

    let bytes = save(&db, &CacheSaveOptions::default()).unwrap();

    let mut shared2 = Shared::new();
    let mut db2 = Db::new(text_len);
    let loaded = load(&mut db2, &bytes, &CacheLoadOptions::default()).unwrap();
    assert!(loaded);

    let v2 = db2.get(&mut shared2, "a").unwrap();
    assert_eq!(v2, 5);
    assert_eq!(db2.executions, 0);

    db2.set("a", "hello!");
    let v3 = db2.get(&mut shared2, "a").unwrap();
    assert_eq!(v3, 6);
    assert_eq!(db2.executions, 1);
}

#[test]
fn load_cache_restores_reverse_deps_for_invalidation_events() {
    let mut shared = Shared::new();
    let mut db = Db::new(text_len);
    db.set("a", "hello");
    let v1 = db.get(&mut shared, "a").unwrap();
    assert_eq!(v1, 5);

    let bytes = save(&db, &CacheSaveOptions::default()).unwrap();

    let mut db2 = Db::new(text_len);
    let loaded = load(&mut db2, &bytes, &CacheLoadOptions::default()).unwrap();
    assert!(loaded);

    match &db2.runtime.take_events()[0] {
        RuntimeEvent::RevisionSet { revision } => assert_eq!(*revision, Revision(1)),
        other => panic!("expected RevisionSet, got {other:?}"),
    }

    db2.set("a", "hello!");

    let mut saw = false;
    for event in db2.runtime.take_events() {
        if let RuntimeEvent::QueryInvalidated { kind, key, by_kind, by_key, .. } = event {
            assert_eq!(kind, QueryKindId(2));
            assert_eq!(text_of(&key), "a");
            assert_eq!(by_kind, QueryKindId(1));
            assert_eq!(text_of(&by_key), "a");
            saw = true;
            break;
        }
    }
    assert!(saw, "expected QueryInvalidated event after input set");
}

#[test]
fn save_cache_respects_max_bytes() {
    let mut shared = Shared::new();
    let mut db = Db::new(text_len);

    // Make the input section quite large.
    for i in 0..200u32 {
        db.set(&format!("k{i}"), &"x".repeat(50));
    }
    // Populate some derived values too.
    for i in 0..200u32 {
        let _ = db.get(&mut shared, &format!("k{i}")).unwrap();
    }

    let max_bytes = 4096;
    let bytes = save(
        &db,
        &CacheSaveOptions {
            max_bytes: Some(max_bytes),
            max_records_per_section: None,
            max_record_bytes: None,
        },
    )
    .unwrap();
    assert!(
        bytes.len() <= max_bytes,
        "cache was {} bytes, expected <= {max_bytes}",
        bytes.len()
    );

    let mut db2 = Db::new(text_len);
    assert!(load(&mut db2, &bytes, &CacheLoadOptions::default()).unwrap());
    // Derived records go before inputs.
    assert_eq!(db2.core.snapshot().len(), 0);
    assert!(db2.text.snapshot().len() > 0);
}

#[test]
fn save_and_load_with_convenience_methods() {
    let mut shared = Shared::new();
    let mut db = Db::new(text_len);
    let mut words: InternedIngredient<String> = InternedIngredient::new(QueryKindId(3), "DbTestWord");
    db.set("hello", "world");
    db.set("foo", "bar");
    let intern = |words: &mut InternedIngredient<String>, text: &str| {
        words.intern(Ok(key(text)), text.to_string()).unwrap()
    };
    let word1 = intern(&mut words, "test");
    let word2 = intern(&mut words, "example");

    let len1 = db.get(&mut shared, "hello").unwrap();
    assert_eq!(len1, 5);

    let options = CacheSaveOptions::default();
    let sections = vec![
        build_section(
            QueryKindId(3),
            "DbTestWord",
            SectionType::Interned,
            words
                .save_records(|id, v| Ok(facet_postcard::to_vec(&(id.0, v.to_string())).unwrap()))
                .unwrap(),
            &options,
        ),
        build_section(
            TEXT,
            "Text",
            SectionType::Input,
            db.text.save_records(encode_text).unwrap(),
            &options,
        ),
        build_section(
            LEN,
            "Len",
            SectionType::Derived,
            db.core.save_records(encode_len).unwrap(),
            &options,
        ),
    ];
    let bytes = encode_for_save(db.runtime.current_revision().0, sections, &options).unwrap();

    let mut db2 = Db::new(text_len);
    let mut words2: InternedIngredient<String> =
        InternedIngredient::new(QueryKindId(3), "DbTestWord");
    let mut known = infos(&db2);
    known.push(IngredientInfo {
        kind: QueryKindId(3),
        kind_name: "DbTestWord",
        section_type: SectionType::Interned,
    });
    let plan = plan_load(&bytes, &known, &CacheLoadOptions::default()).unwrap();
    assert!(plan.failure.is_none());
    for load in plan.loads {
        if load.ingredient == 0 {
            db2.text.load_records(&load.records, decode_text).unwrap();
        } else if load.ingredient == 1 {
            db2.core.load_records(&load.records, decode_len).unwrap();
        } else {
            words2
                .load_records(&load.records, |bytes| {
                    let (id, value) = facet_postcard::from_slice::<(u32, String)>(bytes).unwrap();
                    Ok(picante::ingredient::interned::LoadedValue {
                        id: InternId(id),
                        key: Ok(key(&value)),
                        value: Arc::new(value),
                    })
                })
                .unwrap();
        }
    }
    db2.core.restore_runtime_state(&mut db2.runtime);
    db2.runtime.set_current_revision(plan.revision);

    // Verify data was restored.
    let mut stack = FrameStack::new();
    assert_eq!(*db2.text.get(&mut stack, Ok(key("hello"))).unwrap().unwrap(), "world");
    assert_eq!(*db2.text.get(&mut stack, Ok(key("foo"))).unwrap().unwrap(), "bar");

    // Verify interned values.
    assert_eq!(word1, intern(&mut words2, "test"));
    assert_eq!(word2, intern(&mut words2, "example"));

    // Verify cached query results.
    let mut shared2 = Shared::new();
    assert_eq!(db2.get(&mut shared2, "hello").unwrap(), 5);
    assert_eq!(db2.executions, 0);
}

#[test]
fn save_with_options_using_convenience_methods() {
    let mut db = Db::new(text_len);
    for i in 0..100u32 {
        db.set(&format!("k{i}"), &"x".repeat(50));
    }
    let bytes = save(
        &db,
        &CacheSaveOptions {
            max_bytes: Some(2048),
            max_records_per_section: None,
            max_record_bytes: None,
        },
    )
    .unwrap();
    assert!(bytes.len() <= 2048);
}

#[test]
fn test_wal_incremental_persistence() {
    let mut runtime = Runtime::new(RuntimeId(1));
    let mut text: InputIngredient<String> = InputIngredient::new(QueryKindId(1), "Text");
    let mut numbers: InputIngredient<u64> = InputIngredient::new(QueryKindId(2), "Numbers");
    fn number_key(n: u64) -> Key {
        Key::encode_facet(facet_postcard::to_vec(&n).map_err(|e| format!("{e:?}"))).unwrap()
    }
    fn same_number(a: &u64, b: &u64) -> bool {
        a == b
    }
    fn set_text(runtime: &mut Runtime, text: &mut InputIngredient<String>, k: &str, v: &str) {
        text.set(runtime, Ok(key(k)), v.to_string(), same);
    }
    fn set_number(runtime: &mut Runtime, numbers: &mut InputIngredient<u64>, k: u64, v: u64) {
        numbers.set(runtime, Ok(number_key(k)), v, same_number);
    }
    fn get_text(text: &InputIngredient<String>, k: &str) -> Option<String> {
        text.get(&mut FrameStack::new(), Ok(key(k))).unwrap().map(|v| v.to_string())
    }
    fn get_number(numbers: &InputIngredient<u64>, k: u64) -> Option<u64> {
        numbers.get(&mut FrameStack::new(), Ok(number_key(k))).unwrap().map(|v| *v)
    }
    type NumberRecord = (u64, Option<u64>, u64);
    fn encode_number(key: &[u8], entry: &InputEntry<Arc<u64>>) -> PicanteResult<Vec<u8>> {
        let k = facet_postcard::from_slice::<u64>(key).unwrap();
        let record: NumberRecord = (k, entry.value.as_ref().map(|v| **v), entry.changed_at.0);
        Ok(facet_postcard::to_vec(&record).unwrap())
    }
    fn decode_number(bytes: &[u8]) -> PicanteResult<(Key, InputEntry<Arc<u64>>)> {
        let (k, value, changed_at) = facet_postcard::from_slice::<NumberRecord>(bytes).unwrap();
        Ok((
            number_key(k),
            InputEntry { value: value.map(Arc::new), changed_at: Revision(changed_at) },
        ))
    }
    fn snapshot(
        runtime: &Runtime,
        text: &InputIngredient<String>,
        numbers: &InputIngredient<u64>,
    ) -> Vec<u8> {
        let options = CacheSaveOptions::default();
        let sections = vec![
            build_section(
                QueryKindId(1),
                "Text",
                SectionType::Input,
                text.save_records(encode_text).unwrap(),
                &options,
            ),
            build_section(
                QueryKindId(2),
                "Numbers",
                SectionType::Input,
                numbers.save_records(encode_number).unwrap(),
                &options,
            ),
        ];
        encode_for_save(runtime.current_revision().0, sections, &options).unwrap()
    }
    fn restore(
        bytes: &[u8],
        known: &[IngredientInfo],
    ) -> (Runtime, InputIngredient<String>, InputIngredient<u64>) {
        let mut runtime = Runtime::new(RuntimeId(2));
        let mut text: InputIngredient<String> = InputIngredient::new(QueryKindId(1), "Text");
        let mut numbers: InputIngredient<u64> = InputIngredient::new(QueryKindId(2), "Numbers");
        let plan = plan_load(bytes, known, &CacheLoadOptions::default()).unwrap();
        assert!(plan.failure.is_none());
        for load in plan.loads {
            if load.ingredient == 0 {
                text.load_records(&load.records, decode_text).unwrap();
            } else {
                numbers.load_records(&load.records, decode_number).unwrap();
            }
        }
        runtime.set_current_revision(plan.revision);
        (runtime, text, numbers)
    }
    let known = [
        IngredientInfo {
            kind: QueryKindId(1),
            kind_name: "Text",
            section_type: SectionType::Input,
        },
        IngredientInfo {
            kind: QueryKindId(2),
            kind_name: "Numbers",
            section_type: SectionType::Input,
        },
    ];

    // Set initial values.
    set_text(&mut runtime, &mut text, "a", "hello");
    set_text(&mut runtime, &mut text, "b", "world");
    set_number(&mut runtime, &mut numbers, 1, 100);
    set_number(&mut runtime, &mut numbers, 2, 200);

    assert_eq!(runtime.current_revision().0, 4);

    // Save snapshot at revision 4, and create the log at base revision 4.
    let cache = snapshot(&runtime, &text, &numbers);
    let mut wal = WalWriter::create(4).unwrap();

    // Make more changes (revisions 5-8).
    set_text(&mut runtime, &mut text, "a", "goodbye");
    set_text(&mut runtime, &mut text, "c", "new");
    set_number(&mut runtime, &mut numbers, 1, 101);
    set_number(&mut runtime, &mut numbers, 3, 300);

    assert_eq!(runtime.current_revision().0, 8);

    // Append changes to the log.
    let since = wal.base_revision();
    let text_changes = text
        .save_incremental_records(since, |key, entry| {
            let value = entry.value.as_ref().map(|v| facet_postcard::to_vec(&v.to_string()).unwrap());
            Ok((key.to_vec(), value))
        })
        .unwrap();
    let number_changes = numbers
        .save_incremental_records(since, |key, entry| {
            let value = entry.value.as_ref().map(|v| facet_postcard::to_vec(&**v).unwrap());
            Ok((key.to_vec(), value))
        })
        .unwrap();
    let count = append_changes(&mut wal, QueryKindId(1), text_changes).unwrap()
        + append_changes(&mut wal, QueryKindId(2), number_changes).unwrap();
    assert_eq!(count, 4);
    wal.flush();
    let log = wal.take_flushed();

    // Load base snapshot.
    let (mut runtime2, mut text2, mut numbers2) = restore(&cache, &known);
    assert_eq!(runtime2.current_revision().0, 4);
    assert_eq!(get_text(&text2, "a"), Some("hello".to_string()));
    assert_eq!(get_text(&text2, "b"), Some("world".to_string()));
    assert_eq!(get_text(&text2, "c"), None);
    assert_eq!(get_number(&numbers2, 1), Some(100));
    assert_eq!(get_number(&numbers2, 2), Some(200));
    assert_eq!(get_number(&numbers2, 3), None);

    // Replay the log.
    let plan = plan_replay(log, runtime2.current_revision(), &known).unwrap();
    let replayed = plan.changes.len();
    for change in plan.changes {
        let key = Key::from_bytes(change.key);
        if change.ingredient == 0 {
            let value = change.value.map(|v| Arc::new(facet_postcard::from_slice::<String>(&v).unwrap()));
            text2.apply_wal_entry(change.revision, &key, value);
        } else {
            let value = change.value.map(|v| Arc::new(facet_postcard::from_slice::<u64>(&v).unwrap()));
            numbers2.apply_wal_entry(change.revision, &key, value);
        }
    }
    if let Some(revision) = plan.outcome.unwrap() {
        runtime2.set_current_revision(revision);
    }
    assert_eq!(replayed, 4);
    assert_eq!(runtime2.current_revision().0, 8);

    assert_eq!(get_text(&text2, "a"), Some("goodbye".to_string()));
    assert_eq!(get_text(&text2, "b"), Some("world".to_string()));
    assert_eq!(get_text(&text2, "c"), Some("new".to_string()));
    assert_eq!(get_number(&numbers2, 1), Some(101));
    assert_eq!(get_number(&numbers2, 2), Some(200));
    assert_eq!(get_number(&numbers2, 3), Some(300));

    // A compacted snapshot has all the data.
    let compacted = snapshot(&runtime, &text, &numbers);
    let (runtime3, text3, numbers3) = restore(&compacted, &known);
    assert_eq!(runtime3.current_revision().0, 8);
    assert_eq!(get_text(&text3, "a"), Some("goodbye".to_string()));
    assert_eq!(get_text(&text3, "b"), Some("world".to_string()));
    assert_eq!(get_text(&text3, "c"), Some("new".to_string()));
    assert_eq!(get_number(&numbers3, 1), Some(101));
    assert_eq!(get_number(&numbers3, 2), Some(200));
    assert_eq!(get_number(&numbers3, 3), Some(300));
}

#[test]
fn derived_changes_go_through_the_log() {
    let mut shared = Shared::new();
    let mut db = Db::new(text_len);
    db.set("a", "hello");
    db.get(&mut shared, "a").unwrap();
    let changes = db
        .core
        .save_incremental_records(0, |key, record| {
            Ok((key.to_vec(), encode_len(key, record).unwrap()))
        })
        .unwrap();
    assert_eq!(changes.len(), 1);
    assert_eq!(changes[0].0, 1);

    let mut db2 = Db::new(text_len);
    db2.set("a", "hello");
    for (_, key_bytes, value) in changes {
        let record = value.map(|v| decode_len(&v).unwrap().1);
        db2.core.apply_wal_entry(&Key::from_bytes(key_bytes), record);
    }
    let mut shared2 = Shared::new();
    assert_eq!(db2.get(&mut shared2, "a").unwrap(), 5);
    assert_eq!(db2.executions, 0);
}
