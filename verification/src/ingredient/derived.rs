//! Derived queries: the memo table and its cells.
use crate::error::{PicanteError, PicanteResult};
use crate::ingredient::access::Touch;
use crate::key::{Dep, DynKey, Key, QueryKindId};
#[allow(unused_imports)]
use crate::key::Node;
use crate::revision::Revision;
use crate::runtime::Runtime;
use crate::share::share;
use crate::table::CellTable;
use std::sync::Arc;
use vstd::prelude::*;
use vstd::slice::slice_to_vec;

verus! {

/// State of a memo cell.
pub enum ErasedState<V> {
    /// No cached value.
    Vacant,
    /// A task is currently computing.
    Running {
        /// The revision at which it computes.
        started_at: Revision,
    },
    /// A cached value with its dependency list.
    Ready {
        /// The value.
        value: Arc<V>,
        /// When the value was last known to be valid.
        verified_at: Revision,
        /// When the value last changed.
        changed_at: Revision,
        /// Whether the value is known to have been the same at every revision in between.
        settled: bool,
        /// What the computation read.
        deps: Arc<Vec<Dep>>,
    },
    /// The computation failed at one particular revision.
    Poisoned {
        /// How it failed.
        error: Arc<PicanteError>,
        /// At which revision.
        verified_at: Revision,
    },
}

/// What a cell's state says.
#[verifier::ext_equal]
pub ghost enum StateView<V> {
    /// No cached value.
    Vacant,
    /// A task is computing.
    Running { started_at: Revision },
    /// A cached value with its dependency list.
    Ready {
        value: Arc<V>,
        verified_at: Revision,
        changed_at: Revision,
        settled: bool,
        deps: Seq<Dep>,
    },
    /// The computation failed at one particular revision.
    Poisoned { error: Arc<PicanteError>, verified_at: Revision },
}

impl<V> View for ErasedState<V> {
    type V = StateView<V>;

    open spec fn view(&self) -> StateView<V> {
        match *self {
            ErasedState::Vacant => StateView::Vacant,
            ErasedState::Running { started_at } => StateView::Running { started_at },
            ErasedState::Ready {
                value,
                verified_at,
                changed_at,
                settled,
                deps,
            } => StateView::Ready { value, verified_at, changed_at, settled, deps: deps@ },
            ErasedState::Poisoned { error, verified_at } => StateView::Poisoned {
                error,
                verified_at,
            },
        }
    }
}

impl<V> StateView<V> {
    /// What a record tells of a state: of a value, all but whether it is known to be settled.
    pub open spec fn as_record(self) -> StateView<V> {
        match self {
            StateView::Ready { value, verified_at, changed_at, deps, .. } => StateView::Ready {
                value,
                verified_at,
                changed_at,
                settled: false,
                deps,
            },
            _ => self,
        }
    }
}

impl<V> Clone for ErasedState<V> {
    fn clone(&self) -> (r: Self)
        ensures
            r == *self,
    {
        match self {
            ErasedState::Vacant => ErasedState::Vacant,
            ErasedState::Running { started_at } => ErasedState::Running { started_at: *started_at },
            ErasedState::Ready {
                value,
                verified_at,
                changed_at,
                settled,
                deps,
            } => ErasedState::Ready {
                value: share(value),
                verified_at: *verified_at,
                changed_at: *changed_at,
                settled: *settled,
                deps: share(deps),
            },
            ErasedState::Poisoned { error, verified_at } => ErasedState::Poisoned {
                error: share(error),
                verified_at: *verified_at,
            },
        }
    }
}

/// A ready cell taken out of its ingredient, for promotion into another one.
pub struct ErasedReadyRecord<V> {
    /// The value.
    pub value: Arc<V>,
    /// When the value was last known to be valid.
    pub verified_at: Revision,
    /// When the value last changed.
    pub changed_at: Revision,
    /// What the computation read.
    pub deps: Arc<Vec<Dep>>,
}

/// A memo cell.
pub struct ErasedCell<V> {
    state: ErasedState<V>,
}

impl<V> View for ErasedCell<V> {
    type V = StateView<V>;

    closed spec fn view(&self) -> StateView<V> {
        self.state@
    }
}

impl<V> Clone for ErasedCell<V> {
    fn clone(&self) -> (r: Self)
        ensures
            r == *self,
    {
        ErasedCell { state: self.state.clone() }
    }
}

impl<V> ErasedCell<V> {
    /// A cell without a value.
    pub fn new() -> (r: Self)
        ensures
            r@ == StateView::<V>::Vacant,
    {
        ErasedCell { state: ErasedState::Vacant }
    }

    /// A cell with a value.
    pub fn new_ready(
        value: Arc<V>,
        verified_at: Revision,
        changed_at: Revision,
        deps: Arc<Vec<Dep>>,
    ) -> (r: Self)
        ensures
            r@ == (StateView::Ready {
                value,
                verified_at,
                changed_at,
                settled: false,
                deps: deps@,
            }),
    {
        ErasedCell {
            state: ErasedState::Ready { value, verified_at, changed_at, settled: false, deps },
        }
    }

    /// The cell's value with what is known of it, if the cell has one.
    pub fn ready_record(&self) -> (r: Option<ErasedReadyRecord<V>>)
        ensures
            match r {
                Some(record) => self@ is Ready && self@.as_record() == record.as_state(),
                None => !(self@ is Ready),
            },
    {
        match &self.state {
            ErasedState::Ready { value, verified_at, changed_at, deps, .. } => Some(
                ErasedReadyRecord {
                    value: share(value),
                    verified_at: *verified_at,
                    changed_at: *changed_at,
                    deps: share(deps),
                },
            ),
            _ => None,
        }
    }
}

/// The memo table of one derived query kind.
pub struct DerivedCore<V> {
    kind: QueryKindId,
    kind_name: &'static str,
    cells: CellTable<ErasedCell<V>>,
}

/// The states of the cells, by key.
pub type Cells<V> = Map<Seq<u8>, StateView<V>>;

/// The state of the cell under `key`; a key without a cell has no value.
pub open spec fn state_at<V>(cells: Cells<V>, key: Seq<u8>) -> StateView<V> {
    if cells.contains_key(key) {
        cells[key]
    } else {
        StateView::Vacant
    }
}

/// The cells that have a value.
pub open spec fn ready_cells<V>(cells: Cells<V>) -> Cells<V> {
    cells.restrict(Set::new(|k: Seq<u8>| cells.contains_key(k) && cells[k] is Ready))
}

/// What records tell of the cells that have a value.
pub open spec fn recorded_cells<V>(cells: Cells<V>) -> Cells<V> {
    ready_cells(cells).map_values(|state: StateView<V>| state.as_record())
}

impl<V> DerivedCore<V> {
    /// The kind of the query.
    pub closed spec fn kind_id(&self) -> QueryKindId {
        self.kind
    }

    /// The debug name of the query.
    pub closed spec fn name(&self) -> Seq<char> {
        self.kind_name@
    }

    /// The states of the cells.
    pub closed spec fn states(&self) -> Cells<V> {
        self.cells@.map_values(|c: ErasedCell<V>| c@)
    }

    /// The keys in the order in which the table lists them.
    pub closed spec fn order(&self) -> Seq<Seq<u8>> {
        self.cells.order()
    }

    /// The memo table is sound.
    pub closed spec fn wf(&self) -> bool {
        self.cells.wf()
    }

    /// The listing order names every cell exactly once.
    pub proof fn order_lists_cells(&self)
        requires
            self.wf(),
        ensures
            self.order().no_duplicates(),
            self.order().to_set() == self.states().dom(),
            self.states().dom().finite(),
    {
        self.cells.order_lists_domain();
        assert(self.states().dom() =~= self.cells@.dom());
    }

    /// A memo table without cells.
    pub fn new(kind: QueryKindId, kind_name: &'static str) -> (r: Self)
        ensures
            r.wf(),
            r.kind_id() == kind,
            r.name() == kind_name@,
            r.states() == Map::<Seq<u8>, StateView<V>>::empty(),
    {
        let r = DerivedCore { kind, kind_name, cells: CellTable::new() };
        assert(r.states() =~= Map::<Seq<u8>, StateView<V>>::empty());
        r
    }

    /// The stable kind id.
    pub fn kind(&self) -> (r: QueryKindId)
        ensures
            r == self.kind_id(),
    {
        self.kind
    }

    /// Debug name for this ingredient.
    pub fn kind_name(&self) -> (r: &'static str)
        ensures
            r@ == self.name(),
    {
        self.kind_name
    }

    /// The state of the cell under `key`.
    pub fn state(&self, key: &Key) -> (r: ErasedState<V>)
        requires
            self.wf(),
        ensures
            r@ == state_at(self.states(), key@),
    {
        match self.cells.get(key.bytes()) {
            Some(cell) => cell.state.clone(),
            None => ErasedState::Vacant,
        }
    }

    /// Make sure that there is a cell under `key`.
    pub fn ensure_cell(&mut self, key: &Key)
        requires
            old(self).wf(),
        ensures
            final(self).wf(),
            final(self).kind_id() == old(self).kind_id(),
            final(self).name() == old(self).name(),
            final(self).states() == (if old(self).states().contains_key(key@) {
                old(self).states()
            } else {
                old(self).states().insert(key@, StateView::Vacant)
            }),
    {
        if !self.cells.contains(key.bytes()) {
            self.cells.insert(key.bytes(), ErasedCell::new());
            assert(self.states() =~= old(self).states().insert(key@, StateView::Vacant));
        }
    }

    /// Replace the state of the cell under `key`.
    pub fn set_state(&mut self, key: &Key, state: ErasedState<V>)
        requires
            old(self).wf(),
        ensures
            final(self).wf(),
            final(self).kind_id() == old(self).kind_id(),
            final(self).name() == old(self).name(),
            final(self).states() == old(self).states().insert(key@, state@),
    {
        self.cells.insert(key.bytes(), ErasedCell { state });
        assert(self.states() =~= old(self).states().insert(key@, state@));
    }

    /// Drop the cell under `key`.
    pub fn remove_cell(&mut self, key: &Key)
        requires
            old(self).wf(),
        ensures
            final(self).wf(),
            final(self).kind_id() == old(self).kind_id(),
            final(self).name() == old(self).name(),
            final(self).states() == old(self).states().remove(key@),
    {
        self.cells.remove(key.bytes());
        assert(self.states() =~= old(self).states().remove(key@));
    }

    /// Drop every cell.
    pub fn clear(&mut self)
        ensures
            final(self).wf(),
            final(self).kind_id() == old(self).kind_id(),
            final(self).name() == old(self).name(),
            final(self).states() == Map::<Seq<u8>, StateView<V>>::empty(),
    {
        self.cells.clear();
        assert(self.states() =~= Map::<Seq<u8>, StateView<V>>::empty());
    }
}

/// The keys whose cells have a value, in the given order.
pub open spec fn ready_keys<V>(order: Seq<Seq<u8>>, cells: Cells<V>) -> Seq<Seq<u8>>
    decreases order.len(),
{
    if order.len() == 0 {
        Seq::empty()
    } else {
        let earlier = ready_keys(order.drop_last(), cells);
        if state_at(cells, order.last()) is Ready {
            earlier.push(order.last())
        } else {
            earlier
        }
    }
}

/// The keys whose cells have a value that changed after `since`, in the given order.
pub open spec fn changed_keys<V>(order: Seq<Seq<u8>>, cells: Cells<V>, since: u64) -> Seq<Seq<u8>>
    decreases order.len(),
{
    if order.len() == 0 {
        Seq::empty()
    } else {
        let earlier = changed_keys(order.drop_last(), cells, since);
        match state_at(cells, order.last()) {
            StateView::Ready { changed_at, .. } if changed_at.0 > since => earlier.push(
                order.last(),
            ),
            _ => earlier,
        }
    }
}

/// Whether `encode` may turn the value under `key` into `out`.
pub open spec fn encodes<V, T, F: Fn(&[u8], &ErasedReadyRecord<V>) -> PicanteResult<T>>(
    encode: F,
    key: Seq<u8>,
    state: StateView<V>,
    out: PicanteResult<T>,
) -> bool {
    exists|k: &[u8], record: &ErasedReadyRecord<V>|
        {
            &&& k@ == key
            &&& state.as_record() == record.as_state()
            &&& #[trigger] encode.ensures((k, record), out)
        }
}

/// Whether `encode` may succeed on the value under `key`.
pub open spec fn may_encode<V, T, F: Fn(&[u8], &ErasedReadyRecord<V>) -> PicanteResult<T>>(
    encode: F,
    key: Seq<u8>,
    state: StateView<V>,
) -> bool {
    exists|out: T| #[trigger] encodes(encode, key, state, Ok(out))
}

/// Whether `encode` may fail with `error` on the value under the key at `n`, after it may have
/// encoded those before.
pub open spec fn stops_at<V, T, F: Fn(&[u8], &ErasedReadyRecord<V>) -> PicanteResult<T>>(
    encode: F,
    keys: Seq<Seq<u8>>,
    cells: Cells<V>,
    n: int,
    error: Arc<PicanteError>,
) -> bool {
    &&& 0 <= n < keys.len()
    &&& encodes(encode, keys[n], state_at(cells, keys[n]), Err::<T, Arc<PicanteError>>(error))
    &&& forall|j: int|
        0 <= j < n ==> may_encode(encode, #[trigger] keys[j], state_at(cells, keys[j]))
}

proof fn ready_keys_of_prefix<V>(order: Seq<Seq<u8>>, cells: Cells<V>, n: int)
    requires
        0 <= n <= order.len(),
    ensures
        ready_keys(order.take(n), cells).len() <= ready_keys(order, cells).len(),
        forall|j: int|
            0 <= j < ready_keys(order.take(n), cells).len() ==> #[trigger] ready_keys(
                order.take(n),
                cells,
            )[j] == ready_keys(order, cells)[j],
    decreases order.len(),
{
    if n == order.len() {
        assert(order.take(n) =~= order);
    } else {
        ready_keys_of_prefix(order.drop_last(), cells, n);
        assert(order.drop_last().take(n) =~= order.take(n));
    }
}

proof fn changed_keys_of_prefix<V>(order: Seq<Seq<u8>>, cells: Cells<V>, since: u64, n: int)
    requires
        0 <= n <= order.len(),
    ensures
        changed_keys(order.take(n), cells, since).len() <= changed_keys(order, cells, since).len(),
        forall|j: int|
            0 <= j < changed_keys(order.take(n), cells, since).len() ==> #[trigger] changed_keys(
                order.take(n),
                cells,
                since,
            )[j] == changed_keys(order, cells, since)[j],
    decreases order.len(),
{
    if n == order.len() {
        assert(order.take(n) =~= order);
    } else {
        changed_keys_of_prefix(order.drop_last(), cells, since, n);
        assert(order.drop_last().take(n) =~= order.take(n));
    }
}

impl<V> ErasedReadyRecord<V> {
    /// The state of a cell that holds this record, of which no more is known.
    pub open spec fn as_state(&self) -> StateView<V> {
        StateView::Ready {
            value: self.value,
            verified_at: self.verified_at,
            changed_at: self.changed_at,
            settled: false,
            deps: self.deps@,
        }
    }
}

impl<V> DerivedCore<V> {
    /// Encode every cell that has a value, in listing order. The first encoding that fails
    /// ends the save with its error.
    pub fn save_records<F: Fn(&[u8], &ErasedReadyRecord<V>) -> PicanteResult<Vec<u8>>>(
        &self,
        encode: F,
    ) -> (r: PicanteResult<Vec<Vec<u8>>>)
        requires
            self.wf(),
            forall|k: &[u8], record: &ErasedReadyRecord<V>| encode.requires((k, record)),
        ensures
            match r {
                Ok(records) => {
                    let keys = ready_keys(self.order(), self.states());
                    &&& records@.len() == keys.len()
                    &&& forall|i: int|
                        0 <= i < keys.len() ==> encodes(
                            encode,
                            #[trigger] keys[i],
                            state_at(self.states(), keys[i]),
                            Ok(records@[i]),
                        )
                },
                Err(error) => exists|n: int| #[trigger]
                    stops_at(
                        encode,
                        ready_keys(self.order(), self.states()),
                        self.states(),
                        n,
                        error,
                    ),
            },
            results_saved(self.order(), self.states(), encode, r),
    {
        let mut records: Vec<Vec<u8>> = Vec::new();
        let count: usize = self.cells.len();
        let mut i: usize = 0;
        while i < count
            invariant
                self.wf(),
                i <= count,
                count == self.order().len(),
                forall|k: &[u8], record: &ErasedReadyRecord<V>| encode.requires((k, record)),
                records@.len() == ready_keys(
                    self.order().take(i as int),
                    self.states(),
                ).len(),
                forall|j: int|
                    0 <= j < records@.len() ==> encodes(
                        encode,
                        #[trigger] ready_keys(self.order().take(i as int), self.states())[j],
                        state_at(
                            self.states(),
                            ready_keys(self.order().take(i as int), self.states())[j],
                        ),
                        Ok(records@[j]),
                    ),
            decreases count - i,
        {
            let ghost shorter = self.order().take(i as int);
            let ghost longer = self.order().take(i + 1);
            assert(longer.drop_last() =~= shorter);
            assert(longer.last() == self.order()[i as int]);
            let key = self.cells.key_at(i);
            let cell = self.cells.value_at(i);
            assert(state_at(self.states(), key@) == cell@);
            if let Some(record) = cell.ready_record() {
                let encoded = encode(key, &record);
                assert(encodes(encode, key@, state_at(self.states(), key@), encoded));
                match encoded {
                    Ok(bytes) => {
                        let ghost before = records@;
                        records.push(bytes);
                        assert forall|j: int| 0 <= j < records@.len() implies encodes(
                            encode,
                            #[trigger] ready_keys(longer, self.states())[j],
                            state_at(self.states(), ready_keys(longer, self.states())[j]),
                            Ok(records@[j]),
                        ) by {
                            if j < before.len() {
                                assert(ready_keys(longer, self.states())[j] == ready_keys(
                                    shorter,
                                    self.states(),
                                )[j]);
                            }
                        }
                    },
                    Err(error) => {
                        proof {
                            let all = ready_keys(self.order(), self.states());
                            let upto = ready_keys(longer, self.states());
                            let earlier = ready_keys(shorter, self.states());
                            let n = earlier.len() as int;
                            ready_keys_of_prefix(self.order(), self.states(), i + 1);
                            assert(upto[n] == all[n]);
                            assert forall|j: int| 0 <= j < n implies may_encode(
                                encode,
                                #[trigger] all[j],
                                state_at(self.states(), all[j]),
                            ) by {
                                assert(upto[j] == all[j]);
                                assert(earlier[j] == upto[j]);
                                assert(encodes(
                                    encode,
                                    earlier[j],
                                    state_at(self.states(), earlier[j]),
                                    Ok(records@[j]),
                                ));
                            }
                            assert(stops_at(encode, all, self.states(), n, error));
                        }
                        return Err(error);
                    },
                }
            }
            i = i + 1;
        }
        assert(self.order().take(i as int) =~= self.order());
        Ok(records)
    }

    /// Encode every cell whose value changed after `since_revision`, in listing order, with
    /// the revision at which it changed. The first encoding that fails ends the save with its
    /// error.
    pub fn save_incremental_records<
        F: Fn(&[u8], &ErasedReadyRecord<V>) -> PicanteResult<(Vec<u8>, Vec<u8>)>,
    >(&self, since_revision: u64, encode: F) -> (r: PicanteResult<
        Vec<(u64, Vec<u8>, Option<Vec<u8>>)>,
    >)
        requires
            self.wf(),
            forall|k: &[u8], record: &ErasedReadyRecord<V>| encode.requires((k, record)),
        ensures
            match r {
                Ok(changes) => {
                    let keys = changed_keys(self.order(), self.states(), since_revision);
                    &&& changes@.len() == keys.len()
                    &&& forall|i: int|
                        0 <= i < keys.len() ==> change_encodes(
                            encode,
                            #[trigger] keys[i],
                            state_at(self.states(), keys[i]),
                            changes@[i],
                        )
                },
                Err(error) => exists|n: int| #[trigger]
                    stops_at(
                        encode,
                        changed_keys(self.order(), self.states(), since_revision),
                        self.states(),
                        n,
                        error,
                    ),
            },
            results_logged(self.order(), self.states(), since_revision, encode, r),
    {
        let mut changes: Vec<(u64, Vec<u8>, Option<Vec<u8>>)> = Vec::new();
        let count: usize = self.cells.len();
        let mut i: usize = 0;
        while i < count
            invariant
                self.wf(),
                i <= count,
                count == self.order().len(),
                forall|k: &[u8], record: &ErasedReadyRecord<V>| encode.requires((k, record)),
                changes@.len() == changed_keys(
                    self.order().take(i as int),
                    self.states(),
                    since_revision,
                ).len(),
                forall|j: int|
                    0 <= j < changes@.len() ==> change_encodes(
                        encode,
                        #[trigger] changed_keys(
                            self.order().take(i as int),
                            self.states(),
                            since_revision,
                        )[j],
                        state_at(
                            self.states(),
                            changed_keys(
                                self.order().take(i as int),
                                self.states(),
                                since_revision,
                            )[j],
                        ),
                        changes@[j],
                    ),
            decreases count - i,
        {
            let ghost shorter = self.order().take(i as int);
            let ghost longer = self.order().take(i + 1);
            assert(longer.drop_last() =~= shorter);
            assert(longer.last() == self.order()[i as int]);
            let key = self.cells.key_at(i);
            let cell = self.cells.value_at(i);
            assert(state_at(self.states(), key@) == cell@);
            if let Some(record) = cell.ready_record() {
                if record.changed_at.0 > since_revision {
                    let encoded = encode(key, &record);
                    assert(encodes(encode, key@, state_at(self.states(), key@), encoded));
                    match encoded {
                        Ok((key_bytes, value_bytes)) => {
                            let ghost before = changes@;
                            changes.push((record.changed_at.0, key_bytes, Some(value_bytes)));
                            assert forall|j: int| 0 <= j < changes@.len() implies change_encodes(
                                encode,
                                #[trigger] changed_keys(longer, self.states(), since_revision)[j],
                                state_at(
                                    self.states(),
                                    changed_keys(longer, self.states(), since_revision)[j],
                                ),
                                changes@[j],
                            ) by {
                                if j < before.len() {
                                    assert(changed_keys(
                                        longer,
                                        self.states(),
                                        since_revision,
                                    )[j] == changed_keys(
                                        shorter,
                                        self.states(),
                                        since_revision,
                                    )[j]);
                                }
                            }
                        },
                        Err(error) => {
                            proof {
                                let all = changed_keys(self.order(), self.states(), since_revision);
                                let upto = changed_keys(longer, self.states(), since_revision);
                                let earlier = changed_keys(shorter, self.states(), since_revision);
                                let n = earlier.len() as int;
                                changed_keys_of_prefix(self.order(), self.states(), since_revision, i + 1);
                                assert(upto[n] == all[n]);
                                assert forall|j: int| 0 <= j < n implies may_encode(
                                    encode,
                                    #[trigger] all[j],
                                    state_at(self.states(), all[j]),
                                ) by {
                                    assert(upto[j] == all[j]);
                                    assert(earlier[j] == upto[j]);
                                    assert(encodes(
                                        encode,
                                        earlier[j],
                                        state_at(self.states(), earlier[j]),
                                        Ok((changes@[j].1, changes@[j].2->0)),
                                    ));
                                }
                                assert(stops_at(encode, all, self.states(), n, error));
                            }
                            return Err(error);
                        },
                    }
                }
            }
            i = i + 1;
        }
        assert(self.order().take(i as int) =~= self.order());
        Ok(changes)
    }
}

/// Whether `change` is what `encode` may make of the value under `key`, with the revision at
/// which the value changed.
pub open spec fn change_encodes<
    V,
    F: Fn(&[u8], &ErasedReadyRecord<V>) -> PicanteResult<(Vec<u8>, Vec<u8>)>,
>(
    encode: F,
    key: Seq<u8>,
    state: StateView<V>,
    change: (u64, Vec<u8>, Option<Vec<u8>>),
) -> bool {
    &&& state matches StateView::Ready { changed_at, .. } && change.0 == changed_at.0
    &&& change.2 matches Some(value_bytes) && encodes(
        encode,
        key,
        state,
        Ok((change.1, value_bytes)),
    )
}

/// Whether saving results came out as it must: with one record for each ready result, or with the
/// first error.
pub open spec fn results_saved<V, F: Fn(&[u8], &ErasedReadyRecord<V>) -> PicanteResult<Vec<u8>>>(
    order: Seq<Seq<u8>>,
    cells: Cells<V>,
    encode: F,
    r: PicanteResult<Vec<Vec<u8>>>,
) -> bool {
    let keys = ready_keys(order, cells);
    match r {
        Ok(records) => {
            &&& records@.len() == keys.len()
            &&& forall|i: int|
                0 <= i < keys.len() ==> encodes(
                    encode,
                    #[trigger] keys[i],
                    state_at(cells, keys[i]),
                    Ok(records@[i]),
                )
        },
        Err(error) => exists|n: int| #[trigger] stops_at(encode, keys, cells, n, error),
    }
}

/// Whether logging results came out as it must: with one change for each ready result that changed
/// after the given revision, or with the first error.
pub open spec fn results_logged<
    V,
    F: Fn(&[u8], &ErasedReadyRecord<V>) -> PicanteResult<(Vec<u8>, Vec<u8>)>,
>(
    order: Seq<Seq<u8>>,
    cells: Cells<V>,
    since: u64,
    encode: F,
    r: PicanteResult<Vec<(u64, Vec<u8>, Option<Vec<u8>>)>>,
) -> bool {
    let keys = changed_keys(order, cells, since);
    match r {
        Ok(changes) => {
            &&& changes@.len() == keys.len()
            &&& forall|i: int|
                0 <= i < keys.len() ==> change_encodes(
                    encode,
                    #[trigger] keys[i],
                    state_at(cells, keys[i]),
                    changes@[i],
                )
        },
        Err(error) => exists|n: int| #[trigger] stops_at(encode, keys, cells, n, error),
    }
}

/// Whether `decode` may turn `bytes` into `out`.
pub open spec fn decodes<T, F: Fn(&[u8]) -> PicanteResult<T>>(
    decode: F,
    bytes: Seq<u8>,
    out: PicanteResult<T>,
) -> bool {
    exists|b: &[u8]| b@ == bytes && #[trigger] decode.ensures((b,), out)
}

/// The cells once the records of `loaded` have been filed, one after the other.
pub open spec fn filled<V>(cells: Cells<V>, loaded: Seq<(Key, ErasedReadyRecord<V>)>) -> Cells<V>
    decreases loaded.len(),
{
    if loaded.len() == 0 {
        cells
    } else {
        filled(cells, loaded.drop_last()).insert(loaded.last().0@, loaded.last().1.as_state())
    }
}

/// Whether loading results came out as it must: each record was decoded and filed, in order, up to the
/// first that could not be decoded.
pub open spec fn results_loaded<V, F: Fn(&[u8]) -> PicanteResult<(Key, ErasedReadyRecord<V>)>>(
    before: Cells<V>,
    after: Cells<V>,
    records: Seq<Vec<u8>>,
    decode: F,
    r: PicanteResult<()>,
) -> bool {
    exists|loaded: Seq<(Key, ErasedReadyRecord<V>)>|
        {
            &&& after == #[trigger] filled(before, loaded)
            &&& loaded.len() <= records.len()
            &&& forall|i: int|
                0 <= i < loaded.len() ==> decodes(decode, records[i]@, Ok(#[trigger] loaded[i]))
            &&& match r {
                Ok(_) => loaded.len() == records.len(),
                Err(error) => loaded.len() < records.len() && decodes(
                    decode,
                    records[loaded.len() as int]@,
                    Err(error),
                ),
            }
        }
}

/// Whether the cell of `node` belongs to `kind` and has a value.
pub open spec fn ready_node<V>(kind: QueryKindId, cells: Cells<V>, node: Node) -> bool {
    node.0 == kind.0 && state_at(cells, node.1) is Ready
}

/// The dependency edges once the edges of every cell with a value have been put back.
pub open spec fn restored<V>(
    forward: Map<Node, Seq<Node>>,
    kind: QueryKindId,
    cells: Cells<V>,
) -> Map<Node, Seq<Node>> {
    Map::new(
        |n: Node| forward.contains_key(n) || ready_node(kind, cells, n),
        |n: Node|
            match state_at(cells, n.1) {
                StateView::Ready { deps, .. } if n.0 == kind.0 => crate::graph::dep_nodes(deps),
                _ => forward[n],
            },
    )
}

/// A copy of the cells of an ingredient.
pub struct DerivedCells<V> {
    cells: CellTable<ErasedCell<V>>,
}

impl<V> DerivedCells<V> {
    /// The states of the cells.
    pub closed spec fn states(&self) -> Cells<V> {
        self.cells@.map_values(|c: ErasedCell<V>| c@)
    }

    /// The copy is sound.
    pub closed spec fn wf(&self) -> bool {
        self.cells.wf()
    }

    /// How many cells there are.
    pub fn len(&self) -> (r: usize)
        requires
            self.wf(),
        ensures
            r == self.states().dom().len(),
    {
        assert(self.states().dom() =~= self.cells@.dom());
        self.cells.len()
    }

    /// The cell under `key`.
    pub fn get(&self, key: &Key) -> (r: Option<ErasedCell<V>>)
        requires
            self.wf(),
        ensures
            match r {
                Some(cell) => self.states().contains_key(key@) && cell@ == self.states()[key@],
                None => !self.states().contains_key(key@),
            },
    {
        match self.cells.get(key.bytes()) {
            Some(cell) => Some(cell.clone()),
            None => None,
        }
    }
}

impl<V> DerivedCore<V> {
    /// Decode records and file them as ready cells. The first record that does not decode ends
    /// the load with its error; the records before it stay loaded.
    pub fn load_records<F: Fn(&[u8]) -> PicanteResult<(Key, ErasedReadyRecord<V>)>>(
        &mut self,
        records: &Vec<Vec<u8>>,
        decode: F,
    ) -> (r: PicanteResult<()>)
        requires
            old(self).wf(),
            forall|b: &[u8]| decode.requires((b,)),
        ensures
            final(self).wf(),
            final(self).kind_id() == old(self).kind_id(),
            final(self).name() == old(self).name(),
            exists|loaded: Seq<(Key, ErasedReadyRecord<V>)>|
                {
                    &&& final(self).states() == #[trigger] filled(old(self).states(), loaded)
                    &&& loaded.len() <= records@.len()
                    &&& forall|i: int|
                        0 <= i < loaded.len() ==> decodes(
                            decode,
                            records@[i]@,
                            Ok(#[trigger] loaded[i]),
                        )
                    &&& match r {
                        Ok(_) => loaded.len() == records@.len(),
                        Err(error) => loaded.len() < records@.len() && decodes(
                            decode,
                            records@[loaded.len() as int]@,
                            Err(error),
                        ),
                    }
                },            results_loaded(old(self).states(), final(self).states(), records@, decode, r),
    {
        let ghost mut loaded: Seq<(Key, ErasedReadyRecord<V>)> = Seq::empty();
        let mut i: usize = 0;
        while i < records.len()
            invariant
                self.wf(),
                self.kind_id() == old(self).kind_id(),
                self.name() == old(self).name(),
                forall|b: &[u8]| decode.requires((b,)),
                i <= records@.len(),
                loaded.len() == i,
                self.states() == filled(old(self).states(), loaded),
                forall|j: int|
                    0 <= j < i ==> decodes(decode, records@[j]@, Ok(#[trigger] loaded[j])),
            decreases records@.len() - i,
        {
            let bytes: &[u8] = records[i].as_slice();
            let decoded = decode(bytes);
            assert(decodes(decode, records@[i as int]@, decoded));
            match decoded {
                Ok((key, record)) => {
                    proof {
                        let prior = loaded;
                        loaded = prior.push((key, record));
                        assert(loaded.drop_last() =~= prior);
                    }
                    self.set_state(
                        &key,
                        ErasedState::Ready {
                            value: record.value,
                            verified_at: record.verified_at,
                            changed_at: record.changed_at,
                            settled: false,
                            deps: record.deps,
                        },
                    );
                },
                Err(error) => {
                    return Err(error);
                },
            }
            i = i + 1;
        }
        Ok(())
    }

    /// Apply one logged change: file a record, or drop the cell where there is none.
    pub fn apply_wal_entry(&mut self, key: &Key, record: Option<ErasedReadyRecord<V>>)
        requires
            old(self).wf(),
        ensures
            final(self).wf(),
            final(self).kind_id() == old(self).kind_id(),
            final(self).name() == old(self).name(),
            final(self).states() == (match record {
                Some(record) => old(self).states().insert(key@, record.as_state()),
                None => old(self).states().remove(key@),
            }),
    {
        match record {
            Some(record) => self.insert_ready_record(key, record),
            None => self.remove_cell(key),
        }
    }

    /// Insert a ready cell record, overwriting any existing cell.
    pub fn insert_ready_record(&mut self, key: &Key, record: ErasedReadyRecord<V>)
        requires
            old(self).wf(),
        ensures
            final(self).wf(),
            final(self).kind_id() == old(self).kind_id(),
            final(self).name() == old(self).name(),
            final(self).states() == old(self).states().insert(key@, record.as_state()),
    {
        self.set_state(
            key,
            ErasedState::Ready {
                value: record.value,
                verified_at: record.verified_at,
                changed_at: record.changed_at,
                settled: false,
                deps: record.deps,
            },
        );
    }

    /// Look up the cell for `key`.
    pub fn cell_for_key(&self, key: &Key) -> (r: Option<ErasedCell<V>>)
        requires
            self.wf(),
        ensures
            match r {
                Some(cell) => self.states().contains_key(key@) && cell@ == self.states()[key@],
                None => !self.states().contains_key(key@),
            },
    {
        match self.cells.get(key.bytes()) {
            Some(cell) => Some(cell.clone()),
            None => None,
        }
    }

    /// Copy every cell, in whatever state it is. The copy keeps that state; what becomes of a cell
    /// later does not reach it.
    pub fn snapshot(&self) -> (r: DerivedCells<V>)
        requires
            self.wf(),
        ensures
            r.wf(),
            r.states() == self.states(),
    {
        DerivedCells { cells: self.cells.snapshot() }
    }

    /// Copy the cells that have a value. Cells that are vacant, running or poisoned are left
    /// out.
    pub fn snapshot_cells_deep(&self) -> (r: DerivedCells<V>)
        requires
            self.wf(),
        ensures
            r.wf(),
            r.states() == ready_cells(self.states()),
    {
        let mut cells: CellTable<ErasedCell<V>> = CellTable::new();
        let count: usize = self.cells.len();
        let ghost order = self.order();
        let mut i: usize = 0;
        proof {
            self.order_lists_cells();
            assert(cells@.map_values(|c: ErasedCell<V>| c@) =~= ready_cells(
                self.states(),
            ).restrict(order.take(0).to_set()));
        }
        while i < count
            invariant
                self.wf(),
                cells.wf(),
                i <= count,
                count == order.len(),
                order == self.order(),
                cells@.map_values(|c: ErasedCell<V>| c@) == ready_cells(self.states()).restrict(
                    order.take(i as int).to_set(),
                ),
            decreases count - i,
        {
            let ghost before = cells@.map_values(|c: ErasedCell<V>| c@);
            let key = self.cells.key_at(i);
            let cell = self.cells.value_at(i);
            assert(self.states()[key@] == cell@);
            assert(order.take(i + 1) =~= order.take(i as int).push(key@));
            assert(order.take(i + 1).to_set() =~= order.take(i as int).to_set().insert(key@)) by {
                vstd::seq_lib::seq_to_set_distributes_over_add(
                    order.take(i as int),
                    seq![key@],
                );
                assert(order.take(i as int).push(key@) =~= order.take(i as int) + seq![key@]);
                assert(seq![key@].to_set() =~= set![key@]) by {
                    assert forall|k: Seq<u8>| seq![key@].to_set().contains(k) implies k == key@ by {}
                    assert(seq![key@][0] == key@);
                }
            }
            if let ErasedState::Ready { .. } = &cell.state {
                cells.insert(key, cell.clone());
                assert(cells@.map_values(|c: ErasedCell<V>| c@) =~= before.insert(key@, cell@));
            }
            assert(cells@.map_values(|c: ErasedCell<V>| c@) =~= ready_cells(
                self.states(),
            ).restrict(order.take(i + 1).to_set()));
            i = i + 1;
        }
        proof {
            self.order_lists_cells();
            assert(order.take(i as int) =~= order);
            assert(ready_cells(self.states()).restrict(order.to_set()) =~= ready_cells(
                self.states(),
            ));
        }
        DerivedCells { cells }
    }

    /// Replace the cells by those of a copy.
    pub fn load_cells(&mut self, cells: DerivedCells<V>)
        requires
            cells.wf(),
        ensures
            final(self).wf(),
            final(self).kind_id() == old(self).kind_id(),
            final(self).name() == old(self).name(),
            final(self).states() == cells.states(),
    {
        self.cells = cells.cells;
    }

    /// Put the dependency edges of every cell with a value back into the runtime's graph.
    pub fn restore_runtime_state(&self, runtime: &mut Runtime)
        requires
            self.wf(),
            old(runtime).wf(),
        ensures
            final(runtime).wf(),
            final(runtime)@ == (crate::runtime::RuntimeView {
                forward: restored(old(runtime)@.forward, self.kind_id(), self.states()),
                ..old(runtime)@
            }),
    {
        let ghost before = runtime@;
        let ghost order = self.order();
        let ghost kind = self.kind_id();
        let count: usize = self.cells.len();
        let mut i: usize = 0;
        proof {
            self.order_lists_cells();
        }
        while i < count
            invariant
                self.wf(),
                runtime.wf(),
                i <= count,
                count == order.len(),
                order == self.order(),
                kind == self.kind_id(),
                order.no_duplicates(),
                runtime@.id == before.id,
                runtime@.apart == before.apart,
                runtime@.revision == before.revision,
                runtime@.events == before.events,
                forall|n: Node| #[trigger]
                    runtime@.forward.contains_key(n) <==> before.forward.contains_key(n) || (
                    ready_node(kind, self.states(), n) && order.take(i as int).contains(n.1)),
                forall|n: Node| #[trigger]
                    runtime@.forward.contains_key(n) ==> runtime@.forward[n] == (if ready_node(
                        kind,
                        self.states(),
                        n,
                    ) && order.take(i as int).contains(n.1) {
                        restored(before.forward, kind, self.states())[n]
                    } else {
                        before.forward[n]
                    }),
            decreases count - i,
        {
            let key = self.cells.key_at(i);
            let cell = self.cells.value_at(i);
            let ghost stage = runtime@;
            assert(state_at(self.states(), key@) == cell@);
            let ghost shorter = order.take(i as int);
            let ghost longer = order.take(i + 1);
            assert(longer =~= shorter.push(key@));
            assert forall|k: Seq<u8>| #[trigger] longer.contains(k) <==> shorter.contains(k) || k
                == key@ by {
                if shorter.contains(k) {
                    let j = choose|j: int| 0 <= j < shorter.len() && shorter[j] == k;
                    assert(longer[j] == k);
                }
                if k == key@ {
                    assert(longer[i as int] == k);
                }
                if longer.contains(k) && k != key@ {
                    let j = choose|j: int| 0 <= j < longer.len() && longer[j] == k;
                    assert(shorter[j] == k);
                }
            }
            if let ErasedState::Ready { deps, .. } = &cell.state {
                let query = DynKey {
                    kind: self.kind,
                    key: Key::from_bytes(slice_to_vec(key)),
                };
                runtime.update_query_deps(&query, share(deps));
                assert(query@ == (kind.0, key@));
            }
            let ghost full = restored(before.forward, kind, self.states());
            assert forall|n: Node| #[trigger]
                runtime@.forward.contains_key(n) <==> before.forward.contains_key(n) || (
                ready_node(kind, self.states(), n) && longer.contains(n.1)) by {
                assert(stage.forward.contains_key(n) <==> before.forward.contains_key(n) || (
                ready_node(kind, self.states(), n) && shorter.contains(n.1)));
                assert(n == (n.0, n.1));
            }
            assert forall|n: Node| #[trigger]
                runtime@.forward.contains_key(n) implies runtime@.forward[n] == (if ready_node(
                kind,
                self.states(),
                n,
            ) && longer.contains(n.1) {
                full[n]
            } else {
                before.forward[n]
            }) by {
                assert(n == (n.0, n.1));
                assert(stage.forward.contains_key(n) <==> before.forward.contains_key(n) || (
                ready_node(kind, self.states(), n) && shorter.contains(n.1)));
            }
            i = i + 1;
        }
        proof {
            assert(order.take(i as int) =~= order);
            self.order_lists_cells();
            assert forall|n: Node| ready_node(kind, self.states(), n) implies order.contains(n.1) by {
                assert(self.states().contains_key(n.1));
                assert(order.to_set().contains(n.1));
            }
            assert(runtime@.forward =~= restored(before.forward, kind, self.states()));
        }
    }
}

/// A dependency edge in the form in which it is persisted.
#[derive(Debug)]
pub struct DepRecord {
    /// The depended-on kind.
    pub kind_id: u32,
    /// The encoded key.
    pub key_bytes: Vec<u8>,
}

impl View for DepRecord {
    type V = Node;

    open spec fn view(&self) -> Node {
        (self.kind_id, self.key_bytes@)
    }
}

/// The vertices that a list of persisted edges leads to.
pub open spec fn record_nodes(records: Seq<DepRecord>) -> Seq<Node> {
    records.map_values(|d: DepRecord| d@)
}

/// The persisted form of a dependency list.
pub fn dep_records(deps: &Vec<Dep>) -> (r: Vec<DepRecord>)
    ensures
        record_nodes(r@) == crate::graph::dep_nodes(deps@),
{
    let mut r: Vec<DepRecord> = Vec::new();
    let mut i: usize = 0;
    while i < deps.len()
        invariant
            i <= deps@.len(),
            r@.len() == i,
            forall|j: int| 0 <= j < i ==> (#[trigger] r@[j])@ == deps@[j]@,
        decreases deps@.len() - i,
    {
        let dep = &deps[i];
        r.push(DepRecord { kind_id: dep.kind.0, key_bytes: slice_to_vec(dep.key.bytes()) });
        i = i + 1;
    }
    assert(record_nodes(r@) =~= crate::graph::dep_nodes(deps@));
    r
}

/// The dependency list that a persisted form stands for.
pub fn deps_from_records(records: &Vec<DepRecord>) -> (r: Vec<Dep>)
    ensures
        crate::graph::dep_nodes(r@) == record_nodes(records@),
{
    let mut r: Vec<Dep> = Vec::new();
    let mut i: usize = 0;
    while i < records.len()
        invariant
            i <= records@.len(),
            r@.len() == i,
            forall|j: int| 0 <= j < i ==> (#[trigger] r@[j])@ == records@[j]@,
        decreases records@.len() - i,
    {
        let record = &records[i];
        r.push(
            Dep {
                kind: QueryKindId(record.kind_id),
                key: Key::from_bytes(slice_to_vec(record.key_bytes.as_slice())),
            },
        );
        i = i + 1;
    }
    assert(crate::graph::dep_nodes(r@) =~= record_nodes(records@));
    r
}

/// What the check of a record asks for next, or comes to.
pub enum RecordStep {
    /// Touch this dependency.
    Touch(Dep),
    /// The check is over: whether the record is valid, or the error of a touch.
    Verdict(PicanteResult<bool>),
}

/// The check whether a ready record holds on a database at its current revision, so that it can be
/// promoted. The record may come from a snapshot, and the database need not have looked at what the
/// query reads when the snapshot did. So the record holds where it is valid at the very revision that
/// the database is at, or where it is of an earlier one, and every dependency is known to have been
/// the same since the record's value changed.
pub struct RecordCheck {
    changed_at: Revision,
    current: bool,
    deps: Arc<Vec<Dep>>,
    next: usize,
}

impl RecordCheck {
    /// The revision at which the record's value changed.
    pub closed spec fn bound(&self) -> Revision {
        self.changed_at
    }

    /// Whether the record is valid at the revision that the database is at.
    pub closed spec fn is_current(&self) -> bool {
        self.current
    }

    /// The dependencies that have not been touched yet.
    pub closed spec fn remaining(&self) -> Seq<Dep> {
        self.deps@.skip(self.next as int)
    }

    /// The check is sound.
    pub closed spec fn wf(&self) -> bool {
        self.next <= self.deps@.len()
    }

    /// What comes next when no dependency has spoken against the record: the first untouched
    /// one, or the verdict that the record is valid.
    pub open spec fn next_step(remaining: Seq<Dep>) -> RecordStep {
        if remaining.len() > 0 {
            RecordStep::Touch(remaining[0])
        } else {
            RecordStep::Verdict(Ok(true))
        }
    }

    /// Whether what touching a dependency tells speaks for a record.
    pub open spec fn speaks_for(touch: Touch, changed_at: Revision, is_current: bool) -> bool {
        is_current || touch.settled && touch.changed_at.0 <= changed_at.0
    }

    /// Whether the check of a record on a database at revision `now` has begun so.
    pub open spec fn begun<V>(
        record: ErasedReadyRecord<V>,
        now: Revision,
        check: RecordCheck,
        step: RecordStep,
    ) -> bool {
        &&& check.wf()
        &&& check.bound() == record.changed_at
        &&& check.is_current() == (record.verified_at == now)
        &&& check.remaining() == record.deps@
        &&& step == (if record.verified_at.0 > now.0 {
            RecordStep::Verdict(Ok(false))
        } else {
            Self::next_step(record.deps@)
        })
    }

    /// Whether a check has gone on so, once the first untouched dependency was touched.
    pub open spec fn went_on(
        before: RecordCheck,
        touched: Option<PicanteResult<Touch>>,
        after: RecordCheck,
        step: RecordStep,
    ) -> bool {
        &&& after.wf()
        &&& after.bound() == before.bound()
        &&& after.is_current() == before.is_current()
        &&& after.remaining() == before.remaining().drop_first()
        &&& step == (match touched {
            None => RecordStep::Verdict(Ok(false)),
            Some(Err(error)) => RecordStep::Verdict(Err(error)),
            Some(Ok(touch)) => if Self::speaks_for(touch, before.bound(), before.is_current()) {
                Self::next_step(before.remaining().drop_first())
            } else {
                RecordStep::Verdict(Ok(false))
            },
        })
    }

    /// Begin the check of a record on a database at revision `now`. A record of a later revision
    /// says nothing of this one.
    pub fn begin<V>(record: &ErasedReadyRecord<V>, now: Revision) -> (r: (Self, RecordStep))
        ensures
            r.0.wf(),
            r.0.bound() == record.changed_at,
            r.0.is_current() == (record.verified_at == now),
            r.0.remaining() == record.deps@,
            r.1 == (if record.verified_at.0 > now.0 {
                RecordStep::Verdict(Ok(false))
            } else {
                Self::next_step(record.deps@)
            }),
            Self::begun(*record, now, r.0, r.1),
    {
        let check = RecordCheck {
            changed_at: record.changed_at,
            current: record.verified_at.0 == now.0,
            deps: share(&record.deps),
            next: 0,
        };
        assert(check.remaining() =~= record.deps@);
        let step = if record.verified_at.0 > now.0 {
            RecordStep::Verdict(Ok(false))
        } else if check.deps.len() > 0 {
            RecordStep::Touch(check.deps[0].clone())
        } else {
            RecordStep::Verdict(Ok(true))
        };
        (check, step)
    }

    /// The first untouched dependency was touched: what that tells, or an error, or `None` where
    /// the database knows no ingredient of its kind.
    pub fn touched(&mut self, touched: Option<PicanteResult<Touch>>) -> (r: RecordStep)
        requires
            old(self).wf(),
            old(self).remaining().len() > 0,
        ensures
            final(self).wf(),
            final(self).bound() == old(self).bound(),
            final(self).is_current() == old(self).is_current(),
            final(self).remaining() == old(self).remaining().drop_first(),
            r == (match touched {
                None => RecordStep::Verdict(Ok(false)),
                Some(Err(error)) => RecordStep::Verdict(Err(error)),
                Some(Ok(touch)) => if Self::speaks_for(
                    touch,
                    old(self).bound(),
                    old(self).is_current(),
                ) {
                    Self::next_step(old(self).remaining().drop_first())
                } else {
                    RecordStep::Verdict(Ok(false))
                },
            }),
            Self::went_on(*old(self), touched, *final(self), r),
    {
        assert(self.next < self.deps.len());
        self.next = self.next + 1;
        assert(self.remaining() =~= old(self).remaining().drop_first());
        match touched {
            None => RecordStep::Verdict(Ok(false)),
            Some(Err(error)) => RecordStep::Verdict(Err(error)),
            Some(Ok(touch)) => {
                if !self.current && (!touch.settled || touch.changed_at.0 > self.changed_at.0) {
                    RecordStep::Verdict(Ok(false))
                } else if self.next < self.deps.len() {
                    RecordStep::Touch(self.deps[self.next].clone())
                } else {
                    RecordStep::Verdict(Ok(true))
                }
            },
        }
    }
}

} // verus!
