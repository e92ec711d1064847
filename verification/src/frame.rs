//! Query frames used for dependency recording and cycle detection.
use crate::key::{Dep, DynKey};
use crate::revision::Revision;
use vstd::prelude::*;

verus! {

/// The frame of a running query.
pub struct ActiveFrameHandle {
    dyn_key: DynKey,
    started_at: Revision,
    deps: Vec<Dep>,
}

/// What a frame holds.
#[verifier::ext_equal]
pub ghost struct FrameView {
    /// The query that runs in the frame.
    pub query: DynKey,
    /// The revision at which the frame started.
    pub start: Revision,
    /// The dependencies recorded so far, in order.
    pub recorded: Seq<Dep>,
}

/// The frame of a query that has just started.
pub open spec fn fresh_frame(query: DynKey, start: Revision) -> FrameView {
    FrameView { query, start, recorded: Seq::empty() }
}

impl View for ActiveFrameHandle {
    type V = FrameView;

    closed spec fn view(&self) -> FrameView {
        FrameView { query: self.dyn_key, start: self.started_at, recorded: self.deps@ }
    }
}

impl ActiveFrameHandle {
    /// Create a new frame for `dyn_key`, recording dependencies at `started_at`.
    pub fn new(dyn_key: DynKey, started_at: Revision) -> (r: Self)
        ensures
            r@ == fresh_frame(dyn_key, started_at),
    {
        ActiveFrameHandle { dyn_key, started_at, deps: Vec::new() }
    }

    /// The erased key for this frame.
    pub fn dyn_key(&self) -> (r: &DynKey)
        ensures
            *r == self@.query,
    {
        &self.dyn_key
    }

    /// The revision at which the frame started.
    pub fn started_at(&self) -> (r: Revision)
        ensures
            r == self@.start,
    {
        self.started_at
    }

    /// Drain the recorded dependency list.
    pub fn take_deps(&mut self) -> (r: Vec<Dep>)
        ensures
            r@ == old(self)@.recorded,
            final(self)@ == fresh_frame(old(self)@.query, old(self)@.start),
    {
        let mut taken: Vec<Dep> = Vec::new();
        std::mem::swap(&mut self.deps, &mut taken);
        taken
    }
}

/// The frames of one task, outermost first.
pub struct FrameStack {
    frames: Vec<ActiveFrameHandle>,
}

/// A promise to pop the frame that was pushed when the guard was made.
pub struct FrameGuard {
    popped: bool,
}

impl View for FrameStack {
    type V = Seq<FrameView>;

    closed spec fn view(&self) -> Seq<FrameView> {
        self.frames@.map_values(|f: ActiveFrameHandle| f@)
    }
}

impl FrameStack {
    /// A stack without frames.
    pub fn new() -> (r: Self)
        ensures
            r@ == Seq::<FrameView>::empty(),
    {
        let r = FrameStack { frames: Vec::new() };
        assert(r@ =~= Seq::<FrameView>::empty());
        r
    }

    /// Push a frame.
    pub fn push(&mut self, frame: ActiveFrameHandle)
        ensures
            final(self)@ == old(self)@.push(frame@),
    {
        self.frames.push(frame);
        assert(self@ =~= old(self)@.push(frame@));
    }

    /// Pop the innermost frame, if there is one.
    pub fn pop(&mut self) -> (r: Option<ActiveFrameHandle>)
        ensures
            match r {
                Some(frame) => {
                    &&& old(self)@.len() > 0
                    &&& frame@ == old(self)@.last()
                    &&& final(self)@ == old(self)@.drop_last()
                },
                None => old(self)@.len() == 0 && final(self)@ == old(self)@,
            },
    {
        let r = self.frames.pop();
        assert(r is Some ==> self@ =~= old(self)@.drop_last());
        r
    }
}

impl FrameGuard {
    /// Whether the frame still has to be popped.
    pub closed spec fn armed(&self) -> bool {
        !self.popped
    }

    /// Pop the frame, once: a guard that has already popped does nothing.
    pub fn pop_frame(&mut self, stack: &mut FrameStack) -> (r: Option<ActiveFrameHandle>)
        ensures
            !final(self).armed(),
            match r {
                Some(frame) => {
                    &&& old(self).armed()
                    &&& old(stack)@.len() > 0
                    &&& frame@ == old(stack)@.last()
                    &&& final(stack)@ == old(stack)@.drop_last()
                },
                None => {
                    &&& !old(self).armed() || old(stack)@.len() == 0
                    &&& final(stack)@ == old(stack)@
                },
            },
    {
        if self.popped {
            return None;
        }
        self.popped = true;
        stack.pop()
    }
}

/// Returns `true` if there is a current query frame.
pub fn has_active_frame(stack: &FrameStack) -> (r: bool)
    ensures
        r == (stack@.len() > 0),
{
    stack.frames.len() > 0
}

/// The stack with `dep` recorded in its innermost frame.
pub open spec fn with_dep(stack: Seq<FrameView>, dep: Dep) -> Seq<FrameView> {
    if stack.len() == 0 {
        stack
    } else {
        let top = stack.last();
        stack.drop_last().push(FrameView { recorded: top.recorded.push(dep), ..top })
    }
}

/// Record a dependency on the current top-of-stack frame, if any.
pub fn record_dep(stack: &mut FrameStack, dep: Dep)
    ensures
        final(stack)@ == with_dep(old(stack)@, dep),
{
    if let Some(mut top) = stack.pop() {
        top.deps.push(dep);
        stack.push(top);
    }
}

/// The stack with several dependencies recorded, one after the other.
pub open spec fn with_deps(stack: Seq<FrameView>, deps: Seq<Dep>) -> Seq<FrameView>
    decreases deps.len(),
{
    if deps.len() == 0 {
        stack
    } else {
        with_dep(with_deps(stack, deps.drop_last()), deps.last())
    }
}

/// What a frame records between its push and its pop is what was read meanwhile, in order, and
/// nothing of it reaches the frames below. Without a frame, nothing is recorded at all.
pub proof fn reads_are_recorded_in_order(below: Seq<FrameView>, frame: FrameView, deps: Seq<Dep>)
    ensures
        with_deps(below.push(frame), deps) == below.push(
            FrameView { recorded: frame.recorded + deps, ..frame },
        ),
        with_deps(Seq::empty(), deps) == Seq::<FrameView>::empty(),
    decreases deps.len(),
{
    if deps.len() == 0 {
        assert(frame.recorded + deps =~= frame.recorded);
    } else {
        let shorter = deps.drop_last();
        reads_are_recorded_in_order(below, frame, shorter);
        let top = FrameView { recorded: frame.recorded + shorter, ..frame };
        assert(below.push(top).drop_last() =~= below);
        assert((frame.recorded + shorter).push(deps.last()) =~= frame.recorded + deps);
    }
}

/// Whether `query` runs in some frame of the stack.
pub open spec fn on_stack(stack: Seq<FrameView>, query: crate::key::Node) -> bool {
    exists|i: int| 0 <= i < stack.len() && (#[trigger] stack[i]).query@ == query
}

/// The queries of the frames, outermost first.
pub open spec fn stack_queries(stack: Seq<FrameView>) -> Seq<DynKey> {
    stack.map_values(|f: FrameView| f.query)
}

/// If `requested` already runs on this stack, returns the keys of the whole stack.
pub fn find_cycle(stack: &FrameStack, requested: &DynKey) -> (r: Option<Vec<DynKey>>)
    ensures
        r is Some <==> on_stack(stack@, requested@),
        r matches Some(path) ==> path@ == stack_queries(stack@),
{
    let mut found: bool = false;
    let mut path: Vec<DynKey> = Vec::new();
    let mut i: usize = 0;
    while i < stack.frames.len()
        invariant
            i <= stack@.len(),
            path@ == stack_queries(stack@.take(i as int)),
            found <==> on_stack(stack@.take(i as int), requested@),
        decreases stack@.len() - i,
    {
        let frame = &stack.frames[i];
        let ghost shorter = stack@.take(i as int);
        let ghost longer = stack@.take(i + 1);
        assert(longer =~= shorter.push(stack@[i as int]));
        if frame.dyn_key == *requested {
            found = true;
            assert(longer[i as int].query@ == requested@);
        }
        proof {
            if on_stack(shorter, requested@) {
                let j = choose|j: int|
                    0 <= j < shorter.len() && (#[trigger] shorter[j]).query@ == requested@;
                assert(longer[j].query@ == requested@);
            }
            if on_stack(longer, requested@) && !found {
                let j = choose|j: int|
                    0 <= j < longer.len() && (#[trigger] longer[j]).query@ == requested@;
                assert(shorter[j].query@ == requested@);
            }
        }
        path.push(frame.dyn_key.clone());
        assert(path@ =~= stack_queries(longer));
        i = i + 1;
    }
    assert(stack@.take(i as int) =~= stack@);
    if found {
        Some(path)
    } else {
        None
    }
}

/// Push a frame onto the stack.
pub fn push_frame(stack: &mut FrameStack, frame: ActiveFrameHandle) -> (r: FrameGuard)
    ensures
        final(stack)@ == old(stack)@.push(frame@),
        r.armed(),
{
    stack.push(frame);
    FrameGuard { popped: false }
}

} // verus!
