//! What the identities of runtimes are good for: telling apart views that may hold different
//! inputs at the same revision.
//!
//! Results and computations are filed under an identity and a revision. The law here says that
//! these two determine the inputs, among all databases and snapshots, now and at any time before.
use crate::runtime::{Runtime, RuntimeId};
use vstd::prelude::*;

verus! {

/// A database or a snapshot: its runtime, and all that its inputs hold.
pub ghost struct Standing<I> {
    /// The runtime.
    pub runtime: Runtime,
    /// What the inputs hold.
    pub inputs: I,
}

/// What happens to databases and snapshots.
pub ghost enum Happening<I> {
    /// A database is created under an identity.
    Created { id: RuntimeId, fresh: Standing<I> },
    /// A snapshot is taken of the one at a place, with an identity to take once it is changed.
    Snapped { of: int, own: RuntimeId, fresh: Standing<I> },
    /// The inputs of the one at a place are changed.
    Changed { at: int, after: Standing<I> },
    /// The one at a place is loaded from elsewhere, under another identity.
    Loaded { at: int, own: RuntimeId, after: Standing<I> },
}

/// The databases and snapshots that there are after all that has happened, oldest first.
pub open spec fn standing<I>(happened: Seq<Happening<I>>) -> Seq<Standing<I>>
    decreases happened.len(),
{
    if happened.len() == 0 {
        Seq::empty()
    } else {
        let before = standing(happened.drop_last());
        match happened.last() {
            Happening::Created { fresh, .. } => before.push(fresh),
            Happening::Snapped { fresh, .. } => before.push(fresh),
            Happening::Changed { at, after } => before.update(at, after),
            Happening::Loaded { at, after, .. } => before.update(at, after),
        }
    }
}

/// Whether an identity has been given out by what has happened.
pub open spec fn given_out<I>(happened: Seq<Happening<I>>, id: RuntimeId) -> bool {
    exists|n: int|
        0 <= n < happened.len() && match #[trigger] happened[n] {
            Happening::Created { id: given, .. } => given == id,
            Happening::Snapped { own, .. } => own == id,
            Happening::Changed { .. } => false,
            Happening::Loaded { own, .. } => own == id,
        }
}

/// Whether a runtime is one that [`Runtime::new`] makes.
pub open spec fn is_new(runtime: Runtime, id: RuntimeId) -> bool {
    &&& runtime.ident() == id
    &&& runtime.apart() is None
}

/// Whether a runtime is one that [`Runtime::new_for_snapshot`] makes.
pub open spec fn is_snapshot_of(runtime: Runtime, parent: Runtime, own: RuntimeId) -> bool {
    &&& runtime.ident() == parent.ident()
    &&& runtime.apart() == Some(own)
    &&& runtime.revision() == parent.revision()
}

/// Whether a runtime is as [`Runtime::bump_revision`] leaves it.
pub open spec fn is_changed(after: Runtime, before: Runtime) -> bool {
    &&& after.ident() == before.ident_once_changed()
    &&& after.apart() is None
    &&& before.revision().0 < after.revision().0
}

/// Whether all happened as it does: identities are given out once; a snapshot holds what was there
/// when it was taken; whoever changes its inputs moves on to a later revision; and whoever is loaded
/// from elsewhere gets another identity, as by [`Runtime::part`].
pub open spec fn is_course<I>(happened: Seq<Happening<I>>) -> bool
    decreases happened.len(),
{
    happened.len() == 0 || {
        let earlier = happened.drop_last();
        let before = standing(earlier);
        &&& is_course(earlier)
        &&& match happened.last() {
            Happening::Created { id, fresh } => {
                &&& !given_out(earlier, id)
                &&& is_new(fresh.runtime, id)
            },
            Happening::Snapped { of, own, fresh } => {
                &&& 0 <= of < before.len()
                &&& !given_out(earlier, own)
                &&& is_snapshot_of(fresh.runtime, before[of].runtime, own)
                &&& fresh.inputs == before[of].inputs
            },
            Happening::Changed { at, after } => {
                &&& 0 <= at < before.len()
                &&& is_changed(after.runtime, before[at].runtime)
            },
            Happening::Loaded { at, own, after } => {
                &&& 0 <= at < before.len()
                &&& !given_out(earlier, own)
                &&& is_new(after.runtime, own)
            },
        }
    }
}

/// Whether a database or snapshot has stood so at some time.
pub open spec fn has_stood<I>(happened: Seq<Happening<I>>, one: Standing<I>) -> bool
    decreases happened.len(),
{
    happened.len() > 0 && (has_stood(happened.drop_last(), one) || standing(happened).contains(one))
}

spec fn inputs_are_determined<I>(happened: Seq<Happening<I>>) -> bool {
    forall|a: Standing<I>, b: Standing<I>|
        #![trigger has_stood(happened, a), has_stood(happened, b)]
        has_stood(happened, a) && has_stood(happened, b) && a.runtime.ident() == b.runtime.ident()
            && a.runtime.revision() == b.runtime.revision() ==> a.inputs == b.inputs
}

spec fn identities_are_given_out<I>(happened: Seq<Happening<I>>) -> bool {
    forall|a: Standing<I>| #[trigger]
        has_stood(happened, a) ==> given_out(happened, a.runtime.ident())
}

spec fn nothing_stood_apart<I>(happened: Seq<Happening<I>>) -> bool {
    forall|i: int, a: Standing<I>|
        #![trigger standing(happened)[i], has_stood(happened, a)]
        0 <= i < standing(happened).len() && has_stood(happened, a) ==> standing(
            happened,
        )[i].runtime.apart() != Some(a.runtime.ident())
}

spec fn places_apart_are_given_out<I>(happened: Seq<Happening<I>>) -> bool {
    forall|i: int|
        0 <= i < standing(happened).len() ==> ((#[trigger] standing(
            happened,
        )[i]).runtime.apart() matches Some(own) ==> given_out(happened, own))
}

spec fn places_apart_differ<I>(happened: Seq<Happening<I>>) -> bool {
    forall|i: int, j: int|
        0 <= i < standing(happened).len() && 0 <= j < standing(happened).len() && i != j
            && standing(happened)[i].runtime.apart() is Some ==> (#[trigger] standing(
            happened,
        )[i]).runtime.apart() != (#[trigger] standing(happened)[j]).runtime.apart()
}

spec fn heads_are_latest<I>(happened: Seq<Happening<I>>) -> bool {
    forall|i: int, a: Standing<I>|
        #![trigger standing(happened)[i], has_stood(happened, a)]
        0 <= i < standing(happened).len() && standing(happened)[i].runtime.apart() is None
            && has_stood(happened, a) && a.runtime.ident() == standing(
            happened,
        )[i].runtime.ident() ==> a.runtime.revision().0 <= standing(
            happened,
        )[i].runtime.revision().0
}

spec fn heads_differ<I>(happened: Seq<Happening<I>>) -> bool {
    forall|i: int, j: int|
        0 <= i < standing(happened).len() && 0 <= j < standing(happened).len() && i != j
            && standing(happened)[i].runtime.apart() is None && standing(
            happened,
        )[j].runtime.apart() is None ==> (#[trigger] standing(happened)[i]).runtime.ident() != (
        #[trigger] standing(happened)[j]).runtime.ident()
}

/// What is kept up by all that happens:
/// - whatever has stood under an identity and at a revision had the same inputs;
/// - every identity was given out;
/// - nothing has stood under the identity that a snapshot is to take, and no two are to take the
///   same;
/// - whoever keeps its identity when it is changed is the only one to do so, and nothing has stood
///   under that identity at a later revision.
spec fn in_order<I>(happened: Seq<Happening<I>>) -> bool {
    &&& inputs_are_determined(happened)
    &&& identities_are_given_out(happened)
    &&& nothing_stood_apart(happened)
    &&& places_apart_are_given_out(happened)
    &&& places_apart_differ(happened)
    &&& heads_are_latest(happened)
    &&& heads_differ(happened)
}

proof fn all_have_stood<I>(happened: Seq<Happening<I>>, i: int)
    requires
        0 <= i < standing(happened).len(),
    ensures
        has_stood(happened, standing(happened)[i]),
{
    assert(standing(happened).contains(standing(happened)[i]));
}

proof fn given_out_stays<I>(happened: Seq<Happening<I>>, id: RuntimeId)
    requires
        happened.len() > 0,
        given_out(happened.drop_last(), id),
    ensures
        given_out(happened, id),
{
    let earlier = happened.drop_last();
    let n = choose|n: int|
        0 <= n < earlier.len() && match #[trigger] earlier[n] {
            Happening::Created { id: given, .. } => given == id,
            Happening::Snapped { own, .. } => own == id,
            Happening::Changed { .. } => false,
            Happening::Loaded { own, .. } => own == id,
        };
    assert(happened[n] == earlier[n]);
}

proof fn course_is_in_order<I>(happened: Seq<Happening<I>>)
    requires
        is_course(happened),
    ensures
        in_order(happened),
    decreases happened.len(),
{
    if happened.len() > 0 {
        let now = standing(happened);
        let earlier = happened.drop_last();
        let before = standing(earlier);
        let last = happened.last();
        course_is_in_order(earlier);
        let (place, fresh) = match last {
            Happening::Created { fresh, .. } => (before.len() as int, fresh),
            Happening::Snapped { fresh, .. } => (before.len() as int, fresh),
            Happening::Changed { at, after } => (at, after),
            Happening::Loaded { at, after, .. } => (at, after),
        };
        assert forall|i: int| 0 <= i < now.len() implies #[trigger] now[i] == (if i == place {
            fresh
        } else {
            before[i]
        }) by {}
        assert forall|i: int| 0 <= i < before.len() implies has_stood(
            earlier,
            #[trigger] before[i],
        ) by {
            all_have_stood(earlier, i);
        }
        assert forall|id: RuntimeId| #[trigger] given_out(earlier, id) implies given_out(
            happened,
            id,
        ) by {
            given_out_stays(happened, id);
        }
        assert(happened[happened.len() - 1] == last);
        assert forall|a: Standing<I>| #[trigger] has_stood(happened, a) implies has_stood(
            earlier,
            a,
        ) || a == fresh by {
            if !has_stood(earlier, a) {
                let i = choose|i: int| 0 <= i < now.len() && now[i] == a;
                assert(now[i] == a);
            }
        }
        assert(given_out(happened, fresh.runtime.ident())) by {
            match last {
                Happening::Snapped { of, .. } => {
                    assert(has_stood(earlier, before[of]));
                },
                Happening::Changed { at, .. } => {
                    assert(has_stood(earlier, before[at]));
                },
                _ => {},
            }
        }
        assert(inputs_are_determined(happened)) by {
            assert forall|a: Standing<I>, b: Standing<I>|
                #![trigger has_stood(happened, a), has_stood(happened, b)]
                has_stood(happened, a) && has_stood(happened, b) && a.runtime.ident()
                    == b.runtime.ident() && a.runtime.revision()
                    == b.runtime.revision() implies a.inputs == b.inputs by {
                match last {
                    Happening::Snapped { of, .. } => {
                        assert(has_stood(earlier, before[of]));
                    },
                    Happening::Changed { at, .. } => {
                        assert(has_stood(earlier, before[at]));
                    },
                    _ => {},
                }
            }
        }
        assert(nothing_stood_apart(happened)) by {
            assert forall|i: int, a: Standing<I>|
                #![trigger now[i], has_stood(happened, a)]
                0 <= i < now.len() && has_stood(happened, a) implies now[i].runtime.apart() != Some(
                a.runtime.ident(),
            ) by {
                if i != place {
                    assert(now[i] == before[i]);
                    assert(has_stood(earlier, before[i]));
                }
                match last {
                    Happening::Snapped { of, .. } => {
                        assert(has_stood(earlier, before[of]));
                    },
                    Happening::Changed { at, .. } => {
                        assert(has_stood(earlier, before[at]));
                    },
                    _ => {},
                }
            }
        }
        assert(places_apart_are_given_out(happened));
        assert(places_apart_differ(happened)) by {
            assert forall|i: int, j: int|
                0 <= i < now.len() && 0 <= j < now.len() && i != j && now[i].runtime.apart() is Some
                implies (#[trigger] now[i]).runtime.apart() != (
            #[trigger] now[j]).runtime.apart() by {
                if i != place {
                    assert(now[i] == before[i]);
                }
                if j != place {
                    assert(now[j] == before[j]);
                }
            }
        }
        assert(heads_are_latest(happened)) by {
            assert forall|i: int, a: Standing<I>|
                #![trigger now[i], has_stood(happened, a)]
                0 <= i < now.len() && now[i].runtime.apart() is None && has_stood(happened, a)
                    && a.runtime.ident() == now[i].runtime.ident() implies a.runtime.revision().0
                <= now[i].runtime.revision().0 by {
                if i != place {
                    assert(now[i] == before[i]);
                }
                match last {
                    Happening::Snapped { of, .. } => {
                        assert(has_stood(earlier, before[of]));
                    },
                    Happening::Changed { at, .. } => {
                        assert(has_stood(earlier, before[at]));
                    },
                    _ => {},
                }
            }
        }
        assert(heads_differ(happened)) by {
            assert forall|i: int, j: int|
                0 <= i < now.len() && 0 <= j < now.len() && i != j && now[i].runtime.apart() is None
                    && now[j].runtime.apart() is None implies (#[trigger] now[i]).runtime.ident()
                != (#[trigger] now[j]).runtime.ident() by {
                if i != place {
                    assert(now[i] == before[i]);
                    assert(has_stood(earlier, before[i]));
                }
                if j != place {
                    assert(now[j] == before[j]);
                    assert(has_stood(earlier, before[j]));
                }
            }
        }
    }
}

/// Identity and revision determine the inputs: whatever happens, any two databases or snapshots that
/// have ever stood under the same identity and at the same revision, at the same time or at different
/// times, hold the same inputs. So what one of them computes from its inputs holds for the other.
pub proof fn identity_and_revision_determine_inputs<I>(
    happened: Seq<Happening<I>>,
    one: Standing<I>,
    other: Standing<I>,
)
    requires
        is_course(happened),
        has_stood(happened, one),
        has_stood(happened, other),
        one.runtime.ident() == other.runtime.ident(),
        one.runtime.revision() == other.runtime.revision(),
    ensures
        one.inputs == other.inputs,
{
    course_is_in_order(happened);
}

/// A snapshot that has been changed shares its identity with no one but its own snapshots: whoever
/// else there is, and keeps its identity when it is changed, has another.
pub proof fn changed_snapshots_stand_alone<I>(happened: Seq<Happening<I>>, i: int, j: int)
    requires
        is_course(happened),
        0 <= i < standing(happened).len(),
        0 <= j < standing(happened).len(),
        i != j,
        standing(happened)[i].runtime.apart() is None,
        standing(happened)[j].runtime.apart() is None,
    ensures
        standing(happened)[i].runtime.ident() != standing(happened)[j].runtime.ident(),
{
    course_is_in_order(happened);
}

} // verus!
