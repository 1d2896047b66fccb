//! Laws of the regimen: how the operations relate to one another, stated
//! over the same spec-level transitions that the executable operations are
//! proved against.

use vstd::prelude::*;

use crate::regimen::{
    spec_add, spec_delete, spec_done, spec_list, spec_new_exercise, spec_set_goal,
    spec_update_history, spec_backfilled, DoneReport, EntryView, ListEntryView, RegimenError,
    RegimenView,
};

verus! {

/// A fresh exercise starts at zero: adding a new name and then listing
/// reports 0 done out of the given goal for that name, and no other entry
/// carries the name.
pub proof fn lemma_add_then_list(v: RegimenView, name: Seq<char>, goal: u32)
    requires
        v.wf(),
        !v.has_name(name),
    ensures
        ({
            let v2 = spec_add(v, name, Some(goal)).0;
            &&& spec_add(v, name, Some(goal)).1 == Ok::<(), RegimenError>(())
            &&& spec_list(v2).len() == v.entries.len() + 1
            &&& spec_list(v2).last() == (ListEntryView { name, current: 0, desired: goal })
            &&& forall|j: int|
                0 <= j < v.entries.len() ==> (#[trigger] spec_list(v2)[j]).name != name
        }),
{
    let v2 = spec_add(v, name, Some(goal)).0;
    assert(v2.entries.last() == EntryView { name, exercise: spec_new_exercise(goal, v.last_updated) });
    assert(spec_list(v2).last() =~= (ListEntryView { name, current: 0, desired: goal }));
    assert forall|j: int| 0 <= j < v.entries.len() implies (#[trigger] spec_list(v2)[j]).name
        != name by {
        assert(v2.entries[j] == v.entries[j]);
        assert(v.entries[j].name != name);
    }
}

/// Completions on one day accumulate: two `done` calls with counts `c1` and
/// `c2`, with no day change between them, raise today's entry by `c1 + c2`.
pub proof fn lemma_done_twice_accumulates(v: RegimenView, name: Seq<char>, c1: u32, c2: u32)
    requires
        v.wf(),
        v.has_name(name),
        v.exercise_named(name).history.last() + c1 + c2 <= u32::MAX,
    ensures
        ({
            let v1 = spec_done(v, name, Some(c1)).0;
            let v2 = spec_done(v1, name, Some(c2)).0;
            &&& v1.has_name(name)
            &&& v2.exercise_named(name).history.last() == v.exercise_named(name).history.last()
                + c1 + c2
        }),
{
    let i = v.index_of(name);
    assert(0 <= i < v.entries.len() && v.entries[i].name == name);
    let v1 = spec_done(v, name, Some(c1)).0;
    assert(v1.entries[i].name == name);
    assert(v1.has_name(name));
    assert(v1.index_of(name) == i) by {
        let j = v1.index_of(name);
        assert(0 <= j < v1.entries.len() && v1.entries[j].name == name);
        if j != i {
            assert(v1.entries[j].name == v.entries[j].name);
        }
    }
    let e = v.entries[i].exercise;
    assert(v1.entries[i].exercise.history.last() == e.history.last() + c1);
    let v2 = spec_done(v1, name, Some(c2)).0;
    assert(v2.entries[i].name == name);
    assert(v2.has_name(name));
    assert(v2.index_of(name) == i) by {
        let j = v2.index_of(name);
        assert(0 <= j < v2.entries.len() && v2.entries[j].name == name);
        if j != i {
            assert(v2.entries[j].name == v1.entries[j].name);
            assert(v1.entries[j].name == v.entries[j].name);
        }
    }
    assert(v2.entries[i].exercise.history.last() == e.history.last() + c1 + c2);
}

/// Backfilling is exactly the missed days: when today is on or after an
/// exercise's creation day and its history does not already run past today,
/// the normalized history has one entry per day since creation, the old
/// entries unchanged and every appended entry zero.
pub proof fn lemma_update_history_backfills(v: RegimenView, today: u64, i: int)
    requires
        v.wf(),
        0 <= i < v.entries.len(),
        v.entries[i].exercise.created <= today,
        v.entries[i].exercise.history.len() <= today - v.entries[i].exercise.created + 1,
    ensures
        ({
            let e = v.entries[i].exercise;
            let e2 = spec_update_history(v, today).entries[i].exercise;
            &&& e2.history.len() == today - e.created + 1
            &&& forall|j: int| 0 <= j < e.history.len() ==> e2.history[j] == e.history[j]
            &&& forall|j: int|
                e.history.len() <= j < e2.history.len() ==> e2.history[j] == 0
        }),
{
    let e = v.entries[i].exercise;
    let e2 = spec_update_history(v, today).entries[i].exercise;
    assert(e2 == spec_backfilled(e, today));
}

/// A deleted name is gone: after `delete(name)` succeeds, the name is
/// unknown, and completing it, re-targeting it or deleting it again all
/// fail with `UnknownExercise`.
pub proof fn lemma_delete_then_unknown(
    v: RegimenView,
    name: Seq<char>,
    c: Option<u32>,
    g: Option<u32>,
)
    requires
        v.wf(),
        v.has_name(name),
    ensures
        ({
            let v2 = spec_delete(v, name).0;
            &&& spec_delete(v, name).1 == Ok::<(), RegimenError>(())
            &&& !v2.has_name(name)
            &&& spec_done(v2, name, c).1 == Err::<DoneReport, RegimenError>(
                RegimenError::UnknownExercise,
            )
            &&& spec_set_goal(v2, name, g).1 == Err::<(), RegimenError>(
                RegimenError::UnknownExercise,
            )
            &&& spec_delete(v2, name).1 == Err::<(), RegimenError>(RegimenError::UnknownExercise)
        }),
{
    let i = v.index_of(name);
    assert(0 <= i < v.entries.len() && v.entries[i].name == name);
    let v2 = spec_delete(v, name).0;
    assert(!v2.has_name(name)) by {
        v.entries.remove_ensures(i);
        if v2.has_name(name) {
            let j = choose|j: int|
                0 <= j < v2.entries.len() && (#[trigger] v2.entries[j]).name == name;
            if j < i {
                assert(v2.entries[j] == v.entries[j]);
            } else {
                assert(v2.entries[j] == v.entries[j + 1]);
            }
        }
    }
}

/// A name can be added once: a second `add` with the same name fails with
/// `AlreadyExists` and leaves the regimen as it was.
pub proof fn lemma_add_twice_already_exists(
    v: RegimenView,
    name: Seq<char>,
    g1: u32,
    g2: Option<u32>,
)
    requires
        v.wf(),
        !v.has_name(name),
    ensures
        ({
            let v1 = spec_add(v, name, Some(g1)).0;
            &&& v1.has_name(name)
            &&& spec_add(v1, name, g2) == (v1, Err::<(), RegimenError>(RegimenError::AlreadyExists))
        }),
{
    let v1 = spec_add(v, name, Some(g1)).0;
    assert(v1.entries.last().name == name);
    assert(v1.has_name(name));
}

/// Normalization catches up: running the day rollover with a day no earlier
/// than the recorded one leaves every history fully backfilled again.
pub proof fn lemma_update_history_normalizes(v: RegimenView, today: u64)
    requires
        v.normalized(),
        v.last_updated <= today,
    ensures
        spec_update_history(v, today).normalized(),
{
    let v2 = spec_update_history(v, today);
    assert forall|i: int| 0 <= i < v2.entries.len() implies {
        let e = (#[trigger] v2.entries[i]).exercise;
        &&& e.created <= v2.last_updated
        &&& e.history.len() == v2.last_updated - e.created + 1
    } by {
        assert(v2.entries[i].exercise == spec_backfilled(v.entries[i].exercise, today));
    }
}

/// The mutations keep normalization: on a fully backfilled regimen, adding,
/// completing, re-targeting and deleting leave every history fully
/// backfilled, whether they succeed or fail.
pub proof fn lemma_operations_preserve_normalized(
    v: RegimenView,
    name: Seq<char>,
    g: Option<u32>,
    c: Option<u32>,
)
    requires
        v.normalized(),
    ensures
        spec_add(v, name, g).0.normalized(),
        spec_done(v, name, c).0.normalized(),
        spec_set_goal(v, name, g).0.normalized(),
        spec_delete(v, name).0.normalized(),
{
    if v.has_name(name) {
        let i = v.index_of(name);
        v.entries.remove_ensures(i);
        assert(spec_delete(v, name).0.normalized());
    }
}

} // verus!
