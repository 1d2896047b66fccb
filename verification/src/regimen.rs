//! The regimen: a collection of named exercises, each with a daily goal and a
//! day-indexed completion history, plus the day the collection was last
//! normalized.  Days are counted as whole days from a fixed origin, so a
//! difference of day numbers is a number of calendar days.

use vstd::prelude::*;

use crate::parse::{parse_u32, spec_parse_u32};
use vstd::string::StringSliceAdditionalSpecFns;

verus! {

/// One tracked activity: one history entry per calendar day since creation
/// (index 0 is the creation day), and a repetition goal per day.
pub struct Exercise {
    pub history: Vec<u32>,
    pub desired: u32,
    pub created: u64,
}

/// A named exercise of the regimen.
pub struct Entry {
    pub name: String,
    pub exercise: Exercise,
}

/// The full collection of tracked exercises, with the day of the last
/// history normalization.
pub struct Regimen {
    pub entries: Vec<Entry>,
    pub last_updated: u64,
}

#[verifier::ext_equal]
pub struct ExerciseView {
    pub history: Seq<u32>,
    pub desired: u32,
    pub created: u64,
}

#[verifier::ext_equal]
pub struct EntryView {
    pub name: Seq<char>,
    pub exercise: ExerciseView,
}

#[verifier::ext_equal]
pub struct RegimenView {
    pub entries: Seq<EntryView>,
    pub last_updated: u64,
}

impl View for Exercise {
    type V = ExerciseView;

    open spec fn view(&self) -> ExerciseView {
        ExerciseView { history: self.history@, desired: self.desired, created: self.created }
    }
}

impl View for Entry {
    type V = EntryView;

    open spec fn view(&self) -> EntryView {
        EntryView { name: self.name@, exercise: self.exercise@ }
    }
}

impl View for Regimen {
    type V = RegimenView;

    open spec fn view(&self) -> RegimenView {
        RegimenView {
            entries: self.entries@.map_values(|e: Entry| e@),
            last_updated: self.last_updated,
        }
    }
}

/// How an operation can fail: it names an exercise that is not stored, adds
/// one that already is, or was given a count that is not a number.
#[derive(Clone, Copy, Debug, PartialEq, Eq, Structural)]
pub enum RegimenError {
    UnknownExercise,
    AlreadyExists,
    InvalidNumber,
}

/// Where today's total stands against the goal: short by so many, met
/// exactly, or past it by so many.
#[derive(Clone, Copy, Debug, PartialEq, Eq, Structural)]
pub enum Assessment {
    Remaining(u32),
    Complete,
    Exceeded(u32),
}

/// What a completion reports: today's new total, the goal, and the
/// comparison of the two.
#[derive(Clone, Copy, Debug, PartialEq, Eq, Structural)]
pub struct DoneReport {
    pub total: u32,
    pub desired: u32,
    pub assessment: Assessment,
}

/// One line of a listing: the exercise, today's count, and the goal.
pub struct ListEntry {
    pub name: String,
    pub current: u32,
    pub desired: u32,
}

#[verifier::ext_equal]
pub struct ListEntryView {
    pub name: Seq<char>,
    pub current: u32,
    pub desired: u32,
}

impl View for ListEntry {
    type V = ListEntryView;

    open spec fn view(&self) -> ListEntryView {
        ListEntryView { name: self.name@, current: self.current, desired: self.desired }
    }
}

impl RegimenView {
    /// Names are unique and every history has at least its creation-day entry.
    pub open spec fn wf(self) -> bool {
        &&& forall|i: int, j: int|
            #![trigger self.entries[i], self.entries[j]]
            0 <= i < j < self.entries.len() ==> self.entries[i].name != self.entries[j].name
        &&& forall|i: int|
            0 <= i < self.entries.len() ==> (#[trigger] self.entries[i]).exercise.history.len()
                >= 1
    }

    pub open spec fn has_name(self, name: Seq<char>) -> bool {
        exists|i: int|
            0 <= i < self.entries.len() && (#[trigger] self.entries[i]).name == name
    }

    /// The index of the entry with this name; meaningful only when `has_name`.
    pub open spec fn index_of(self, name: Seq<char>) -> int {
        choose|i: int|
            0 <= i < self.entries.len() && (#[trigger] self.entries[i]).name == name
    }

    pub open spec fn exercise_named(self, name: Seq<char>) -> ExerciseView {
        self.entries[self.index_of(name)].exercise
    }

    /// Every history is fully backfilled up to the last normalization day:
    /// one entry per calendar day from creation through `last_updated`.
    pub open spec fn normalized(self) -> bool {
        forall|i: int|
            0 <= i < self.entries.len() ==> {
                let e = (#[trigger] self.entries[i]).exercise;
                &&& e.created <= self.last_updated
                &&& e.history.len() == self.last_updated - e.created + 1
            }
    }
}

/// Addition capped at `u32::MAX`: a day's total never wraps around.
pub open spec fn saturating_add_u32(a: u32, b: u32) -> u32 {
    if a + b > u32::MAX {
        u32::MAX
    } else {
        (a + b) as u32
    }
}

/// The three-way comparison of a day's total against the goal.
pub open spec fn spec_assess(total: u32, desired: u32) -> Assessment {
    if total < desired {
        Assessment::Remaining((desired - total) as u32)
    } else if total == desired {
        Assessment::Complete
    } else {
        Assessment::Exceeded((total - desired) as u32)
    }
}

/// A freshly added exercise: nothing done on its creation day yet.
pub open spec fn spec_new_exercise(goal: u32, created: u64) -> ExerciseView {
    ExerciseView { history: seq![0u32], desired: goal, created }
}

/// What `add` does: refuse a stored name, refuse a count that is not a
/// number, and otherwise append a fresh exercise created today.
pub open spec fn spec_add(v: RegimenView, name: Seq<char>, goal: Option<u32>) -> (
    RegimenView,
    Result<(), RegimenError>,
) {
    if v.has_name(name) {
        (v, Err(RegimenError::AlreadyExists))
    } else {
        match goal {
            None => (v, Err(RegimenError::InvalidNumber)),
            Some(g) => (
                RegimenView {
                    entries: v.entries.push(
                        EntryView { name, exercise: spec_new_exercise(g, v.last_updated) },
                    ),
                    last_updated: v.last_updated,
                },
                Ok(()),
            ),
        }
    }
}

/// An exercise after a completion: the count is added, capped, to the last
/// (today's) history entry.
pub open spec fn spec_bump_last(e: ExerciseView, c: u32) -> ExerciseView {
    ExerciseView {
        history: e.history.update(
            e.history.len() - 1,
            saturating_add_u32(e.history.last(), c),
        ),
        desired: e.desired,
        created: e.created,
    }
}

/// What `done` does: refuse an unknown name or a count that is not a number;
/// otherwise add the count to today's entry and report the new total against
/// the goal.
pub open spec fn spec_done(v: RegimenView, name: Seq<char>, count: Option<u32>) -> (
    RegimenView,
    Result<DoneReport, RegimenError>,
) {
    if !v.has_name(name) {
        (v, Err(RegimenError::UnknownExercise))
    } else {
        match count {
            None => (v, Err(RegimenError::InvalidNumber)),
            Some(c) => {
                let i = v.index_of(name);
                let e = v.entries[i].exercise;
                let total = saturating_add_u32(e.history.last(), c);
                (
                    RegimenView {
                        entries: v.entries.update(
                            i,
                            EntryView { name, exercise: spec_bump_last(e, c) },
                        ),
                        last_updated: v.last_updated,
                    },
                    Ok(
                        DoneReport {
                            total,
                            desired: e.desired,
                            assessment: spec_assess(total, e.desired),
                        },
                    ),
                )
            },
        }
    }
}

/// What `delete` does: refuse an unknown name, otherwise remove the entry.
pub open spec fn spec_delete(v: RegimenView, name: Seq<char>) -> (
    RegimenView,
    Result<(), RegimenError>,
) {
    if !v.has_name(name) {
        (v, Err(RegimenError::UnknownExercise))
    } else {
        (
            RegimenView { entries: v.entries.remove(v.index_of(name)), last_updated: v.last_updated },
            Ok(()),
        )
    }
}

/// What `goal` does: refuse an unknown name or a goal that is not a number,
/// otherwise overwrite the daily goal.
pub open spec fn spec_set_goal(v: RegimenView, name: Seq<char>, goal: Option<u32>) -> (
    RegimenView,
    Result<(), RegimenError>,
) {
    if !v.has_name(name) {
        (v, Err(RegimenError::UnknownExercise))
    } else {
        match goal {
            None => (v, Err(RegimenError::InvalidNumber)),
            Some(g) => {
                let i = v.index_of(name);
                let e = v.entries[i].exercise;
                (
                    RegimenView {
                        entries: v.entries.update(
                            i,
                            EntryView {
                                name,
                                exercise: ExerciseView {
                                    history: e.history,
                                    desired: g,
                                    created: e.created,
                                },
                            },
                        ),
                        last_updated: v.last_updated,
                    },
                    Ok(()),
                )
            },
        }
    }
}

/// An exercise's history brought up to `today`: one zero entry appended for
/// each missed day, so that it has one entry per day since creation.  A day
/// before the creation day, or one already covered, changes nothing.
pub open spec fn spec_backfilled(e: ExerciseView, today: u64) -> ExerciseView {
    if e.created <= today && e.history.len() < today - e.created + 1 {
        ExerciseView {
            history: e.history + Seq::new(
                (today - e.created + 1 - e.history.len()) as nat,
                |_i: int| 0u32,
            ),
            desired: e.desired,
            created: e.created,
        }
    } else {
        e
    }
}

/// What `update_history` does: every history is backfilled up to `today`,
/// and `today` is recorded as the day of the last normalization.
pub open spec fn spec_update_history(v: RegimenView, today: u64) -> RegimenView {
    RegimenView {
        entries: v.entries.map_values(
            |e: EntryView| EntryView { name: e.name, exercise: spec_backfilled(e.exercise, today) },
        ),
        last_updated: today,
    }
}

/// What `list` reports: for each exercise in order, its name, today's count
/// (the last history entry), and the goal.
pub open spec fn spec_list(v: RegimenView) -> Seq<ListEntryView> {
    v.entries.map_values(
        |e: EntryView| ListEntryView {
            name: e.name,
            current: e.exercise.history.last(),
            desired: e.exercise.desired,
        },
    )
}

impl Regimen {
    /// An empty regimen, last normalized today.
    pub fn new() -> (r: Regimen)
        ensures
            r@.wf(),
            r@.entries == Seq::<EntryView>::empty(),
    {
        Regimen::new_on(crate::clock::today_day_number())
    }

    /// Bring every history up to the present day, as the clock reports it,
    /// and record that day; the recorded day says which normalization was
    /// applied.
    pub fn update_history_now(&mut self)
        requires
            old(self)@.wf(),
        ensures
            final(self)@.wf(),
            final(self)@ == spec_update_history(old(self)@, final(self)@.last_updated),
    {
        let today = crate::clock::today_day_number();
        self.update_history(today);
    }

    /// Whether the structural invariant holds: unique names and no empty
    /// history.  A regimen assembled from a state file is checked with this
    /// before it is used.
    pub fn is_wf(&self) -> (r: bool)
        ensures
            r == self@.wf(),
    {
        let n = self.entries.len();
        let mut i: usize = 0;
        while i < n
            invariant
                i <= n,
                n == self.entries.len(),
                forall|p: int, q: int|
                    #![trigger self@.entries[p], self@.entries[q]]
                    0 <= p < q < i ==> self@.entries[p].name != self@.entries[q].name,
                forall|p: int|
                    0 <= p < i ==> (#[trigger] self@.entries[p]).exercise.history.len() >= 1,
            decreases n - i,
        {
            if self.entries[i].exercise.history.len() == 0 {
                proof {
                    assert(self@.entries[i as int] == self.entries@[i as int]@);
                    assert(!self@.wf());
                }
                return false;
            }
            let mut j: usize = 0;
            while j < i
                invariant
                    j <= i < n,
                    n == self.entries.len(),
                    forall|p: int|
                        0 <= p < j ==> (#[trigger] self@.entries[p]).name != self@.entries[
                            i as int
                        ].name,
                decreases i - j,
            {
                if self.entries[j].name == self.entries[i].name {
                    proof {
                        assert(self@.entries[i as int] == self.entries@[i as int]@);
                        assert(self@.entries[j as int] == self.entries@[j as int]@);
                        assert(!self@.wf());
                    }
                    return false;
                }
                j += 1;
            }
            i += 1;
        }
        true
    }

    /// An empty regimen whose last normalization day is `day`.
    pub fn new_on(day: u64) -> (r: Regimen)
        ensures
            r@ == (RegimenView { entries: Seq::<EntryView>::empty(), last_updated: day }),
            r@.wf(),
    {
        let r = Regimen { entries: Vec::new(), last_updated: day };
        proof {
            assert(r@.entries =~= Seq::<EntryView>::empty());
        }
        r
    }

    /// The position of the entry carrying this name, scanning in order.
    fn find(&self, name: &String) -> (r: Option<usize>)
        requires
            self@.wf(),
        ensures
            match r {
                Some(i) => {
                    &&& i < self@.entries.len()
                    &&& self@.entries[i as int].name == name@
                    &&& self@.has_name(name@)
                    &&& i as int == self@.index_of(name@)
                },
                None => !self@.has_name(name@),
            },
    {
        let mut i: usize = 0;
        while i < self.entries.len()
            invariant
                self@.wf(),
                i <= self.entries.len(),
                self@.entries.len() == self.entries.len(),
                forall|k: int| 0 <= k < i ==> (#[trigger] self@.entries[k]).name != name@,
            decreases self.entries.len() - i,
        {
            let e = &self.entries[i];
            assert(e@ == self@.entries[i as int]);
            if e.name == *name {
                proof {
                    let j = self@.index_of(name@);
                    assert(0 <= j < self@.entries.len() && self@.entries[j].name == name@);
                }
                return Some(i);
            }
            i += 1;
        }
        None
    }

    /// Start tracking an exercise under a new name, with the given daily
    /// goal, created on the day of the last normalization.
    pub fn add(&mut self, name: &str, goal: &str) -> (r: Result<(), RegimenError>)
        requires
            old(self)@.wf(),
        ensures
            final(self)@.wf(),
            final(self)@ == spec_add(old(self)@, name@, spec_parse_u32(goal.spec_bytes())).0,
            r == spec_add(old(self)@, name@, spec_parse_u32(goal.spec_bytes())).1,
    {
        let name_string: String = name.to_owned();
        if let Some(_) = self.find(&name_string) {
            return Err(RegimenError::AlreadyExists);
        }
        match parse_u32(goal) {
            None => Err(RegimenError::InvalidNumber),
            Some(g) => {
                let mut history: Vec<u32> = Vec::new();
                history.push(0);
                proof {
                    assert(history@ =~= seq![0u32]);
                }
                let created = self.last_updated;
                self.entries.push(
                    Entry { name: name_string, exercise: Exercise { history, desired: g, created } },
                );
                proof {
                    assert(self@ =~~= spec_add(old(self)@, name@, Some(g)).0);
                }
                Ok(())
            },
        }
    }

    /// Record repetitions done today: the count is added, capped at
    /// `u32::MAX`, to the last history entry, and the new total is reported
    /// against the goal.
    pub fn done(&mut self, name: &str, count: &str) -> (r: Result<DoneReport, RegimenError>)
        requires
            old(self)@.wf(),
        ensures
            final(self)@.wf(),
            final(self)@ == spec_done(old(self)@, name@, spec_parse_u32(count.spec_bytes())).0,
            r == spec_done(old(self)@, name@, spec_parse_u32(count.spec_bytes())).1,
    {
        let name_string: String = name.to_owned();
        let idx = match self.find(&name_string) {
            Some(i) => i,
            None => {
                return Err(RegimenError::UnknownExercise);
            },
        };
        let c = match parse_u32(count) {
            Some(c) => c,
            None => {
                return Err(RegimenError::InvalidNumber);
            },
        };
        let last_pos = self.entries[idx].exercise.history.len() - 1;
        let last = self.entries[idx].exercise.history[last_pos];
        let total = if last > u32::MAX - c {
            u32::MAX
        } else {
            last + c
        };
        let desired = self.entries[idx].exercise.desired;
        self.entries[idx].exercise.history[last_pos] = total;
        let assessment = if total < desired {
            Assessment::Remaining(desired - total)
        } else if total == desired {
            Assessment::Complete
        } else {
            Assessment::Exceeded(total - desired)
        };
        proof {
            assert(self@ =~~= spec_done(old(self)@, name@, spec_parse_u32(count.spec_bytes())).0);
        }
        Ok(DoneReport { total, desired, assessment })
    }

    /// Overwrite the daily goal of a stored exercise.
    pub fn goal(&mut self, name: &str, new_goal: &str) -> (r: Result<(), RegimenError>)
        requires
            old(self)@.wf(),
        ensures
            final(self)@.wf(),
            final(self)@ == spec_set_goal(old(self)@, name@, spec_parse_u32(new_goal.spec_bytes())).0,
            r == spec_set_goal(old(self)@, name@, spec_parse_u32(new_goal.spec_bytes())).1,
    {
        let name_string: String = name.to_owned();
        let idx = match self.find(&name_string) {
            Some(i) => i,
            None => {
                return Err(RegimenError::UnknownExercise);
            },
        };
        match parse_u32(new_goal) {
            None => Err(RegimenError::InvalidNumber),
            Some(g) => {
                self.entries[idx].exercise.desired = g;
                proof {
                    assert(self@ =~~= spec_set_goal(
                        old(self)@,
                        name@,
                        spec_parse_u32(new_goal.spec_bytes()),
                    ).0);
                }
                Ok(())
            },
        }
    }

    /// Stop tracking a stored exercise.
    pub fn delete(&mut self, name: &str) -> (r: Result<(), RegimenError>)
        requires
            old(self)@.wf(),
        ensures
            final(self)@.wf(),
            final(self)@ == spec_delete(old(self)@, name@).0,
            r == spec_delete(old(self)@, name@).1,
    {
        let name_string: String = name.to_owned();
        match self.find(&name_string) {
            None => Err(RegimenError::UnknownExercise),
            Some(i) => {
                self.entries.remove(i);
                proof {
                    assert(self@ =~~= spec_delete(old(self)@, name@).0);
                }
                Ok(())
            },
        }
    }

    /// Report every exercise in order: name, today's count, and the goal.
    pub fn list(&self) -> (r: Vec<ListEntry>)
        requires
            self@.wf(),
        ensures
            r@.len() == spec_list(self@).len(),
            forall|i: int| 0 <= i < r@.len() ==> (#[trigger] r@[i])@ == spec_list(self@)[i],
    {
        let mut report: Vec<ListEntry> = Vec::new();
        let mut i: usize = 0;
        while i < self.entries.len()
            invariant
                self@.wf(),
                i <= self.entries.len(),
                self@.entries.len() == self.entries.len(),
                report@.len() == i,
                forall|k: int| 0 <= k < i ==> (#[trigger] report@[k])@ == spec_list(self@)[k],
            decreases self.entries.len() - i,
        {
            let e = &self.entries[i];
            assert(e@ == self@.entries[i as int]);
            let n = e.exercise.history.len();
            report.push(
                ListEntry {
                    name: e.name.clone(),
                    current: e.exercise.history[n - 1],
                    desired: e.exercise.desired,
                },
            );
            i += 1;
        }
        report
    }

    /// Bring every history up to `today`: append one zero entry per missed
    /// day, so each exercise has one entry per day since its creation, and
    /// record `today` as the day of this normalization.
    pub fn update_history(&mut self, today: u64)
        requires
            old(self)@.wf(),
        ensures
            final(self)@.wf(),
            final(self)@ == spec_update_history(old(self)@, today),
    {
        let n = self.entries.len();
        let mut i: usize = 0;
        while i < n
            invariant
                old(self)@.wf(),
                i <= n,
                n == old(self)@.entries.len(),
                self.entries.len() == n,
                self.last_updated == old(self).last_updated,
                forall|k: int|
                    i <= k < n ==> self@.entries[k] == old(self)@.entries[k],
                forall|k: int|
                    0 <= k < i ==> self@.entries[k] == (#[trigger] spec_update_history(
                        old(self)@,
                        today,
                    ).entries[k]),
            decreases n - i,
        {
            let created = self.entries[i].exercise.created;
            if today >= created {
                let span = today - created;
                let ghost h0 = self@.entries[i as int].exercise.history;
                while (self.entries[i].exercise.history.len() as u64) <= span
                    invariant
                        i < n,
                        self.entries.len() == n,
                        self.last_updated == old(self).last_updated,
                        span == today - created,
                        created <= today,
                        self@.entries[i as int].exercise.created == created,
                        self@.entries[i as int].exercise.desired == old(self)@.entries[i as int].exercise.desired,
                        self@.entries[i as int].name == old(self)@.entries[i as int].name,
                        forall|k: int|
                            i < k < n ==> self@.entries[k] == old(self)@.entries[k],
                        forall|k: int|
                            0 <= k < i ==> self@.entries[k] == (#[trigger] spec_update_history(
                                old(self)@,
                                today,
                            ).entries[k]),
                        h0 == old(self)@.entries[i as int].exercise.history,
                        h0.len() >= 1,
                        self@.entries[i as int].exercise.history.len() >= h0.len(),
                        self@.entries[i as int].exercise.history.len() <= span + 1 || self@.entries[
                            i as int
                        ].exercise.history == h0,
                        forall|k: int|
                            0 <= k < h0.len() ==> self@.entries[i as int].exercise.history[k]
                                == h0[k],
                        forall|k: int|
                            h0.len() <= k < self@.entries[i as int].exercise.history.len()
                                ==> self@.entries[i as int].exercise.history[k] == 0,
                    decreases span + 1 - self@.entries[i as int].exercise.history.len(),
                {
                    self.entries[i].exercise.history.push(0);
                }
                proof {
                    let e0 = old(self)@.entries[i as int].exercise;
                    assert(self@.entries[i as int].exercise =~~= spec_backfilled(e0, today));
                }
            }
            proof {
                assert(self@.entries[i as int] =~~= spec_update_history(old(self)@, today).entries[
                    i as int
                ]);
            }
            i += 1;
        }
        self.last_updated = today;
        proof {
            assert(self@ =~~= spec_update_history(old(self)@, today));
        }
    }
}

} // verus!
