//! The entry points: a checked comparison of two indices, and tracking in
//! one call.
use vstd::prelude::*;
use crate::change::{change_views, Change};
use crate::diff::{changes_between, diff, strictly_sorted};
use crate::diff_laws::{changes_sorted, lemma_changes_sorted};
use crate::emit::{emit, emitted_below, emitted_views, Emitted};
use crate::entry::State;
use crate::path::{compare_paths, lemma_path_lt_transitive, path_lt, PathOrder};
use crate::rewrites::Pool;
use crate::tracker::{Score, Tracker};
use crate::tracker::after_both;

verus! {

/// The side of a comparison.
#[derive(Debug, Copy, Clone, PartialEq, Eq, Structural)]
pub enum Side {
    Old,
    New,
}

/// Why a comparison was refused.
#[derive(Debug, Copy, Clone, PartialEq, Eq, Structural)]
pub enum Error {
    /// The entry at `index` of `side` has a path outside the backing
    /// buffer, mode bits of no known kind, or a path that does not sort
    /// after that of the entry before it.
    InvalidEntry { side: Side, index: usize },
}

impl State {
    /// The entry at `i` can be compared: its path lies in the backing
    /// buffer, its mode is of a known kind, and its path sorts after that
    /// of the entry before it.
    pub open spec fn entry_ok(&self, i: int) -> bool {
        &&& self.entries@[i].path_within(self.path_backing@.len())
        &&& self.entries@[i].mode.kind_spec() is Some
        &&& i > 0 && self.entries@[i - 1].path_within(self.path_backing@.len()) ==> path_lt(
            self.entries@[i - 1].path_spec(self.path_backing@),
            self.entries@[i].path_spec(self.path_backing@),
        )
    }

    /// Every entry can be compared.
    pub open spec fn valid(&self) -> bool {
        forall|i: int| 0 <= i < self.entries@.len() ==> self.entry_ok(i)
    }

    /// The first entry that cannot be compared, if there is one.
    pub fn first_invalid(&self) -> (r: Option<usize>)
        ensures
            match r {
                Some(i) => i < self.entries@.len() && !self.entry_ok(i as int) && forall|k: int|
                    0 <= k < i ==> self.entry_ok(k),
                None => self.valid(),
            },
    {
        let mut i: usize = 0;
        while i < self.entries.len()
            invariant
                i <= self.entries@.len(),
                forall|k: int| 0 <= k < i ==> self.entry_ok(k),
            decreases self.entries@.len() - i,
        {
            let entry = &self.entries[i];
            if entry.path.start > entry.path.end || entry.path.end > self.path_backing.len() {
                return Some(i);
            }
            if entry.mode.kind().is_none() {
                return Some(i);
            }
            if i > 0 {
                let before = &self.entries[i - 1];
                assert(self.entry_ok(i - 1));
                match compare_paths(before.path(self), entry.path(self)) {
                    PathOrder::Less => {},
                    _ => {
                        return Some(i);
                    },
                }
            }
            i += 1;
        }
        None
    }
}

/// In a valid state every path lies in the backing buffer, and the paths
/// are strictly sorted.
pub proof fn lemma_valid_is_sorted(state: &State)
    requires
        state.valid(),
    ensures
        state.well_formed(),
        strictly_sorted(state.entry_views()),
{
    assert forall|i: int| 0 <= i < state.entries@.len() implies (
    #[trigger] state.entries@[i]).path_within(state.path_backing@.len()) by {
        assert(state.entry_ok(i));
    }
    let views = state.entry_views();
    assert forall|a: int, b: int| 0 <= a < b < views.len() implies path_lt(
        (#[trigger] views[a]).path,
        (#[trigger] views[b]).path,
    ) by {
        lemma_sorted_between(state, a, b);
    }
}

proof fn lemma_sorted_between(state: &State, a: int, b: int)
    requires
        state.valid(),
        0 <= a < b < state.entries@.len(),
    ensures
        path_lt(state.entry_views()[a].path, state.entry_views()[b].path),
    decreases b - a,
{
    assert(state.entry_ok(b));
    assert(state.entry_ok(b - 1));
    if a < b - 1 {
        lemma_sorted_between(state, a, b - 1);
        lemma_path_lt_transitive(
            state.entry_views()[a].path,
            state.entry_views()[b - 1].path,
            state.entry_views()[b].path,
        );
    }
}

/// Compares two indices after checking them: the changes between them, or
/// the first entry that cannot be compared, of the old side if it has one,
/// else of the new side.
pub fn index(old_state: &State, new_state: &State) -> (r: Result<Vec<Change>, Error>)
    ensures
        r is Ok <==> old_state.valid() && new_state.valid(),
        match r {
            Ok(changes) => change_views(changes@) == changes_between(
                old_state.entry_views(),
                new_state.entry_views(),
            ) && strictly_sorted(old_state.entry_views()) && strictly_sorted(
                new_state.entry_views(),
            ) && changes_sorted(change_views(changes@)),
            Err(Error::InvalidEntry { side: Side::Old, index }) => index < old_state.entries@.len()
                && !old_state.entry_ok(index as int) && forall|k: int|
                0 <= k < index ==> old_state.entry_ok(k),
            Err(Error::InvalidEntry { side: Side::New, index }) => old_state.valid() && index
                < new_state.entries@.len() && !new_state.entry_ok(index as int) && forall|k: int|
                0 <= k < index ==> new_state.entry_ok(k),
        },
{
    match old_state.first_invalid() {
        Some(i) => {
            return Err(Error::InvalidEntry { side: Side::Old, index: i });
        },
        None => {},
    }
    match new_state.first_invalid() {
        Some(i) => {
            return Err(Error::InvalidEntry { side: Side::New, index: i });
        },
        None => {},
    }
    proof {
        lemma_valid_is_sorted(old_state);
        lemma_valid_is_sorted(new_state);
        lemma_changes_sorted(old_state.entry_views(), new_state.entry_views());
    }
    Ok(diff(old_state, new_state))
}

/// What tracking yields.
#[derive(Debug, Clone)]
pub struct Outcome {
    /// The final stream.
    pub items: Vec<Emitted>,
    /// Whether the fuzzy pass was skipped because the limit did not admit
    /// every pair.
    pub budget_exceeded: bool,
}

/// Runs the identity pass, then the fuzzy pass on the given scores, and
/// produces the final stream.
pub fn track(pool: &Pool, scores: &Vec<Score>) -> (r: Outcome)
    requires
        pool.well_formed(),
    ensures
        emitted_views(r.items@) == emitted_below(
            pool@,
            after_both(pool@, scores@),
            pool@.changes.len() as int,
        ),
        r.budget_exceeded == after_both(pool@, scores@).budget_exceeded,
{
    let mut tracker = Tracker::match_identity(pool);
    tracker.match_fuzzy(pool, scores);
    let items = emit(pool, &tracker);
    Outcome { items, budget_exceeded: tracker.budget_exceeded }
}

} // verus!
