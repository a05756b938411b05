//! The matching of additions with the sources they were renamed or copied
//! from: first by identical content, then by similarity.
use vstd::prelude::*;
use crate::entry::ContentId;
use crate::path::{bytes_equal, path_lt, path_order, PathOrder};
use crate::rewrites::{Pool, PoolView, RewriteKind};
use crate::similarity::FULL_SIMILARITY;

verus! {

/// The source that an addition was matched with.
#[derive(Debug, Copy, Clone, PartialEq, Eq, Structural)]
pub struct Match {
    /// The number of the source in the pool.
    pub source: usize,
    /// Whether the source is consumed.
    pub kind: RewriteKind,
    /// `None` for identical content, else the similarity in hundredths of a
    /// percent.
    pub similarity: Option<u32>,
}

/// The similarity of one source and one destination, in hundredths of a
/// percent.
#[derive(Debug, Copy, Clone, PartialEq, Eq, Structural)]
pub struct Score {
    pub source: usize,
    pub destination: usize,
    pub similarity: u32,
}

/// What has been matched so far.
#[derive(Debug, Clone)]
pub struct Tracker {
    /// For each change, the source it was matched with, if any.
    pub matches: Vec<Option<Match>>,
    /// For each change, whether it is a deletion that a rename consumed.
    pub consumed: Vec<bool>,
    /// Whether the fuzzy pass was skipped because the limit did not admit
    /// every pair.
    pub budget_exceeded: bool,
}

/// A [`Tracker`] as a mathematical value.
pub struct TrackerView {
    pub matches: Seq<Option<Match>>,
    pub consumed: Seq<bool>,
    pub budget_exceeded: bool,
}

impl View for Tracker {
    type V = TrackerView;

    open spec fn view(&self) -> TrackerView {
        TrackerView {
            matches: self.matches@,
            consumed: self.consumed@,
            budget_exceeded: self.budget_exceeded,
        }
    }
}

impl TrackerView {
    /// The state in which nothing is matched.
    pub open spec fn start(n: nat) -> TrackerView {
        TrackerView {
            matches: Seq::new(n, |i: int| None::<Match>),
            consumed: Seq::new(n, |i: int| false),
            budget_exceeded: false,
        }
    }

    /// There is one slot for each change of the pool, and every match
    /// names a source of the pool.
    pub open spec fn fits(self, pool: PoolView) -> bool {
        &&& self.matches.len() == pool.changes.len()
        &&& self.consumed.len() == pool.changes.len()
        &&& forall|d: int|
            0 <= d < self.matches.len() && (#[trigger] self.matches[d]) is Some
                ==> self.matches[d].unwrap().source < pool.source_count()
    }

    /// The source `s` can still be matched: it is a source, and if it is a
    /// deletion, no rename has consumed it.
    pub open spec fn available(self, pool: PoolView, s: int) -> bool {
        pool.is_source(s) && (pool.is_deletion(s) ==> !self.consumed[s])
    }

    /// The destination `d` has no source yet.
    pub open spec fn open_destination(self, pool: PoolView, d: int) -> bool {
        pool.is_destination(d) && self.matches[d] is None
    }

    /// The state after the destination `d` was matched with the source `s`.
    pub open spec fn matched(self, pool: PoolView, d: int, s: int, similarity: Option<u32>) -> TrackerView {
        TrackerView {
            matches: self.matches.update(
                d,
                Some(Match { source: s as usize, kind: pool.kind_of(s), similarity }),
            ),
            consumed: if pool.is_deletion(s) {
                self.consumed.update(s, true)
            } else {
                self.consumed
            },
            budget_exceeded: self.budget_exceeded,
        }
    }

    /// The first available source from `k` on whose content is `id`; with
    /// `renames_only`, the first deletion among them.
    pub open spec fn first_source_from(
        self,
        pool: PoolView,
        id: Seq<u8>,
        renames_only: bool,
        k: int,
    ) -> Option<int>
        decreases pool.source_count() - k,
    {
        if k < 0 || k >= pool.source_count() {
            None
        } else if self.available(pool, k) && pool.source_id(k) == id && (renames_only
            ==> pool.is_deletion(k)) {
            Some(k)
        } else {
            self.first_source_from(pool, id, renames_only, k + 1)
        }
    }

    /// The source with identical content that the destination `d` is to be
    /// matched with: the first deletion that is still available, else the
    /// first other source.
    pub open spec fn identical_source(self, pool: PoolView, d: int) -> Option<int> {
        let id = pool.changes[d].id();
        match self.first_source_from(pool, id, true, 0) {
            Some(s) => Some(s),
            None => self.first_source_from(pool, id, false, 0),
        }
    }

    /// The state after the change at `d` had its turn in the identity pass.
    pub open spec fn identity_step(self, pool: PoolView, d: int) -> TrackerView {
        if self.open_destination(pool, d) {
            match self.identical_source(pool, d) {
                Some(s) => self.matched(pool, d, s, None),
                None => self,
            }
        } else {
            self
        }
    }

    /// How many of the sources below `k` are still available.
    pub open spec fn available_below(self, pool: PoolView, k: int) -> nat
        decreases k,
    {
        if k <= 0 {
            0
        } else {
            self.available_below(pool, k - 1) + if self.available(pool, k - 1) {
                1nat
            } else {
                0nat
            }
        }
    }

    /// How many of the destinations below `k` have no source yet.
    pub open spec fn open_below(self, pool: PoolView, k: int) -> nat
        decreases k,
    {
        if k <= 0 {
            0
        } else {
            self.open_below(pool, k - 1) + if self.open_destination(pool, k - 1) {
                1nat
            } else {
                0nat
            }
        }
    }

    /// The limit does not admit a comparison of every available source with
    /// every open destination.
    pub open spec fn over_budget(self, pool: PoolView) -> bool {
        pool.config.limit != 0 && self.available_below(pool, pool.source_count())
            * self.open_below(pool, pool.changes.len() as int) > pool.config.limit
            * pool.config.limit
    }

    /// The score names an open destination and an available source, and
    /// its similarity is at least the configured one and at most that of
    /// identical content.
    pub open spec fn usable(self, pool: PoolView, score: Score) -> bool {
        &&& self.open_destination(pool, score.destination as int)
        &&& self.available(pool, score.source as int)
        &&& pool.config.percentage is Some
        &&& pool.config.percentage.unwrap() <= score.similarity <= FULL_SIMILARITY
    }

    /// The usable score among the first `k` that is to be taken next, as
    /// its place in `scores`: the one that `goes_before` all others, and of
    /// several such the first.
    pub open spec fn best_below(self, pool: PoolView, scores: Seq<Score>, k: int) -> Option<int>
        decreases k,
    {
        if k <= 0 || k > scores.len() {
            None
        } else {
            let before = self.best_below(pool, scores, k - 1);
            if self.usable(pool, scores[k - 1]) && (before is None || goes_before(
                pool,
                scores[k - 1],
                scores[before.unwrap()],
            )) {
                Some(k - 1)
            } else {
                before
            }
        }
    }

    /// The state after up to `rounds` rounds of taking the best usable
    /// score and matching its two ends.
    pub open spec fn fuzzy_rounds(self, pool: PoolView, scores: Seq<Score>, rounds: nat) -> TrackerView
        decreases rounds,
    {
        if rounds == 0 {
            self
        } else {
            match self.best_below(pool, scores, scores.len() as int) {
                None => self,
                Some(b) => self.matched(
                    pool,
                    scores[b].destination as int,
                    scores[b].source as int,
                    Some(scores[b].similarity),
                ).fuzzy_rounds(pool, scores, (rounds - 1) as nat),
            }
        }
    }

    /// The state after the fuzzy pass: unchanged where no similarity is
    /// configured; unchanged but for the flag where the limit does not admit
    /// every pair; else the outcome of one round for each change, which is
    /// as many as there can be matches.
    pub open spec fn after_fuzzy(self, pool: PoolView, scores: Seq<Score>) -> TrackerView {
        if pool.config.percentage is None {
            self
        } else if self.over_budget(pool) {
            TrackerView { budget_exceeded: true, ..self }
        } else {
            self.fuzzy_rounds(pool, scores, pool.changes.len())
        }
    }
}

/// The state after the first `n` changes had their turn in the identity
/// pass.
pub open spec fn after_identity(pool: PoolView, n: int) -> TrackerView
    decreases n,
{
    if n <= 0 {
        TrackerView::start(pool.changes.len())
    } else {
        after_identity(pool, n - 1).identity_step(pool, n - 1)
    }
}

/// The state after both passes.
pub open spec fn after_both(pool: PoolView, scores: Seq<Score>) -> TrackerView {
    after_identity(pool, pool.changes.len() as int).after_fuzzy(pool, scores)
}

/// The score `a` is taken before the score `b`: it is higher; or as high,
/// with a destination path that sorts first; or that too is the same, and
/// its source path sorts first.
pub open spec fn goes_before(pool: PoolView, a: Score, b: Score) -> bool {
    let dest = path_order(
        pool.changes[a.destination as int].path(),
        pool.changes[b.destination as int].path(),
    );
    a.similarity > b.similarity || (a.similarity == b.similarity && (dest == PathOrder::Less || (dest
        == PathOrder::Equal && path_lt(
        pool.source_path(a.source as int),
        pool.source_path(b.source as int),
    ))))
}

impl Tracker {
    /// The pool is well formed, there is one slot for each of its changes,
    /// and every match names one of its sources.
    pub open spec fn fits(&self, pool: &Pool) -> bool {
        pool.well_formed() && self@.fits(pool@)
    }

    /// The state in which nothing is matched.
    pub fn new(n: usize) -> (r: Tracker)
        ensures
            r@ == TrackerView::start(n as nat),
    {
        let mut matches: Vec<Option<Match>> = Vec::new();
        let mut consumed: Vec<bool> = Vec::new();
        let mut i: usize = 0;
        while i < n
            invariant
                i <= n,
                matches@ =~= Seq::new(i as nat, |k: int| None::<Match>),
                consumed@ =~= Seq::new(i as nat, |k: int| false),
            decreases n - i,
        {
            matches.push(None);
            consumed.push(false);
            i += 1;
        }
        Tracker { matches, consumed, budget_exceeded: false }
    }

    /// Whether the source `s` can still be matched.
    pub fn available(&self, pool: &Pool, s: usize) -> (r: bool)
        requires
            self.fits(pool),
        ensures
            r == self@.available(pool@, s as int),
    {
        pool.is_source(s) && (!pool.is_deletion(s) || !self.consumed[s])
    }

    /// Whether the destination `d` has no source yet.
    pub fn open_destination(&self, pool: &Pool, d: usize) -> (r: bool)
        requires
            self.fits(pool),
        ensures
            r == self@.open_destination(pool@, d as int),
    {
        pool.is_destination(d) && self.matches[d].is_none()
    }

    /// Matches the destination `d` with the source `s`.
    pub fn record(&mut self, pool: &Pool, d: usize, s: usize, similarity: Option<u32>)
        requires
            old(self).fits(pool),
            d < pool.changes@.len(),
            s < pool@.source_count(),
        ensures
            final(self)@ == old(self)@.matched(pool@, d as int, s as int, similarity),
            final(self).fits(pool),
    {
        let kind = pool.kind_of(s);
        self.matches.set(d, Some(Match { source: s, kind, similarity }));
        if pool.is_deletion(s) {
            self.consumed.set(s, true);
        }
    }

    /// The first available source whose content is `id`; with
    /// `renames_only`, the first deletion among them.
    pub fn first_source(&self, pool: &Pool, id: &ContentId, renames_only: bool) -> (r: Option<
        usize,
    >)
        requires
            self.fits(pool),
        ensures
            match r {
                Some(s) => Some(s as int),
                None => None,
            } == self@.first_source_from(pool@, id@, renames_only, 0),
    {
        let total: usize = pool.changes.len() + pool.unmodified.len();
        let mut k: usize = 0;
        while k < total
            invariant
                self.fits(pool),
                total == pool@.source_count(),
                k <= total,
                self@.first_source_from(pool@, id@, renames_only, k as int)
                    == self@.first_source_from(pool@, id@, renames_only, 0),
            decreases total - k,
        {
            if self.available(pool, k) && bytes_equal(
                pool.source_id(k).bytes.as_slice(),
                id.bytes.as_slice(),
            ) && (!renames_only || pool.is_deletion(k)) {
                return Some(k);
            }
            k += 1;
        }
        None
    }

    /// Gives the change at `d` its turn in the identity pass: if it is a
    /// destination without a source, it is matched with the first available
    /// deletion of identical content, else with the first other source of
    /// identical content, if there is one.
    pub fn identity_turn(&mut self, pool: &Pool, d: usize)
        requires
            old(self).fits(pool),
            d < pool.changes@.len(),
        ensures
            final(self)@ == old(self)@.identity_step(pool@, d as int),
            final(self).fits(pool),
    {
        if !self.open_destination(pool, d) {
            return ;
        }
        let id = pool.changes[d].id();
        let found = match self.first_source(pool, id, true) {
            Some(s) => Some(s),
            None => self.first_source(pool, id, false),
        };
        match found {
            Some(s) => {
                proof {
                    lemma_first_source_in_range(self@, pool@, id@, true, 0);
                    lemma_first_source_in_range(self@, pool@, id@, false, 0);
                }
                self.record(pool, d, s, None);
            },
            None => {},
        }
    }

    /// The identity pass: every change has its turn, in order.
    pub fn match_identity(pool: &Pool) -> (r: Tracker)
        requires
            pool.well_formed(),
        ensures
            r@ == after_identity(pool@, pool@.changes.len() as int),
            r.fits(pool),
    {
        let mut tracker = Tracker::new(pool.changes.len());
        let mut d: usize = 0;
        while d < pool.changes.len()
            invariant
                d <= pool.changes@.len(),
                tracker.fits(pool),
                tracker@ == after_identity(pool@, d as int),
            decreases pool.changes@.len() - d,
        {
            tracker.identity_turn(pool, d);
            d += 1;
        }
        tracker
    }
}

/// A source that the search finds is available, has the content asked for,
/// and no available source of that content comes before it.
pub proof fn lemma_first_source_in_range(
    tracker: TrackerView,
    pool: PoolView,
    id: Seq<u8>,
    renames_only: bool,
    k: int,
)
    requires
        0 <= k,
    ensures
        match tracker.first_source_from(pool, id, renames_only, k) {
            Some(s) => k <= s < pool.source_count() && tracker.available(pool, s)
                && pool.source_id(s) == id && (renames_only ==> pool.is_deletion(s)),
            None => forall|s: int|
                k <= s < pool.source_count() ==> !(#[trigger] tracker.available(pool, s)
                    && pool.source_id(s) == id && (renames_only ==> pool.is_deletion(s))),
        },
    decreases pool.source_count() - k,
{
    if k < pool.source_count() && !(tracker.available(pool, k) && pool.source_id(k) == id && (
    renames_only ==> pool.is_deletion(k))) {
        lemma_first_source_in_range(tracker, pool, id, renames_only, k + 1);
    }
}

} // verus!
