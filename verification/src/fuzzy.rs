//! The fuzzy pass: matching by similarity, within the configured limit.
use vstd::prelude::*;
use crate::path::{compare_paths, PathOrder};
use crate::rewrites::{Pool, PoolView};
use crate::similarity::FULL_SIMILARITY;
use crate::tracker::{goes_before, Score, Tracker, TrackerView};


verus! {

/// A source and a destination whose similarity is wanted.
#[derive(Debug, Copy, Clone, PartialEq, Eq, Structural)]
pub struct Pair {
    pub source: usize,
    pub destination: usize,
}

/// Whether the score `a` is taken before the score `b`.
pub fn takes_precedence(pool: &Pool, a: &Score, b: &Score) -> (r: bool)
    requires
        a.destination < pool.changes@.len(),
        b.destination < pool.changes@.len(),
        a.source < pool@.source_count(),
        b.source < pool@.source_count(),
    ensures
        r == goes_before(pool@, *a, *b),
{
    if a.similarity != b.similarity {
        return a.similarity > b.similarity;
    }
    match compare_paths(pool.changes[a.destination].path(), pool.changes[b.destination].path()) {
        PathOrder::Less => true,
        PathOrder::Greater => false,
        PathOrder::Equal => match compare_paths(
            pool.source_path(a.source),
            pool.source_path(b.source),
        ) {
            PathOrder::Less => true,
            _ => false,
        },
    }
}

impl Tracker {
    /// How many sources are still available.
    pub fn count_available(&self, pool: &Pool) -> (r: usize)
        requires
            self.fits(pool),
        ensures
            r == self@.available_below(pool@, pool@.source_count()),
    {
        let total: usize = pool.changes.len() + pool.unmodified.len();
        let mut count: usize = 0;
        let mut k: usize = 0;
        while k < total
            invariant
                self.fits(pool),
                total == pool@.source_count(),
                k <= total,
                count <= k,
                count == self@.available_below(pool@, k as int),
            decreases total - k,
        {
            if self.available(pool, k) {
                count += 1;
            }
            k += 1;
        }
        count
    }

    /// How many destinations have no source yet.
    pub fn count_open(&self, pool: &Pool) -> (r: usize)
        requires
            self.fits(pool),
        ensures
            r == self@.open_below(pool@, pool@.changes.len() as int),
    {
        let mut count: usize = 0;
        let mut k: usize = 0;
        while k < pool.changes.len()
            invariant
                self.fits(pool),
                k <= pool.changes@.len(),
                count <= k,
                count == self@.open_below(pool@, k as int),
            decreases pool.changes@.len() - k,
        {
            if self.open_destination(pool, k) {
                count += 1;
            }
            k += 1;
        }
        count
    }

    /// Whether the limit does not admit a comparison of every available
    /// source with every open destination.
    pub fn over_budget(&self, pool: &Pool) -> (r: bool)
        requires
            self.fits(pool),
        ensures
            r == self@.over_budget(pool@),
    {
        if pool.config.limit == 0 {
            return false;
        }
        let sources = self.count_available(pool) as u128;
        let destinations = self.count_open(pool) as u128;
        let limit = pool.config.limit as u128;
        assert(sources * destinations <= 0xffff_ffff_ffff_ffff * 0xffff_ffff_ffff_ffff) by (nonlinear_arith)
            requires
                sources <= 0xffff_ffff_ffff_ffff,
                destinations <= 0xffff_ffff_ffff_ffff,
        ;
        assert(limit * limit <= 0xffff_ffff_ffff_ffff * 0xffff_ffff_ffff_ffff) by (nonlinear_arith)
            requires
                limit <= 0xffff_ffff_ffff_ffff,
        ;
        sources * destinations > limit * limit
    }

    /// Whether the score names an open destination and an available
    /// source, with a similarity that is at least the configured one and at
    /// most that of identical content.
    pub fn usable(&self, pool: &Pool, score: &Score) -> (r: bool)
        requires
            self.fits(pool),
        ensures
            r == self@.usable(pool@, *score),
    {
        match pool.config.percentage {
            Some(needed) => score.similarity >= needed && score.similarity <= FULL_SIMILARITY
                && self.open_destination(
                pool,
                score.destination,
            ) && self.available(pool, score.source),
            None => false,
        }
    }

    /// The place in `scores` of the usable score that is to be taken next.
    pub fn best_score(&self, pool: &Pool, scores: &Vec<Score>) -> (r: Option<usize>)
        requires
            self.fits(pool),
        ensures
            match r {
                Some(b) => Some(b as int),
                None => None,
            } == self@.best_below(pool@, scores@, scores@.len() as int),
            r is Some ==> r.unwrap() < scores@.len() && self@.usable(pool@, scores@[r.unwrap() as int]),
    {
        let mut best: Option<usize> = None;
        let mut k: usize = 0;
        while k < scores.len()
            invariant
                self.fits(pool),
                k <= scores@.len(),
                match best {
                    Some(b) => Some(b as int),
                    None => None,
                } == self@.best_below(pool@, scores@, k as int),
                best is Some ==> best.unwrap() < k && self@.usable(
                    pool@,
                    scores@[best.unwrap() as int],
                ),
            decreases scores@.len() - k,
        {
            if self.usable(pool, &scores[k]) {
                let better = match best {
                    None => true,
                    Some(b) => takes_precedence(pool, &scores[k], &scores[b]),
                };
                if better {
                    best = Some(k);
                }
            }
            k += 1;
        }
        best
    }

    /// The fuzzy pass. Without a configured similarity nothing happens. If
    /// the limit does not admit every pair of an available source and an
    /// open destination, nothing is matched and the flag is set. Else the
    /// best usable score is taken, its two ends are matched, and so on
    /// until no usable score is left.
    pub fn match_fuzzy(&mut self, pool: &Pool, scores: &Vec<Score>)
        requires
            old(self).fits(pool),
        ensures
            final(self)@ == old(self)@.after_fuzzy(pool@, scores@),
            final(self).fits(pool),
    {
        if pool.config.percentage.is_none() {
            return ;
        }
        if self.over_budget(pool) {
            self.budget_exceeded = true;
            return ;
        }
        let n = pool.changes.len();
        let mut round: usize = 0;
        while round < n
            invariant
                self.fits(pool),
                n == pool.changes@.len(),
                round <= n,
                pool.config.percentage is Some,
                !old(self)@.over_budget(pool@),
                self@.fuzzy_rounds(pool@, scores@, (n - round) as nat) == old(self)@.fuzzy_rounds(
                    pool@,
                    scores@,
                    n as nat,
                ),
            decreases n - round,
        {
            match self.best_score(pool, scores) {
                None => {
                    assert(self@.fuzzy_rounds(pool@, scores@, (n - round) as nat) == self@);
                    return ;
                },
                Some(b) => {
                    let score = scores[b];
                    self.record(pool, score.destination, score.source, Some(score.similarity));
                },
            }
            round += 1;
        }
    }
}

impl TrackerView {
    /// The fuzzy pass wants the similarity of this pair: its source is
    /// available and its destination is open.
    pub open spec fn wants(self, pool: PoolView, p: Pair) -> bool {
        self.available(pool, p.source as int) && self.open_destination(pool, p.destination as int)
    }
}

/// The pairs are listed destination by destination, and for each
/// destination source by source, so that no pair is listed twice.
pub open spec fn listed_in_order(pairs: Seq<Pair>) -> bool {
    forall|a: int, b: int|
        0 <= a < b < pairs.len() ==> listed_before(
            #[trigger] pairs[a],
            (#[trigger] pairs[b]).destination as int,
            pairs[b].source as int,
        )
}

/// The pair comes before the source `s` of the destination `d` when pairs
/// are listed destination by destination.
pub open spec fn listed_before(p: Pair, d: int, s: int) -> bool {
    p.destination < d || (p.destination == d && p.source < s)
}

proof fn lemma_push_contains(before: Seq<Pair>, pair: Pair, p: Pair)
    ensures
        before.push(pair).contains(p) <==> before.contains(p) || p == pair,
{
    let after = before.push(pair);
    if after.contains(p) {
        let w = choose|w: int| 0 <= w < after.len() && after[w] == p;
        if w < before.len() {
            assert(before[w] == p);
        }
    }
    if before.contains(p) {
        let w = choose|w: int| 0 <= w < before.len() && before[w] == p;
        assert(after[w] == p);
    }
    if p == pair {
        assert(after[before.len() as int] == p);
    }
}

impl Tracker {
    /// The pairs whose similarity the fuzzy pass wants: none where no
    /// similarity is configured or the limit does not admit every pair,
    /// else each available source with each open destination, once,
    /// destination by destination.
    pub fn pairs_to_score(&self, pool: &Pool) -> (r: Option<Vec<Pair>>)
        requires
            self.fits(pool),
        ensures
            r is Some <==> pool.config.percentage is Some && !self@.over_budget(pool@),
            r is Some ==> forall|p: Pair| #[trigger]
                r.unwrap()@.contains(p) <==> self@.wants(pool@, p),
            r is Some ==> listed_in_order(r.unwrap()@),
    {
        if pool.config.percentage.is_none() || self.over_budget(pool) {
            return None;
        }
        let total: usize = pool.changes.len() + pool.unmodified.len();
        let mut out: Vec<Pair> = Vec::new();
        let mut d: usize = 0;
        while d < pool.changes.len()
            invariant
                self.fits(pool),
                total == pool@.source_count(),
                d <= pool.changes@.len(),
                listed_in_order(out@),
                forall|p: Pair| #[trigger]
                    out@.contains(p) <==> self@.wants(pool@, p) && listed_before(p, d as int, 0),
            decreases pool.changes@.len() - d,
        {
            let mut s: usize = 0;
            while s < total
                invariant
                    self.fits(pool),
                    total == pool@.source_count(),
                    d < pool.changes@.len(),
                    s <= total,
                    listed_in_order(out@),
                    forall|p: Pair| #[trigger]
                        out@.contains(p) <==> self@.wants(pool@, p) && listed_before(
                            p,
                            d as int,
                            s as int,
                        ),
                decreases total - s,
            {
                let ghost before = out@;
                let pair = Pair { source: s, destination: d };
                let wanted = self.open_destination(pool, d) && self.available(pool, s);
                if wanted {
                    out.push(pair);
                    proof {
                        assert forall|a: int, b: int| 0 <= a < b < out@.len() implies listed_before(
                            #[trigger] out@[a],
                            (#[trigger] out@[b]).destination as int,
                            out@[b].source as int,
                        ) by {
                            assert(out@[a] == before[a]);
                            assert(before.contains(before[a]));
                            if b < before.len() {
                                assert(out@[b] == before[b]);
                            }
                        }
                    }
                }
                proof {
                    assert forall|p: Pair| #[trigger]
                        out@.contains(p) <==> self@.wants(pool@, p) && listed_before(
                            p,
                            d as int,
                            s + 1,
                        ) by {
                        lemma_push_contains(before, pair, p);
                        assert(before.contains(p) <==> self@.wants(pool@, p) && listed_before(
                            p,
                            d as int,
                            s as int,
                        ));
                    }
                }
                s += 1;
            }
            proof {
                assert forall|p: Pair| #[trigger]
                    out@.contains(p) <==> self@.wants(pool@, p) && listed_before(
                        p,
                        d + 1,
                        0,
                    ) by {
                    assert(out@.contains(p) <==> self@.wants(pool@, p) && listed_before(
                        p,
                        d as int,
                        total as int,
                    ));
                }
            }
            d += 1;
        }
        Some(out)
    }
}

} // verus!
