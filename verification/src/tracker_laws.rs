//! What holds of every outcome of the two matching passes.
use vstd::prelude::*;
use crate::diff::{changes_between, EntryView};
use crate::emit::{emitted_at, emitted_below, EmittedView};
use crate::rewrites::{PoolView, RewriteKind};
use crate::similarity::FULL_SIMILARITY;
use crate::path::{lemma_path_lt_transitive, lemma_path_order_equal, path_lt};
use crate::tracker::{
    after_both, after_identity, goes_before, lemma_first_source_in_range, Score, TrackerView,
};

verus! {

/// The match of the destination `d` is sound: it joins a destination with a
/// source; a rename has consumed its source; a match without similarity
/// joins identical content; a similarity is at least the configured one and
/// at most that of identical content.
pub open spec fn match_sound(tracker: TrackerView, pool: PoolView, d: int) -> bool {
    let m = tracker.matches[d].unwrap();
    &&& pool.is_destination(d)
    &&& pool.is_source(m.source as int)
    &&& m.kind == pool.kind_of(m.source as int)
    &&& m.kind == RewriteKind::Rename ==> tracker.consumed[m.source as int]
    &&& match m.similarity {
        None => pool.source_id(m.source as int) == pool.changes[d].id(),
        Some(x) => pool.config.percentage is Some && pool.config.percentage.unwrap() <= x
            <= FULL_SIMILARITY,
    }
}

/// The destination `d` is matched with the source `s`.
pub open spec fn matched_with(tracker: TrackerView, s: int, d: int) -> bool {
    tracker.matches[d] is Some && tracker.matches[d].unwrap().source == s
}

/// Every match is sound, no deletion that a rename consumed is the source
/// of a second match, and only deletions that are the source of a match
/// count as consumed.
pub open spec fn consistent(tracker: TrackerView, pool: PoolView) -> bool {
    &&& tracker.fits(pool)
    &&& forall|d: int|
        0 <= d < tracker.matches.len() && (#[trigger] tracker.matches[d]) is Some ==> match_sound(
            tracker,
            pool,
            d,
        )
    &&& forall|d1: int, d2: int|
        0 <= d1 < tracker.matches.len() && 0 <= d2 < tracker.matches.len() && d1 != d2 && (
        #[trigger] tracker.matches[d1]) is Some && (#[trigger] tracker.matches[d2]) is Some
            && tracker.matches[d1].unwrap().kind == RewriteKind::Rename
            ==> tracker.matches[d1].unwrap().source != tracker.matches[d2].unwrap().source
    &&& forall|s: int|
        0 <= s < tracker.consumed.len() && (#[trigger] tracker.consumed[s]) ==> pool.is_deletion(s)
            && exists|d: int| 0 <= d < tracker.matches.len() && #[trigger] matched_with(tracker, s, d)
}

/// `later` keeps what `earlier` has matched and consumed.
pub open spec fn extends(later: TrackerView, earlier: TrackerView) -> bool {
    &&& later.matches.len() == earlier.matches.len()
    &&& later.consumed.len() == earlier.consumed.len()
    &&& forall|d: int|
        0 <= d < earlier.matches.len() && (#[trigger] earlier.matches[d]) is Some
            ==> later.matches[d] == earlier.matches[d]
    &&& forall|s: int|
        0 <= s < earlier.consumed.len() && (#[trigger] earlier.consumed[s]) ==> later.consumed[s]
}

/// Matching an open destination with an available source keeps the state
/// consistent and keeps all earlier matches.
pub proof fn lemma_matched_consistent(
    tracker: TrackerView,
    pool: PoolView,
    d: int,
    s: int,
    similarity: Option<u32>,
)
    requires
        consistent(tracker, pool),
        tracker.open_destination(pool, d),
        tracker.available(pool, s),
        s <= usize::MAX,
        match similarity {
            None => pool.source_id(s) == pool.changes[d].id(),
            Some(x) => pool.config.percentage is Some && pool.config.percentage.unwrap() <= x
            <= FULL_SIMILARITY,
        },
    ensures
        consistent(tracker.matched(pool, d, s, similarity), pool),
        extends(tracker.matched(pool, d, s, similarity), tracker),
{
    let next = tracker.matched(pool, d, s, similarity);
    assert(next.fits(pool)) by {
        assert forall|e: int| 0 <= e < next.matches.len() && (#[trigger] next.matches[e]) is Some
            implies next.matches[e].unwrap().source < pool.source_count() by {
            if e != d {
                assert(tracker.matches[e] is Some);
            }
        }
    }
    assert forall|e: int| 0 <= e < next.matches.len() && (#[trigger] next.matches[e]) is Some
        implies match_sound(next, pool, e) by {
        if e != d {
            assert(tracker.matches[e] is Some);
            assert(match_sound(tracker, pool, e));
        }
    }
    assert forall|d1: int, d2: int|
        0 <= d1 < next.matches.len() && 0 <= d2 < next.matches.len() && d1 != d2 && (
        #[trigger] next.matches[d1]) is Some && (#[trigger] next.matches[d2]) is Some
            && next.matches[d1].unwrap().kind
            == RewriteKind::Rename implies next.matches[d1].unwrap().source
        != next.matches[d2].unwrap().source by {
        if d1 != d && d2 != d {
            assert(tracker.matches[d1] is Some && tracker.matches[d2] is Some);
        } else if d1 == d {
            assert(tracker.matches[d2] is Some);
            assert(match_sound(tracker, pool, d2));
        } else {
            assert(tracker.matches[d1] is Some);
            assert(match_sound(tracker, pool, d1));
        }
    }
    assert forall|t: int| 0 <= t < next.consumed.len() && (#[trigger] next.consumed[t]) implies
        pool.is_deletion(t) && exists|e: int|
        0 <= e < next.matches.len() && #[trigger] matched_with(next, t, e) by {
        if tracker.consumed[t] {
            let e = choose|e: int| 0 <= e < tracker.matches.len() && #[trigger] matched_with(tracker, t, e);
            assert(e != d);
            assert(matched_with(next, t, e));
        } else {
            assert(t == s);
            assert(matched_with(next, t, d));
        }
    }
}

/// The state after any number of turns of the identity pass is consistent;
/// the changes whose turn is still to come are unmatched; every match so
/// far is one of identical content; and each turn keeps what was matched
/// before it.
pub proof fn lemma_identity_consistent(pool: PoolView, n: int)
    requires
        0 <= n <= pool.changes.len(),
        pool.source_count() <= usize::MAX,
    ensures
        consistent(after_identity(pool, n), pool),
        forall|d: int|
            n <= d < pool.changes.len() ==> (#[trigger] after_identity(pool, n).matches[d]) is None,
        forall|d: int|
            0 <= d < pool.changes.len() && (#[trigger] after_identity(pool, n).matches[d]) is Some
                ==> after_identity(pool, n).matches[d].unwrap().similarity is None,
        n > 0 ==> extends(after_identity(pool, n), after_identity(pool, n - 1)),
    decreases n,
{
    if n > 0 {
        lemma_identity_consistent(pool, n - 1);
        let before = after_identity(pool, n - 1);
        let d = n - 1;
        if before.open_destination(pool, d) {
            let id = pool.changes[d].id();
            lemma_first_source_in_range(before, pool, id, true, 0);
            lemma_first_source_in_range(before, pool, id, false, 0);
            match before.identical_source(pool, d) {
                Some(s) => {
                    lemma_matched_consistent(before, pool, d, s, None);
                },
                None => {},
            }
        }
    }
}

/// After the identity pass, a deletion and an addition of identical
/// content that both take part in tracking are never both left over: the
/// deletion was consumed by a rename, or the addition was matched with a
/// source of identical content.
pub proof fn lemma_identical_content_is_paired(pool: PoolView, n: int, s: int, d: int)
    requires
        0 <= d < n <= pool.changes.len(),
        pool.source_count() <= usize::MAX,
        pool.is_deletion(s),
        pool.is_source(s),
        pool.is_destination(d),
        pool.source_id(s) == pool.changes[d].id(),
    ensures
        after_identity(pool, n).consumed[s] || (after_identity(pool, n).matches[d] is Some
            && after_identity(pool, n).matches[d].unwrap().similarity is None
            && pool.source_id(after_identity(pool, n).matches[d].unwrap().source as int)
            == pool.changes[d].id()),
    decreases n,
{
    lemma_identity_consistent(pool, n);
    lemma_identity_consistent(pool, n - 1);
    let before = after_identity(pool, n - 1);
    let after = after_identity(pool, n);
    if d < n - 1 {
        lemma_identical_content_is_paired(pool, n - 1, s, d);
        if !before.consumed[s] {
            assert(before.matches[d] is Some);
        }
    } else {
        assert(before.matches[d] is None);
        let id = pool.changes[d].id();
        lemma_first_source_in_range(before, pool, id, true, 0);
        lemma_first_source_in_range(before, pool, id, false, 0);
        if before.first_source_from(pool, id, true, 0) is None {
            assert(!(before.available(pool, s) && pool.source_id(s) == id && pool.is_deletion(s)));
        } else {
            assert(after.matches[d] is Some);
            assert(match_sound(after, pool, d));
        }
    }
}

/// The score that is taken next is usable.
pub proof fn lemma_best_is_usable(tracker: TrackerView, pool: PoolView, scores: Seq<Score>, k: int)
    requires
        0 <= k <= scores.len(),
    ensures
        match tracker.best_below(pool, scores, k) {
            Some(b) => 0 <= b < k && tracker.usable(pool, scores[b]),
            None => forall|i: int| 0 <= i < k ==> !tracker.usable(pool, #[trigger] scores[i]),
        },
    decreases k,
{
    if k > 0 {
        lemma_best_is_usable(tracker, pool, scores, k - 1);
    }
}

/// Rounds of fuzzy matching keep a consistent state consistent and keep
/// all earlier matches.
pub proof fn lemma_fuzzy_rounds_consistent(
    tracker: TrackerView,
    pool: PoolView,
    scores: Seq<Score>,
    rounds: nat,
)
    requires
        consistent(tracker, pool),
    ensures
        consistent(tracker.fuzzy_rounds(pool, scores, rounds), pool),
        extends(tracker.fuzzy_rounds(pool, scores, rounds), tracker),
    decreases rounds,
{
    if rounds > 0 {
        lemma_best_is_usable(tracker, pool, scores, scores.len() as int);
        match tracker.best_below(pool, scores, scores.len() as int) {
            None => {},
            Some(b) => {
                let next = tracker.matched(
                    pool,
                    scores[b].destination as int,
                    scores[b].source as int,
                    Some(scores[b].similarity),
                );
                lemma_matched_consistent(
                    tracker,
                    pool,
                    scores[b].destination as int,
                    scores[b].source as int,
                    Some(scores[b].similarity),
                );
                lemma_fuzzy_rounds_consistent(next, pool, scores, (rounds - 1) as nat);
            },
        }
    }
}

/// After both passes every match is sound. In particular every match with
/// a similarity has one that is at least the configured one, and no
/// deletion that a rename consumed is the source of a second match; an
/// addition has one match at most, as it has one slot.
pub proof fn lemma_outcome_consistent(pool: PoolView, scores: Seq<Score>)
    requires
        pool.source_count() <= usize::MAX,
    ensures
        consistent(after_both(pool, scores), pool),
        extends(after_both(pool, scores), after_identity(pool, pool.changes.len() as int)),
{
    let n = pool.changes.len() as int;
    let mid = after_identity(pool, n);
    lemma_identity_consistent(pool, n);
    lemma_fuzzy_rounds_consistent(mid, pool, scores, pool.changes.len());
    let flagged = TrackerView { budget_exceeded: true, ..mid };
    assert forall|t: int| 0 <= t < flagged.consumed.len() && (#[trigger] flagged.consumed[t]) implies
        exists|e: int| 0 <= e < flagged.matches.len() && #[trigger] matched_with(flagged, t, e) by {
        let e = choose|e: int| 0 <= e < mid.matches.len() && #[trigger] matched_with(mid, t, e);
        assert(matched_with(flagged, t, e));
    }
    assert(consistent(flagged, pool));
}

/// Where the limit does not admit every pair of an available source and an
/// open destination, the fuzzy pass matches nothing, whatever the scores:
/// it only sets the flag.
pub proof fn lemma_over_budget_matches_nothing(
    tracker: TrackerView,
    pool: PoolView,
    scores: Seq<Score>,
)
    requires
        pool.config.percentage is Some,
        tracker.over_budget(pool),
    ensures
        tracker.after_fuzzy(pool, scores).matches == tracker.matches,
        tracker.after_fuzzy(pool, scores).consumed == tracker.consumed,
        tracker.after_fuzzy(pool, scores).budget_exceeded,
{
}

/// The deletion `s` is the source of a match of identical content.
pub open spec fn renamed_as_identical(tracker: TrackerView, s: int) -> bool {
    exists|d: int|
        0 <= d < tracker.matches.len() && #[trigger] matched_with(tracker, s, d)
            && tracker.matches[d].unwrap().similarity is None
}

/// A deletion and an addition of identical content that both take part in
/// tracking are never both left over at the end, whatever similarity and
/// limit are configured and whatever the scores are: the deletion is the
/// source of a rename without similarity, or the addition is the
/// destination of a rewrite without similarity.
pub proof fn lemma_identity_survives_fuzzy(pool: PoolView, scores: Seq<Score>, s: int, d: int)
    requires
        pool.source_count() <= usize::MAX,
        pool.is_deletion(s),
        pool.is_source(s),
        pool.is_destination(d),
        pool.source_id(s) == pool.changes[d].id(),
    ensures
        renamed_as_identical(after_both(pool, scores), s) || (after_both(
            pool,
            scores,
        ).matches[d] is Some && after_both(pool, scores).matches[d].unwrap().similarity is None),
{
    let n = pool.changes.len() as int;
    lemma_identical_content_is_paired(pool, n, s, d);
    lemma_outcome_consistent(pool, scores);
    let mid = after_identity(pool, n);
    let end = after_both(pool, scores);
    lemma_identity_consistent(pool, n);
    if mid.consumed[s] {
        let e = choose|e: int| 0 <= e < mid.matches.len() && #[trigger] matched_with(mid, s, e);
        assert(mid.matches[e] is Some);
        assert(end.matches[e] == mid.matches[e]);
        assert(matched_with(end, s, e));
    } else {
        assert(mid.matches[d] is Some);
    }
}

/// With the same entries the changes are the same, and with the same pool
/// and the same scores the matches and the final stream are the same, in
/// the same order.
pub proof fn lemma_outcome_is_determined(
    old_a: Seq<EntryView>,
    new_a: Seq<EntryView>,
    old_b: Seq<EntryView>,
    new_b: Seq<EntryView>,
    pool_a: PoolView,
    scores_a: Seq<Score>,
    pool_b: PoolView,
    scores_b: Seq<Score>,
)
    requires
        old_a == old_b,
        new_a == new_b,
        pool_a == pool_b,
        scores_a == scores_b,
    ensures
        changes_between(old_a, new_a) == changes_between(old_b, new_b),
        after_both(pool_a, scores_a) == after_both(pool_b, scores_b),
        emitted_below(pool_a, after_both(pool_a, scores_a), pool_a.changes.len() as int)
            == emitted_below(pool_b, after_both(pool_b, scores_b), pool_b.changes.len() as int),
{
}

proof fn lemma_emitted_keeps(pool: PoolView, tracker: TrackerView, k: int, n: int)
    requires
        0 <= k < n,
        emitted_at(pool, tracker, k) is Some,
    ensures
        emitted_below(pool, tracker, n).contains(emitted_at(pool, tracker, k).unwrap()),
    decreases n,
{
    let item = emitted_at(pool, tracker, k).unwrap();
    let before = emitted_below(pool, tracker, n - 1);
    let all = emitted_below(pool, tracker, n);
    if k == n - 1 {
        assert(all == before.push(item));
        assert(all[before.len() as int] == item);
    } else {
        lemma_emitted_keeps(pool, tracker, k, n - 1);
        let w = choose|w: int| 0 <= w < before.len() && before[w] == item;
        if emitted_at(pool, tracker, n - 1) is Some {
            assert(all == before.push(emitted_at(pool, tracker, n - 1).unwrap()));
            assert(all[w] == item);
        }
    }
}

/// Nothing is lost: a change that was neither matched nor consumed is in
/// the final stream as itself, and a destination that was matched is there
/// as a rewrite from its source.
pub proof fn lemma_every_change_is_emitted(pool: PoolView, tracker: TrackerView, k: int)
    requires
        tracker.fits(pool),
        0 <= k < pool.changes.len(),
        !tracker.consumed[k],
    ensures
        emitted_below(pool, tracker, pool.changes.len() as int).contains(
            match tracker.matches[k] {
                Some(m) => EmittedView::Rewritten {
                    source_path: pool.source_path(m.source as int),
                    source_id: pool.source_id(m.source as int),
                    destination: pool.changes[k],
                    kind: m.kind,
                    similarity: m.similarity,
                },
                None => EmittedView::Plain(pool.changes[k]),
            },
        ),
{
    lemma_emitted_keeps(pool, tracker, k, pool.changes.len() as int);
}

proof fn lemma_open_below_bounds(tracker: TrackerView, pool: PoolView, k: int)
    requires
        0 <= k,
    ensures
        tracker.open_below(pool, k) <= k,
        tracker.open_below(pool, k) == 0 ==> forall|d: int|
            0 <= d < k ==> !tracker.open_destination(pool, d),
    decreases k,
{
    if k > 0 {
        lemma_open_below_bounds(tracker, pool, k - 1);
    }
}

proof fn lemma_open_after_match(
    tracker: TrackerView,
    pool: PoolView,
    d: int,
    s: int,
    similarity: Option<u32>,
    k: int,
)
    requires
        tracker.matches.len() == pool.changes.len(),
        tracker.open_destination(pool, d),
        0 <= k <= pool.changes.len(),
    ensures
        tracker.matched(pool, d, s, similarity).open_below(pool, k) + (if d < k {
            1nat
        } else {
            0nat
        }) == tracker.open_below(pool, k),
    decreases k,
{
    if k > 0 {
        lemma_open_after_match(tracker, pool, d, s, similarity, k - 1);
        let next = tracker.matched(pool, d, s, similarity);
        if k - 1 != d {
            assert(next.matches[k - 1] == tracker.matches[k - 1]);
        }
    }
}

proof fn lemma_rounds_exhaust(
    tracker: TrackerView,
    pool: PoolView,
    scores: Seq<Score>,
    rounds: nat,
)
    requires
        tracker.matches.len() == pool.changes.len(),
        rounds >= tracker.open_below(pool, pool.changes.len() as int),
    ensures
        forall|i: int|
            0 <= i < scores.len() ==> !tracker.fuzzy_rounds(pool, scores, rounds).usable(
                pool,
                #[trigger] scores[i],
            ),
    decreases rounds,
{
    let n = pool.changes.len() as int;
    lemma_best_is_usable(tracker, pool, scores, scores.len() as int);
    if rounds == 0 {
        lemma_open_below_bounds(tracker, pool, n);
    } else {
        match tracker.best_below(pool, scores, scores.len() as int) {
            None => {},
            Some(b) => {
                let d = scores[b].destination as int;
                let s = scores[b].source as int;
                let next = tracker.matched(pool, d, s, Some(scores[b].similarity));
                lemma_open_after_match(tracker, pool, d, s, Some(scores[b].similarity), n);
                lemma_rounds_exhaust(next, pool, scores, (rounds - 1) as nat);
            },
        }
    }
}

/// Where the fuzzy pass runs, it runs to the end: no score is left that
/// names an open destination and an available source and is high enough.
pub proof fn lemma_fuzzy_pass_is_complete(tracker: TrackerView, pool: PoolView, scores: Seq<Score>)
    requires
        tracker.matches.len() == pool.changes.len(),
        pool.config.percentage is Some,
        !tracker.over_budget(pool),
    ensures
        forall|i: int|
            0 <= i < scores.len() ==> !tracker.after_fuzzy(pool, scores).usable(
                pool,
                #[trigger] scores[i],
            ),
{
    lemma_open_below_bounds(tracker, pool, pool.changes.len() as int);
    lemma_rounds_exhaust(tracker, pool, scores, pool.changes.len());
}

proof fn lemma_goes_before_transitive(pool: PoolView, a: Score, b: Score, c: Score)
    requires
        goes_before(pool, a, b),
        goes_before(pool, b, c),
    ensures
        goes_before(pool, a, c),
{
    let da = pool.changes[a.destination as int].path();
    let db = pool.changes[b.destination as int].path();
    let dc = pool.changes[c.destination as int].path();
    let sa = pool.source_path(a.source as int);
    let sb = pool.source_path(b.source as int);
    let sc = pool.source_path(c.source as int);
    if a.similarity == b.similarity && b.similarity == c.similarity {
        lemma_path_order_equal(da, db);
        lemma_path_order_equal(db, dc);
        lemma_path_order_equal(da, dc);
        if path_lt(da, db) && path_lt(db, dc) {
            lemma_path_lt_transitive(da, db, dc);
        }
        if da == db && db == dc {
            lemma_path_lt_transitive(sa, sb, sc);
        }
    }
}

proof fn lemma_never_before_itself(pool: PoolView, a: Score)
    ensures
        !goes_before(pool, a, a),
{
    let da = pool.changes[a.destination as int].path();
    let sa = pool.source_path(a.source as int);
    lemma_path_order_equal(da, da);
    lemma_path_order_equal(sa, sa);
}

/// The score that is taken next is the best: no usable score goes before
/// it.
pub proof fn lemma_best_goes_first(tracker: TrackerView, pool: PoolView, scores: Seq<Score>, k: int)
    requires
        0 <= k <= scores.len(),
        tracker.best_below(pool, scores, k) is Some,
    ensures
        forall|i: int|
            0 <= i < k && tracker.usable(pool, #[trigger] scores[i]) ==> !goes_before(
                pool,
                scores[i],
                scores[tracker.best_below(pool, scores, k).unwrap()],
            ),
    decreases k,
{
    if k > 0 {
        let before = tracker.best_below(pool, scores, k - 1);
        let last = scores[k - 1];
        let best = scores[tracker.best_below(pool, scores, k).unwrap()];
        lemma_never_before_itself(pool, last);
        if before is Some {
            lemma_best_goes_first(tracker, pool, scores, k - 1);
            let was = scores[before.unwrap()];
            assert forall|i: int| 0 <= i < k && tracker.usable(pool, #[trigger] scores[i])
                implies !goes_before(pool, scores[i], best) by {
                if i < k - 1 && best != was && goes_before(pool, scores[i], best) {
                    lemma_goes_before_transitive(pool, scores[i], best, was);
                }
            }
        } else {
            lemma_best_is_usable(tracker, pool, scores, k - 1);
        }
    }
}

} // verus!
