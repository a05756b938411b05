//! What holds of the changes between any two sorted entry lists.
use vstd::prelude::*;
use crate::change::ChangeView;
use crate::diff::{
    addition_of, changes_between, changes_from, deletion_of, optional_change, pair_change,
    strictly_sorted, EntryView,
};
use crate::path::{
    lemma_path_lt_transitive, lemma_path_order_equal, lemma_path_order_flip, path_lt,
    path_order, PathOrder,
};

verus! {

/// Each change's path sorts strictly before that of the next change.
pub open spec fn changes_sorted(changes: Seq<ChangeView>) -> bool {
    forall|a: int, b: int|
        0 <= a < b < changes.len() ==> path_lt(
            (#[trigger] changes[a]).path(),
            (#[trigger] changes[b]).path(),
        )
}

/// `p` does not sort before the smaller of the two paths at which the walk
/// stands.
pub open spec fn at_or_after(
    p: Seq<u8>,
    old_entries: Seq<EntryView>,
    new_entries: Seq<EntryView>,
    i: int,
    j: int,
) -> bool {
    (i < old_entries.len() && path_order(old_entries[i].path, p) != PathOrder::Greater) || (j
        < new_entries.len() && path_order(new_entries[j].path, p) != PathOrder::Greater)
}

proof fn lemma_lt_le(a: Seq<u8>, b: Seq<u8>, c: Seq<u8>)
    requires
        path_lt(a, b),
        path_order(b, c) != PathOrder::Greater,
    ensures
        path_lt(a, c),
{
    lemma_path_order_equal(b, c);
    if path_order(b, c) == PathOrder::Less {
        lemma_path_lt_transitive(a, b, c);
    }
}

proof fn lemma_le_lt(a: Seq<u8>, b: Seq<u8>, c: Seq<u8>)
    requires
        path_order(a, b) != PathOrder::Greater,
        path_lt(b, c),
    ensures
        path_lt(a, c),
{
    lemma_path_order_equal(a, b);
    if path_order(a, b) == PathOrder::Less {
        lemma_path_lt_transitive(a, b, c);
    }
}

proof fn lemma_prepend_sorted(
    head: ChangeView,
    rest: Seq<ChangeView>,
)
    requires
        changes_sorted(rest),
        forall|k: int| 0 <= k < rest.len() ==> path_lt(head.path(), (#[trigger] rest[k]).path()),
    ensures
        changes_sorted(seq![head] + rest),
{
    let all = seq![head] + rest;
    assert forall|a: int, b: int| 0 <= a < b < all.len() implies path_lt(
        (#[trigger] all[a]).path(),
        (#[trigger] all[b]).path(),
    ) by {
        assert(all[b] == rest[b - 1]);
        if a > 0 {
            assert(all[a] == rest[a - 1]);
        }
    }
}

proof fn lemma_changes_from_sorted(
    old_entries: Seq<EntryView>,
    new_entries: Seq<EntryView>,
    i: int,
    j: int,
)
    requires
        strictly_sorted(old_entries),
        strictly_sorted(new_entries),
        0 <= i <= old_entries.len(),
        0 <= j <= new_entries.len(),
    ensures
        changes_sorted(changes_from(old_entries, new_entries, i, j)),
        forall|k: int|
            0 <= k < changes_from(old_entries, new_entries, i, j).len() ==> at_or_after(
                (#[trigger] changes_from(old_entries, new_entries, i, j)[k]).path(),
                old_entries,
                new_entries,
                i,
                j,
            ),
    decreases old_entries.len() - i + new_entries.len() - j,
{
    let all = changes_from(old_entries, new_entries, i, j);
    if i >= old_entries.len() && j >= new_entries.len() {
    } else {
        let old_only = j >= new_entries.len() || (i < old_entries.len() && path_order(
            old_entries[i].path,
            new_entries[j].path,
        ) == PathOrder::Less);
        let new_only = !old_only && (i >= old_entries.len() || path_order(
            old_entries[i].path,
            new_entries[j].path,
        ) == PathOrder::Greater);
        let ni = if new_only { i } else { i + 1 };
        let nj = if old_only { j } else { j + 1 };
        let rest = changes_from(old_entries, new_entries, ni, nj);
        lemma_changes_from_sorted(old_entries, new_entries, ni, nj);
        // The path at which this step stands, and that it sorts before all of `rest`.
        let here = if old_only { old_entries[i].path } else { new_entries[j].path };
        if i < old_entries.len() && j < new_entries.len() {
            lemma_path_order_flip(old_entries[i].path, new_entries[j].path);
            lemma_path_order_equal(old_entries[i].path, new_entries[j].path);
        }
        lemma_path_order_equal(here, here);
        assert forall|k: int| 0 <= k < rest.len() implies path_lt(
            here,
            (#[trigger] rest[k]).path(),
        ) by {
            let p = rest[k].path();
            assert(at_or_after(p, old_entries, new_entries, ni, nj));
            if ni < old_entries.len() && path_order(old_entries[ni].path, p)
                != PathOrder::Greater {
                if ni == i {
                    // new_only: here == new[j] < old[i]
                    lemma_path_order_flip(new_entries[j].path, old_entries[i].path);
                    lemma_lt_le(here, old_entries[i].path, p);
                } else {
                    assert(path_lt(old_entries[i].path, old_entries[ni].path));
                    lemma_le_lt(here, old_entries[i].path, old_entries[ni].path);
                    lemma_lt_le(here, old_entries[ni].path, p);
                }
            } else {
                if nj == j {
                    lemma_lt_le(here, new_entries[j].path, p);
                } else {
                    assert(path_lt(new_entries[j].path, new_entries[nj].path));
                    if i < old_entries.len() {
                        lemma_path_order_flip(here, new_entries[j].path);
                    }
                    lemma_le_lt(here, new_entries[j].path, new_entries[nj].path);
                    lemma_lt_le(here, new_entries[nj].path, p);
                }
            }
        }
        let first: Option<ChangeView> = if old_only {
            Some(deletion_of(old_entries[i]))
        } else if new_only {
            Some(addition_of(new_entries[j]))
        } else {
            pair_change(old_entries[i], new_entries[j])
        };
        assert(all =~= optional_change(first) + rest);
        match first {
            Some(c) => {
                assert(c.path() == here);
                lemma_prepend_sorted(c, rest);
                assert forall|k: int| 0 <= k < all.len() implies at_or_after(
                    (#[trigger] all[k]).path(),
                    old_entries,
                    new_entries,
                    i,
                    j,
                ) by {
                    if k > 0 {
                        assert(all[k] == rest[k - 1]);
                    }
                }
            },
            None => {
                assert(all =~= rest);
            },
        }
    }
}

/// The changes between two lists of strictly sorted entries are strictly
/// sorted by path themselves: they come in path order, and no path has more
/// than one change.
pub proof fn lemma_changes_sorted(old_entries: Seq<EntryView>, new_entries: Seq<EntryView>)
    requires
        strictly_sorted(old_entries),
        strictly_sorted(new_entries),
    ensures
        changes_sorted(changes_between(old_entries, new_entries)),
{
    lemma_changes_from_sorted(old_entries, new_entries, 0, 0);
}

proof fn lemma_contains_in_rest(head: Seq<ChangeView>, rest: Seq<ChangeView>, c: ChangeView)
    requires
        rest.contains(c),
    ensures
        (head + rest).contains(c),
{
    let w = choose|w: int| 0 <= w < rest.len() && rest[w] == c;
    assert((head + rest)[head.len() + w] == c);
}

proof fn lemma_contains_head(rest: Seq<ChangeView>, c: ChangeView)
    ensures
        (seq![c] + rest).contains(c),
{
    assert((seq![c] + rest)[0] == c);
}

proof fn lemma_not_before_itself(p: Seq<u8>)
    ensures
        !path_lt(p, p),
{
    lemma_path_order_equal(p, p);
}

proof fn lemma_deletion_present(
    old_entries: Seq<EntryView>,
    new_entries: Seq<EntryView>,
    i: int,
    j: int,
    k: int,
)
    requires
        0 <= i <= k < old_entries.len(),
        0 <= j <= new_entries.len(),
        forall|l: int|
            j <= l < new_entries.len() ==> (#[trigger] new_entries[l]).path != old_entries[k].path,
    ensures
        changes_from(old_entries, new_entries, i, j).contains(deletion_of(old_entries[k])),
    decreases old_entries.len() - i + new_entries.len() - j,
{
    let target = deletion_of(old_entries[k]);
    if j >= new_entries.len() || path_order(old_entries[i].path, new_entries[j].path)
        == PathOrder::Less {
        let rest = changes_from(old_entries, new_entries, i + 1, j);
        if k == i {
            lemma_contains_head(rest, target);
        } else {
            lemma_deletion_present(old_entries, new_entries, i + 1, j, k);
            lemma_contains_in_rest(seq![deletion_of(old_entries[i])], rest, target);
        }
    } else if path_order(old_entries[i].path, new_entries[j].path) == PathOrder::Greater {
        let rest = changes_from(old_entries, new_entries, i, j + 1);
        lemma_deletion_present(old_entries, new_entries, i, j + 1, k);
        lemma_contains_in_rest(seq![addition_of(new_entries[j])], rest, target);
    } else {
        lemma_path_order_equal(old_entries[i].path, new_entries[j].path);
        assert(new_entries[j].path == old_entries[i].path);
        let rest = changes_from(old_entries, new_entries, i + 1, j + 1);
        lemma_deletion_present(old_entries, new_entries, i + 1, j + 1, k);
        lemma_contains_in_rest(
            optional_change(pair_change(old_entries[i], new_entries[j])),
            rest,
            target,
        );
    }
}

proof fn lemma_addition_present(
    old_entries: Seq<EntryView>,
    new_entries: Seq<EntryView>,
    i: int,
    j: int,
    l: int,
)
    requires
        0 <= i <= old_entries.len(),
        0 <= j <= l < new_entries.len(),
        forall|k: int|
            i <= k < old_entries.len() ==> (#[trigger] old_entries[k]).path != new_entries[l].path,
    ensures
        changes_from(old_entries, new_entries, i, j).contains(addition_of(new_entries[l])),
    decreases old_entries.len() - i + new_entries.len() - j,
{
    let target = addition_of(new_entries[l]);
    if i >= old_entries.len() || path_order(old_entries[i].path, new_entries[j].path)
        == PathOrder::Greater {
        let rest = changes_from(old_entries, new_entries, i, j + 1);
        if l == j {
            lemma_contains_head(rest, target);
        } else {
            lemma_addition_present(old_entries, new_entries, i, j + 1, l);
            lemma_contains_in_rest(seq![addition_of(new_entries[j])], rest, target);
        }
    } else if path_order(old_entries[i].path, new_entries[j].path) == PathOrder::Less {
        let rest = changes_from(old_entries, new_entries, i + 1, j);
        lemma_addition_present(old_entries, new_entries, i + 1, j, l);
        lemma_contains_in_rest(seq![deletion_of(old_entries[i])], rest, target);
    } else {
        lemma_path_order_equal(old_entries[i].path, new_entries[j].path);
        assert(old_entries[i].path == new_entries[j].path);
        let rest = changes_from(old_entries, new_entries, i + 1, j + 1);
        lemma_addition_present(old_entries, new_entries, i + 1, j + 1, l);
        lemma_contains_in_rest(
            optional_change(pair_change(old_entries[i], new_entries[j])),
            rest,
            target,
        );
    }
}

proof fn lemma_pair_present(
    old_entries: Seq<EntryView>,
    new_entries: Seq<EntryView>,
    i: int,
    j: int,
    k: int,
    l: int,
)
    requires
        strictly_sorted(old_entries),
        strictly_sorted(new_entries),
        0 <= i <= k < old_entries.len(),
        0 <= j <= l < new_entries.len(),
        old_entries[k].path == new_entries[l].path,
        pair_change(old_entries[k], new_entries[l]) is Some,
    ensures
        changes_from(old_entries, new_entries, i, j).contains(
            pair_change(old_entries[k], new_entries[l]).unwrap(),
        ),
    decreases old_entries.len() - i + new_entries.len() - j,
{
    let target = pair_change(old_entries[k], new_entries[l]).unwrap();
    let p = old_entries[k].path;
    lemma_not_before_itself(p);
    lemma_path_order_flip(old_entries[i].path, new_entries[j].path);
    lemma_path_order_equal(old_entries[i].path, new_entries[j].path);
    match path_order(old_entries[i].path, new_entries[j].path) {
        PathOrder::Less => {
            if k == i {
                if j < l {
                    assert(path_lt(new_entries[j].path, new_entries[l].path));
                    lemma_path_lt_transitive(old_entries[i].path, new_entries[j].path, p);
                }
            } else {
                let rest = changes_from(old_entries, new_entries, i + 1, j);
                lemma_pair_present(old_entries, new_entries, i + 1, j, k, l);
                lemma_contains_in_rest(seq![deletion_of(old_entries[i])], rest, target);
            }
        },
        PathOrder::Greater => {
            if l == j {
                if i < k {
                    assert(path_lt(old_entries[i].path, old_entries[k].path));
                    lemma_path_lt_transitive(new_entries[j].path, old_entries[i].path, p);
                }
            } else {
                let rest = changes_from(old_entries, new_entries, i, j + 1);
                lemma_pair_present(old_entries, new_entries, i, j + 1, k, l);
                lemma_contains_in_rest(seq![addition_of(new_entries[j])], rest, target);
            }
        },
        PathOrder::Equal => {
            let rest = changes_from(old_entries, new_entries, i + 1, j + 1);
            if k == i && l == j {
                lemma_contains_head(rest, target);
            } else if k == i {
                assert(path_lt(new_entries[j].path, new_entries[l].path));
            } else if l == j {
                assert(path_lt(old_entries[i].path, old_entries[k].path));
            } else {
                lemma_pair_present(old_entries, new_entries, i + 1, j + 1, k, l);
                lemma_contains_in_rest(
                    optional_change(pair_change(old_entries[i], new_entries[j])),
                    rest,
                    target,
                );
            }
        },
    }
}

/// Every path that only the old side has is among the changes as a
/// deletion, whether or not the lists are sorted.
pub proof fn lemma_old_only_is_deleted(
    old_entries: Seq<EntryView>,
    new_entries: Seq<EntryView>,
    k: int,
)
    requires
        0 <= k < old_entries.len(),
        forall|l: int|
            0 <= l < new_entries.len() ==> (#[trigger] new_entries[l]).path != old_entries[k].path,
    ensures
        changes_between(old_entries, new_entries).contains(deletion_of(old_entries[k])),
{
    lemma_deletion_present(old_entries, new_entries, 0, 0, k);
}

/// Every path that only the new side has is among the changes as an
/// addition, whether or not the lists are sorted.
pub proof fn lemma_new_only_is_added(
    old_entries: Seq<EntryView>,
    new_entries: Seq<EntryView>,
    l: int,
)
    requires
        0 <= l < new_entries.len(),
        forall|k: int|
            0 <= k < old_entries.len() ==> (#[trigger] old_entries[k]).path != new_entries[l].path,
    ensures
        changes_between(old_entries, new_entries).contains(addition_of(new_entries[l])),
{
    lemma_addition_present(old_entries, new_entries, 0, 0, l);
}

/// Every path that both sides of two sorted lists have with different
/// content or mode is among the changes, as the modification or type
/// change of its two entries.
pub proof fn lemma_differing_pair_is_reported(
    old_entries: Seq<EntryView>,
    new_entries: Seq<EntryView>,
    k: int,
    l: int,
)
    requires
        strictly_sorted(old_entries),
        strictly_sorted(new_entries),
        0 <= k < old_entries.len(),
        0 <= l < new_entries.len(),
        old_entries[k].path == new_entries[l].path,
        pair_change(old_entries[k], new_entries[l]) is Some,
    ensures
        changes_between(old_entries, new_entries).contains(
            pair_change(old_entries[k], new_entries[l]).unwrap(),
        ),
{
    lemma_pair_present(old_entries, new_entries, 0, 0, k, l);
}

/// No entry from `from` on has the path `p`.
pub open spec fn absent_from(entries: Seq<EntryView>, from: int, p: Seq<u8>) -> bool {
    forall|x: int| from <= x < entries.len() ==> (#[trigger] entries[x]).path != p
}

/// `c` is the deletion of the old entry at `k`, whose path no new entry
/// from `j` on has.
pub open spec fn is_deletion_at(
    old_entries: Seq<EntryView>,
    new_entries: Seq<EntryView>,
    j: int,
    c: ChangeView,
    k: int,
) -> bool {
    c == deletion_of(old_entries[k]) && absent_from(new_entries, j, old_entries[k].path)
}

/// `c` is the addition of the new entry at `l`, whose path no old entry
/// from `i` on has.
pub open spec fn is_addition_at(
    old_entries: Seq<EntryView>,
    new_entries: Seq<EntryView>,
    i: int,
    c: ChangeView,
    l: int,
) -> bool {
    c == addition_of(new_entries[l]) && absent_from(old_entries, i, new_entries[l].path)
}

/// `c` is the change between the old entry at `k` and the new entry at
/// `l`, which have the same path.
pub open spec fn is_pair_at(
    old_entries: Seq<EntryView>,
    new_entries: Seq<EntryView>,
    c: ChangeView,
    k: int,
    l: int,
) -> bool {
    old_entries[k].path == new_entries[l].path && pair_change(old_entries[k], new_entries[l])
        == Some(c)
}

/// `c` stands for a path that differs between the old entries from `i` on
/// and the new entries from `j` on: it is the deletion of a path that only
/// the old side has, the addition of a path that only the new side has, or
/// the change between two entries of the same path.
pub open spec fn accounted_from(
    old_entries: Seq<EntryView>,
    new_entries: Seq<EntryView>,
    i: int,
    j: int,
    c: ChangeView,
) -> bool {
    ||| exists|k: int|
        i <= k < old_entries.len() && #[trigger] is_deletion_at(old_entries, new_entries, j, c, k)
    ||| exists|l: int|
        j <= l < new_entries.len() && #[trigger] is_addition_at(old_entries, new_entries, i, c, l)
    ||| exists|k: int, l: int|
        i <= k < old_entries.len() && j <= l < new_entries.len() && #[trigger] is_pair_at(
            old_entries,
            new_entries,
            c,
            k,
            l,
        )
}

proof fn lemma_absent_after(entries: Seq<EntryView>, from: int, p: Seq<u8>, at: int)
    requires
        strictly_sorted(entries),
        0 <= at < from,
        at < entries.len(),
        path_order(p, entries[at].path) != PathOrder::Greater,
    ensures
        absent_from(entries, from, p),
{
    assert forall|x: int| from <= x < entries.len() implies (#[trigger] entries[x]).path != p by {
        assert(path_lt(entries[at].path, entries[x].path));
        lemma_le_lt(p, entries[at].path, entries[x].path);
        lemma_not_before_itself(p);
    }
}

proof fn lemma_absent_one_more(entries: Seq<EntryView>, from: int, p: Seq<u8>)
    requires
        0 <= from < entries.len(),
        absent_from(entries, from + 1, p),
        entries[from].path != p,
    ensures
        absent_from(entries, from, p),
{
}

proof fn lemma_all_accounted(
    old_entries: Seq<EntryView>,
    new_entries: Seq<EntryView>,
    i: int,
    j: int,
)
    requires
        strictly_sorted(old_entries),
        strictly_sorted(new_entries),
        0 <= i <= old_entries.len(),
        0 <= j <= new_entries.len(),
    ensures
        forall|m: int|
            0 <= m < changes_from(old_entries, new_entries, i, j).len() ==> accounted_from(
                old_entries,
                new_entries,
                i,
                j,
                #[trigger] changes_from(old_entries, new_entries, i, j)[m],
            ),
    decreases old_entries.len() - i + new_entries.len() - j,
{
    let all = changes_from(old_entries, new_entries, i, j);
    if i >= old_entries.len() && j >= new_entries.len() {
        return ;
    }
    let old_only = j >= new_entries.len() || (i < old_entries.len() && path_order(
        old_entries[i].path,
        new_entries[j].path,
    ) == PathOrder::Less);
    let new_only = !old_only && (i >= old_entries.len() || path_order(
        old_entries[i].path,
        new_entries[j].path,
    ) == PathOrder::Greater);
    let ni = if new_only { i } else { i + 1 };
    let nj = if old_only { j } else { j + 1 };
    let rest = changes_from(old_entries, new_entries, ni, nj);
    lemma_all_accounted(old_entries, new_entries, ni, nj);
    if i < old_entries.len() && j < new_entries.len() {
        lemma_path_order_flip(old_entries[i].path, new_entries[j].path);
        lemma_path_order_flip(new_entries[j].path, old_entries[i].path);
        lemma_path_order_equal(old_entries[i].path, new_entries[j].path);
    }
    let first: Option<ChangeView> = if old_only {
        Some(deletion_of(old_entries[i]))
    } else if new_only {
        Some(addition_of(new_entries[j]))
    } else {
        pair_change(old_entries[i], new_entries[j])
    };
    assert(all =~= optional_change(first) + rest);
    let shift = optional_change(first).len() as int;
    assert forall|m: int| 0 <= m < all.len() implies accounted_from(
        old_entries,
        new_entries,
        i,
        j,
        #[trigger] all[m],
    ) by {
        let c = all[m];
        if m < shift {
            // The change of this step.
            if old_only {
                if j < new_entries.len() {
                    lemma_not_before_itself(old_entries[i].path);
                    lemma_absent_after(new_entries, j + 1, old_entries[i].path, j);
                    lemma_absent_one_more(new_entries, j, old_entries[i].path);
                }
                assert(is_deletion_at(old_entries, new_entries, j, c, i));
            } else if new_only {
                if i < old_entries.len() {
                    lemma_not_before_itself(new_entries[j].path);
                    lemma_absent_after(old_entries, i + 1, new_entries[j].path, i);
                    lemma_absent_one_more(old_entries, i, new_entries[j].path);
                }
                assert(is_addition_at(old_entries, new_entries, i, c, j));
            } else {
                assert(is_pair_at(old_entries, new_entries, c, i, j));
            }
        } else {
            assert(c == rest[m - shift]);
            assert(accounted_from(old_entries, new_entries, ni, nj, c));
            if exists|k: int|
                ni <= k < old_entries.len() && #[trigger] is_deletion_at(
                    old_entries,
                    new_entries,
                    nj,
                    c,
                    k,
                ) {
                let k = choose|k: int|
                    ni <= k < old_entries.len() && #[trigger] is_deletion_at(
                        old_entries,
                        new_entries,
                        nj,
                        c,
                        k,
                    );
                if nj > j {
                    // new[j] does not sort after old[i], which sorts before old[k].
                    if i < old_entries.len() {
                        if k > i {
                            assert(path_lt(old_entries[i].path, old_entries[k].path));
                            lemma_le_lt(
                                new_entries[j].path,
                                old_entries[i].path,
                                old_entries[k].path,
                            );
                        }
                        lemma_not_before_itself(old_entries[k].path);
                        lemma_absent_one_more(new_entries, j, old_entries[k].path);
                    } else {
                        assert(false);
                    }
                }
                assert(is_deletion_at(old_entries, new_entries, j, c, k));
            } else if exists|l: int|
                nj <= l < new_entries.len() && #[trigger] is_addition_at(
                    old_entries,
                    new_entries,
                    ni,
                    c,
                    l,
                ) {
                let l = choose|l: int|
                    nj <= l < new_entries.len() && #[trigger] is_addition_at(
                        old_entries,
                        new_entries,
                        ni,
                        c,
                        l,
                    );
                if ni > i {
                    if j < new_entries.len() {
                        if l > j {
                            assert(path_lt(new_entries[j].path, new_entries[l].path));
                            lemma_le_lt(
                                old_entries[i].path,
                                new_entries[j].path,
                                new_entries[l].path,
                            );
                        }
                        lemma_not_before_itself(new_entries[l].path);
                        lemma_absent_one_more(old_entries, i, new_entries[l].path);
                    } else {
                        assert(false);
                    }
                }
                assert(is_addition_at(old_entries, new_entries, i, c, l));
            } else {
                let (k, l) = choose|k: int, l: int|
                    ni <= k < old_entries.len() && nj <= l < new_entries.len()
                        && #[trigger] is_pair_at(old_entries, new_entries, c, k, l);
                assert(is_pair_at(old_entries, new_entries, c, k, l));
            }
        }
    }
}

/// Every change between two sorted lists stands for a path that differs:
/// it is the deletion of a path that only the old side has, the addition of
/// a path that only the new side has, or the modification or type change
/// of two entries of the same path that differ in content or mode.
pub proof fn lemma_every_change_is_accounted_for(
    old_entries: Seq<EntryView>,
    new_entries: Seq<EntryView>,
    m: int,
)
    requires
        strictly_sorted(old_entries),
        strictly_sorted(new_entries),
        0 <= m < changes_between(old_entries, new_entries).len(),
    ensures
        accounted_from(
            old_entries,
            new_entries,
            0,
            0,
            changes_between(old_entries, new_entries)[m],
        ),
{
    lemma_all_accounted(old_entries, new_entries, 0, 0);
}

proof fn lemma_sorted_paths_differ(entries: Seq<EntryView>, a: int, b: int)
    requires
        strictly_sorted(entries),
        0 <= a < entries.len(),
        0 <= b < entries.len(),
        entries[a].path == entries[b].path,
    ensures
        a == b,
{
    lemma_not_before_itself(entries[a].path);
    if a < b {
        assert(path_lt(entries[a].path, entries[b].path));
    } else if b < a {
        assert(path_lt(entries[b].path, entries[a].path));
    }
}

/// A path that both sides of two sorted lists have with the same content
/// and mode is the path of no change.
pub proof fn lemma_unchanged_is_not_reported(
    old_entries: Seq<EntryView>,
    new_entries: Seq<EntryView>,
    k: int,
    l: int,
    m: int,
)
    requires
        strictly_sorted(old_entries),
        strictly_sorted(new_entries),
        0 <= k < old_entries.len(),
        0 <= l < new_entries.len(),
        old_entries[k].path == new_entries[l].path,
        pair_change(old_entries[k], new_entries[l]) is None,
        0 <= m < changes_between(old_entries, new_entries).len(),
    ensures
        changes_between(old_entries, new_entries)[m].path() != old_entries[k].path,
{
    let c = changes_between(old_entries, new_entries)[m];
    lemma_every_change_is_accounted_for(old_entries, new_entries, m);
    if c.path() == old_entries[k].path {
        if exists|x: int|
            0 <= x < old_entries.len() && #[trigger] is_deletion_at(
                old_entries,
                new_entries,
                0,
                c,
                x,
            ) {
            let x = choose|x: int|
                0 <= x < old_entries.len() && #[trigger] is_deletion_at(
                    old_entries,
                    new_entries,
                    0,
                    c,
                    x,
                );
            assert(new_entries[l].path != old_entries[x].path);
        } else if exists|y: int|
            0 <= y < new_entries.len() && #[trigger] is_addition_at(
                old_entries,
                new_entries,
                0,
                c,
                y,
            ) {
            let y = choose|y: int|
                0 <= y < new_entries.len() && #[trigger] is_addition_at(
                    old_entries,
                    new_entries,
                    0,
                    c,
                    y,
                );
            assert(old_entries[k].path != new_entries[y].path);
        } else {
            let (x, y) = choose|x: int, y: int|
                0 <= x < old_entries.len() && 0 <= y < new_entries.len() && #[trigger] is_pair_at(
                    old_entries,
                    new_entries,
                    c,
                    x,
                    y,
                );
            assert(is_pair_at(old_entries, new_entries, c, x, y));
            lemma_sorted_paths_differ(old_entries, x, k);
            lemma_sorted_paths_differ(new_entries, y, l);
        }
    }
}

} // verus!
