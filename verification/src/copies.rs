//! The entries that did not change: the pool that copies may be taken
//! from when all sources are asked for.
use vstd::prelude::*;
use crate::diff::{compare_pair, pair_change, strictly_sorted, EntryView};
use crate::entry::State;
use crate::path::{
    compare_paths, copy_bytes, lemma_path_lt_transitive, lemma_path_order_equal,
    lemma_path_order_flip, path_lt, path_order, PathOrder,
};
use crate::rewrites::{unmodified_views, Unmodified};

verus! {

/// The new entry, if the old entry of the same path has its content and
/// mode; else nothing.
pub open spec fn kept_if_same(old_entry: EntryView, new_entry: EntryView) -> Seq<EntryView> {
    if pair_change(old_entry, new_entry) is None {
        seq![new_entry]
    } else {
        Seq::empty()
    }
}

/// The entries of the new side from `j` on that an old entry from `i` on
/// equals in path, content and mode.
pub open spec fn unmodified_from(
    old_entries: Seq<EntryView>,
    new_entries: Seq<EntryView>,
    i: int,
    j: int,
) -> Seq<EntryView>
    decreases old_entries.len() - i + new_entries.len() - j,
{
    if i < 0 || j < 0 || i >= old_entries.len() || j >= new_entries.len() {
        Seq::empty()
    } else {
        match path_order(old_entries[i].path, new_entries[j].path) {
            PathOrder::Less => unmodified_from(old_entries, new_entries, i + 1, j),
            PathOrder::Greater => unmodified_from(old_entries, new_entries, i, j + 1),
            PathOrder::Equal => kept_if_same(old_entries[i], new_entries[j]) + unmodified_from(
                old_entries,
                new_entries,
                i + 1,
                j + 1,
            ),
        }
    }
}

/// The entries of the new side that did not change.
pub open spec fn unmodified_between(
    old_entries: Seq<EntryView>,
    new_entries: Seq<EntryView>,
) -> Seq<EntryView> {
    unmodified_from(old_entries, new_entries, 0, 0)
}

/// Walks both entry lists once, in path order, and returns the entries of
/// the new side that the old side has with the same content and mode.
pub fn unmodified(old_state: &State, new_state: &State) -> (entries: Vec<Unmodified>)
    requires
        old_state.well_formed(),
        new_state.well_formed(),
    ensures
        unmodified_views(entries@) == unmodified_between(
            old_state.entry_views(),
            new_state.entry_views(),
        ),
{
    let mut out: Vec<Unmodified> = Vec::new();
    let mut i: usize = 0;
    let mut j: usize = 0;
    let ghost old_entries = old_state.entry_views();
    let ghost new_entries = new_state.entry_views();
    assert(unmodified_views(out@) =~= Seq::<EntryView>::empty());
    while i < old_state.entries.len() && j < new_state.entries.len()
        invariant
            old_state.well_formed(),
            new_state.well_formed(),
            old_entries == old_state.entry_views(),
            new_entries == new_state.entry_views(),
            i <= old_state.entries@.len(),
            j <= new_state.entries@.len(),
            unmodified_views(out@) + unmodified_from(old_entries, new_entries, i as int, j as int)
                == unmodified_between(old_entries, new_entries),
        decreases old_state.entries@.len() - i + new_state.entries@.len() - j,
    {
        let ghost before = unmodified_views(out@);
        let old_entry = &old_state.entries[i];
        let new_entry = &new_state.entries[j];
        match compare_paths(old_entry.path(old_state), new_entry.path(new_state)) {
            PathOrder::Less => {
                i += 1;
            },
            PathOrder::Greater => {
                j += 1;
            },
            PathOrder::Equal => {
                let pair = compare_pair(old_entry, old_state, new_entry, new_state);
                i += 1;
                j += 1;
                let ghost next = unmodified_from(old_entries, new_entries, i as int, j as int);
                if pair.is_none() {
                    let entry = Unmodified {
                        path: copy_bytes(new_entry.path(new_state)),
                        id: new_entry.id.duplicate(),
                        mode: new_entry.mode,
                    };
                    out.push(entry);
                    proof {
                        assert(unmodified_views(out@) =~= before.push(entry@));
                        assert(before.push(entry@) + next =~= before + (seq![entry@] + next));
                    }
                } else {
                    assert(before + next =~= before + (Seq::<EntryView>::empty() + next));
                }
            },
        }
    }
    assert(unmodified_views(out@) + Seq::<EntryView>::empty() =~= unmodified_views(out@));
    out
}

/// The new entry `e` has an old entry from `i` on of the same path,
/// content and mode.
pub open spec fn kept_from(old_entries: Seq<EntryView>, i: int, e: EntryView) -> bool {
    exists|k: int|
        i <= k < old_entries.len() && (#[trigger] old_entries[k]).path == e.path && pair_change(
            old_entries[k],
            e,
        ) is None
}

proof fn lemma_unmodified_sound(
    old_entries: Seq<EntryView>,
    new_entries: Seq<EntryView>,
    i: int,
    j: int,
)
    requires
        0 <= i <= old_entries.len(),
        0 <= j <= new_entries.len(),
    ensures
        forall|m: int|
            0 <= m < unmodified_from(old_entries, new_entries, i, j).len() ==> kept_from(
                old_entries,
                i,
                #[trigger] unmodified_from(old_entries, new_entries, i, j)[m],
            ) && new_entries.contains(unmodified_from(old_entries, new_entries, i, j)[m]),
    decreases old_entries.len() - i + new_entries.len() - j,
{
    if i < old_entries.len() && j < new_entries.len() {
        let all = unmodified_from(old_entries, new_entries, i, j);
        let order = path_order(old_entries[i].path, new_entries[j].path);
        let ni = if order == PathOrder::Greater { i } else { i + 1 };
        let nj = if order == PathOrder::Less { j } else { j + 1 };
        let rest = unmodified_from(old_entries, new_entries, ni, nj);
        lemma_unmodified_sound(old_entries, new_entries, ni, nj);
        lemma_path_order_equal(old_entries[i].path, new_entries[j].path);
        let head = if order == PathOrder::Equal {
            kept_if_same(old_entries[i], new_entries[j])
        } else {
            Seq::empty()
        };
        assert(all =~= head + rest);
        assert forall|m: int| 0 <= m < all.len() implies kept_from(
            old_entries,
            i,
            #[trigger] all[m],
        ) && new_entries.contains(all[m]) by {
            if m < head.len() {
                assert(all[m] == new_entries[j]);
                assert(old_entries[i].path == all[m].path);
            } else {
                let e = rest[m - head.len()];
                assert(all[m] == e);
                assert(kept_from(old_entries, ni, e));
                let k = choose|k: int|
                    ni <= k < old_entries.len() && (#[trigger] old_entries[k]).path == e.path
                        && pair_change(old_entries[k], e) is None;
                assert(old_entries[k].path == e.path);
            }
        }
    }
}

proof fn lemma_unmodified_present(
    old_entries: Seq<EntryView>,
    new_entries: Seq<EntryView>,
    i: int,
    j: int,
    k: int,
    l: int,
)
    requires
        strictly_sorted(old_entries),
        strictly_sorted(new_entries),
        0 <= i <= k < old_entries.len(),
        0 <= j <= l < new_entries.len(),
        old_entries[k].path == new_entries[l].path,
        pair_change(old_entries[k], new_entries[l]) is None,
    ensures
        unmodified_from(old_entries, new_entries, i, j).contains(new_entries[l]),
    decreases old_entries.len() - i + new_entries.len() - j,
{
    let all = unmodified_from(old_entries, new_entries, i, j);
    let target = new_entries[l];
    let p = old_entries[k].path;
    lemma_path_order_equal(p, p);
    lemma_path_order_flip(old_entries[i].path, new_entries[j].path);
    lemma_path_order_equal(old_entries[i].path, new_entries[j].path);
    match path_order(old_entries[i].path, new_entries[j].path) {
        PathOrder::Less => {
            if k == i {
                if j < l {
                    assert(path_lt(new_entries[j].path, new_entries[l].path));
                    lemma_path_lt_transitive(old_entries[i].path, new_entries[j].path, p);
                }
            } else {
                lemma_unmodified_present(old_entries, new_entries, i + 1, j, k, l);
            }
        },
        PathOrder::Greater => {
            if l == j {
                if i < k {
                    assert(path_lt(old_entries[i].path, old_entries[k].path));
                    lemma_path_lt_transitive(new_entries[j].path, old_entries[i].path, p);
                }
            } else {
                lemma_unmodified_present(old_entries, new_entries, i, j + 1, k, l);
            }
        },
        PathOrder::Equal => {
            let head = kept_if_same(old_entries[i], new_entries[j]);
            let rest = unmodified_from(old_entries, new_entries, i + 1, j + 1);
            if k == i && l == j {
                assert(all[0] == target);
            } else if k == i {
                assert(path_lt(new_entries[j].path, new_entries[l].path));
            } else if l == j {
                assert(path_lt(old_entries[i].path, old_entries[k].path));
            } else {
                lemma_unmodified_present(old_entries, new_entries, i + 1, j + 1, k, l);
                let w = choose|w: int| 0 <= w < rest.len() && rest[w] == target;
                assert(all[head.len() + w] == target);
            }
        },
    }
}

/// Every entry that the walk returns is an entry of the new side, and the
/// old side has an entry of the same path, content and mode.
pub proof fn lemma_unmodified_did_not_change(
    old_entries: Seq<EntryView>,
    new_entries: Seq<EntryView>,
    m: int,
)
    requires
        0 <= m < unmodified_between(old_entries, new_entries).len(),
    ensures
        new_entries.contains(unmodified_between(old_entries, new_entries)[m]),
        kept_from(old_entries, 0, unmodified_between(old_entries, new_entries)[m]),
{
    lemma_unmodified_sound(old_entries, new_entries, 0, 0);
}

/// Of two sorted lists, every new entry that the old side has with the
/// same path, content and mode is returned.
pub proof fn lemma_unchanged_is_unmodified(
    old_entries: Seq<EntryView>,
    new_entries: Seq<EntryView>,
    k: int,
    l: int,
)
    requires
        strictly_sorted(old_entries),
        strictly_sorted(new_entries),
        0 <= k < old_entries.len(),
        0 <= l < new_entries.len(),
        old_entries[k].path == new_entries[l].path,
        pair_change(old_entries[k], new_entries[l]) is None,
    ensures
        unmodified_between(old_entries, new_entries).contains(new_entries[l]),
{
    lemma_unmodified_present(old_entries, new_entries, 0, 0, k, l);
}

} // verus!
