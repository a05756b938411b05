//! The merge walk over two sorted entry lists.
use vstd::prelude::*;
use crate::change::{change_views, modes_share_class, same_class, Change, ChangeView};
use crate::entry::{ContentId, Entry, Flags, Mode, PathRange, Stat, State};
use crate::path::{bytes_equal, compare_paths, copy_bytes, path_lt, path_order, PathOrder};

verus! {

/// What the walk reads of one entry.
pub struct EntryView {
    pub path: Seq<u8>,
    pub id: Seq<u8>,
    pub mode: Mode,
}

impl State {
    /// Every entry's path lies inside the backing buffer.
    pub open spec fn well_formed(&self) -> bool {
        forall|i: int|
            0 <= i < self.entries@.len() ==> (#[trigger] self.entries@[i]).path_within(
                self.path_backing@.len(),
            )
    }

    /// What the walk reads of the entry at `i`.
    pub open spec fn entry_view(&self, i: int) -> EntryView {
        EntryView {
            path: self.entries@[i].path_spec(self.path_backing@),
            id: self.entries@[i].id@,
            mode: self.entries@[i].mode,
        }
    }

    /// What the walk reads of the entries, in their order.
    pub open spec fn entry_views(&self) -> Seq<EntryView> {
        Seq::new(self.entries@.len(), |i: int| self.entry_view(i))
    }
}

impl State {
    /// A state without entries.
    pub fn new() -> (r: State)
        ensures
            r.well_formed(),
            r.entry_views() == Seq::<EntryView>::empty(),
            r.path_backing@.len() == 0,
    {
        let r = State { path_backing: Vec::new(), entries: Vec::new() };
        assert(r.entry_views() =~= Seq::<EntryView>::empty());
        r
    }

    /// Appends an entry with the given path, content, mode and flags: the
    /// path goes to the end of the backing buffer.
    pub fn push(&mut self, path: &[u8], id: ContentId, mode: Mode, flags: Flags, stat: Stat)
        requires
            old(self).well_formed(),
            old(self).path_backing@.len() + path@.len() <= usize::MAX,
        ensures
            final(self).well_formed(),
            final(self).entry_views() == old(self).entry_views().push(
                EntryView { path: path@, id: id@, mode },
            ),
            final(self).path_backing@ == old(self).path_backing@ + path@,
            final(self).entries@.len() == old(self).entries@.len() + 1,
            final(self).entries@[old(self).entries@.len() as int].flags == flags,
            final(self).entries@[old(self).entries@.len() as int].stat == stat,
    {
        let ghost before = *self;
        let start = self.path_backing.len();
        let mut i: usize = 0;
        while i < path.len()
            invariant
                i <= path@.len(),
                start + path@.len() <= usize::MAX,
                self.entries == before.entries,
                self.path_backing@ == before.path_backing@ + path@.take(i as int),
                start == before.path_backing@.len(),
            decreases path@.len() - i,
        {
            self.path_backing.push(path[i]);
            assert(path@.take(i + 1) =~= path@.take(i as int).push(path@[i as int]));
            assert(self.path_backing@ =~= before.path_backing@ + path@.take(i + 1));
            i += 1;
        }
        assert(path@.take(path@.len() as int) =~= path@);
        let end = self.path_backing.len();
        self.entries.push(Entry { stat, id, flags, mode, path: PathRange { start, end } });
        proof {
            let n = before.entries@.len() as int;
            assert forall|k: int| 0 <= k < self.entries@.len() implies (
            #[trigger] self.entries@[k]).path_within(self.path_backing@.len()) by {
                if k < n {
                    assert(before.entries@[k].path_within(before.path_backing@.len()));
                }
            }
            assert forall|k: int| 0 <= k < n implies self.entry_view(k) == before.entry_view(
                k,
            ) by {
                assert(before.entries@[k].path_within(before.path_backing@.len()));
                assert(self.entries@[k].path_spec(self.path_backing@)
                    =~= before.entries@[k].path_spec(before.path_backing@));
            }
            assert(self.entries@[n].path_spec(self.path_backing@) =~= path@);
            assert(self.entry_views() =~= before.entry_views().push(
                EntryView { path: path@, id: id@, mode },
            ));
        }
    }
}

/// Each path sorts strictly before the next, so no path occurs twice.
pub open spec fn strictly_sorted(entries: Seq<EntryView>) -> bool {
    forall|a: int, b: int|
        0 <= a < b < entries.len() ==> path_lt(
            (#[trigger] entries[a]).path,
            (#[trigger] entries[b]).path,
        )
}

/// The change for a path that only the old side has.
pub open spec fn deletion_of(old_entry: EntryView) -> ChangeView {
    ChangeView::Deletion { path: old_entry.path, id: old_entry.id, mode: old_entry.mode }
}

/// The change for a path that only the new side has.
pub open spec fn addition_of(new_entry: EntryView) -> ChangeView {
    ChangeView::Addition { path: new_entry.path, id: new_entry.id, mode: new_entry.mode }
}

/// The change for a path that both sides have: none where content and mode
/// agree, a type change where the classes of kind differ, a modification
/// otherwise.
pub open spec fn pair_change(old_entry: EntryView, new_entry: EntryView) -> Option<ChangeView> {
    if old_entry.id == new_entry.id && old_entry.mode == new_entry.mode {
        None
    } else if same_class(old_entry.mode, new_entry.mode) {
        Some(
            ChangeView::Modification {
                path: new_entry.path,
                previous_id: old_entry.id,
                id: new_entry.id,
                previous_mode: old_entry.mode,
                mode: new_entry.mode,
            },
        )
    } else {
        Some(
            ChangeView::TypeChange {
                path: new_entry.path,
                previous_id: old_entry.id,
                previous_mode: old_entry.mode,
                id: new_entry.id,
                mode: new_entry.mode,
            },
        )
    }
}

/// A sequence of no change or one.
pub open spec fn optional_change(change: Option<ChangeView>) -> Seq<ChangeView> {
    match change {
        Some(c) => seq![c],
        None => Seq::empty(),
    }
}

/// The changes between the old entries from `i` on and the new entries from
/// `j` on: the side with the smaller path advances and yields a deletion or
/// an addition; on equal paths both advance.
pub open spec fn changes_from(
    old_entries: Seq<EntryView>,
    new_entries: Seq<EntryView>,
    i: int,
    j: int,
) -> Seq<ChangeView>
    decreases old_entries.len() - i + new_entries.len() - j,
{
    if i < 0 || j < 0 || i > old_entries.len() || j > new_entries.len() || (i
        == old_entries.len() && j == new_entries.len()) {
        Seq::empty()
    } else if i >= old_entries.len() {
        seq![addition_of(new_entries[j])] + changes_from(old_entries, new_entries, i, j + 1)
    } else if j >= new_entries.len() {
        seq![deletion_of(old_entries[i])] + changes_from(old_entries, new_entries, i + 1, j)
    } else {
        match path_order(old_entries[i].path, new_entries[j].path) {
            PathOrder::Less => seq![deletion_of(old_entries[i])] + changes_from(
                old_entries,
                new_entries,
                i + 1,
                j,
            ),
            PathOrder::Greater => seq![addition_of(new_entries[j])] + changes_from(
                old_entries,
                new_entries,
                i,
                j + 1,
            ),
            PathOrder::Equal => optional_change(pair_change(old_entries[i], new_entries[j]))
                + changes_from(old_entries, new_entries, i + 1, j + 1),
        }
    }
}

/// The changes between two entry lists.
pub open spec fn changes_between(
    old_entries: Seq<EntryView>,
    new_entries: Seq<EntryView>,
) -> Seq<ChangeView> {
    changes_from(old_entries, new_entries, 0, 0)
}

fn deletion(entry: &Entry, state: &State) -> (r: Change)
    requires
        entry.path_within(state.path_backing@.len()),
    ensures
        r@ == (ChangeView::Deletion {
            path: entry.path_spec(state.path_backing@),
            id: entry.id@,
            mode: entry.mode,
        }),
{
    Change::Deletion {
        path: copy_bytes(entry.path(state)),
        id: entry.id.duplicate(),
        mode: entry.mode,
    }
}

fn addition(entry: &Entry, state: &State) -> (r: Change)
    requires
        entry.path_within(state.path_backing@.len()),
    ensures
        r@ == (ChangeView::Addition {
            path: entry.path_spec(state.path_backing@),
            id: entry.id@,
            mode: entry.mode,
        }),
{
    Change::Addition {
        path: copy_bytes(entry.path(state)),
        id: entry.id.duplicate(),
        mode: entry.mode,
    }
}

/// Compares one entry of the old side with the entry of the new side that
/// has the same path.
pub fn compare_pair(
    old_entry: &Entry,
    old_state: &State,
    new_entry: &Entry,
    new_state: &State,
) -> (r: Option<Change>)
    requires
        old_entry.path_within(old_state.path_backing@.len()),
        new_entry.path_within(new_state.path_backing@.len()),
    ensures
        match r {
            Some(c) => Some(c@),
            None => None,
        } == pair_change(
            EntryView {
                path: old_entry.path_spec(old_state.path_backing@),
                id: old_entry.id@,
                mode: old_entry.mode,
            },
            EntryView {
                path: new_entry.path_spec(new_state.path_backing@),
                id: new_entry.id@,
                mode: new_entry.mode,
            },
        ),
{
    let same_id = bytes_equal(old_entry.id.bytes.as_slice(), new_entry.id.bytes.as_slice());
    if same_id && old_entry.mode.bits == new_entry.mode.bits {
        None
    } else if modes_share_class(old_entry.mode, new_entry.mode) {
        Some(
            Change::Modification {
                path: copy_bytes(new_entry.path(new_state)),
                previous_id: old_entry.id.duplicate(),
                id: new_entry.id.duplicate(),
                previous_mode: old_entry.mode,
                mode: new_entry.mode,
            },
        )
    } else {
        Some(
            Change::TypeChange {
                path: copy_bytes(new_entry.path(new_state)),
                previous_id: old_entry.id.duplicate(),
                previous_mode: old_entry.mode,
                id: new_entry.id.duplicate(),
                mode: new_entry.mode,
            },
        )
    }
}

/// Walks both entry lists once, in path order, and returns one change for
/// each path that differs between them.
pub fn diff(old_state: &State, new_state: &State) -> (changes: Vec<Change>)
    requires
        old_state.well_formed(),
        new_state.well_formed(),
    ensures
        change_views(changes@) == changes_between(
            old_state.entry_views(),
            new_state.entry_views(),
        ),
{
    let mut out: Vec<Change> = Vec::new();
    let mut i: usize = 0;
    let mut j: usize = 0;
    let ghost old_entries = old_state.entry_views();
    let ghost new_entries = new_state.entry_views();
    assert(change_views(out@) =~= Seq::<ChangeView>::empty());
    while i < old_state.entries.len() || j < new_state.entries.len()
        invariant
            old_state.well_formed(),
            new_state.well_formed(),
            old_entries == old_state.entry_views(),
            new_entries == new_state.entry_views(),
            i <= old_state.entries@.len(),
            j <= new_state.entries@.len(),
            change_views(out@) + changes_from(old_entries, new_entries, i as int, j as int)
                == changes_between(old_entries, new_entries),
        decreases old_state.entries@.len() - i + new_state.entries@.len() - j,
    {
        let ghost before = change_views(out@);
        let ghost rest = changes_from(old_entries, new_entries, i as int, j as int);
        if i >= old_state.entries.len() {
            let c = addition(&new_state.entries[j], new_state);
            out.push(c);
            j += 1;
            proof {
                let next = changes_from(old_entries, new_entries, i as int, j as int);
                assert(change_views(out@) =~= before.push(c@));
                assert(before.push(c@) + next =~= before + (seq![c@] + next));
            }
        } else if j >= new_state.entries.len() {
            let c = deletion(&old_state.entries[i], old_state);
            out.push(c);
            i += 1;
            proof {
                let next = changes_from(old_entries, new_entries, i as int, j as int);
                assert(change_views(out@) =~= before.push(c@));
                assert(before.push(c@) + next =~= before + (seq![c@] + next));
            }
        } else {
            let old_entry = &old_state.entries[i];
            let new_entry = &new_state.entries[j];
            match compare_paths(old_entry.path(old_state), new_entry.path(new_state)) {
                PathOrder::Less => {
                    let c = deletion(old_entry, old_state);
                    out.push(c);
                    i += 1;
                    proof {
                        let next = changes_from(old_entries, new_entries, i as int, j as int);
                        assert(change_views(out@) =~= before.push(c@));
                        assert(before.push(c@) + next =~= before + (seq![c@] + next));
                    }
                },
                PathOrder::Greater => {
                    let c = addition(new_entry, new_state);
                    out.push(c);
                    j += 1;
                    proof {
                        let next = changes_from(old_entries, new_entries, i as int, j as int);
                        assert(change_views(out@) =~= before.push(c@));
                        assert(before.push(c@) + next =~= before + (seq![c@] + next));
                    }
                },
                PathOrder::Equal => {
                    let pair = compare_pair(old_entry, old_state, new_entry, new_state);
                    i += 1;
                    j += 1;
                    let ghost next = changes_from(old_entries, new_entries, i as int, j as int);
                    match pair {
                        Some(c) => {
                            out.push(c);
                            proof {
                                assert(change_views(out@) =~= before.push(c@));
                                assert(before.push(c@) + next =~= before + (seq![c@] + next));
                            }
                        },
                        None => {
                            assert(before + next =~= before + (Seq::<ChangeView>::empty() + next));
                        },
                    }
                },
            }
        }
    }
    assert(change_views(out@) + Seq::<ChangeView>::empty() =~= change_views(out@));
    out
}

} // verus!
