//! Descending into directories: what the changes of one level of two trees
//! ask for next.
use vstd::prelude::*;
use crate::change::{change_views, Change, ChangeView};
use crate::entry::{ContentId, Mode, MODE_DIR};
use crate::path::copy_bytes;

verus! {

/// What is to be done with one change of a level.
#[derive(Debug, Clone, PartialEq, Eq)]
pub enum Step {
    /// The change is part of the result.
    Emit(Change),
    /// The directory at `path` is to be resolved and compared one level
    /// down. A side without a tree has nothing below `path`: every leaf of
    /// the other side is then an addition or a deletion.
    Descend { path: Vec<u8>, old_tree: Option<ContentId>, new_tree: Option<ContentId> },
}

/// A [`Step`] as a mathematical value.
pub enum StepView {
    Emit(ChangeView),
    Descend { path: Seq<u8>, old_tree: Option<Seq<u8>>, new_tree: Option<Seq<u8>> },
}

/// The view of an optional id.
pub open spec fn optional_id(id: Option<ContentId>) -> Option<Seq<u8>> {
    match id {
        Some(i) => Some(i@),
        None => None,
    }
}

impl View for Step {
    type V = StepView;

    open spec fn view(&self) -> StepView {
        match self {
            Step::Emit(c) => StepView::Emit(c@),
            Step::Descend { path, old_tree, new_tree } => StepView::Descend {
                path: path@,
                old_tree: optional_id(*old_tree),
                new_tree: optional_id(*new_tree),
            },
        }
    }
}

/// The views of a list of steps, in the same order.
pub open spec fn step_views(steps: Seq<Step>) -> Seq<StepView> {
    Seq::new(steps.len(), |i: int| steps[i]@)
}

/// The mode is that of a directory.
pub open spec fn is_directory(mode: Mode) -> bool {
    mode.bits == MODE_DIR
}

/// What one change of a level asks for. A directory on one side only, or
/// on both sides with different content, is descended into and is no change
/// itself. A change between a directory and something else is emitted, and
/// the directory is descended into with nothing on the other side.
/// Everything else is emitted.
pub open spec fn steps_of(c: ChangeView) -> Seq<StepView> {
    match c {
        ChangeView::Addition { path, id, mode } => if is_directory(mode) {
            seq![StepView::Descend { path, old_tree: None, new_tree: Some(id) }]
        } else {
            seq![StepView::Emit(c)]
        },
        ChangeView::Deletion { path, id, mode } => if is_directory(mode) {
            seq![StepView::Descend { path, old_tree: Some(id), new_tree: None }]
        } else {
            seq![StepView::Emit(c)]
        },
        ChangeView::Modification { path, previous_id, id, previous_mode, mode } => if is_directory(
            previous_mode,
        ) && is_directory(mode) {
            seq![StepView::Descend { path, old_tree: Some(previous_id), new_tree: Some(id) }]
        } else {
            seq![StepView::Emit(c)]
        },
        ChangeView::TypeChange { path, previous_id, previous_mode, id, mode } => if is_directory(
            previous_mode,
        ) && !is_directory(mode) {
            seq![
                StepView::Emit(c),
                StepView::Descend { path, old_tree: Some(previous_id), new_tree: None },
            ]
        } else if !is_directory(previous_mode) && is_directory(mode) {
            seq![StepView::Emit(c), StepView::Descend { path, old_tree: None, new_tree: Some(id) }]
        } else {
            seq![StepView::Emit(c)]
        },
    }
}

/// What the first `k` changes of a level ask for, in their order.
pub open spec fn steps_below(changes: Seq<ChangeView>, k: int) -> Seq<StepView>
    decreases k,
{
    if k <= 0 {
        Seq::empty()
    } else {
        steps_below(changes, k - 1) + steps_of(changes[k - 1])
    }
}

/// Whether the mode is that of a directory.
pub fn mode_is_directory(mode: Mode) -> (r: bool)
    ensures
        r == is_directory(mode),
{
    mode.bits == MODE_DIR
}

fn descend(path: &[u8], old_tree: Option<&ContentId>, new_tree: Option<&ContentId>) -> (r: Step)
    ensures
        r@ == (StepView::Descend {
            path: path@,
            old_tree: match old_tree {
                Some(i) => Some(i@),
                None => None,
            },
            new_tree: match new_tree {
                Some(i) => Some(i@),
                None => None,
            },
        }),
{
    Step::Descend {
        path: copy_bytes(path),
        old_tree: match old_tree {
            Some(i) => Some(i.duplicate()),
            None => None,
        },
        new_tree: match new_tree {
            Some(i) => Some(i.duplicate()),
            None => None,
        },
    }
}

/// Turns the changes of one level into steps: which changes are part of
/// the result, and which directories are to be compared one level down.
pub fn plan_level(changes: &Vec<Change>) -> (steps: Vec<Step>)
    ensures
        step_views(steps@) == steps_below(change_views(changes@), changes@.len() as int),
{
    let ghost views = change_views(changes@);
    let mut out: Vec<Step> = Vec::new();
    let mut k: usize = 0;
    assert(step_views(out@) =~= Seq::<StepView>::empty());
    while k < changes.len()
        invariant
            k <= changes@.len(),
            views == change_views(changes@),
            step_views(out@) == steps_below(views, k as int),
        decreases changes@.len() - k,
    {
        let ghost before = step_views(out@);
        let change = &changes[k];
        assert(views[k as int] == change@);
        let mut emits = true;
        let mut descent: Option<Step> = None;
        match change {
            Change::Addition { path, id, mode } => {
                if mode_is_directory(*mode) {
                    emits = false;
                    descent = Some(descend(path.as_slice(), None, Some(id)));
                }
            },
            Change::Deletion { path, id, mode } => {
                if mode_is_directory(*mode) {
                    emits = false;
                    descent = Some(descend(path.as_slice(), Some(id), None));
                }
            },
            Change::Modification { path, previous_id, id, previous_mode, mode } => {
                if mode_is_directory(*previous_mode) && mode_is_directory(*mode) {
                    emits = false;
                    descent = Some(descend(path.as_slice(), Some(previous_id), Some(id)));
                }
            },
            Change::TypeChange { path, previous_id, previous_mode, id, mode } => {
                if mode_is_directory(*previous_mode) && !mode_is_directory(*mode) {
                    descent = Some(descend(path.as_slice(), Some(previous_id), None));
                } else if !mode_is_directory(*previous_mode) && mode_is_directory(*mode) {
                    descent = Some(descend(path.as_slice(), None, Some(id)));
                }
            },
        }
        if emits {
            let step = Step::Emit(change.duplicate());
            out.push(step);
        }
        match descent {
            Some(step) => {
                out.push(step);
            },
            None => {},
        }
        proof {
            let added = steps_of(views[k as int]);
            assert(step_views(out@) =~= before + added);
        }
        k += 1;
    }
    out
}

} // verus!
