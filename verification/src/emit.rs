//! The final stream: rewrites in place of the additions that were matched,
//! everything else as it came.
use vstd::prelude::*;
use crate::change::{Change, ChangeView};
use crate::entry::ContentId;
use crate::path::copy_bytes;
use crate::rewrites::{Pool, PoolView, RewriteKind};
use crate::tracker::{Tracker, TrackerView};

verus! {

/// An addition together with the source it was renamed or copied from.
#[derive(Debug, Clone, PartialEq, Eq)]
pub struct Rewrite {
    /// The path of the source.
    pub source_path: Vec<u8>,
    /// The content of the source.
    pub source_id: ContentId,
    /// The addition that the rewrite stands for.
    pub destination: Change,
    /// Whether the source went away.
    pub kind: RewriteKind,
    /// `None` for identical content, else the similarity in hundredths of a
    /// percent.
    pub similarity: Option<u32>,
}

/// One item of the final stream.
#[derive(Debug, Clone, PartialEq, Eq)]
pub enum Emitted {
    /// A change that no rewrite took up.
    Plain(Change),
    /// A rename or a copy.
    Rewritten(Rewrite),
}

/// An [`Emitted`] as a mathematical value.
pub enum EmittedView {
    Plain(ChangeView),
    Rewritten {
        source_path: Seq<u8>,
        source_id: Seq<u8>,
        destination: ChangeView,
        kind: RewriteKind,
        similarity: Option<u32>,
    },
}

impl View for Emitted {
    type V = EmittedView;

    open spec fn view(&self) -> EmittedView {
        match self {
            Emitted::Plain(c) => EmittedView::Plain(c@),
            Emitted::Rewritten(r) => EmittedView::Rewritten {
                source_path: r.source_path@,
                source_id: r.source_id@,
                destination: r.destination@,
                kind: r.kind,
                similarity: r.similarity,
            },
        }
    }
}

/// The views of a list of items, in the same order.
pub open spec fn emitted_views(items: Seq<Emitted>) -> Seq<EmittedView> {
    Seq::new(items.len(), |i: int| items[i]@)
}

/// What the change at `k` becomes in the final stream: nothing if a rename
/// consumed it, a rewrite if it was matched, else itself.
pub open spec fn emitted_at(pool: PoolView, tracker: TrackerView, k: int) -> Option<EmittedView> {
    if tracker.consumed[k] {
        None
    } else {
        match tracker.matches[k] {
            Some(m) => Some(
                EmittedView::Rewritten {
                    source_path: pool.source_path(m.source as int),
                    source_id: pool.source_id(m.source as int),
                    destination: pool.changes[k],
                    kind: m.kind,
                    similarity: m.similarity,
                },
            ),
            None => Some(EmittedView::Plain(pool.changes[k])),
        }
    }
}

/// The final stream for the first `k` changes, in the order of the changes:
/// a rewrite stands where its destination stood.
pub open spec fn emitted_below(pool: PoolView, tracker: TrackerView, k: int) -> Seq<EmittedView>
    decreases k,
{
    if k <= 0 {
        Seq::empty()
    } else {
        let before = emitted_below(pool, tracker, k - 1);
        match emitted_at(pool, tracker, k - 1) {
            Some(item) => before.push(item),
            None => before,
        }
    }
}

/// Produces the final stream: the changes in their order, without the
/// deletions that a rename consumed, and with a rewrite in place of each
/// addition that was matched.
pub fn emit(pool: &Pool, tracker: &Tracker) -> (items: Vec<Emitted>)
    requires
        tracker.fits(pool),
    ensures
        emitted_views(items@) == emitted_below(pool@, tracker@, pool@.changes.len() as int),
{
    let mut out: Vec<Emitted> = Vec::new();
    let mut k: usize = 0;
    assert(emitted_views(out@) =~= Seq::<EmittedView>::empty());
    while k < pool.changes.len()
        invariant
            tracker.fits(pool),
            k <= pool.changes@.len(),
            emitted_views(out@) == emitted_below(pool@, tracker@, k as int),
        decreases pool.changes@.len() - k,
    {
        let ghost before = emitted_views(out@);
        if !tracker.consumed[k] {
            let item = match tracker.matches[k] {
                Some(m) => Emitted::Rewritten(
                    Rewrite {
                        source_path: copy_bytes(pool.source_path(m.source)),
                        source_id: pool.source_id(m.source).duplicate(),
                        destination: pool.changes[k].duplicate(),
                        kind: m.kind,
                        similarity: m.similarity,
                    },
                ),
                None => Emitted::Plain(pool.changes[k].duplicate()),
            };
            out.push(item);
            assert(emitted_views(out@) =~= before.push(item@));
        }
        k += 1;
    }
    out
}

} // verus!
