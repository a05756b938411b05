//! The changes that a comparison of two entry lists yields.
use vstd::prelude::*;
use crate::entry::{ContentId, EntryKind, Mode};
use crate::path::copy_bytes;

verus! {

/// What happened to one path between the old and the new side.
#[derive(Debug, Clone, PartialEq, Eq)]
pub enum Change {
    /// The path exists on the new side only.
    Addition { path: Vec<u8>, id: ContentId, mode: Mode },
    /// The path exists on the old side only.
    Deletion { path: Vec<u8>, id: ContentId, mode: Mode },
    /// The path exists on both sides with the same class of kind, but its
    /// content or mode differs.
    Modification {
        path: Vec<u8>,
        previous_id: ContentId,
        id: ContentId,
        previous_mode: Mode,
        mode: Mode,
    },
    /// The path exists on both sides, as different classes of kind.
    TypeChange {
        path: Vec<u8>,
        previous_id: ContentId,
        previous_mode: Mode,
        id: ContentId,
        mode: Mode,
    },
}

/// A [`Change`] as a mathematical value.
pub enum ChangeView {
    Addition { path: Seq<u8>, id: Seq<u8>, mode: Mode },
    Deletion { path: Seq<u8>, id: Seq<u8>, mode: Mode },
    Modification {
        path: Seq<u8>,
        previous_id: Seq<u8>,
        id: Seq<u8>,
        previous_mode: Mode,
        mode: Mode,
    },
    TypeChange {
        path: Seq<u8>,
        previous_id: Seq<u8>,
        previous_mode: Mode,
        id: Seq<u8>,
        mode: Mode,
    },
}

impl ChangeView {
    /// The path that the change is about.
    pub open spec fn path(self) -> Seq<u8> {
        match self {
            ChangeView::Addition { path, .. } => path,
            ChangeView::Deletion { path, .. } => path,
            ChangeView::Modification { path, .. } => path,
            ChangeView::TypeChange { path, .. } => path,
        }
    }

    /// The content on the new side, or for a deletion the content that went
    /// away.
    pub open spec fn id(self) -> Seq<u8> {
        match self {
            ChangeView::Addition { id, .. } => id,
            ChangeView::Deletion { id, .. } => id,
            ChangeView::Modification { id, .. } => id,
            ChangeView::TypeChange { id, .. } => id,
        }
    }
}

impl View for Change {
    type V = ChangeView;

    open spec fn view(&self) -> ChangeView {
        match self {
            Change::Addition { path, id, mode } => ChangeView::Addition {
                path: path@,
                id: id@,
                mode: *mode,
            },
            Change::Deletion { path, id, mode } => ChangeView::Deletion {
                path: path@,
                id: id@,
                mode: *mode,
            },
            Change::Modification {
                path,
                previous_id,
                id,
                previous_mode,
                mode,
            } => ChangeView::Modification {
                path: path@,
                previous_id: previous_id@,
                id: id@,
                previous_mode: *previous_mode,
                mode: *mode,
            },
            Change::TypeChange {
                path,
                previous_id,
                previous_mode,
                id,
                mode,
            } => ChangeView::TypeChange {
                path: path@,
                previous_id: previous_id@,
                previous_mode: *previous_mode,
                id: id@,
                mode: *mode,
            },
        }
    }
}

/// The views of a list of changes, in the same order.
pub open spec fn change_views(changes: Seq<Change>) -> Seq<ChangeView> {
    Seq::new(changes.len(), |i: int| changes[i]@)
}

impl ContentId {
    /// A copy of this id.
    pub fn duplicate(&self) -> (r: ContentId)
        ensures
            r@ == self@,
    {
        ContentId { bytes: copy_bytes(self.bytes.as_slice()) }
    }
}

impl Change {
    /// The path that the change is about.
    pub fn path(&self) -> (r: &[u8])
        ensures
            r@ == self@.path(),
    {
        match self {
            Change::Addition { path, .. } => path.as_slice(),
            Change::Deletion { path, .. } => path.as_slice(),
            Change::Modification { path, .. } => path.as_slice(),
            Change::TypeChange { path, .. } => path.as_slice(),
        }
    }

    /// The content on the new side, or for a deletion the content that went
    /// away.
    pub fn id(&self) -> (r: &ContentId)
        ensures
            r@ == self@.id(),
    {
        match self {
            Change::Addition { id, .. } => id,
            Change::Deletion { id, .. } => id,
            Change::Modification { id, .. } => id,
            Change::TypeChange { id, .. } => id,
        }
    }

    /// A copy of this change.
    pub fn duplicate(&self) -> (r: Change)
        ensures
            r@ == self@,
    {
        match self {
            Change::Addition { path, id, mode } => Change::Addition {
                path: copy_bytes(path.as_slice()),
                id: id.duplicate(),
                mode: *mode,
            },
            Change::Deletion { path, id, mode } => Change::Deletion {
                path: copy_bytes(path.as_slice()),
                id: id.duplicate(),
                mode: *mode,
            },
            Change::Modification { path, previous_id, id, previous_mode, mode } => {
                Change::Modification {
                    path: copy_bytes(path.as_slice()),
                    previous_id: previous_id.duplicate(),
                    id: id.duplicate(),
                    previous_mode: *previous_mode,
                    mode: *mode,
                }
            },
            Change::TypeChange { path, previous_id, previous_mode, id, mode } => {
                Change::TypeChange {
                    path: copy_bytes(path.as_slice()),
                    previous_id: previous_id.duplicate(),
                    previous_mode: *previous_mode,
                    id: id.duplicate(),
                    mode: *mode,
                }
            },
        }
    }
}

/// The class of a kind: regular and executable files are one class.
#[derive(Copy, Clone, Debug, PartialEq, Eq, Structural)]
pub enum KindClass {
    Directory,
    File,
    Symlink,
    Submodule,
}

/// The class that a kind belongs to.
pub open spec fn class_of_kind(kind: EntryKind) -> KindClass {
    match kind {
        EntryKind::Tree => KindClass::Directory,
        EntryKind::Blob => KindClass::File,
        EntryKind::BlobExecutable => KindClass::File,
        EntryKind::Link => KindClass::Symlink,
        EntryKind::Commit => KindClass::Submodule,
    }
}

/// Whether two modes belong to the same class of kind. Modes with unknown
/// bits are in one class only with themselves.
pub open spec fn same_class(a: Mode, b: Mode) -> bool {
    match (a.kind_spec(), b.kind_spec()) {
        (Some(ka), Some(kb)) => class_of_kind(ka) == class_of_kind(kb),
        _ => a == b,
    }
}

/// The class that a kind belongs to.
pub fn kind_class(kind: EntryKind) -> (r: KindClass)
    ensures
        r == class_of_kind(kind),
{
    match kind {
        EntryKind::Tree => KindClass::Directory,
        EntryKind::Blob => KindClass::File,
        EntryKind::BlobExecutable => KindClass::File,
        EntryKind::Link => KindClass::Symlink,
        EntryKind::Commit => KindClass::Submodule,
    }
}

/// Whether two modes belong to the same class of kind.
pub fn modes_share_class(a: Mode, b: Mode) -> (r: bool)
    ensures
        r == same_class(a, b),
{
    match (a.kind(), b.kind()) {
        (Some(ka), Some(kb)) => kind_class(ka) == kind_class(kb),
        _ => a.bits == b.bits,
    }
}

} // verus!
