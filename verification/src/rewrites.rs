//! How renames and copies are looked for, and the pool of changes and
//! unmodified entries in which they are looked for.
use vstd::prelude::*;
use crate::change::{change_views, Change, ChangeView};
use crate::diff::EntryView;
use crate::entry::{ContentId, Mode};
use crate::path::bytes_equal;

verus! {

/// Where copies may come from.
#[derive(Debug, Copy, Clone, PartialEq, Eq, Structural, Hash)]
pub enum Copies {
    /// Only the modified files of the same comparison are sources of copies.
    FromSetOfModifiedFiles,
    /// The unmodified entries of the new side are sources of copies as well.
    FromSetOfModifiedFilesAndAllSources,
}

/// The similarity that a fuzzy match needs by default, in hundredths of a
/// percent.
pub const DEFAULT_PERCENTAGE: u32 = 5000;

/// The default number of files to consider for fuzzy matching.
pub const DEFAULT_LIMIT: usize = 1000;

/// How to perform rename and copy tracking.
#[derive(Debug, Copy, Clone, PartialEq, Eq, Structural)]
pub struct Rewrites {
    /// If `Some(..)`, also find copies.
    pub copies: Option<Copies>,
    /// The similarity needed for files to be considered renamed, in
    /// hundredths of a percent. If `None`, files are only considered equal
    /// if their content is the same.
    pub percentage: Option<u32>,
    /// The number of files to consider for fuzzy tracking: with a limit of
    /// `n`, up to `n * n` pairs are compared. If 0, there is no limit. Where
    /// the limit does not admit every pair, no pair is compared at all.
    pub limit: usize,
    /// If `true`, empty blobs take part in tracking.
    pub track_empty: bool,
}

impl Default for Rewrites {
    fn default() -> (r: Rewrites)
        ensures
            r == (Rewrites {
                copies: None,
                percentage: Some(DEFAULT_PERCENTAGE),
                limit: DEFAULT_LIMIT,
                track_empty: false,
            }),
    {
        Rewrites {
            copies: None,
            percentage: Some(DEFAULT_PERCENTAGE),
            limit: DEFAULT_LIMIT,
            track_empty: false,
        }
    }
}

/// The id of the blob without content, under SHA-1.
pub open spec fn empty_blob_sha1() -> Seq<u8> {
    seq![
        0xe6u8, 0x9d, 0xe2, 0x9b, 0xb2, 0xd1, 0xd6, 0x43, 0x4b, 0x8b,
        0x29, 0xae, 0x77, 0x5a, 0xd8, 0xc2, 0xe4, 0x8c, 0x53, 0x91,
    ]
}

/// Calls `gix_hash::ObjectId::empty_blob` for SHA-1 and copies the bytes of
/// what it returns. Trusted: that these are the twenty bytes of
/// [`empty_blob_sha1`], which is the constant that the function returns.
#[verifier::external_body]
fn empty_blob_id() -> (r: ContentId)
    ensures
        r@ == empty_blob_sha1(),
{
    ContentId { bytes: gix_hash::ObjectId::empty_blob(gix_hash::Kind::Sha1).as_slice().to_vec() }
}

/// An entry of the new side that did not change.
#[derive(Debug, Clone, PartialEq, Eq)]
pub struct Unmodified {
    pub path: Vec<u8>,
    pub id: ContentId,
    pub mode: Mode,
}

impl View for Unmodified {
    type V = EntryView;

    open spec fn view(&self) -> EntryView {
        EntryView { path: self.path@, id: self.id@, mode: self.mode }
    }
}

/// The views of a list of unmodified entries, in the same order.
pub open spec fn unmodified_views(entries: Seq<Unmodified>) -> Seq<EntryView> {
    Seq::new(entries.len(), |i: int| entries[i]@)
}

/// Whether a rewrite takes its source away or leaves it in place.
#[derive(Debug, Copy, Clone, PartialEq, Eq, Structural, Hash)]
pub enum RewriteKind {
    /// The source is a deletion, which the rewrite consumes.
    Rename,
    /// The source stays where it is.
    Copy,
}

/// Everything that one tracking run reads. A source is named by a number:
/// below the number of changes it is that change, from there on it is an
/// unmodified entry.
pub struct Pool {
    pub changes: Vec<Change>,
    pub unmodified: Vec<Unmodified>,
    pub config: Rewrites,
    pub empty_blob: ContentId,
}

/// A [`Pool`] as a mathematical value.
pub struct PoolView {
    pub changes: Seq<ChangeView>,
    pub unmodified: Seq<EntryView>,
    pub config: Rewrites,
}

impl PoolView {
    /// How many numbers name a possible source.
    pub open spec fn source_count(self) -> int {
        (self.changes.len() + self.unmodified.len()) as int
    }

    /// Content with this id takes part in tracking.
    pub open spec fn tracks(self, id: Seq<u8>) -> bool {
        self.config.track_empty || id != empty_blob_sha1()
    }

    /// The change at `d` is an addition that may become the destination of
    /// a rewrite.
    pub open spec fn is_destination(self, d: int) -> bool {
        0 <= d < self.changes.len() && self.changes[d] is Addition && self.tracks(
            self.changes[d].id(),
        )
    }

    /// The source `s` is a deletion: a rewrite from it is a rename.
    pub open spec fn is_deletion(self, s: int) -> bool {
        0 <= s < self.changes.len() && self.changes[s] is Deletion
    }

    /// The content of the source `s`.
    pub open spec fn source_id(self, s: int) -> Seq<u8> {
        if s < self.changes.len() {
            self.changes[s].id()
        } else {
            self.unmodified[s - self.changes.len()].id
        }
    }

    /// The path of the source `s`.
    pub open spec fn source_path(self, s: int) -> Seq<u8> {
        if s < self.changes.len() {
            self.changes[s].path()
        } else {
            self.unmodified[s - self.changes.len()].path
        }
    }

    /// `s` names a source: a deletion; with copies, a modification; with
    /// copies from all sources, an unmodified entry. Its content must take
    /// part in tracking.
    pub open spec fn is_source(self, s: int) -> bool {
        &&& 0 <= s < self.source_count()
        &&& self.tracks(self.source_id(s))
        &&& if s < self.changes.len() {
            self.changes[s] is Deletion || (self.config.copies is Some
                && self.changes[s] is Modification)
        } else {
            self.config.copies == Some(Copies::FromSetOfModifiedFilesAndAllSources)
        }
    }

    /// The kind of a rewrite from the source `s`.
    pub open spec fn kind_of(self, s: int) -> RewriteKind {
        if self.is_deletion(s) {
            RewriteKind::Rename
        } else {
            RewriteKind::Copy
        }
    }
}

impl View for Pool {
    type V = PoolView;

    open spec fn view(&self) -> PoolView {
        PoolView {
            changes: change_views(self.changes@),
            unmodified: unmodified_views(self.unmodified@),
            config: self.config,
        }
    }
}

impl Pool {
    /// The pool knows the id of the empty blob, and its sources can be
    /// numbered.
    pub open spec fn well_formed(&self) -> bool {
        &&& self.empty_blob@ == empty_blob_sha1()
        &&& self.changes@.len() + self.unmodified@.len() <= usize::MAX
    }

    /// A pool of the given changes and unmodified entries, or `None` if
    /// there are more of them than can be numbered.
    pub fn new(changes: Vec<Change>, unmodified: Vec<Unmodified>, config: Rewrites) -> (r: Option<
        Pool,
    >)
        ensures
            r is Some <==> changes@.len() + unmodified@.len() <= usize::MAX,
            r is Some ==> r.unwrap().well_formed() && r.unwrap().changes == changes
                && r.unwrap().unmodified == unmodified && r.unwrap().config == config,
    {
        if changes.len() > usize::MAX - unmodified.len() {
            return None;
        }
        Some(Pool { changes, unmodified, config, empty_blob: empty_blob_id() })
    }

    /// Whether content with this id takes part in tracking: always, unless
    /// it is the empty blob and empty blobs are not tracked.
    pub fn tracks(&self, id: &ContentId) -> (r: bool)
        requires
            self.well_formed(),
        ensures
            r == self@.tracks(id@),
    {
        self.config.track_empty || !bytes_equal(
            id.bytes.as_slice(),
            self.empty_blob.bytes.as_slice(),
        )
    }

    /// Whether the change at `d` may become the destination of a rewrite.
    pub fn is_destination(&self, d: usize) -> (r: bool)
        requires
            self.well_formed(),
        ensures
            r == self@.is_destination(d as int),
    {
        if d >= self.changes.len() {
            return false;
        }
        match &self.changes[d] {
            Change::Addition { id, .. } => self.tracks(id),
            _ => false,
        }
    }

    /// Whether the source `s` is a deletion.
    pub fn is_deletion(&self, s: usize) -> (r: bool)
        ensures
            r == self@.is_deletion(s as int),
    {
        if s >= self.changes.len() {
            return false;
        }
        match &self.changes[s] {
            Change::Deletion { .. } => true,
            _ => false,
        }
    }

    /// The content of the source `s`.
    pub fn source_id(&self, s: usize) -> (r: &ContentId)
        requires
            s < self@.source_count(),
        ensures
            r@ == self@.source_id(s as int),
    {
        if s < self.changes.len() {
            self.changes[s].id()
        } else {
            &self.unmodified[s - self.changes.len()].id
        }
    }

    /// The path of the source `s`.
    pub fn source_path(&self, s: usize) -> (r: &[u8])
        requires
            s < self@.source_count(),
        ensures
            r@ == self@.source_path(s as int),
    {
        if s < self.changes.len() {
            self.changes[s].path()
        } else {
            self.unmodified[s - self.changes.len()].path.as_slice()
        }
    }

    /// Whether `s` names a source.
    pub fn is_source(&self, s: usize) -> (r: bool)
        requires
            self.well_formed(),
        ensures
            r == self@.is_source(s as int),
    {
        if s >= self.changes.len() {
            if s - self.changes.len() >= self.unmodified.len() {
                return false;
            }
            let all = match self.config.copies {
                Some(Copies::FromSetOfModifiedFilesAndAllSources) => true,
                _ => false,
            };
            return all && self.tracks(self.source_id(s));
        }
        let by_kind = match &self.changes[s] {
            Change::Deletion { .. } => true,
            Change::Modification { .. } => self.config.copies.is_some(),
            _ => false,
        };
        by_kind && self.tracks(self.source_id(s))
    }

    /// The kind of a rewrite from the source `s`.
    pub fn kind_of(&self, s: usize) -> (r: RewriteKind)
        ensures
            r == self@.kind_of(s as int),
    {
        if self.is_deletion(s) {
            RewriteKind::Rename
        } else {
            RewriteKind::Copy
        }
    }
}

} // verus!
