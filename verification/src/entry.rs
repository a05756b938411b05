//! The per-path record of an index: where its path lies, what it points to
//! and in which conflict stage it is.
use core::cmp::Ordering;
use vstd::prelude::*;
use vstd::slice::slice_subrange;
use crate::path::{compare_paths, path_order, PathOrder};

verus! {

/// The stage of an entry.
#[derive(Default, Copy, Clone, Debug, PartialEq, Eq, Structural, Ord, PartialOrd, Hash)]
pub enum Stage {
    /// This is the default, and most entries are in this stage.
    #[default]
    Unconflicted,
    /// The entry is the common base between our change and their change.
    Base,
    /// The entry represents our change.
    Ours,
    /// The entry represents their change.
    Theirs,
}

/// The stage of an entry as a number: 0 = no conflict, 1 = base, 2 = ours,
/// 3 = theirs.
pub type StageRaw = u32;

/// The bits of [`Flags`] that hold the stage.
pub const STAGE_MASK: u32 = 0x3000;

/// By how many bits the stage is shifted inside [`Flags`].
pub const STAGE_SHIFT: u32 = 12;

/// The number that stands for a stage.
pub open spec fn stage_number(stage: Stage) -> u32 {
    match stage {
        Stage::Unconflicted => 0,
        Stage::Base => 1,
        Stage::Ours => 2,
        Stage::Theirs => 3,
    }
}

/// In-memory flags of an entry.
#[derive(Copy, Clone, Debug, PartialEq, Eq, Structural, Hash)]
pub struct Flags {
    pub bits: u32,
}

impl Flags {
    /// The stage bits as a number.
    pub open spec fn stage_raw_spec(self) -> u32 {
        (self.bits & STAGE_MASK) >> STAGE_SHIFT
    }

    /// The stage that the stage bits stand for.
    pub open spec fn stage_spec(self) -> Stage {
        let raw = self.stage_raw_spec();
        if raw == 0 {
            Stage::Unconflicted
        } else if raw == 1 {
            Stage::Base
        } else if raw == 2 {
            Stage::Ours
        } else {
            Stage::Theirs
        }
    }

    /// Flags that hold `stage` and nothing else.
    pub fn from_stage(stage: Stage) -> (r: Flags)
        ensures
            r.stage_spec() == stage,
            r.bits & !STAGE_MASK == 0,
    {
        let bits: u32 = match stage {
            Stage::Unconflicted => 0x0000,
            Stage::Base => 0x1000,
            Stage::Ours => 0x2000,
            Stage::Theirs => 0x3000,
        };
        assert((0x0000u32 & 0x3000) >> 12 == 0 && (0x1000u32 & 0x3000) >> 12 == 1 && (0x2000u32
            & 0x3000) >> 12 == 2 && (0x3000u32 & 0x3000) >> 12 == 3) by (bit_vector);
        assert(0x0000u32 & !0x3000u32 == 0 && 0x1000u32 & !0x3000u32 == 0 && 0x2000u32
            & !0x3000u32 == 0 && 0x3000u32 & !0x3000u32 == 0) by (bit_vector);
        Flags { bits }
    }

    /// The stage bits as a number between 0 and 3.
    pub fn stage_raw(&self) -> (r: u32)
        ensures
            r == self.stage_raw_spec(),
            r <= 3,
            r == stage_number(self.stage_spec()),
    {
        let bits = self.bits;
        assert((bits & 0x3000) >> 12 <= 3) by (bit_vector);
        (bits & STAGE_MASK) >> STAGE_SHIFT
    }

    /// The stage that the stage bits stand for.
    pub fn stage(&self) -> (r: Stage)
        ensures
            r == self.stage_spec(),
    {
        let raw = self.stage_raw();
        if raw == 0 {
            Stage::Unconflicted
        } else if raw == 1 {
            Stage::Base
        } else if raw == 2 {
            Stage::Ours
        } else {
            Stage::Theirs
        }
    }
}

/// The kind of object that a tree entry points to.
#[derive(Copy, Clone, Debug, PartialEq, Eq, Structural, Hash)]
pub enum EntryKind {
    /// A directory.
    Tree,
    /// A regular file.
    Blob,
    /// A regular file that is executable.
    BlobExecutable,
    /// A symbolic link.
    Link,
    /// A commit of a submodule.
    Commit,
}

/// Mode bits of a directory.
pub const MODE_DIR: u32 = 0o040000;

/// Mode bits of a regular file.
pub const MODE_FILE: u32 = 0o100644;

/// Mode bits of an executable regular file.
pub const MODE_FILE_EXECUTABLE: u32 = 0o100755;

/// Mode bits of a symbolic link.
pub const MODE_SYMLINK: u32 = 0o120000;

/// Mode bits of a submodule commit.
pub const MODE_COMMIT: u32 = 0o160000;

/// The kind of file of an entry, as mode bits.
#[derive(Copy, Clone, Debug, PartialEq, Eq, Structural, Hash)]
pub struct Mode {
    pub bits: u32,
}

/// The mode bits that stand for a kind.
pub open spec fn mode_bits_of(kind: EntryKind) -> u32 {
    match kind {
        EntryKind::Tree => MODE_DIR,
        EntryKind::Blob => MODE_FILE,
        EntryKind::BlobExecutable => MODE_FILE_EXECUTABLE,
        EntryKind::Link => MODE_SYMLINK,
        EntryKind::Commit => MODE_COMMIT,
    }
}

impl Mode {
    /// The kind that these mode bits stand for, if they are one of the five
    /// known values.
    pub open spec fn kind_spec(self) -> Option<EntryKind> {
        if self.bits == MODE_DIR {
            Some(EntryKind::Tree)
        } else if self.bits == MODE_FILE {
            Some(EntryKind::Blob)
        } else if self.bits == MODE_FILE_EXECUTABLE {
            Some(EntryKind::BlobExecutable)
        } else if self.bits == MODE_SYMLINK {
            Some(EntryKind::Link)
        } else if self.bits == MODE_COMMIT {
            Some(EntryKind::Commit)
        } else {
            None
        }
    }

    /// The kind that these mode bits stand for, or `None` for unknown bits.
    pub fn kind(&self) -> (r: Option<EntryKind>)
        ensures
            r == self.kind_spec(),
    {
        if self.bits == MODE_DIR {
            Some(EntryKind::Tree)
        } else if self.bits == MODE_FILE {
            Some(EntryKind::Blob)
        } else if self.bits == MODE_FILE_EXECUTABLE {
            Some(EntryKind::BlobExecutable)
        } else if self.bits == MODE_SYMLINK {
            Some(EntryKind::Link)
        } else if self.bits == MODE_COMMIT {
            Some(EntryKind::Commit)
        } else {
            None
        }
    }
}

impl From<EntryKind> for Mode {
    fn from(value: EntryKind) -> (r: Mode) {
        match value {
            EntryKind::Tree => Mode { bits: MODE_DIR },
            EntryKind::Blob => Mode { bits: MODE_FILE },
            EntryKind::BlobExecutable => Mode { bits: MODE_FILE_EXECUTABLE },
            EntryKind::Link => Mode { bits: MODE_SYMLINK },
            EntryKind::Commit => Mode { bits: MODE_COMMIT },
        }
    }
}

impl vstd::std_specs::convert::FromSpecImpl<EntryKind> for Mode {
    open spec fn obeys_from_spec() -> bool {
        true
    }

    open spec fn from_spec(value: EntryKind) -> Mode {
        Mode { bits: mode_bits_of(value) }
    }
}

/// A point in time as the filesystem reports it.
#[derive(Debug, Default, PartialEq, Eq, Hash, Ord, PartialOrd, Clone, Copy)]
pub struct Time {
    /// Seconds since the epoch.
    pub secs: u32,
    /// Nanoseconds within the second.
    pub nsecs: u32,
}

/// An entry's filesystem stat information.
#[derive(Debug, Default, PartialEq, Eq, Hash, Ord, PartialOrd, Clone, Copy)]
pub struct Stat {
    /// Modification time
    pub mtime: Time,
    /// Creation time
    pub ctime: Time,
    /// Device number
    pub dev: u32,
    /// Inode number
    pub ino: u32,
    /// User id of the owner
    pub uid: u32,
    /// Group id of the owning group
    pub gid: u32,
    /// The size in bytes on disk, capped to 32 bits.
    pub size: u32,
}

/// The digest that identifies a piece of content.
#[derive(Debug, Clone, PartialEq, Eq, Hash)]
pub struct ContentId {
    pub bytes: Vec<u8>,
}

impl View for ContentId {
    type V = Seq<u8>;

    open spec fn view(&self) -> Seq<u8> {
        self.bytes@
    }
}

/// Where a path lies in its backing buffer.
#[derive(Debug, Clone, Copy, PartialEq, Eq, Hash)]
pub struct PathRange {
    pub start: usize,
    pub end: usize,
}

/// One entry of an index.
#[derive(Debug, Clone, PartialEq, Eq)]
pub struct Entry {
    /// The filesystem stat information of the file on disk.
    pub stat: Stat,
    /// The content that the entry points to.
    pub id: ContentId,
    /// Additional flags; they hold the stage.
    pub flags: Flags,
    /// The kind of item this entry represents.
    pub mode: Mode,
    /// Where in the backing buffer the path lies.
    pub path: PathRange,
}

/// An index: its entries and the buffer that holds their paths.
#[derive(Debug, Clone)]
pub struct State {
    pub path_backing: Vec<u8>,
    pub entries: Vec<Entry>,
}

/// The order of two entries: by path first, then by stage.
pub open spec fn entry_order(
    lhs_path: Seq<u8>,
    lhs_stage: u32,
    rhs_path: Seq<u8>,
    rhs_stage: u32,
) -> PathOrder {
    match path_order(lhs_path, rhs_path) {
        PathOrder::Less => PathOrder::Less,
        PathOrder::Greater => PathOrder::Greater,
        PathOrder::Equal => if lhs_stage < rhs_stage {
            PathOrder::Less
        } else if lhs_stage == rhs_stage {
            PathOrder::Equal
        } else {
            PathOrder::Greater
        },
    }
}

/// Whether a standard ordering and a path order say the same.
pub open spec fn same_order(std_order: Ordering, order: PathOrder) -> bool {
    match order {
        PathOrder::Less => std_order == Ordering::Less,
        PathOrder::Equal => std_order == Ordering::Equal,
        PathOrder::Greater => std_order == Ordering::Greater,
    }
}

impl Entry {
    /// The path lies inside a buffer of `backing_len` bytes.
    pub open spec fn path_within(&self, backing_len: nat) -> bool {
        self.path.start <= self.path.end && self.path.end <= backing_len
    }

    /// The bytes of the path, read from `backing`.
    pub open spec fn path_spec(&self, backing: Seq<u8>) -> Seq<u8> {
        backing.subrange(self.path.start as int, self.path.end as int)
    }

    /// Return an entry's path, relative to the repository, which is read
    /// from its owning `state`.
    pub fn path<'a>(&self, state: &'a State) -> (r: &'a [u8])
        requires
            self.path_within(state.path_backing@.len()),
        ensures
            r@ == self.path_spec(state.path_backing@),
    {
        slice_subrange(state.path_backing.as_slice(), self.path.start, self.path.end)
    }

    /// Return an entry's path using the given `backing`.
    pub fn path_in<'backing>(&self, backing: &'backing [u8]) -> (r: &'backing [u8])
        requires
            self.path_within(backing@.len()),
        ensures
            r@ == self.path_spec(backing@),
    {
        slice_subrange(backing, self.path.start, self.path.end)
    }

    /// Return an entry's stage.
    pub fn stage(&self) -> (r: Stage)
        ensures
            r == self.flags.stage_spec(),
    {
        self.flags.stage()
    }

    /// Return an entry's stage as a number between 0 and 3: 0 = no
    /// conflict, 1 = base, 2 = ours, 3 = theirs.
    pub fn stage_raw(&self) -> (r: u32)
        ensures
            r == self.flags.stage_raw_spec(),
            r == stage_number(self.flags.stage_spec()),
            r <= 3,
    {
        self.flags.stage_raw()
    }

    /// Compare one entry to another by their path, by comparing only their
    /// common path portion byte by byte, then resorting to entry length and
    /// stage.
    pub fn cmp(&self, other: &Self, state: &State) -> (r: Ordering)
        requires
            self.path_within(state.path_backing@.len()),
            other.path_within(state.path_backing@.len()),
        ensures
            same_order(
                r,
                entry_order(
                    self.path_spec(state.path_backing@),
                    self.flags.stage_raw_spec(),
                    other.path_spec(state.path_backing@),
                    other.flags.stage_raw_spec(),
                ),
            ),
    {
        let lhs = self.path(state);
        let rhs = other.path(state);
        match Entry::cmp_filepaths(lhs, rhs) {
            Ordering::Less => Ordering::Less,
            Ordering::Greater => Ordering::Greater,
            Ordering::Equal => {
                let l = self.stage_raw();
                let r = other.stage_raw();
                if l < r {
                    Ordering::Less
                } else if l == r {
                    Ordering::Equal
                } else {
                    Ordering::Greater
                }
            },
        }
    }

    /// Compare two paths by comparing only their common portion byte by
    /// byte, then resorting to their length.
    pub fn cmp_filepaths(a: &[u8], b: &[u8]) -> (r: Ordering)
        ensures
            same_order(r, path_order(a@, b@)),
    {
        match compare_paths(a, b) {
            PathOrder::Less => Ordering::Less,
            PathOrder::Equal => Ordering::Equal,
            PathOrder::Greater => Ordering::Greater,
        }
    }
}

} // verus!
