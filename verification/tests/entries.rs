use std::cmp::Ordering;

use treediff::entry::{
    ContentId, Entry, EntryKind, Flags, Mode, PathRange, Stage, Stat, State, MODE_COMMIT,
    MODE_DIR, MODE_FILE, MODE_FILE_EXECUTABLE, MODE_SYMLINK,
};
use treediff::path::{bytes_equal, compare_paths, copy_bytes, PathOrder};

fn state_of(items: &[(&str, Stage)]) -> State {
    let mut state = State { path_backing: Vec::new(), entries: Vec::new() };
    for (path, stage) in items {
        let start = state.path_backing.len();
        state.path_backing.extend_from_slice(path.as_bytes());
        let end = state.path_backing.len();
        state.entries.push(Entry {
            stat: Stat::default(),
            id: ContentId { bytes: vec![1; 20] },
            flags: Flags::from_stage(*stage),
            mode: Mode { bits: MODE_FILE },
            path: PathRange { start, end },
        });
    }
    state
}

#[test]
fn file_paths_compare_by_common_bytes_then_length() {
    assert_eq!(Entry::cmp_filepaths(b"a", b"b"), Ordering::Less);
    assert_eq!(Entry::cmp_filepaths(b"b", b"a"), Ordering::Greater);
    assert_eq!(Entry::cmp_filepaths(b"a", b"a"), Ordering::Equal);
    assert_eq!(Entry::cmp_filepaths(b"a", b"ab"), Ordering::Less);
    assert_eq!(Entry::cmp_filepaths(b"ab", b"a"), Ordering::Greater);
    assert_eq!(Entry::cmp_filepaths(b"", b""), Ordering::Equal);
    assert_eq!(Entry::cmp_filepaths(b"", b"a"), Ordering::Less);
    assert_eq!(Entry::cmp_filepaths(b"a/b", b"a.b"), Ordering::Greater);
    assert_eq!(Entry::cmp_filepaths(b"Z", b"a"), Ordering::Less);
    assert_eq!(Entry::cmp_filepaths(&[0xff], &[0x7f, 0x00]), Ordering::Greater);
}

#[test]
fn compare_paths_agrees_with_slice_order() {
    let samples: [&[u8]; 7] = [b"", b"a", b"ab", b"abc", b"b", b"a/b", &[0xff, 0x00]];
    for a in samples {
        for b in samples {
            let expected = match a.cmp(b) {
                Ordering::Less => PathOrder::Less,
                Ordering::Equal => PathOrder::Equal,
                Ordering::Greater => PathOrder::Greater,
            };
            assert_eq!(compare_paths(a, b), expected);
            assert_eq!(bytes_equal(a, b), a == b);
        }
        assert_eq!(copy_bytes(a), a.to_vec());
    }
}

#[test]
fn entries_compare_by_path_then_stage() {
    let state = state_of(&[
        ("a", Stage::Unconflicted),
        ("b", Stage::Base),
        ("b", Stage::Ours),
        ("b", Stage::Theirs),
        ("ba", Stage::Unconflicted),
    ]);
    let e = &state.entries;
    assert_eq!(e[0].cmp(&e[1], &state), Ordering::Less);
    assert_eq!(e[1].cmp(&e[0], &state), Ordering::Greater);
    assert_eq!(e[1].cmp(&e[2], &state), Ordering::Less);
    assert_eq!(e[3].cmp(&e[2], &state), Ordering::Greater);
    assert_eq!(e[2].cmp(&e[2], &state), Ordering::Equal);
    assert_eq!(e[3].cmp(&e[4], &state), Ordering::Less);
    assert_eq!(e[4].cmp(&e[1], &state), Ordering::Greater);
}

#[test]
fn path_is_read_from_the_backing() {
    let state = state_of(&[("dir/file", Stage::Unconflicted), ("x", Stage::Unconflicted)]);
    assert_eq!(state.entries[0].path(&state), b"dir/file");
    assert_eq!(state.entries[1].path(&state), b"x");
    assert_eq!(state.entries[1].path_in(&state.path_backing), b"x");
    let empty = Entry { path: PathRange { start: 3, end: 3 }, ..state.entries[0].clone() };
    assert_eq!(empty.path(&state), b"");
}

#[test]
fn stage_is_read_from_the_flags() {
    for (bits, raw, stage) in [
        (0x0000u32, 0u32, Stage::Unconflicted),
        (0x1000, 1, Stage::Base),
        (0x2000, 2, Stage::Ours),
        (0x3000, 3, Stage::Theirs),
        (0xcfff, 0, Stage::Unconflicted),
        (0xffff_ffff, 3, Stage::Theirs),
        (0x2abc, 2, Stage::Ours),
    ] {
        let mut state = state_of(&[("a", Stage::Unconflicted)]);
        state.entries[0].flags = Flags { bits };
        assert_eq!(state.entries[0].stage_raw(), raw);
        assert_eq!(state.entries[0].stage(), stage);
    }
    for stage in [Stage::Unconflicted, Stage::Base, Stage::Ours, Stage::Theirs] {
        assert_eq!(Flags::from_stage(stage).stage(), stage);
    }
    assert_eq!(Stage::default(), Stage::Unconflicted);
}

#[test]
fn mode_from_kind_and_back() {
    for (kind, bits) in [
        (EntryKind::Tree, MODE_DIR),
        (EntryKind::Blob, MODE_FILE),
        (EntryKind::BlobExecutable, MODE_FILE_EXECUTABLE),
        (EntryKind::Link, MODE_SYMLINK),
        (EntryKind::Commit, MODE_COMMIT),
    ] {
        let mode = Mode::from(kind);
        assert_eq!(mode.bits, bits);
        assert_eq!(mode.kind(), Some(kind));
    }
    assert_eq!(MODE_DIR, 0o040000);
    assert_eq!(MODE_FILE, 0o100644);
    assert_eq!(MODE_FILE_EXECUTABLE, 0o100755);
    assert_eq!(MODE_SYMLINK, 0o120000);
    assert_eq!(MODE_COMMIT, 0o160000);
    assert_eq!(Mode { bits: 0o100600 }.kind(), None);
}
