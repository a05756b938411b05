use treediff::change::Change;
use treediff::copies::unmodified;
use treediff::entry::{
    ContentId, Entry, Flags, Mode, PathRange, Stage, Stat, State, MODE_DIR, MODE_FILE,
    MODE_FILE_EXECUTABLE, MODE_SYMLINK,
};
use treediff::rewrites::Unmodified;
use treediff::walk::{mode_is_directory, plan_level, Step};

fn id(byte: u8) -> ContentId {
    ContentId { bytes: vec![byte; 20] }
}

fn file() -> Mode {
    Mode { bits: MODE_FILE }
}

fn dir() -> Mode {
    Mode { bits: MODE_DIR }
}

fn tree(items: &[(&str, u8, u32)]) -> State {
    let mut state = State { path_backing: Vec::new(), entries: Vec::new() };
    for (path, content, bits) in items {
        let start = state.path_backing.len();
        state.path_backing.extend_from_slice(path.as_bytes());
        let end = state.path_backing.len();
        state.entries.push(Entry {
            stat: Stat::default(),
            id: id(*content),
            flags: Flags::from_stage(Stage::Unconflicted),
            mode: Mode { bits: *bits },
            path: PathRange { start, end },
        });
    }
    state
}

#[test]
fn unmodified_entries_are_those_equal_in_path_content_and_mode() {
    let old = tree(&[
        ("a", 1, MODE_FILE),
        ("b", 2, MODE_FILE),
        ("c", 3, MODE_FILE),
        ("d", 4, MODE_FILE),
        ("f", 6, MODE_SYMLINK),
    ]);
    let new = tree(&[
        ("a", 1, MODE_FILE),
        ("b", 9, MODE_FILE),
        ("d", 4, MODE_FILE_EXECUTABLE),
        ("e", 5, MODE_FILE),
        ("f", 6, MODE_SYMLINK),
    ]);
    assert_eq!(
        unmodified(&old, &new),
        vec![
            Unmodified { path: b"a".to_vec(), id: id(1), mode: file() },
            Unmodified { path: b"f".to_vec(), id: id(6), mode: Mode { bits: MODE_SYMLINK } },
        ]
    );
    assert_eq!(unmodified(&old, &tree(&[])), vec![]);
    assert_eq!(unmodified(&tree(&[]), &new), vec![]);
}

#[test]
fn directories_are_descended_into_and_files_are_emitted() {
    let changes = vec![
        Change::Addition { path: b"a".to_vec(), id: id(1), mode: file() },
        Change::Addition { path: b"b".to_vec(), id: id(2), mode: dir() },
        Change::Deletion { path: b"c".to_vec(), id: id(3), mode: dir() },
        Change::Deletion { path: b"d".to_vec(), id: id(4), mode: file() },
        Change::Modification {
            path: b"e".to_vec(),
            previous_id: id(5),
            id: id(6),
            previous_mode: dir(),
            mode: dir(),
        },
        Change::Modification {
            path: b"f".to_vec(),
            previous_id: id(7),
            id: id(8),
            previous_mode: file(),
            mode: file(),
        },
        Change::TypeChange {
            path: b"g".to_vec(),
            previous_id: id(9),
            previous_mode: dir(),
            id: id(10),
            mode: file(),
        },
        Change::TypeChange {
            path: b"h".to_vec(),
            previous_id: id(11),
            previous_mode: file(),
            id: id(12),
            mode: dir(),
        },
        Change::TypeChange {
            path: b"i".to_vec(),
            previous_id: id(13),
            previous_mode: file(),
            id: id(14),
            mode: Mode { bits: MODE_SYMLINK },
        },
    ];
    let descend = |path: &str, old_tree: Option<u8>, new_tree: Option<u8>| Step::Descend {
        path: path.as_bytes().to_vec(),
        old_tree: old_tree.map(id),
        new_tree: new_tree.map(id),
    };
    assert_eq!(
        plan_level(&changes),
        vec![
            Step::Emit(changes[0].clone()),
            descend("b", None, Some(2)),
            descend("c", Some(3), None),
            Step::Emit(changes[3].clone()),
            descend("e", Some(5), Some(6)),
            Step::Emit(changes[5].clone()),
            Step::Emit(changes[6].clone()),
            descend("g", Some(9), None),
            Step::Emit(changes[7].clone()),
            descend("h", None, Some(12)),
            Step::Emit(changes[8].clone()),
        ]
    );
    assert_eq!(plan_level(&vec![]), vec![]);
    assert!(mode_is_directory(dir()));
    assert!(!mode_is_directory(file()));
}

#[test]
fn pushed_entries_have_their_path_at_the_end_of_the_backing() {
    let mut state = State::new();
    assert!(state.entries.is_empty());
    state.push(b"a", id(1), file(), Flags::from_stage(Stage::Unconflicted), Stat::default());
    state.push(b"dir/b", id(2), dir(), Flags::from_stage(Stage::Ours), Stat::default());
    state.push(b"", id(3), file(), Flags::from_stage(Stage::Base), Stat::default());
    assert_eq!(state.path_backing, b"adir/b".to_vec());
    assert_eq!(state.entries.len(), 3);
    assert_eq!(state.entries[0].path(&state), b"a");
    assert_eq!(state.entries[1].path(&state), b"dir/b");
    assert_eq!(state.entries[2].path(&state), b"");
    assert_eq!(state.entries[1].path, PathRange { start: 1, end: 6 });
    assert_eq!(state.entries[1].id, id(2));
    assert_eq!(state.entries[1].mode, dir());
    assert_eq!(state.entries[1].stage(), Stage::Ours);
    assert_eq!(state.first_invalid(), Some(2));
}
