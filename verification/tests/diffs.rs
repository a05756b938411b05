use treediff::change::Change;
use treediff::entry::{
    ContentId, Entry, Flags, Mode, PathRange, Stage, Stat, State, MODE_COMMIT, MODE_FILE,
    MODE_FILE_EXECUTABLE, MODE_SYMLINK,
};
use treediff::facade::{index, Error, Side};

fn id(byte: u8) -> ContentId {
    ContentId { bytes: vec![byte; 20] }
}

fn tree(items: &[(&str, u8, u32)]) -> State {
    let mut state = State { path_backing: Vec::new(), entries: Vec::new() };
    for (path, content, bits) in items {
        let start = state.path_backing.len();
        state.path_backing.extend_from_slice(path.as_bytes());
        let end = state.path_backing.len();
        state.entries.push(Entry {
            stat: Stat::default(),
            id: id(*content),
            flags: Flags::from_stage(Stage::Unconflicted),
            mode: Mode { bits: *bits },
            path: PathRange { start, end },
        });
    }
    state
}

fn file(path: &str, content: u8) -> (&str, u8, u32) {
    (path, content, MODE_FILE)
}

#[test]
fn equal_trees_have_no_changes() {
    let old = tree(&[file("a", 1), file("b", 2)]);
    let new = tree(&[file("a", 1), file("b", 2)]);
    assert_eq!(index(&old, &new), Ok(vec![]));
    assert_eq!(index(&tree(&[]), &tree(&[])), Ok(vec![]));
}

#[test]
fn each_differing_path_has_one_change_in_path_order() {
    let old = tree(&[
        file("a", 1),
        file("b", 2),
        file("c", 3),
        file("e", 5),
        file("f", 6),
        file("g", 7),
    ]);
    let new = tree(&[
        file("a", 1),
        file("b", 9),
        file("d", 4),
        ("e", 5, MODE_FILE_EXECUTABLE),
        ("f", 6, MODE_SYMLINK),
        ("g", 8, MODE_COMMIT),
        file("h", 10),
    ]);
    let changes = index(&old, &new).unwrap();
    assert_eq!(
        changes,
        vec![
            Change::Modification {
                path: b"b".to_vec(),
                previous_id: id(2),
                id: id(9),
                previous_mode: Mode { bits: MODE_FILE },
                mode: Mode { bits: MODE_FILE },
            },
            Change::Deletion { path: b"c".to_vec(), id: id(3), mode: Mode { bits: MODE_FILE } },
            Change::Addition { path: b"d".to_vec(), id: id(4), mode: Mode { bits: MODE_FILE } },
            Change::Modification {
                path: b"e".to_vec(),
                previous_id: id(5),
                id: id(5),
                previous_mode: Mode { bits: MODE_FILE },
                mode: Mode { bits: MODE_FILE_EXECUTABLE },
            },
            Change::TypeChange {
                path: b"f".to_vec(),
                previous_id: id(6),
                previous_mode: Mode { bits: MODE_FILE },
                id: id(6),
                mode: Mode { bits: MODE_SYMLINK },
            },
            Change::TypeChange {
                path: b"g".to_vec(),
                previous_id: id(7),
                previous_mode: Mode { bits: MODE_FILE },
                id: id(8),
                mode: Mode { bits: MODE_COMMIT },
            },
            Change::Addition { path: b"h".to_vec(), id: id(10), mode: Mode { bits: MODE_FILE } },
        ]
    );
    for pair in changes.windows(2) {
        assert!(pair[0].path() < pair[1].path());
    }
}

#[test]
fn one_side_empty_gives_only_additions_or_deletions() {
    let some = tree(&[file("a", 1), file("a/b", 2)]);
    let none = tree(&[]);
    assert_eq!(
        index(&none, &some).unwrap(),
        vec![
            Change::Addition { path: b"a".to_vec(), id: id(1), mode: Mode { bits: MODE_FILE } },
            Change::Addition { path: b"a/b".to_vec(), id: id(2), mode: Mode { bits: MODE_FILE } },
        ]
    );
    assert_eq!(
        index(&some, &none).unwrap(),
        vec![
            Change::Deletion { path: b"a".to_vec(), id: id(1), mode: Mode { bits: MODE_FILE } },
            Change::Deletion { path: b"a/b".to_vec(), id: id(2), mode: Mode { bits: MODE_FILE } },
        ]
    );
}

#[test]
fn same_inputs_give_the_same_changes() {
    let old = tree(&[file("a", 1), file("c", 3)]);
    let new = tree(&[file("b", 1), file("c", 4)]);
    assert_eq!(index(&old, &new), index(&old, &new));
}

#[test]
fn invalid_entries_are_reported_with_their_place() {
    let good = tree(&[file("a", 1), file("b", 2)]);
    let unsorted = tree(&[file("b", 1), file("a", 2)]);
    let repeated = tree(&[file("a", 1), file("a", 2)]);
    let odd_mode = tree(&[file("a", 1), ("b", 2, 0o100600)]);
    let mut outside = tree(&[file("a", 1)]);
    outside.entries[0].path = PathRange { start: 0, end: 2 };
    let mut reversed = tree(&[file("ab", 1)]);
    reversed.entries[0].path = PathRange { start: 2, end: 1 };

    assert_eq!(index(&unsorted, &good), Err(Error::InvalidEntry { side: Side::Old, index: 1 }));
    assert_eq!(index(&good, &unsorted), Err(Error::InvalidEntry { side: Side::New, index: 1 }));
    assert_eq!(index(&good, &repeated), Err(Error::InvalidEntry { side: Side::New, index: 1 }));
    assert_eq!(index(&odd_mode, &unsorted), Err(Error::InvalidEntry { side: Side::Old, index: 1 }));
    assert_eq!(index(&outside, &good), Err(Error::InvalidEntry { side: Side::Old, index: 0 }));
    assert_eq!(index(&good, &reversed), Err(Error::InvalidEntry { side: Side::New, index: 0 }));
    assert_eq!(good.first_invalid(), None);
    assert_eq!(unsorted.first_invalid(), Some(1));
}
