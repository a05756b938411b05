use treediff::change::Change;
use treediff::emit::{emit, Emitted, Rewrite};
use treediff::entry::{ContentId, Mode, MODE_FILE};
use treediff::facade::track;
use treediff::rewrites::{
    Copies, Pool, RewriteKind, Rewrites, Unmodified, DEFAULT_LIMIT, DEFAULT_PERCENTAGE,
};
use treediff::tracker::{Match, Score, Tracker};

const EMPTY_BLOB: [u8; 20] = [
    0xe6, 0x9d, 0xe2, 0x9b, 0xb2, 0xd1, 0xd6, 0x43, 0x4b, 0x8b, 0x29, 0xae, 0x77, 0x5a, 0xd8,
    0xc2, 0xe4, 0x8c, 0x53, 0x91,
];

fn id(byte: u8) -> ContentId {
    ContentId { bytes: vec![byte; 20] }
}

fn wide_id(n: usize) -> ContentId {
    let mut bytes = vec![0u8; 20];
    bytes[0] = (n % 256) as u8;
    bytes[1] = (n / 256 % 256) as u8;
    bytes[2] = (n / 65536) as u8;
    bytes[19] = 1;
    ContentId { bytes }
}

fn mode() -> Mode {
    Mode { bits: MODE_FILE }
}

fn deletion(path: &str, content: ContentId) -> Change {
    Change::Deletion { path: path.as_bytes().to_vec(), id: content, mode: mode() }
}

fn addition(path: &str, content: ContentId) -> Change {
    Change::Addition { path: path.as_bytes().to_vec(), id: content, mode: mode() }
}

fn modification(path: &str, before: ContentId, after: ContentId) -> Change {
    Change::Modification {
        path: path.as_bytes().to_vec(),
        previous_id: before,
        id: after,
        previous_mode: mode(),
        mode: mode(),
    }
}

fn unmodified(path: &str, content: ContentId) -> Unmodified {
    Unmodified { path: path.as_bytes().to_vec(), id: content, mode: mode() }
}

fn config(percentage: Option<u32>) -> Rewrites {
    Rewrites { percentage, ..Rewrites::default() }
}

fn rewrite(
    source: &str,
    source_id: ContentId,
    destination: Change,
    kind: RewriteKind,
    similarity: Option<u32>,
) -> Emitted {
    Emitted::Rewritten(Rewrite {
        source_path: source.as_bytes().to_vec(),
        source_id,
        destination,
        kind,
        similarity,
    })
}

#[test]
fn defaults_are_half_similarity_and_a_limit_of_a_thousand() {
    let defaults = Rewrites::default();
    assert_eq!(defaults.copies, None);
    assert_eq!(defaults.percentage, Some(5000));
    assert_eq!(defaults.limit, 1000);
    assert!(!defaults.track_empty);
    assert_eq!(DEFAULT_PERCENTAGE, 5000);
    assert_eq!(DEFAULT_LIMIT, 1000);
}

#[test]
fn identical_content_is_a_rename_without_similarity() {
    let changes = vec![deletion("a.txt", id(7)), addition("b.txt", id(7))];
    let pool = Pool::new(changes, vec![], config(None)).unwrap();
    let outcome = track(&pool, &vec![]);
    assert_eq!(
        outcome.items,
        vec![rewrite("a.txt", id(7), addition("b.txt", id(7)), RewriteKind::Rename, None)]
    );
    assert!(!outcome.budget_exceeded);
}

#[test]
fn identical_content_is_paired_whatever_similarity_and_limit() {
    for percentage in [None, Some(0), Some(5000), Some(10000)] {
        for limit in [0usize, 1, 1000] {
            let changes = vec![
                deletion("a", id(7)),
                addition("b", id(7)),
                deletion("c", id(8)),
                addition("d", id(9)),
            ];
            let rewrites = Rewrites { percentage, limit, ..Rewrites::default() };
            let pool = Pool::new(changes, vec![], rewrites).unwrap();
            let outcome = track(&pool, &vec![]);
            assert_eq!(
                outcome.items,
                vec![
                    rewrite("a", id(7), addition("b", id(7)), RewriteKind::Rename, None),
                    Emitted::Plain(deletion("c", id(8))),
                    Emitted::Plain(addition("d", id(9))),
                ]
            );
        }
    }
}

#[test]
fn similar_content_above_the_threshold_is_a_rename() {
    let changes = vec![deletion("a.txt", id(1)), addition("b.txt", id(2))];
    let pool = Pool::new(changes, vec![], config(Some(9000))).unwrap();
    let scores = vec![Score { source: 0, destination: 1, similarity: 9800 }];
    let outcome = track(&pool, &scores);
    assert_eq!(
        outcome.items,
        vec![rewrite("a.txt", id(1), addition("b.txt", id(2)), RewriteKind::Rename, Some(9800))]
    );
}

#[test]
fn similar_content_below_the_threshold_stays_apart() {
    let changes = vec![deletion("a.txt", id(1)), addition("b.txt", id(2))];
    let pool = Pool::new(changes, vec![], config(Some(9900))).unwrap();
    let scores = vec![Score { source: 0, destination: 1, similarity: 9800 }];
    let outcome = track(&pool, &scores);
    assert_eq!(
        outcome.items,
        vec![Emitted::Plain(deletion("a.txt", id(1))), Emitted::Plain(addition("b.txt", id(2)))]
    );
    assert!(!outcome.budget_exceeded);
}

#[test]
fn a_similarity_equal_to_the_threshold_is_enough() {
    let changes = vec![deletion("a", id(1)), addition("b", id(2))];
    let pool = Pool::new(changes, vec![], config(Some(5000))).unwrap();
    let scores = vec![Score { source: 0, destination: 1, similarity: 5000 }];
    assert_eq!(
        track(&pool, &scores).items,
        vec![rewrite("a", id(1), addition("b", id(2)), RewriteKind::Rename, Some(5000))]
    );
    let scores = vec![Score { source: 0, destination: 1, similarity: 4999 }];
    assert_eq!(track(&pool, &scores).items.len(), 2);
}

#[test]
fn without_a_percentage_scores_are_not_used() {
    let changes = vec![deletion("a", id(1)), addition("b", id(2))];
    let pool = Pool::new(changes, vec![], config(None)).unwrap();
    let scores = vec![Score { source: 0, destination: 1, similarity: 10000 }];
    let outcome = track(&pool, &scores);
    assert_eq!(
        outcome.items,
        vec![Emitted::Plain(deletion("a", id(1))), Emitted::Plain(addition("b", id(2)))]
    );
}

#[test]
fn too_many_pairs_skip_the_fuzzy_pass() {
    let mut changes = Vec::new();
    for i in 0..2000 {
        changes.push(deletion(&format!("a{i:04}"), wide_id(i)));
    }
    for i in 0..2000 {
        changes.push(addition(&format!("b{i:04}"), wide_id(5000 + i)));
    }
    let expected: Vec<Emitted> = changes.iter().cloned().map(Emitted::Plain).collect();
    let rewrites = Rewrites { limit: 1000, ..Rewrites::default() };
    let pool = Pool::new(changes, vec![], rewrites).unwrap();
    let scores = vec![Score { source: 0, destination: 2000, similarity: 10000 }];
    let outcome = track(&pool, &scores);
    assert!(outcome.budget_exceeded);
    assert_eq!(outcome.items.len(), 4000);
    assert_eq!(outcome.items, expected);
}

#[test]
fn the_limit_is_crossed_by_exactly_one_pair() {
    // A limit of 2 admits 4 pairs: 2 sources and 2 destinations pass, 5 and 1 do not.
    let rewrites = Rewrites { limit: 2, percentage: Some(5000), ..Rewrites::default() };
    let within = vec![
        deletion("a", id(1)),
        deletion("b", id(2)),
        addition("c", id(3)),
        addition("d", id(4)),
    ];
    let pool = Pool::new(within, vec![], rewrites).unwrap();
    let scores = vec![Score { source: 0, destination: 2, similarity: 9000 }];
    let outcome = track(&pool, &scores);
    assert!(!outcome.budget_exceeded);
    assert_eq!(
        outcome.items,
        vec![
            Emitted::Plain(deletion("b", id(2))),
            rewrite("a", id(1), addition("c", id(3)), RewriteKind::Rename, Some(9000)),
            Emitted::Plain(addition("d", id(4))),
        ]
    );

    let beyond = vec![
        deletion("a", id(1)),
        deletion("b", id(2)),
        deletion("c", id(3)),
        deletion("d", id(4)),
        deletion("e", id(5)),
        addition("f", id(6)),
    ];
    let expected: Vec<Emitted> = beyond.iter().cloned().map(Emitted::Plain).collect();
    let pool = Pool::new(beyond, vec![], rewrites).unwrap();
    let scores = vec![Score { source: 0, destination: 5, similarity: 9000 }];
    let outcome = track(&pool, &scores);
    assert!(outcome.budget_exceeded);
    assert_eq!(outcome.items, expected);

    let unlimited = Rewrites { limit: 0, ..rewrites };
    let pool = Pool::new(pool.changes.clone(), vec![], unlimited).unwrap();
    let outcome = track(&pool, &scores);
    assert!(!outcome.budget_exceeded);
    assert_eq!(outcome.items.len(), 5);
}

#[test]
fn copies_from_an_unmodified_entry_do_not_consume_it() {
    let changes = vec![addition("x.txt", id(1)), addition("y.txt", id(2))];
    let rewrites = Rewrites {
        copies: Some(Copies::FromSetOfModifiedFilesAndAllSources),
        percentage: Some(5000),
        ..Rewrites::default()
    };
    let pool = Pool::new(changes, vec![unmodified("u.txt", id(9))], rewrites).unwrap();
    let scores = vec![
        Score { source: 2, destination: 0, similarity: 9500 },
        Score { source: 2, destination: 1, similarity: 9500 },
    ];
    let outcome = track(&pool, &scores);
    assert_eq!(
        outcome.items,
        vec![
            rewrite("u.txt", id(9), addition("x.txt", id(1)), RewriteKind::Copy, Some(9500)),
            rewrite("u.txt", id(9), addition("y.txt", id(2)), RewriteKind::Copy, Some(9500)),
        ]
    );
}

#[test]
fn unmodified_entries_are_sources_only_when_asked_for() {
    let scores = vec![Score { source: 1, destination: 0, similarity: 9500 }];
    for copies in [None, Some(Copies::FromSetOfModifiedFiles)] {
        let rewrites = Rewrites { copies, ..Rewrites::default() };
        let pool =
            Pool::new(vec![addition("x", id(9))], vec![unmodified("u", id(9))], rewrites).unwrap();
        assert_eq!(track(&pool, &scores).items, vec![Emitted::Plain(addition("x", id(9)))]);
    }
}

#[test]
fn modifications_are_copy_sources_with_copies() {
    let changes = vec![modification("m", id(1), id(2)), addition("n", id(2))];
    let with = Rewrites { copies: Some(Copies::FromSetOfModifiedFiles), ..Rewrites::default() };
    let pool = Pool::new(changes.clone(), vec![], with).unwrap();
    assert_eq!(
        track(&pool, &vec![]).items,
        vec![
            Emitted::Plain(modification("m", id(1), id(2))),
            rewrite("m", id(2), addition("n", id(2)), RewriteKind::Copy, None),
        ]
    );
    let pool = Pool::new(changes.clone(), vec![], Rewrites::default()).unwrap();
    let expected: Vec<Emitted> = changes.into_iter().map(Emitted::Plain).collect();
    assert_eq!(track(&pool, &vec![]).items, expected);
}

#[test]
fn a_deletion_is_renamed_once_and_the_first_addition_gets_it() {
    let changes = vec![addition("a", id(7)), deletion("b", id(7)), addition("c", id(7))];
    let pool = Pool::new(changes, vec![], Rewrites::default()).unwrap();
    let scores = vec![Score { source: 1, destination: 2, similarity: 10000 }];
    assert_eq!(
        track(&pool, &scores).items,
        vec![
            rewrite("b", id(7), addition("a", id(7)), RewriteKind::Rename, None),
            Emitted::Plain(addition("c", id(7))),
        ]
    );
}

#[test]
fn renames_come_before_copies_of_identical_content() {
    let changes = vec![
        modification("a", id(1), id(7)),
        deletion("b", id(7)),
        addition("c", id(7)),
        addition("d", id(7)),
    ];
    let rewrites = Rewrites { copies: Some(Copies::FromSetOfModifiedFiles), ..Rewrites::default() };
    let pool = Pool::new(changes, vec![], rewrites).unwrap();
    assert_eq!(
        track(&pool, &vec![]).items,
        vec![
            Emitted::Plain(modification("a", id(1), id(7))),
            rewrite("b", id(7), addition("c", id(7)), RewriteKind::Rename, None),
            rewrite("a", id(7), addition("d", id(7)), RewriteKind::Copy, None),
        ]
    );
}

#[test]
fn the_highest_score_is_taken_first() {
    let changes = vec![
        deletion("a", id(1)),
        deletion("b", id(2)),
        addition("c", id(3)),
        addition("d", id(4)),
    ];
    let pool = Pool::new(changes, vec![], config(Some(5000))).unwrap();
    let scores = vec![
        Score { source: 0, destination: 2, similarity: 6000 },
        Score { source: 0, destination: 3, similarity: 9000 },
        Score { source: 1, destination: 2, similarity: 5500 },
        Score { source: 1, destination: 3, similarity: 8000 },
    ];
    assert_eq!(
        track(&pool, &scores).items,
        vec![
            rewrite("b", id(2), addition("c", id(3)), RewriteKind::Rename, Some(5500)),
            rewrite("a", id(1), addition("d", id(4)), RewriteKind::Rename, Some(9000)),
        ]
    );
}

#[test]
fn equal_scores_go_by_destination_then_source_path() {
    let changes = vec![
        deletion("a", id(1)),
        deletion("b", id(2)),
        addition("c", id(3)),
        addition("d", id(4)),
    ];
    let pool = Pool::new(changes, vec![], config(Some(5000))).unwrap();
    let scores = vec![
        Score { source: 1, destination: 3, similarity: 7000 },
        Score { source: 1, destination: 2, similarity: 7000 },
        Score { source: 0, destination: 3, similarity: 7000 },
        Score { source: 0, destination: 2, similarity: 7000 },
    ];
    assert_eq!(
        track(&pool, &scores).items,
        vec![
            rewrite("a", id(1), addition("c", id(3)), RewriteKind::Rename, Some(7000)),
            rewrite("b", id(2), addition("d", id(4)), RewriteKind::Rename, Some(7000)),
        ]
    );
}

#[test]
fn empty_blobs_are_tracked_only_on_request() {
    let empty = ContentId { bytes: EMPTY_BLOB.to_vec() };
    let changes = vec![deletion("a", empty.clone()), addition("b", empty.clone())];
    let pool = Pool::new(changes.clone(), vec![], Rewrites::default()).unwrap();
    assert!(!pool.tracks(&empty));
    assert!(pool.tracks(&id(0xe6)));
    assert_eq!(pool.empty_blob, empty);
    let scores = vec![Score { source: 0, destination: 1, similarity: 10000 }];
    assert_eq!(
        track(&pool, &scores).items,
        vec![
            Emitted::Plain(deletion("a", empty.clone())),
            Emitted::Plain(addition("b", empty.clone())),
        ]
    );
    let rewrites = Rewrites { track_empty: true, ..Rewrites::default() };
    let pool = Pool::new(changes, vec![], rewrites).unwrap();
    assert!(pool.tracks(&empty));
    assert_eq!(
        track(&pool, &vec![]).items,
        vec![rewrite("a", empty.clone(), addition("b", empty), RewriteKind::Rename, None)]
    );
}

#[test]
fn scores_that_name_no_source_or_destination_are_passed_over() {
    let changes = vec![deletion("a", id(1)), addition("b", id(2))];
    let pool = Pool::new(changes, vec![], config(Some(5000))).unwrap();
    let scores = vec![
        Score { source: 1, destination: 0, similarity: 9000 },
        Score { source: 7, destination: 1, similarity: 9000 },
        Score { source: 0, destination: 9, similarity: 9000 },
        Score { source: 0, destination: 1, similarity: 10001 },
        Score { source: 0, destination: 1, similarity: 6000 },
    ];
    assert_eq!(
        track(&pool, &scores).items,
        vec![rewrite("a", id(1), addition("b", id(2)), RewriteKind::Rename, Some(6000))]
    );
}

#[test]
fn the_passes_can_be_run_one_by_one() {
    let changes = vec![
        deletion("a", id(1)),
        deletion("b", id(2)),
        addition("c", id(1)),
        addition("d", id(3)),
    ];
    let pool = Pool::new(changes, vec![], config(Some(5000))).unwrap();
    let mut tracker = Tracker::match_identity(&pool);
    assert_eq!(
        tracker.matches,
        vec![None, None, Some(Match { source: 0, kind: RewriteKind::Rename, similarity: None }), None]
    );
    assert_eq!(tracker.consumed, vec![true, false, false, false]);
    assert_eq!(tracker.count_available(&pool), 1);
    assert_eq!(tracker.count_open(&pool), 1);
    assert!(!tracker.over_budget(&pool));
    assert!(tracker.available(&pool, 1));
    assert!(!tracker.available(&pool, 0));
    assert!(tracker.open_destination(&pool, 3));
    let scores = vec![
        Score { source: 0, destination: 3, similarity: 9900 },
        Score { source: 1, destination: 3, similarity: 5100 },
    ];
    assert_eq!(tracker.best_score(&pool, &scores), Some(1));
    tracker.match_fuzzy(&pool, &scores);
    assert_eq!(tracker.consumed, vec![true, true, false, false]);
    assert_eq!(tracker.best_score(&pool, &scores), None);
    assert_eq!(
        emit(&pool, &tracker),
        vec![
            rewrite("a", id(1), addition("c", id(1)), RewriteKind::Rename, None),
            rewrite("b", id(2), addition("d", id(3)), RewriteKind::Rename, Some(5100)),
        ]
    );
}

#[test]
fn tracking_twice_gives_the_same_outcome() {
    let changes = vec![
        deletion("a", id(1)),
        deletion("b", id(2)),
        addition("c", id(2)),
        addition("d", id(4)),
    ];
    let pool = Pool::new(changes, vec![], config(Some(5000))).unwrap();
    let scores = vec![Score { source: 0, destination: 3, similarity: 7000 }];
    let first = track(&pool, &scores);
    let second = track(&pool, &scores);
    assert_eq!(first.items, second.items);
    assert_eq!(first.budget_exceeded, second.budget_exceeded);
}
