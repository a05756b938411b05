use treediff::describe::{
    is_preferred, name_for, suffix_to_use, NameCandidate, Platform, SelectRef,
    DEFAULT_MAX_CANDIDATES,
};
use treediff::entry::ContentId;
use treediff::fuzzy::{takes_precedence, Pair};
use treediff::change::Change;
use treediff::entry::{Mode, MODE_FILE};
use treediff::rewrites::{Pool, Rewrites};
use treediff::similarity::{identical, similarity, FULL_SIMILARITY};
use treediff::tracker::{Score, Tracker};

fn id(byte: u8) -> ContentId {
    ContentId { bytes: vec![byte; 20] }
}

fn candidate(commit: u8, priority: u32, time: i64, name: &str) -> NameCandidate {
    NameCandidate { id: id(commit), priority, time, name: name.as_bytes().to_vec() }
}

#[test]
fn platform_starts_with_defaults_and_keeps_what_is_set() {
    let platform = Platform::new(id(1));
    assert_eq!(platform.select, SelectRef::AnnotatedTags);
    assert_eq!(SelectRef::default(), SelectRef::AnnotatedTags);
    assert!(!platform.first_parent);
    assert!(!platform.id_as_fallback);
    assert_eq!(platform.max_candidates, 10);
    assert_eq!(DEFAULT_MAX_CANDIDATES, 10);

    let platform = platform
        .names(SelectRef::AllRefs)
        .traverse_first_parent(true)
        .max_candidates(3)
        .id_as_fallback(true);
    assert_eq!(platform.id, id(1));
    assert_eq!(platform.select, SelectRef::AllRefs);
    assert!(platform.first_parent);
    assert!(platform.id_as_fallback);
    assert_eq!(platform.max_candidates, 3);
    let platform = platform.names(SelectRef::AllTags);
    assert_eq!(platform.select, SelectRef::AllTags);
    assert!(platform.first_parent);
    assert_eq!(platform.max_candidates, 3);
}

#[test]
fn the_name_goes_by_priority_then_time_then_name() {
    let candidates = vec![
        candidate(1, 0, 0, "main"),
        candidate(2, 1, 50, "v2"),
        candidate(1, 1, 10, "v1.0"),
        candidate(1, 1, 20, "v1.2"),
        candidate(1, 1, 20, "v1.1"),
        candidate(1, 0, 90, "topic"),
        candidate(1, 1, 20, "v1.1"),
    ];
    assert_eq!(name_for(&candidates, &id(1)), Some(4));
    assert_eq!(name_for(&candidates, &id(2)), Some(1));
    assert_eq!(name_for(&candidates, &id(3)), None);
    assert_eq!(name_for(&vec![], &id(1)), None);
    assert!(is_preferred(&candidates[2], &candidates[0]));
    assert!(is_preferred(&candidates[3], &candidates[2]));
    assert!(is_preferred(&candidates[4], &candidates[3]));
    assert!(!is_preferred(&candidates[4], &candidates[6]));
    assert!(!is_preferred(&candidates[5], &candidates[2]));
}

#[test]
fn the_suffix_is_kept_only_for_a_dirty_tree() {
    assert_eq!(suffix_to_use(Some("-dirty".to_string()), true), Some("-dirty".to_string()));
    assert_eq!(suffix_to_use(Some("-dirty".to_string()), false), None);
    assert_eq!(suffix_to_use(None, true), None);
    assert_eq!(suffix_to_use(None, false), None);
}

#[test]
fn similarity_is_the_share_of_unchanged_units() {
    assert_eq!(similarity(2, 100), 9800);
    assert_eq!(similarity(0, 100), 10000);
    assert_eq!(similarity(100, 100), 0);
    assert_eq!(similarity(1, 3), 6666);
    assert_eq!(similarity(5, 100), 9500);
    assert_eq!(similarity(0, 0), FULL_SIMILARITY);
    assert_eq!(similarity(7, 3), 0);
    assert_eq!(similarity(1, usize::MAX), 9999);
    assert_eq!(similarity(usize::MAX - 1, usize::MAX), 0);
    assert!(identical(&id(1), &id(1)));
    assert!(!identical(&id(1), &id(2)));
    assert!(!identical(&id(1), &ContentId { bytes: vec![1; 19] }));
}

#[test]
fn pairs_to_score_are_the_sources_and_destinations_left_over() {
    let mode = Mode { bits: MODE_FILE };
    let changes = vec![
        Change::Deletion { path: b"a".to_vec(), id: id(1), mode },
        Change::Deletion { path: b"b".to_vec(), id: id(2), mode },
        Change::Addition { path: b"c".to_vec(), id: id(1), mode },
        Change::Addition { path: b"d".to_vec(), id: id(3), mode },
        Change::Addition { path: b"e".to_vec(), id: id(4), mode },
    ];
    let pool = Pool::new(changes.clone(), vec![], Rewrites::default()).unwrap();
    let tracker = Tracker::match_identity(&pool);
    assert_eq!(
        tracker.pairs_to_score(&pool),
        Some(vec![Pair { source: 1, destination: 3 }, Pair { source: 1, destination: 4 }])
    );
    let exact = Rewrites { percentage: None, ..Rewrites::default() };
    let pool = Pool::new(changes.clone(), vec![], exact).unwrap();
    assert_eq!(Tracker::match_identity(&pool).pairs_to_score(&pool), None);
    let tight = Rewrites { limit: 1, ..Rewrites::default() };
    let pool = Pool::new(changes, vec![], tight).unwrap();
    assert_eq!(Tracker::match_identity(&pool).pairs_to_score(&pool), None);

    let a = Score { source: 0, destination: 2, similarity: 7000 };
    let b = Score { source: 1, destination: 2, similarity: 7000 };
    let c = Score { source: 1, destination: 3, similarity: 7001 };
    assert!(takes_precedence(&pool, &a, &b));
    assert!(!takes_precedence(&pool, &b, &a));
    assert!(takes_precedence(&pool, &c, &a));
    assert!(!takes_precedence(&pool, &a, &a));
}
