//! Runtime tests of the retention decision engine.

use snapkeep::{
    select_for_deletion, RetentionCandidate, RetentionError, RetentionPolicy, Subvolume,
};

const DAY: i64 = 86400;

fn candidate(location: &str, creation_time: i64) -> RetentionCandidate {
    RetentionCandidate {
        location: location.to_string(),
        subvolume: Subvolume {
            name: location.to_string(),
            uuid: format!("uuid-{}", location),
            creation_time,
            snapshots: Vec::new(),
        },
    }
}

fn locations(candidates: &[RetentionCandidate]) -> Vec<&str> {
    candidates.iter().map(|c| c.location.as_str()).collect()
}

fn count_policy(keep_count: usize) -> RetentionPolicy {
    RetentionPolicy { keep_count: Some(keep_count), keep_since_secs: None }
}

#[test]
fn keep_count_three_of_five_deletes_two_oldest() {
    let now = 100 * DAY;
    // Handed over in scrambled order; the engine sorts newest-first itself.
    let candidates = vec![
        candidate("c", now - 3 * DAY),
        candidate("e", now - 5 * DAY),
        candidate("a", now - 1 * DAY),
        candidate("d", now - 4 * DAY),
        candidate("b", now - 2 * DAY),
    ];
    let deleted = select_for_deletion(candidates, &count_policy(3), now).unwrap();
    assert_eq!(locations(&deleted), ["d", "e"]);
}

#[test]
fn keep_since_only_deletes_the_older_ones() {
    let now = 100 * DAY;
    let policy = RetentionPolicy {
        keep_count: None,
        keep_since_secs: Some(7 * DAY as u64),
    };
    let candidates = vec![
        candidate("old-1", now - 10 * DAY),
        candidate("young-1", now - 2 * DAY),
        candidate("old-2", now - 8 * DAY),
        candidate("young-2", now - 6 * DAY),
        candidate("old-3", now - 30 * DAY),
    ];
    let deleted = select_for_deletion(candidates, &policy, now).unwrap();
    assert_eq!(locations(&deleted), ["old-2", "old-1", "old-3"]);
}

#[test]
fn combined_knobs_protect_the_larger_count() {
    let now = 100 * DAY;
    // Only one candidate is younger than 7 days, but keep_count demands two:
    // the youngest old one is retained as well.
    let policy = RetentionPolicy {
        keep_count: Some(2),
        keep_since_secs: Some(7 * DAY as u64),
    };
    let candidates = vec![
        candidate("young", now - 1 * DAY),
        candidate("old-1", now - 10 * DAY),
        candidate("old-2", now - 20 * DAY),
        candidate("old-3", now - 30 * DAY),
    ];
    let deleted = select_for_deletion(candidates, &policy, now).unwrap();
    assert_eq!(locations(&deleted), ["old-2", "old-3"]);
}

#[test]
fn age_boundary_is_inclusive() {
    let now = 100 * DAY;
    let policy = RetentionPolicy {
        keep_count: None,
        keep_since_secs: Some(7 * DAY as u64),
    };
    // Exactly on the boundary counts as young and is retained.
    let candidates = vec![
        candidate("boundary", now - 7 * DAY),
        candidate("older", now - 7 * DAY - 1),
    ];
    let deleted = select_for_deletion(candidates, &policy, now).unwrap();
    assert_eq!(locations(&deleted), ["older"]);
}

#[test]
fn no_policy_fails_on_empty_input() {
    let policy = RetentionPolicy { keep_count: None, keep_since_secs: None };
    assert_eq!(
        select_for_deletion(Vec::new(), &policy, 0).unwrap_err(),
        RetentionError::NoRetentionPolicy
    );
}

#[test]
fn no_policy_fails_on_nonempty_input() {
    let policy = RetentionPolicy { keep_count: None, keep_since_secs: None };
    let candidates = vec![candidate("a", 1), candidate("b", 2)];
    assert_eq!(
        select_for_deletion(candidates, &policy, 10).unwrap_err(),
        RetentionError::NoRetentionPolicy
    );
}

#[test]
fn selection_is_idempotent() {
    let now = 100 * DAY;
    let policy = RetentionPolicy {
        keep_count: Some(1),
        keep_since_secs: Some(3 * DAY as u64),
    };
    let build = || {
        vec![
            candidate("a", now - 1 * DAY),
            candidate("b", now - 5 * DAY),
            candidate("c", now - 9 * DAY),
        ]
    };
    let first = select_for_deletion(build(), &policy, now).unwrap();
    let second = select_for_deletion(build(), &policy, now).unwrap();
    assert_eq!(first, second);
}

#[test]
fn count_exactly_met_deletes_nothing() {
    let now = 100 * DAY;
    let candidates = vec![
        candidate("a", now - 1 * DAY),
        candidate("b", now - 2 * DAY),
        candidate("c", now - 3 * DAY),
    ];
    let deleted = select_for_deletion(candidates, &count_policy(3), now).unwrap();
    assert!(deleted.is_empty());
}

#[test]
fn count_above_total_deletes_nothing() {
    let now = 100 * DAY;
    let candidates = vec![candidate("a", now - 1 * DAY)];
    let deleted = select_for_deletion(candidates, &count_policy(10), now).unwrap();
    assert!(deleted.is_empty());
}

#[test]
fn count_zero_deletes_everything_newest_first() {
    let now = 100 * DAY;
    let candidates = vec![
        candidate("mid", now - 2 * DAY),
        candidate("old", now - 3 * DAY),
        candidate("new", now - 1 * DAY),
    ];
    let deleted = select_for_deletion(candidates, &count_policy(0), now).unwrap();
    assert_eq!(locations(&deleted), ["new", "mid", "old"]);
}

#[test]
fn equal_times_keep_input_order() {
    let now = 100 * DAY;
    let t = now - 5 * DAY;
    let candidates = vec![
        candidate("first", t),
        candidate("second", t),
        candidate("newer", now - 1 * DAY),
        candidate("third", t),
    ];
    let deleted = select_for_deletion(candidates, &count_policy(0), now).unwrap();
    assert_eq!(locations(&deleted), ["newer", "first", "second", "third"]);
}

#[test]
fn unrepresentable_window_is_an_error() {
    let policy = RetentionPolicy { keep_count: None, keep_since_secs: Some(1) };
    let candidates = vec![candidate("a", 0)];
    assert_eq!(
        select_for_deletion(candidates, &policy, i64::MIN).unwrap_err(),
        RetentionError::TimeOutOfRange
    );
}

#[test]
fn satisfied_count_short_circuits_before_time() {
    // With the candidate count within keep_count the combined policy answers
    // immediately, even though the age window could not be represented.
    let policy = RetentionPolicy { keep_count: Some(5), keep_since_secs: Some(1) };
    let candidates = vec![candidate("a", 0), candidate("b", 1)];
    let deleted = select_for_deletion(candidates, &policy, i64::MIN).unwrap();
    assert!(deleted.is_empty());
}

#[test]
fn window_beyond_time_range_is_an_error() {
    let policy = RetentionPolicy {
        keep_count: None,
        keep_since_secs: Some(u64::MAX),
    };
    let candidates = vec![candidate("a", -100), candidate("b", 100)];
    assert_eq!(
        select_for_deletion(candidates, &policy, 0).unwrap_err(),
        RetentionError::TimeOutOfRange
    );
}

#[test]
fn mount_path_check() {
    assert!(snapkeep::verify_mount_path("/mnt", true).is_ok());
    match snapkeep::verify_mount_path("/mnt/missing", false) {
        Err(snapkeep::MountError::MountPointNotDir { path }) => {
            assert_eq!(path, "/mnt/missing");
        }
        other => panic!("expected mount-point error, got {:?}", other),
    }
}
