use studymood::streaks::{insert_error_is_benign, new_streak, record_activity, Streak, StreakChange};

fn streak(current: i32, longest: i32, last: i32) -> Streak {
    Streak { user_id: 3, current_streak: current, longest_streak: longest, last_active: last }
}

fn updated(c: StreakChange) -> Streak {
    match c {
        StreakChange::Update(s) => s,
        _ => panic!("expected an update"),
    }
}

#[test]
fn unknown_user_is_an_error() {
    match record_activity(42, false, None, 100) {
        StreakChange::UnknownUser(m) => assert_eq!(m, "User id: 42 does not exist"),
        _ => panic!("expected an error"),
    }
}

#[test]
fn first_activity_creates_streak() {
    match record_activity(3, true, None, 100) {
        StreakChange::Insert(s) => {
            assert_eq!((s.user_id, s.current_streak, s.longest_streak, s.last_active), (3, 1, 1, 100))
        },
        _ => panic!("expected an insert"),
    }
}

#[test]
fn same_day_changes_nothing() {
    assert!(matches!(record_activity(3, true, Some(streak(4, 9, 100)), 100), StreakChange::Unchanged));
}

#[test]
fn next_day_extends_streak() {
    let s = updated(record_activity(3, true, Some(streak(4, 9, 99)), 100));
    assert_eq!((s.current_streak, s.longest_streak, s.last_active), (5, 9, 100));
}

#[test]
fn extending_past_longest_raises_it() {
    let s = updated(record_activity(3, true, Some(streak(9, 9, 99)), 100));
    assert_eq!((s.current_streak, s.longest_streak), (10, 10));
}

#[test]
fn gap_resets_streak() {
    let s = updated(record_activity(3, true, Some(streak(4, 9, 90)), 100));
    assert_eq!((s.current_streak, s.longest_streak, s.last_active), (1, 9, 100));
}

#[test]
fn twice_a_day_counts_once() {
    let s = updated(record_activity(3, true, Some(streak(1, 1, 99)), 100));
    assert!(matches!(record_activity(3, true, Some(s), 100), StreakChange::Unchanged));
}

#[test]
fn new_streak_starts_at_one() {
    let s = new_streak(5, 738000);
    assert_eq!((s.user_id, s.current_streak, s.longest_streak, s.last_active), (5, 1, 1, 738000));
}

#[test]
fn duplicate_insert_error_is_benign() {
    assert!(insert_error_is_benign("None of the records are inserted"));
    assert!(!insert_error_is_benign("Connection refused"));
}
