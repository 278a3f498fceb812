//! Study streaks: how a user's streak moves from one active day to the next.

use vstd::prelude::*;
use crate::text::{all_ascii, ascii_chars, ascii_string, decimal, lemma_decimal_digits, push_decimal};

verus! {

/// A user's streak. Days are counted as chrono's `NaiveDate::num_days_from_ce`.
pub struct Streak {
    pub user_id: u32,
    pub current_streak: i32,
    pub longest_streak: i32,
    pub last_active: i32,
}

/// What recording today's activity does to the stored streak.
pub enum StreakChange {
    /// The user does not exist; the message explains it.
    UnknownUser(String),
    /// Already active today: nothing changes.
    Unchanged,
    /// The stored streak becomes this one.
    Update(Streak),
    /// No streak was stored: this one is created.
    Insert(Streak),
}

/// The streak a user starts with on `today`.
pub open spec fn spec_new_streak(user_id: u32, today: i32) -> Streak {
    Streak { user_id, current_streak: 1, longest_streak: 1, last_active: today }
}

/// The streak after activity on `today`, when the last activity was on another day:
/// it grows by one after yesterday's activity and starts over at 1 otherwise; the
/// longest streak keeps the larger of the two.
pub open spec fn spec_advanced(s: Streak, today: i32) -> Streak {
    let current = if s.last_active == today - 1 {
        s.current_streak + 1
    } else {
        1
    };
    Streak {
        user_id: s.user_id,
        current_streak: current as i32,
        longest_streak: if s.longest_streak >= current {
            s.longest_streak
        } else {
            current as i32
        },
        last_active: today,
    }
}

/// `User id: <id> does not exist`
pub open spec fn unknown_user_message(user_id: u32) -> Seq<u8> {
    seq![85u8, 115u8, 101u8, 114u8, 32u8, 105u8, 100u8, 58u8, 32u8] + decimal(user_id as nat)
        + seq![32u8, 100u8, 111u8, 101u8, 115u8, 32u8, 110u8, 111u8, 116u8, 32u8, 101u8, 120u8, 105u8, 115u8, 116u8]
}

/// The decision for a known user, with the streak stored for them, if any.
pub open spec fn spec_record_activity(user_id: u32, stored: Option<Streak>, today: i32) -> StreakChange {
    match stored {
        Some(s) => if s.last_active == today {
            StreakChange::Unchanged
        } else {
            StreakChange::Update(spec_advanced(s, today))
        },
        None => StreakChange::Insert(spec_new_streak(user_id, today)),
    }
}

/// The streak stored for a user who starts one on `today`.
pub fn new_streak(user_id: u32, today: i32) -> (res: Streak)
    ensures
        res == spec_new_streak(user_id, today),
{
    Streak { user_id, current_streak: 1, longest_streak: 1, last_active: today }
}

/// Records that `user_id` was active on `today`. `stored` is the streak kept
/// for the user, if any. For a known user whose streak would grow, the stored
/// current run must be below `i32::MAX`.
pub fn record_activity(user_id: u32, user_exists: bool, stored: Option<Streak>, today: i32) -> (res:
    StreakChange)
    requires
        user_exists ==> (stored matches Some(s) ==> (s.last_active == today - 1 ==> s.current_streak
            < i32::MAX)),
    ensures
        !user_exists ==> (res matches StreakChange::UnknownUser(m) && m@ == ascii_chars(
            unknown_user_message(user_id),
        )),
        user_exists ==> res == spec_record_activity(user_id, stored, today),
{
    if !user_exists {
        let mut out: Vec<u8> = Vec::new();
        out.push(85);
        out.push(115);
        out.push(101);
        out.push(114);
        out.push(32);
        out.push(105);
        out.push(100);
        out.push(58);
        out.push(32);
        push_decimal(&mut out, user_id as u64);
        out.push(32);
        out.push(100);
        out.push(111);
        out.push(101);
        out.push(115);
        out.push(32);
        out.push(110);
        out.push(111);
        out.push(116);
        out.push(32);
        out.push(101);
        out.push(120);
        out.push(105);
        out.push(115);
        out.push(116);
        proof {
            lemma_decimal_digits(user_id as nat);
            assert(out@ =~= unknown_user_message(user_id));
            assert(all_ascii(out@));
        }
        return StreakChange::UnknownUser(ascii_string(out));
    }
    match stored {
        None => StreakChange::Insert(new_streak(user_id, today)),
        Some(s) => {
            if s.last_active == today {
                return StreakChange::Unchanged;
            }
            let current: i32 = if s.last_active as i64 == today as i64 - 1 {
                s.current_streak + 1
            } else {
                1
            };
            let longest = if s.longest_streak >= current {
                s.longest_streak
            } else {
                current
            };
            StreakChange::Update(
                Streak {
                    user_id: s.user_id,
                    current_streak: current,
                    longest_streak: longest,
                    last_active: today,
                },
            )
        },
    }
}

/// Whether an error from creating a streak only says that nothing was inserted
/// (the streak exists already), which starting a streak passes over.
pub fn insert_error_is_benign(message: &str) -> (res: bool)
    ensures
        res == (message@ == "None of the records are inserted"@),
{
    let expected = String::from_str("None of the records are inserted");
    let got = String::from_str(message);
    got == expected
}

/// A streak as the service keeps it: a current run of at least one day, and a
/// longest run at least as long.
pub open spec fn valid_streak(s: Streak) -> bool {
    s.current_streak >= 1 && s.longest_streak >= s.current_streak
}

/// Recording activity keeps streaks valid, and dates what it writes today.
pub proof fn law_recorded_streak_is_consistent(
    user_id: u32,
    stored: Option<Streak>,
    today: i32,
)
    requires
        stored matches Some(s) ==> valid_streak(s) && (s.last_active == today - 1
            ==> s.current_streak < i32::MAX),
    ensures
        match spec_record_activity(user_id, stored, today) {
            StreakChange::Update(n) | StreakChange::Insert(n) => valid_streak(n) && n.last_active
                == today,
            _ => true,
        },
{
}

/// The longest run never shrinks, and the stored streak keeps its owner.
pub proof fn law_longest_never_shrinks(user_id: u32, s: Streak, today: i32)
    requires
        s.last_active == today - 1 ==> s.current_streak < i32::MAX,
    ensures
        match spec_record_activity(user_id, Some(s), today) {
            StreakChange::Update(n) => n.longest_streak >= s.longest_streak && n.user_id
                == s.user_id,
            StreakChange::Unchanged => s.last_active == today,
            _ => false,
        },
{
}

/// Activity on the day after the last active day extends the run by one;
/// after a longer gap (or a date before it) the run starts over at one.
pub proof fn law_consecutive_days(user_id: u32, s: Streak, today: i32)
    requires
        s.last_active != today,
        s.last_active == today - 1 ==> s.current_streak < i32::MAX,
    ensures
        spec_record_activity(user_id, Some(s), today) matches StreakChange::Update(n) && (
        if s.last_active == today - 1 {
            n.current_streak == s.current_streak + 1
        } else {
            n.current_streak == 1
        }),
{
}

/// Recording activity twice on one day changes the streak once: the second
/// time finds it dated today and leaves it as it is.
pub proof fn law_same_day_is_idempotent(user_id: u32, stored: Option<Streak>, today: i32)
    requires
        stored matches Some(s) ==> (s.last_active == today - 1 ==> s.current_streak < i32::MAX),
    ensures
        match spec_record_activity(user_id, stored, today) {
            StreakChange::Update(n) | StreakChange::Insert(n) => spec_record_activity(
                user_id,
                Some(n),
                today,
            ) == StreakChange::Unchanged,
            _ => true,
        },
{
}

} // verus!
