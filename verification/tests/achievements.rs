use chrono::{DateTime, Duration, Utc};
use solitaire_quest::progression::clock::{now_utc, timestamp_from_parts, Timestamp};
use solitaire_quest::{progression, records};

fn stamp(t: DateTime<Utc>) -> Timestamp {
    Timestamp { secs: t.timestamp(), nanos: t.timestamp_subsec_nanos() }
}

#[test]
fn unlock_sets_flag_and_date() {
    let mut r = records::achievements::AchievementRecord::locked("x");
    let at = stamp(Utc::now());
    r.unlock(at);
    assert!(r.unlocked);
    assert_eq!(r.unlock_date, Some(at));
}

#[test]
fn unlock_is_idempotent_on_date() {
    let mut r = records::achievements::AchievementRecord::locked("x");
    let first = Utc::now();
    r.unlock(stamp(first));
    let later = first + Duration::hours(1);
    r.unlock(stamp(later));
    assert_eq!(r.unlock_date, Some(stamp(first)), "earliest date preserved");
}

#[test]
fn locked_creates_an_unlocked_record() {
    let r = progression::achievements::AchievementRecord::locked("first_win");
    assert_eq!(r.id, "first_win");
    assert!(!r.unlocked);
    assert!(r.unlock_date.is_none());
    assert!(!r.reward_granted);
}

#[test]
fn unlock_sets_unlocked_and_stores_timestamp() {
    let mut r = progression::achievements::AchievementRecord::locked("first_win");
    let ts = stamp(Utc::now());
    r.unlock(ts);
    assert!(r.unlocked);
    assert_eq!(r.unlock_date, Some(ts));
}

#[test]
fn unlock_is_idempotent_and_preserves_earliest_date() {
    let mut r = progression::achievements::AchievementRecord::locked("first_win");
    let early = stamp(DateTime::UNIX_EPOCH);
    let later = stamp(Utc::now());
    r.unlock(early);
    r.unlock(later); // should be a no-op
    assert_eq!(r.unlock_date, Some(early), "earliest unlock date must be preserved");
}

#[test]
fn unlock_leaves_id_and_reward_alone() {
    let mut r = progression::achievements::AchievementRecord::locked("century");
    r.reward_granted = true;
    r.unlock(Timestamp { secs: 1_700_000_000, nanos: 5 });
    assert_eq!(r.id, "century");
    assert!(r.reward_granted);
}

#[test]
fn unix_epoch_timestamp_is_zero() {
    let t = Timestamp::unix_epoch();
    assert_eq!(t, stamp(DateTime::UNIX_EPOCH));
}

#[test]
fn timestamps_before_and_after_the_epoch() {
    assert_eq!(timestamp_from_parts(false, 7, 3), Timestamp { secs: 7, nanos: 3 });
    assert_eq!(timestamp_from_parts(true, 5, 0), Timestamp { secs: -5, nanos: 0 });
    assert_eq!(timestamp_from_parts(true, 5, 250_000_000), Timestamp { secs: -6, nanos: 750_000_000 });
    let now = now_utc();
    let expected = stamp(Utc::now());
    assert!(now.nanos < 1_000_000_000);
    assert!((now.secs - expected.secs).abs() <= 2);
}
