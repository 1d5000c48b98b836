use x3_counter::database::counts::MAX_TOTAL;
use x3_counter::database::{
    resolve, should_notify, DatabaseHandler, StoreError, VerboseLevel, MAX_COUNT,
};

fn is_verbose(level: VerboseLevel) -> bool {
    matches!(level, VerboseLevel::Verbose)
}

fn is_silent(level: VerboseLevel) -> bool {
    matches!(level, VerboseLevel::Silent)
}

fn period(level: VerboseLevel) -> Option<u32> {
    match level {
        VerboseLevel::Every(n) => Some(n),
        _ => None,
    }
}

#[test]
fn increments_count_up_without_gaps() {
    let mut db = DatabaseHandler::new();
    for expected in 1..=20u32 {
        assert_eq!(db.add_one(1, 10, "x3"), Ok(Some(expected)));
    }
}

#[test]
fn counters_are_kept_apart_by_user_guild_and_token() {
    let mut db = DatabaseHandler::new();
    assert_eq!(db.add_one(1, 10, "x3"), Ok(Some(1)));
    assert_eq!(db.add_one(2, 10, "x3"), Ok(Some(1)));
    assert_eq!(db.add_one(1, 11, "x3"), Ok(Some(1)));
    assert_eq!(db.add_one(1, 10, ":3"), Ok(Some(1)));
    assert_eq!(db.add_one(1, 10, "x3"), Ok(Some(2)));
    assert_eq!(db.add_one(2, 10, "x3"), Ok(Some(2)));
    assert_eq!(db.add_one(1, 10, "x3"), Ok(Some(3)));
}

#[test]
fn tokens_are_counted_in_lower_case() {
    let mut db = DatabaseHandler::new();
    assert_eq!(db.add_one(1, 10, "X3"), Ok(Some(1)));
    assert_eq!(db.add_one(1, 10, "x3"), Ok(Some(2)));
    assert_eq!(db.add_one(1, 10, "UwU"), Ok(Some(1)));
    assert_eq!(db.add_one(1, 10, "uwu"), Ok(Some(2)));
    let counts = db.get_user_server_counts(1, 10);
    assert_eq!(counts.len(), 2);
    assert_eq!(counts[0].emote, "x3");
    assert_eq!(counts[0].count.0, 2);
    assert_eq!(counts[1].emote, "uwu");
    assert_eq!(counts[1].count.0, 2);
}

#[test]
fn opted_out_user_is_not_counted() {
    let mut db = DatabaseHandler::new();
    assert_eq!(db.add_one(1, 10, "x3"), Ok(Some(1)));
    assert_eq!(db.add_one(1, 10, "x3"), Ok(Some(2)));
    assert!(!db.is_opt_out(1));
    db.set_opt_out(1, true);
    assert!(db.is_opt_out(1));
    assert_eq!(db.add_one(1, 10, "x3"), Ok(None));
    assert_eq!(db.add_one(1, 10, "x3"), Ok(None));
    assert_eq!(db.add_one(1, 10, "new"), Ok(None));
    assert_eq!(db.add_one(2, 10, "x3"), Ok(Some(1)));
    db.set_opt_out(1, false);
    assert!(!db.is_opt_out(1));
    assert_eq!(db.add_one(1, 10, "x3"), Ok(Some(3)));
    assert_eq!(db.add_one(1, 10, "new"), Ok(Some(1)));
}

#[test]
fn opt_out_keeps_the_notify_setting() {
    let mut db = DatabaseHandler::new();
    db.set_silent(1, Some(4));
    db.set_opt_out(1, true);
    assert_eq!(db.user_settings(1).notify_every, Some(4));
    assert!(db.user_settings(1).opted_out);
    db.set_silent(1, Some(0));
    assert!(db.user_settings(1).opted_out);
    db.set_opt_out(1, false);
    assert_eq!(db.user_settings(1).notify_every, Some(0));
    assert!(!db.user_settings(2).opted_out);
    assert_eq!(db.user_settings(2).notify_every, None);
}

#[test]
fn default_level_is_verbose() {
    let db = DatabaseHandler::new();
    assert!(is_verbose(db.verbose_level(1, 10)));
}

#[test]
fn user_setting_governs_without_a_guild_setting() {
    let mut db = DatabaseHandler::new();
    db.set_silent(1, Some(0));
    assert!(is_silent(db.verbose_level(1, 10)));
    db.set_silent(1, Some(3));
    assert_eq!(period(db.verbose_level(1, 10)), Some(3));
    assert!(is_verbose(db.verbose_level(2, 10)));
    db.set_silent(1, None);
    assert!(is_verbose(db.verbose_level(1, 10)));
}

#[test]
fn guild_setting_overrides_the_user() {
    let mut db = DatabaseHandler::new();
    db.mute_all(10, Some(0));
    assert!(is_silent(db.verbose_level(1, 10)));
    assert!(is_verbose(db.verbose_level(1, 11)));
    db.set_silent(1, Some(3));
    assert!(is_silent(db.verbose_level(1, 10)));
    assert_eq!(period(db.verbose_level(1, 11)), Some(3));
    db.mute_all(10, Some(5));
    assert_eq!(period(db.verbose_level(1, 10)), Some(5));
    db.mute_all(10, None);
    assert_eq!(period(db.verbose_level(1, 10)), Some(3));
}

#[test]
fn set_mute_all_silences_or_clears() {
    let mut db = DatabaseHandler::new();
    db.set_silent(1, Some(2));
    db.set_mute_all(10, true);
    assert!(is_silent(db.verbose_level(1, 10)));
    db.set_mute_all(10, false);
    assert_eq!(period(db.verbose_level(1, 10)), Some(2));
}

#[test]
fn resolve_prefers_the_guild() {
    assert!(is_silent(resolve(Some(0), None)));
    assert!(is_silent(resolve(Some(0), Some(7))));
    assert_eq!(period(resolve(Some(4), Some(0))), Some(4));
    assert_eq!(period(resolve(None, Some(6))), Some(6));
    assert!(is_silent(resolve(None, Some(0))));
    assert!(is_verbose(resolve(None, None)));
}

#[test]
fn levels_are_read_from_the_column() {
    assert!(is_verbose(VerboseLevel::from(None)));
    assert!(is_silent(VerboseLevel::from(Some(0))));
    assert_eq!(period(VerboseLevel::from(Some(3))), Some(3));
    assert_eq!(period(VerboseLevel::from(Some(-1))), Some(u32::MAX));
    assert_eq!(period(VerboseLevel::from(Some(i32::MIN))), Some(1 << 31));
}

#[test]
fn notification_follows_the_level() {
    assert!(should_notify(VerboseLevel::Verbose, 1));
    assert!(should_notify(VerboseLevel::Verbose, 17));
    assert!(!should_notify(VerboseLevel::Silent, 1));
    assert!(!should_notify(VerboseLevel::Silent, 0));
    assert!(!should_notify(VerboseLevel::Every(3), 1));
    assert!(!should_notify(VerboseLevel::Every(3), 2));
    assert!(should_notify(VerboseLevel::Every(3), 3));
    assert!(!should_notify(VerboseLevel::Every(3), 4));
    assert!(should_notify(VerboseLevel::Every(3), 6));
    assert!(should_notify(VerboseLevel::Every(1), 5));
    assert!(!should_notify(VerboseLevel::Every(0), 5));
    assert!(!should_notify(VerboseLevel::Every(0), 0));
}

#[test]
fn user_counts_sum_over_guilds() {
    let mut db = DatabaseHandler::new();
    for _ in 0..3 {
        db.add_one(1, 10, "x3").unwrap();
    }
    for _ in 0..2 {
        db.add_one(1, 11, "x3").unwrap();
    }
    db.add_one(1, 11, ":3").unwrap();
    db.add_one(2, 10, "x3").unwrap();
    let all = db.get_user_counts(1).unwrap();
    assert_eq!(all.len(), 2);
    assert_eq!(all[0].emote, "x3");
    assert_eq!(all[0].count.0, 5);
    assert_eq!(all[1].emote, ":3");
    assert_eq!(all[1].count.0, 1);
    let here = db.get_user_server_counts(1, 10);
    assert_eq!(here.len(), 1);
    assert_eq!(here[0].emote, "x3");
    assert_eq!(here[0].count.0, 3);
    let there = db.get_user_server_counts(1, 11);
    assert_eq!(there.len(), 2);
    assert_eq!(there[0].count.0, 2);
    assert_eq!(there[1].emote, ":3");
    assert!(db.get_user_counts(3).unwrap().is_empty());
    assert!(db.get_user_server_counts(2, 11).is_empty());
}

#[test]
fn limits_are_those_of_the_columns() {
    assert_eq!(MAX_COUNT, i32::MAX as u32);
    assert_eq!(MAX_TOTAL, i64::MAX as u64);
    assert_eq!(StoreError::OutOfRange, StoreError::OutOfRange);
}

#[test]
fn full_counter_refuses_the_increment() {
    let mut db = DatabaseHandler::new();
    assert_eq!(db.set_count(1, 10, "x3", MAX_COUNT - 1), Ok(()));
    assert_eq!(db.add_one(1, 10, "x3"), Ok(Some(MAX_COUNT)));
    assert_eq!(db.add_one(1, 10, "x3"), Err(StoreError::OutOfRange));
    assert_eq!(db.add_one(1, 10, "x3"), Err(StoreError::OutOfRange));
    let counts = db.get_user_server_counts(1, 10);
    assert_eq!(counts[0].count.0, MAX_COUNT as u64);
    db.set_opt_out(1, true);
    assert_eq!(db.add_one(1, 10, "x3"), Ok(None));
}

#[test]
fn set_count_places_a_counter() {
    let mut db = DatabaseHandler::new();
    assert_eq!(db.set_count(1, 10, "X3", 41), Ok(()));
    assert_eq!(db.add_one(1, 10, "x3"), Ok(Some(42)));
    assert_eq!(db.set_count(1, 10, "x3", 7), Ok(()));
    assert_eq!(db.add_one(1, 10, "x3"), Ok(Some(8)));
    assert_eq!(db.set_count(1, 10, "x3", 0), Err(StoreError::OutOfRange));
    assert_eq!(db.set_count(1, 10, "x3", MAX_COUNT + 1), Err(StoreError::OutOfRange));
    assert_eq!(db.set_count(1, 10, "x3", u32::MAX), Err(StoreError::OutOfRange));
    assert_eq!(db.add_one(1, 10, "x3"), Ok(Some(9)));
    assert_eq!(db.get_user_server_counts(1, 10).len(), 1);
}

#[test]
fn sums_of_full_counters_fit() {
    let mut db = DatabaseHandler::new();
    for guild in 0..50u64 {
        db.set_count(1, guild, "x3", MAX_COUNT).unwrap();
    }
    let all = db.get_user_counts(1).unwrap();
    assert_eq!(all.len(), 1);
    assert_eq!(all[0].count.0, 50 * (MAX_COUNT as u64));
}
