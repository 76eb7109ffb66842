use silentcmd::switch::SwitchStatus;

const THRESHOLD_MDB: i32 = -60_000;
const LOUD_MDB: i32 = -50_000;
const QUIET_MDB: i32 = -80_000;

#[test]
fn loud_start_turns_on_at_first_block() {
    let mut sw = SwitchStatus::new(THRESHOLD_MDB, 5, 0);
    assert!(!sw.is_on());
    assert_eq!(sw.update_level(LOUD_MDB, 0), Some(true));
    assert!(sw.is_on());
    let mut t: u64 = 100;
    while t <= 1000 {
        assert_eq!(sw.update_level(LOUD_MDB, t), None);
        t += 100;
    }
    assert!(sw.is_on());
}

#[test]
fn short_silence_then_sound_rearms_without_event() {
    let mut sw = SwitchStatus::new(THRESHOLD_MDB, 5, 0);
    assert_eq!(sw.update_level(LOUD_MDB, 0), Some(true));
    let mut t: u64 = 100;
    while t < 4000 {
        assert_eq!(sw.update_level(QUIET_MDB, t), None);
        t += 100;
    }
    assert_eq!(sw.update_level(LOUD_MDB, 4000), None);
    assert!(sw.is_on());
    assert_eq!(sw.last_trigger(), 4000);
    // the timer now runs from t=4s
    assert_eq!(sw.update_level(QUIET_MDB, 9000), None);
    assert_eq!(sw.update_level(QUIET_MDB, 9001), Some(false));
    assert!(!sw.is_on());
}

#[test]
fn silence_from_on_turns_off_once_just_past_timeout() {
    let mut sw = SwitchStatus::new(THRESHOLD_MDB, 5, 0);
    assert_eq!(sw.update_level(LOUD_MDB, 0), Some(true));
    let mut offs = 0;
    let mut t: u64 = 0;
    while t <= 10_000 {
        let ev = sw.update_level(QUIET_MDB, t);
        assert_ne!(ev, Some(true));
        if ev == Some(false) {
            offs += 1;
            assert_eq!(t, 5001);
        }
        t += 1;
    }
    assert_eq!(offs, 1);
    assert!(!sw.is_on());
}

#[test]
fn silence_from_off_gives_no_event() {
    let mut sw = SwitchStatus::new(THRESHOLD_MDB, 5, 0);
    let mut t: u64 = 0;
    while t <= 20_000 {
        assert_eq!(sw.update_level(QUIET_MDB, t), None);
        t += 250;
    }
    assert!(!sw.is_on());
}

#[test]
fn level_equal_to_threshold_counts_as_sound() {
    let mut sw = SwitchStatus::new(THRESHOLD_MDB, 1, 0);
    assert_eq!(sw.update_level(THRESHOLD_MDB, 10), Some(true));
    assert_eq!(sw.update_level(THRESHOLD_MDB - 1, 1010), None);
    assert_eq!(sw.update_level(THRESHOLD_MDB - 1, 1011), Some(false));
}

#[test]
fn repeated_sound_while_on_only_refreshes_trigger() {
    let mut sw = SwitchStatus::new(THRESHOLD_MDB, 5, 0);
    assert_eq!(sw.update_level(-10_000, 0), Some(true));
    for t in [10u64, 20, 30, 40] {
        assert_eq!(sw.update_level(-20_000, t), None);
        assert_eq!(sw.last_trigger(), t);
        assert!(sw.is_on());
    }
}

#[test]
fn sound_within_quiet_span_restarts_it() {
    let mut sw = SwitchStatus::new(THRESHOLD_MDB, 2, 0);
    assert_eq!(sw.update_level(LOUD_MDB, 0), Some(true));
    assert_eq!(sw.update_level(QUIET_MDB, 1500), None);
    assert_eq!(sw.update_level(LOUD_MDB, 1900), None);
    // 2.1 s after the start, but only 0.2 s after the last sound
    assert_eq!(sw.update_level(QUIET_MDB, 2100), None);
    assert_eq!(sw.update_level(QUIET_MDB, 3900), None);
    assert_eq!(sw.update_level(QUIET_MDB, 3901), Some(false));
}

#[test]
fn clock_before_last_trigger_counts_as_no_time() {
    let mut sw = SwitchStatus::new(THRESHOLD_MDB, 0, 1000);
    assert_eq!(sw.update_level(LOUD_MDB, 1000), Some(true));
    assert_eq!(sw.update_level(QUIET_MDB, 500), None);
    assert_eq!(sw.update_level(QUIET_MDB, 1000), None);
    assert_eq!(sw.update_level(QUIET_MDB, 1001), Some(false));
}

#[test]
fn timeout_is_counted_in_seconds() {
    let mut sw = SwitchStatus::new(0, 60, 0);
    assert_eq!(sw.update_level(0, 0), Some(true));
    assert_eq!(sw.update_level(-1, 60_000), None);
    assert_eq!(sw.update_level(-1, 60_001), Some(false));
}
