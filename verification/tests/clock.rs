use gc1805::clock::{is_leap_year, GameClock, GameSpeed};

#[test]
fn new_clock_starts_at_1805() {
    let clock = GameClock::new();
    assert_eq!(clock.day, 1);
    assert_eq!(clock.month, 1);
    assert_eq!(clock.year, 1805);
    assert_eq!(clock.tick, 0);
    assert!(!clock.paused);
}

#[test]
fn date_string_format() {
    let clock = GameClock::new();
    assert_eq!(clock.date_string(), "1 January 1805");
}

#[test]
fn advance_tick_increments() {
    let mut clock = GameClock::new();
    clock.advance_tick();
    assert_eq!(clock.tick, 1);
    // At Speed1, 1 hour per tick, so still day 1
    assert_eq!(clock.day, 1);
}

#[test]
fn twenty_four_ticks_advance_one_day_at_speed1() {
    let mut clock = GameClock::new();
    for _ in 0..24 {
        clock.advance_tick();
    }
    assert_eq!(clock.day, 2);
    assert_eq!(clock.month, 1);
}

#[test]
fn month_rollover() {
    let mut clock = GameClock::new();
    for _ in 0..(31 * 24) {
        clock.advance_tick();
    }
    assert_eq!(clock.month, 2);
    assert_eq!(clock.day, 1);
}

#[test]
fn year_rollover() {
    let mut clock = GameClock::new();
    // 365 days at Speed5 (12 hours/tick) => 730 ticks
    clock.speed = GameSpeed::Speed5;
    for _ in 0..730 {
        clock.advance_tick();
    }
    assert_eq!(clock.year, 1806);
    assert_eq!(clock.month, 1);
    assert_eq!(clock.day, 1);
}

#[test]
fn paused_does_not_advance() {
    let mut clock = GameClock::new();
    clock.paused = true;
    clock.advance_tick();
    assert_eq!(clock.tick, 0);
    assert_eq!(clock.day, 1);
}

#[test]
fn toggle_pause() {
    let mut clock = GameClock::new();
    assert!(!clock.paused);
    clock.toggle_pause();
    assert!(clock.paused);
    clock.toggle_pause();
    assert!(!clock.paused);
}

#[test]
fn set_speed_paused() {
    let mut clock = GameClock::new();
    clock.set_speed(0);
    assert_eq!(clock.speed, GameSpeed::Paused);
    assert!(clock.paused);
}

#[test]
fn speed_from_u8_out_of_range() {
    assert_eq!(GameSpeed::from_u8(99), GameSpeed::Speed1);
}

#[test]
fn leap_year_detection() {
    assert!(!is_leap_year(1805));
    assert!(is_leap_year(1804));
    assert!(!is_leap_year(1800));
    assert!(is_leap_year(2000));
}

#[test]
fn hours_per_tick_follow_speed_table() {
    let hours: Vec<u32> = (0..6u8).map(|v| GameSpeed::from_u8(v).hours_per_tick()).collect();
    assert_eq!(hours, vec![0, 1, 2, 4, 8, 12]);
}

#[test]
fn speed_zero_stops_the_clock() {
    let mut clock = GameClock::new();
    clock.speed = GameSpeed::Paused;
    clock.advance_tick();
    assert_eq!(clock.tick, 0);
}

#[test]
fn leap_february_has_29_days() {
    let mut clock = GameClock::new();
    clock.year = 1804;
    clock.month = 2;
    clock.day = 28;
    clock.speed = GameSpeed::Speed5;
    clock.advance_tick();
    clock.advance_tick();
    assert_eq!((clock.day, clock.month), (29, 2));
    clock.advance_tick();
    clock.advance_tick();
    assert_eq!((clock.day, clock.month), (1, 3));
}

#[test]
fn date_string_after_a_month() {
    let mut clock = GameClock::new();
    clock.set_speed(5);
    for _ in 0..(2 * 45) {
        clock.advance_tick();
    }
    assert_eq!(clock.date_string(), "15 February 1805");
}

#[test]
fn toggling_twice_restores_pause_state() {
    let mut clock = GameClock::new();
    clock.set_speed(3);
    let before = clock.paused;
    clock.toggle_pause();
    clock.toggle_pause();
    assert_eq!(clock.paused, before);
    assert_eq!(clock.speed, GameSpeed::Speed3);
}
