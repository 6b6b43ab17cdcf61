//! Real-time game clock.
//!
//! Tracks the in-game date and hour with configurable speed settings.
//! Start date: 1 January 1805.

use vstd::prelude::*;

use crate::text::{decimal, decimal_string, string_from_chars};

verus! {

/// Game speed settings, from paused to 5x.
#[derive(Debug, Clone, Copy, PartialEq, Eq, Structural)]
pub enum GameSpeed {
    Paused,
    Speed1,
    Speed2,
    Speed3,
    Speed4,
    Speed5,
}

/// Hours advanced per tick at each speed.
pub open spec fn speed_hours(speed: GameSpeed) -> nat {
    match speed {
        GameSpeed::Paused => 0,
        GameSpeed::Speed1 => 1,
        GameSpeed::Speed2 => 2,
        GameSpeed::Speed3 => 4,
        GameSpeed::Speed4 => 8,
        GameSpeed::Speed5 => 12,
    }
}

/// Game-hours per tick at each speed level: none when paused, then 1, 2,
/// 4, 8 and 12; so a day passes in 24, 12, 6, 3 or 2 ticks.
pub proof fn lemma_hours_per_tick()
    ensures
        speed_hours(GameSpeed::Paused) == 0,
        speed_hours(GameSpeed::Speed1) == 1,
        speed_hours(GameSpeed::Speed2) == 2,
        speed_hours(GameSpeed::Speed3) == 4,
        speed_hours(GameSpeed::Speed4) == 8,
        speed_hours(GameSpeed::Speed5) == 12,
        24 * speed_hours(GameSpeed::Speed1) == 24,
        2 * speed_hours(GameSpeed::Speed5) == 24,
{
}

/// The speed selected by a numeric setting: `0..=5` pick the matching
/// level, anything else falls back to `Speed1`.
pub open spec fn speed_of(v: u8) -> GameSpeed {
    if v == 0 {
        GameSpeed::Paused
    } else if v == 2 {
        GameSpeed::Speed2
    } else if v == 3 {
        GameSpeed::Speed3
    } else if v == 4 {
        GameSpeed::Speed4
    } else if v == 5 {
        GameSpeed::Speed5
    } else {
        GameSpeed::Speed1
    }
}

impl GameSpeed {
    /// Convert a u8 (0–5) to a speed setting; out-of-range values give `Speed1`.
    pub fn from_u8(v: u8) -> (s: Self)
        ensures
            s == speed_of(v),
    {
        match v {
            0 => GameSpeed::Paused,
            1 => GameSpeed::Speed1,
            2 => GameSpeed::Speed2,
            3 => GameSpeed::Speed3,
            4 => GameSpeed::Speed4,
            5 => GameSpeed::Speed5,
            _ => GameSpeed::Speed1,
        }
    }

    /// Hours advanced per tick at this speed.
    pub fn hours_per_tick(self) -> (h: u32)
        ensures
            h == speed_hours(self),
    {
        match self {
            GameSpeed::Paused => 0,
            GameSpeed::Speed1 => 1,
            GameSpeed::Speed2 => 2,
            GameSpeed::Speed3 => 4,
            GameSpeed::Speed4 => 8,
            GameSpeed::Speed5 => 12,
        }
    }
}

/// Whether `year` is a Gregorian leap year.
pub open spec fn spec_is_leap_year(year: int) -> bool {
    (year % 4 == 0 && year % 100 != 0) || year % 400 == 0
}

/// Length of `month` (1..=12) in `year`.
pub open spec fn spec_days_in_month(month: int, year: int) -> nat {
    if month == 2 {
        if spec_is_leap_year(year) { 29 } else { 28 }
    } else if month == 4 || month == 6 || month == 9 || month == 11 {
        30
    } else {
        31
    }
}

/// The month lengths of the Gregorian calendar, for every year: thirty
/// days have April, June, September and November; February has 28, or 29
/// in a year divisible by four, except a century year not divisible by 400;
/// all the rest have 31. So the day after the 30th of
/// September is the 1st of October, and the 31st of October is a day.
pub proof fn lemma_gregorian_month_lengths(year: int)
    ensures
        spec_days_in_month(1, year) == 31,
        year % 4 != 0 ==> spec_days_in_month(2, year) == 28,
        year % 4 == 0 && year % 100 != 0 ==> spec_days_in_month(2, year) == 29,
        year % 100 == 0 && year % 400 != 0 ==> spec_days_in_month(2, year) == 28,
        year % 400 == 0 ==> spec_days_in_month(2, year) == 29,
        spec_days_in_month(3, year) == 31,
        spec_days_in_month(4, year) == 30,
        spec_days_in_month(5, year) == 31,
        spec_days_in_month(6, year) == 30,
        spec_days_in_month(7, year) == 31,
        spec_days_in_month(8, year) == 31,
        spec_days_in_month(9, year) == 30,
        spec_days_in_month(10, year) == 31,
        spec_days_in_month(11, year) == 30,
        spec_days_in_month(12, year) == 31,
        next_date(30, 9, year) == (1int, 10int, year),
        next_date(30, 10, year) == (31int, 10int, year),
        next_date(31, 12, year) == (1int, 1int, year + 1),
{
}

/// English name of `month` (1..=12).
pub open spec fn month_name(month: int) -> Seq<char> {
    if month == 1 {
        "January"@
    } else if month == 2 {
        "February"@
    } else if month == 3 {
        "March"@
    } else if month == 4 {
        "April"@
    } else if month == 5 {
        "May"@
    } else if month == 6 {
        "June"@
    } else if month == 7 {
        "July"@
    } else if month == 8 {
        "August"@
    } else if month == 9 {
        "September"@
    } else if month == 10 {
        "October"@
    } else if month == 11 {
        "November"@
    } else {
        "December"@
    }
}

/// Real-time game clock tracking the in-game date.
#[derive(Debug, Clone)]
pub struct GameClock {
    pub tick: u64,
    pub day: u32,
    pub month: u8,
    pub year: u16,
    pub speed: GameSpeed,
    pub paused: bool,
    /// Accumulated hours within the current day (0–23).
    pub hour: u32,
}

/// The calendar date that follows `(day, month, year)`.
pub open spec fn next_date(day: int, month: int, year: int) -> (int, int, int) {
    if day + 1 > spec_days_in_month(month, year) {
        if month + 1 > 12 {
            (1, 1, year + 1)
        } else {
            (1, month + 1, year)
        }
    } else {
        (day + 1, month, year)
    }
}

/// Calendar order on `(day, month, year)` triples: year first, then month, then day.
pub open spec fn date_before(a: (int, int, int), b: (int, int, int)) -> bool {
    a.2 < b.2 || (a.2 == b.2 && (a.1 < b.1 || (a.1 == b.1 && a.0 < b.0)))
}

/// A triple `(day, month, year)` that names a real calendar day.
pub open spec fn valid_dmy(d: (int, int, int)) -> bool {
    1 <= d.1 <= 12 && 1 <= d.0 <= spec_days_in_month(d.1, d.2)
}

/// The day after a real calendar day is again a real calendar day, and it
/// comes strictly later in calendar order.
pub proof fn lemma_next_date_valid_and_later(day: int, month: int, year: int)
    requires
        valid_dmy((day, month, year)),
    ensures
        valid_dmy(next_date(day, month, year)),
        date_before((day, month, year), next_date(day, month, year)),
{
}

/// Ticking a running clock whose date is a real calendar day keeps the date
/// a real calendar day, keeps the hour below 24, and never moves the
/// date backwards; a stopped clock keeps its date.
pub proof fn lemma_tick_keeps_valid_date(before: GameClock, after: GameClock)
    requires
        before.valid_date(),
        before.hour_of() < 24,
        before.running() ==> {
            let h = before.hour_of() + speed_hours(before.speed);
            &&& after.hour_of() == h % 24
            &&& if h >= 24 {
                (after.day as int, after.month as int, after.year as int) == next_date(
                    before.day as int,
                    before.month as int,
                    before.year as int,
                )
            } else {
                after.day == before.day && after.month == before.month && after.year == before.year
            }
        },
        !before.running() ==> after == before,
    ensures
        after.valid_date(),
        after.hour_of() < 24,
        !date_before(
            (after.day as int, after.month as int, after.year as int),
            (before.day as int, before.month as int, before.year as int),
        ),
{
    if before.running() && before.hour_of() + speed_hours(before.speed) >= 24 {
        lemma_next_date_valid_and_later(before.day as int, before.month as int, before.year as int);
    }
}

impl GameClock {
    /// Hours accumulated within the current day.
    pub open spec fn hour_of(&self) -> u32 {
        self.hour
    }

    /// The clock only moves when it is neither paused nor at speed `Paused`.
    pub open spec fn running(&self) -> bool {
        !self.paused && self.speed != GameSpeed::Paused
    }

    /// A calendar date: month in 1..=12 and day within that month.
    pub open spec fn valid_date(&self) -> bool {
        &&& 1 <= self.month <= 12
        &&& 1 <= self.day <= spec_days_in_month(self.month as int, self.year as int)
    }

    /// What a clock must satisfy for `advance_tick` to run without
    /// overflowing or indexing out of the month table.
    pub open spec fn can_tick(&self) -> bool {
        &&& self.hour_of() < 24
        &&& 1 <= self.month <= 12
        &&& self.tick < u64::MAX
        &&& self.day < u32::MAX
        &&& (self.year == u16::MAX ==> !(self.month == 12 && self.day >= 31))
    }

    /// Create a new clock starting at 1 January 1805.
    pub fn new() -> (c: Self)
        ensures
            c.tick == 0,
            c.day == 1,
            c.month == 1,
            c.year == 1805,
            c.speed == GameSpeed::Speed1,
            !c.paused,
            c.hour_of() == 0,
    {
        GameClock {
            tick: 0,
            day: 1,
            month: 1,
            year: 1805,
            speed: GameSpeed::Speed1,
            paused: false,
            hour: 0,
        }
    }

    /// Advance the clock by one tick.  Does nothing if paused.
    ///
    /// A running clock gains `hours_per_tick` hours; each time the hour
    /// reaches 24 it wraps and the date moves to the next calendar day.
    pub fn advance_tick(&mut self)
        requires
            old(self).running() ==> old(self).can_tick(),
        ensures
            !old(self).running() ==> *final(self) == *old(self),
            old(self).running() ==> {
                let h = old(self).hour_of() + speed_hours(old(self).speed);
                &&& final(self).tick == old(self).tick + 1
                &&& final(self).hour_of() == h % 24
                &&& final(self).speed == old(self).speed
                &&& final(self).paused == old(self).paused
                &&& if h >= 24 {
                    (final(self).day as int, final(self).month as int, final(self).year as int)
                        == next_date(old(self).day as int, old(self).month as int, old(self).year as int)
                } else {
                    final(self).day == old(self).day && final(self).month == old(self).month
                        && final(self).year == old(self).year
                }
            },
    {
        if self.paused || self.speed == GameSpeed::Paused {
            return;
        }
        self.tick = self.tick + 1;
        let hours = self.speed.hours_per_tick();
        self.hour = self.hour + hours;
        if self.hour >= 24 {
            self.hour = self.hour - 24;
            self.advance_day();
        }
        assert(self.hour < 24);
    }

    /// Move to the next calendar day, rolling month and year over.
    pub fn advance_day(&mut self)
        requires
            1 <= old(self).month <= 12,
            old(self).day < u32::MAX,
            old(self).year == u16::MAX ==> !(old(self).month == 12 && old(self).day >= 31),
        ensures
            (final(self).day as int, final(self).month as int, final(self).year as int) == next_date(
                old(self).day as int,
                old(self).month as int,
                old(self).year as int,
            ),
            final(self).tick == old(self).tick,
            final(self).speed == old(self).speed,
            final(self).paused == old(self).paused,
            final(self).hour_of() == old(self).hour_of(),
    {
        self.day = self.day + 1;
        let days_in_current = days_in_month(self.month, self.year);
        if self.day > days_in_current {
            self.day = 1;
            if self.month == 12 {
                self.month = 1;
                self.year = self.year + 1;
            } else {
                self.month = self.month + 1;
            }
        }
    }

    /// Returns a formatted date string, e.g. "15 March 1805".
    pub fn date_string(&self) -> (s: String)
        requires
            1 <= self.month <= 12,
        ensures
            s@ == decimal(self.day as nat) + seq![' '] + month_name(self.month as int) + seq![' ']
                + decimal(self.year as nat),
    {
        let name = month_name_str(self.month);
        let mut out = decimal_string(self.day as u64);
        out.append(" ");
        out.append(name);
        out.append(" ");
        let y = decimal_string(self.year as u64);
        out.append(y.as_str());
        proof {
            reveal_strlit(" ");
            assert(out@ =~= decimal(self.day as nat) + seq![' '] + month_name(self.month as int)
                + seq![' '] + decimal(self.year as nat));
        }
        out
    }

    /// Set game speed from a u8 value (0=Paused, 1–5=speeds).
    pub fn set_speed(&mut self, speed: u8)
        ensures
            final(self).speed == speed_of(speed),
            final(self).paused == (old(self).paused || speed_of(speed) == GameSpeed::Paused),
            final(self).tick == old(self).tick,
            final(self).day == old(self).day,
            final(self).month == old(self).month,
            final(self).year == old(self).year,
            final(self).hour_of() == old(self).hour_of(),
    {
        self.speed = GameSpeed::from_u8(speed);
        if self.speed == GameSpeed::Paused {
            self.paused = true;
        }
    }

    /// Toggle pause state.
    pub fn toggle_pause(&mut self)
        ensures
            final(self).paused == !old(self).paused,
            final(self).tick == old(self).tick,
            final(self).day == old(self).day,
            final(self).month == old(self).month,
            final(self).year == old(self).year,
            final(self).speed == old(self).speed,
            final(self).hour_of() == old(self).hour_of(),
    {
        self.paused = !self.paused;
    }

}

impl Default for GameClock {
    /// The clock a fresh `new()` gives.
    fn default() -> (c: Self)
        ensures
            c.tick == 0,
            c.day == 1,
            c.month == 1,
            c.year == 1805,
            c.speed == GameSpeed::Speed1,
            !c.paused,
            c.hour_of() == 0,
    {
        Self::new()
    }
}

/// The month name as a static string.
fn month_name_str(month: u8) -> (s: &'static str)
    requires
        1 <= month <= 12,
    ensures
        s@ == month_name(month as int),
{
    match month {
        1 => "January",
        2 => "February",
        3 => "March",
        4 => "April",
        5 => "May",
        6 => "June",
        7 => "July",
        8 => "August",
        9 => "September",
        10 => "October",
        11 => "November",
        _ => "December",
    }
}

/// Returns the number of days in a given month/year (handles leap years).
pub fn days_in_month(month: u8, year: u16) -> (d: u32)
    requires
        1 <= month <= 12,
    ensures
        d == spec_days_in_month(month as int, year as int),
{
    if month == 2 && is_leap_year(year) {
        29
    } else if month == 2 {
        28
    } else if month == 4 || month == 6 || month == 9 || month == 11 {
        30
    } else {
        31
    }
}

/// Whether `year` is a Gregorian leap year.
pub fn is_leap_year(year: u16) -> (r: bool)
    ensures
        r == spec_is_leap_year(year as int),
{
    (year % 4 == 0 && year % 100 != 0) || year % 400 == 0
}

} // verus!
