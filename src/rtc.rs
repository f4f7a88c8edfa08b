use vstd::prelude::*;
use crate::bits::{bit_of, get_bit, set_bit, with_bit_of};
use crate::time::{uptime, uptime_nanos};
use time::{
    Date as CalDate, Duration as Span, Month as CalMonth, PrimitiveDateTime as CalDateTime,
    Time as ClockTime,
};

verus! {

/// CMOS registers of the real-time clock, by index.
#[derive(Debug, Clone, Copy, PartialEq, Eq, Structural)]
pub enum Register {
    Second,
    Minute,
    Hour,
    Day,
    Month,
    Year,
    A,
    B,
    C,
}

impl Register {
    pub open spec fn spec_index(self) -> u8 {
        match self {
            Register::Second => 0x00,
            Register::Minute => 0x02,
            Register::Hour => 0x04,
            Register::Day => 0x07,
            Register::Month => 0x08,
            Register::Year => 0x09,
            Register::A => 0x0a,
            Register::B => 0x0b,
            Register::C => 0x0c,
        }
    }

    /// The value written to the address port to select the register.
    pub fn index(self) -> (r: u8)
        ensures
            r == self.spec_index(),
    {
        match self {
            Register::Second => 0x00,
            Register::Minute => 0x02,
            Register::Hour => 0x04,
            Register::Day => 0x07,
            Register::Month => 0x08,
            Register::Year => 0x09,
            Register::A => 0x0a,
            Register::B => 0x0b,
            Register::C => 0x0c,
        }
    }
}

/// Interrupt sources of the clock, enabled by their bit in register B.
#[derive(Debug, Clone, Copy, PartialEq, Eq, Structural)]
pub enum RtcInterrupt {
    Periodic,
    Alarm,
    Update,
}

impl RtcInterrupt {
    pub open spec fn spec_mask(self) -> u8 {
        match self {
            RtcInterrupt::Periodic => 0x40,
            RtcInterrupt::Alarm => 0x20,
            RtcInterrupt::Update => 0x10,
        }
    }

    pub fn mask(self) -> (r: u8)
        ensures
            r == self.spec_mask(),
    {
        match self {
            RtcInterrupt::Periodic => 0x40,
            RtcInterrupt::Alarm => 0x20,
            RtcInterrupt::Update => 0x10,
        }
    }
}

/// The new value of register B that enables `interrupt`, given its old
/// value `prev`.
pub fn enable_interrupt(prev: u8, interrupt: RtcInterrupt) -> (r: u8)
    ensures
        r == prev | interrupt.spec_mask(),
{
    prev | interrupt.mask()
}

/// The new value of register B that turns on the update-ended interrupt,
/// which marks each whole second of the clock.
pub fn init(register_b: u8) -> (r: u8)
    ensures
        r == register_b | 0x10u8,
{
    enable_interrupt(register_b, RtcInterrupt::Update)
}

/// The new value of the address port with its bit 7 (the non-maskable
/// interrupt control) set to `enabled`, given its old value `prev`.
pub fn set_nmi(prev: u8, enabled: bool) -> (r: u8)
    ensures
        r == with_bit_of(prev, 7, enabled),
{
    set_bit(prev, 7, enabled)
}

/// Whether register A reports an update of the clock in progress.
pub fn is_updating(register_a: u8) -> (r: bool)
    ensures
        r == bit_of(register_a, 7),
{
    get_bit(register_a, 7)
}

/// A reading of the clock registers, decoded to binary and 24-hour time.
#[derive(Debug, Clone, Copy, PartialEq, Eq, Structural)]
pub struct Rtc {
    pub second: u8,
    pub minute: u8,
    pub hour: u8,
    pub day: u8,
    pub month: u8,
    /// Year of the century (0-99).
    pub year: u8,
}

/// A calendar date.
#[derive(Debug, Clone, Copy, PartialEq, Eq, Structural)]
pub struct Date {
    pub year: i32,
    pub month: u8,
    pub day: u8,
}

/// A time of day.
#[derive(Debug, Clone, Copy, PartialEq, Eq, Structural)]
pub struct Time {
    pub hour: u8,
    pub minute: u8,
    pub second: u8,
}

/// A date and a time of day with nanoseconds, without time zone.
#[derive(Debug, Clone, Copy, PartialEq, Eq, Structural)]
pub struct DateTime {
    pub year: i32,
    pub month: u8,
    pub day: u8,
    pub hour: u8,
    pub minute: u8,
    pub second: u8,
    pub nanosecond: u32,
}

/// The value of a two-digit binary-coded decimal byte.
pub open spec fn from_bcd(x: u8) -> u8 {
    (x as nat % 16 + (x as nat / 16) * 10) as u8
}

/// The hour register in binary-coded decimal: two digits in the low seven
/// bits, and the afternoon flag in bit 7, which is kept.
pub open spec fn from_bcd_hour(x: u8) -> u8 {
    (x as nat % 16 + ((x as nat / 16) % 8) * 10 + (x as nat / 128) * 128) as u8
}

/// The reading that the raw registers stand for. Bit 2 of register B
/// selects binary mode (else BCD), bit 1 selects 24-hour mode (else the
/// hour's bit 7 marks the afternoon).
pub open spec fn decode_registers(
    second: u8,
    minute: u8,
    hour: u8,
    day: u8,
    month: u8,
    year: u8,
    b: u8,
) -> Rtc {
    let bcd = !bit_of(b, 2);
    let h = if bcd {
        from_bcd_hour(hour)
    } else {
        hour
    };
    Rtc {
        second: if bcd {
            from_bcd(second)
        } else {
            second
        },
        minute: if bcd {
            from_bcd(minute)
        } else {
            minute
        },
        hour: if !bit_of(b, 1) && bit_of(h, 7) {
            ((h as nat % 128 + 12) % 24) as u8
        } else {
            h
        },
        day: if bcd {
            from_bcd(day)
        } else {
            day
        },
        month: if bcd {
            from_bcd(month)
        } else {
            month
        },
        year: if bcd {
            from_bcd(year)
        } else {
            year
        },
    }
}

/// A leap year of the proleptic Gregorian calendar.
pub open spec fn is_leap_year(year: int) -> bool {
    year % 4 == 0 && (year % 100 != 0 || year % 400 == 0)
}

pub open spec fn days_in_month(year: int, month: int) -> int {
    if month == 2 {
        if is_leap_year(year) {
            29
        } else {
            28
        }
    } else if month == 4 || month == 6 || month == 9 || month == 11 {
        30
    } else {
        31
    }
}

/// A date that the calendar has, in the years -9999 to 9999.
pub open spec fn valid_date(year: int, month: int, day: int) -> bool {
    &&& -9999 <= year <= 9999
    &&& 1 <= month <= 12
    &&& 1 <= day <= days_in_month(year, month)
}

pub open spec fn valid_time(hour: int, minute: int, second: int) -> bool {
    hour < 24 && minute < 60 && second < 60
}

/// The two-digit year's century: 1970 to 2069.
pub open spec fn full_year(year: u8) -> int {
    if year < 70 {
        2000 + year
    } else {
        1900 + year
    }
}

/// The result of adding `nanos` nanoseconds to `dt` with the calendar
/// arithmetic of the `time` crate, or `None` where that fails.
pub uninterp spec fn plus_nanos(dt: DateTime, nanos: int) -> Option<DateTime>;

/// Relies on `time::Date::from_calendar_date`, with the month converted by
/// `Month::try_from`: it accepts exactly the dates of the proleptic
/// Gregorian calendar in the years -9999 to 9999.
#[verifier::external_body]
fn calendar_date_is_valid(year: i32, month: u8, day: u8) -> (r: bool)
    ensures
        r == valid_date(year as int, month as int, day as int),
{
    match CalMonth::try_from(month) {
        Ok(m) => CalDate::from_calendar_date(year, m, day).is_ok(),
        Err(_) => false,
    }
}

/// Relies on `time::Time::from_hms`: it accepts an hour below 24 and a
/// minute and a second below 60.
#[verifier::external_body]
fn clock_time_is_valid(hour: u8, minute: u8, second: u8) -> (r: bool)
    ensures
        r == valid_time(hour as int, minute as int, second as int),
{
    ClockTime::from_hms(hour, minute, second).is_ok()
}

/// Relies on `time::PrimitiveDateTime::checked_add` with
/// `Duration::nanoseconds`: calendar arithmetic on the date and time.
#[verifier::external_body]
fn checked_add_nanos(dt: DateTime, nanos: i64) -> (r: Option<DateTime>)
    ensures
        r == plus_nanos(dt, nanos as int),
{
    let d = CalDate::from_calendar_date(dt.year, CalMonth::try_from(dt.month).ok()?, dt.day).ok()?;
    let t = ClockTime::from_hms_nano(dt.hour, dt.minute, dt.second, dt.nanosecond).ok()?;
    let s = CalDateTime::new(d, t).checked_add(Span::nanoseconds(nanos))?;
    let (year, month, day) = (s.year(), s.month() as u8, s.day());
    let (hour, minute, second) = (s.hour(), s.minute(), s.second());
    Some(DateTime { year, month, day, hour, minute, second, nanosecond: s.nanosecond() })
}

impl Rtc {
    pub open spec fn spec_date(self) -> Option<Date> {
        let y = full_year(self.year);
        if valid_date(y, self.month as int, self.day as int) {
            Some(Date { year: y as i32, month: self.month, day: self.day })
        } else {
            None
        }
    }

    pub open spec fn spec_time(self) -> Option<Time> {
        if valid_time(self.hour as int, self.minute as int, self.second as int) {
            Some(Time { hour: self.hour, minute: self.minute, second: self.second })
        } else {
            None
        }
    }

    pub open spec fn spec_datetime(self) -> Option<DateTime> {
        match (self.spec_date(), self.spec_time()) {
            (Some(d), Some(t)) => Some(
                DateTime {
                    year: d.year,
                    month: d.month,
                    day: d.day,
                    hour: t.hour,
                    minute: t.minute,
                    second: t.second,
                    nanosecond: 0,
                },
            ),
            _ => None,
        }
    }

    /// Decodes raw register values; `b` is register B, which gives the
    /// encoding.
    pub fn from_registers(
        second: u8,
        minute: u8,
        hour: u8,
        day: u8,
        month: u8,
        year: u8,
        b: u8,
    ) -> (r: Self)
        ensures
            r == decode_registers(second, minute, hour, day, month, year, b),
    {
        let mut second = second;
        let mut minute = minute;
        let mut hour = hour;
        let mut day = day;
        let mut month = month;
        let mut year = year;
        let is_bcd = !get_bit(b, 2);
        if is_bcd {
            second = second % 16 + (second / 16) * 10;
            minute = minute % 16 + (minute / 16) * 10;
            hour = hour % 16 + ((hour / 16) % 8) * 10 + (hour / 128) * 128;
            day = day % 16 + (day / 16) * 10;
            month = month % 16 + (month / 16) * 10;
            year = year % 16 + (year / 16) * 10;
        }
        let is_12h = !get_bit(b, 1) && get_bit(hour, 7);
        if is_12h {
            hour = (hour % 128 + 12) % 24;
        }
        Rtc { second, minute, hour, day, month, year }
    }

    /// The date of the reading; years 70-99 fall in the 1900s, the others
    /// in the 2000s. `None` where the calendar has no such date.
    pub fn date(&self) -> (r: Option<Date>)
        ensures
            r == self.spec_date(),
    {
        let century: i32 = if self.year < 70 {
            2000
        } else {
            1900
        };
        let y = self.year as i32 + century;
        if calendar_date_is_valid(y, self.month, self.day) {
            Some(Date { year: y, month: self.month, day: self.day })
        } else {
            None
        }
    }

    /// The time of day of the reading, `None` where it is out of range.
    pub fn time(&self) -> (r: Option<Time>)
        ensures
            r == self.spec_time(),
    {
        if clock_time_is_valid(self.hour, self.minute, self.second) {
            Some(Time { hour: self.hour, minute: self.minute, second: self.second })
        } else {
            None
        }
    }

    pub fn datetime(&self) -> (r: Option<DateTime>)
        ensures
            r == self.spec_datetime(),
    {
        match (self.date(), self.time()) {
            (Some(d), Some(t)) => Some(
                DateTime {
                    year: d.year,
                    month: d.month,
                    day: d.day,
                    hour: t.hour,
                    minute: t.minute,
                    second: t.second,
                    nanosecond: 0,
                },
            ),
            _ => None,
        }
    }
}

/// Nanoseconds since the last clock update, `now - last_update` ticks,
/// capped at the largest `i64`.
pub open spec fn nanos_since(now: u64, last_update: u64) -> int {
    let n = uptime_nanos((now - last_update) as nat);
    if n > i64::MAX {
        i64::MAX as int
    } else {
        n as int
    }
}

/// The wall-clock time: the clock reading `rtc`, taken at the last update
/// interrupt (tick `last_update`), plus the time the tick counter measured
/// since then (now at tick `now`). `None` where the reading is no date and
/// time, or the sum leaves the calendar's range.
pub fn realtime(rtc: &Rtc, now: u64, last_update: u64) -> (r: Option<DateTime>)
    requires
        last_update <= now,
    ensures
        r == (match rtc.spec_datetime() {
            Some(dt) => plus_nanos(dt, nanos_since(now, last_update)),
            None => None,
        }),
{
    match rtc.datetime() {
        Some(dt) => {
            let n = uptime(now - last_update);
            let nanos: i64 = if n > i64::MAX as u128 {
                i64::MAX
            } else {
                n as i64
            };
            checked_add_nanos(dt, nanos)
        },
        None => None,
    }
}

} // verus!
