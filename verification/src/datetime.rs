//! MS-DOS date and time fields, and the conversion from calendar fields.
//!
//! An entry's modification time is stored on the wire as two 16-bit words.
//! The date word holds the day in bits 0-4, the month in bits 5-8 and the
//! year since 1980 in bits 9-15; the time word holds the second halved in
//! bits 0-4, the minute in bits 5-10 and the hour in bits 11-15.

use vstd::prelude::*;

verus! {

/// An entry's modification date and time, as the two DOS wire words.
#[derive(Clone, Copy, Debug, PartialEq, Eq, Structural)]
pub struct ZipDateTime {
    pub date: u16,
    pub time: u16,
}

/// The day of the month a DOS date word holds.
pub open spec fn spec_dos_day(date: u16) -> u16 {
    date & 0x1f
}

/// The month a DOS date word holds.
pub open spec fn spec_dos_month(date: u16) -> u16 {
    (date >> 5) & 0xf
}

/// The year a DOS date word holds.
pub open spec fn spec_dos_year(date: u16) -> int {
    1980 + (date >> 9)
}

/// The second a DOS time word holds (always even).
pub open spec fn spec_dos_second(time: u16) -> u16 {
    (time & 0x1f) << 1
}

/// The minute a DOS time word holds.
pub open spec fn spec_dos_minute(time: u16) -> u16 {
    (time >> 5) & 0x3f
}

/// The hour a DOS time word holds.
pub open spec fn spec_dos_hour(time: u16) -> u16 {
    time >> 11
}

/// Whether calendar fields lie in the ranges the DOS layout can carry.
pub open spec fn dos_representable(
    year: int,
    month: int,
    day: int,
    hour: int,
    minute: int,
    second: int,
) -> bool {
    &&& 1980 <= year <= 2107
    &&& 1 <= month <= 12
    &&& 1 <= day <= 31
    &&& 0 <= hour <= 23
    &&& 0 <= minute <= 59
    &&& 0 <= second <= 59
}

/// The DOS date word for in-range calendar fields.
pub open spec fn spec_dos_date_of(year: int, month: int, day: int) -> u16
    recommends
        dos_representable(year, month, day, 0, 0, 0),
{
    (((year - 1980) as u16) << 9) | ((month as u16) << 5) | (day as u16)
}

/// The DOS time word for in-range calendar fields.
pub open spec fn spec_dos_time_of(hour: int, minute: int, second: int) -> u16
    recommends
        dos_representable(1980, 1, 1, hour, minute, second),
{
    ((hour as u16) << 11) | ((minute as u16) << 5) | (((second / 2) as u16))
}

/// The ranges every DOS pair a clock read produces stays in: a real month
/// and day, and time fields a day can hold (the second is stored halved, so
/// it reads back even and at most 58).
pub open spec fn dos_fields_in_range(dt: ZipDateTime) -> bool {
    &&& 1 <= spec_dos_month(dt.date) <= 12
    &&& 1 <= spec_dos_day(dt.date) <= 31
    &&& spec_dos_hour(dt.time) <= 23
    &&& spec_dos_minute(dt.time) <= 59
    &&& spec_dos_second(dt.time) <= 58
}

impl ZipDateTime {
    /// The DOS pair for the given calendar fields; fields the layout cannot
    /// carry clamp to 1980-01-01 00:00:00.
    pub fn from_calendar(year: i32, month: u8, day: u8, hour: u8, minute: u8, second: u8) -> (r: ZipDateTime)
        ensures
            dos_representable(
                year as int,
                month as int,
                day as int,
                hour as int,
                minute as int,
                second as int,
            ) ==> r == (ZipDateTime {
                date: spec_dos_date_of(year as int, month as int, day as int),
                time: spec_dos_time_of(hour as int, minute as int, second as int),
            }),
            !dos_representable(
                year as int,
                month as int,
                day as int,
                hour as int,
                minute as int,
                second as int,
            ) ==> r == (ZipDateTime { date: 0x21, time: 0 }),
    {
        if 1980 <= year && year <= 2107 && 1 <= month && month <= 12 && 1 <= day && day <= 31 && hour <= 23
            && minute <= 59 && second <= 59 {
            let y: u16 = (year - 1980) as u16;
            let date: u16 = (y << 9) | ((month as u16) << 5) | (day as u16);
            let time: u16 = ((hour as u16) << 11) | ((minute as u16) << 5) | ((second as u16) >> 1);
            proof {
                let s16 = second as u16;
                assert(s16 < 60 ==> s16 >> 1 == s16 / 2) by (bit_vector);
            }
            ZipDateTime { date, time }
        } else {
            // 1980-01-01 00:00:00: day 1, month 1, year offset 0.
            ZipDateTime { date: 0x21, time: 0 }
        }
    }

    /// The calendar fields this DOS pair holds; a pair whose fields lie
    /// outside the calendar's ranges clamps to 1980-01-01 00:00:00.
    pub fn to_calendar(&self) -> (r: (i32, u8, u8, u8, u8, u8))
        ensures
            ({
                let year = spec_dos_year(self.date);
                let month = spec_dos_month(self.date);
                let day = spec_dos_day(self.date);
                let hour = spec_dos_hour(self.time);
                let minute = spec_dos_minute(self.time);
                let second = spec_dos_second(self.time);
                if dos_representable(
                    year,
                    month as int,
                    day as int,
                    hour as int,
                    minute as int,
                    second as int,
                ) {
                    r == (year as i32, month as u8, day as u8, hour as u8, minute as u8, second as u8)
                } else {
                    r == (1980i32, 1u8, 1u8, 0u8, 0u8, 0u8)
                }
            }),
    {
        let day: u16 = self.date & 0x1f;
        let month: u16 = (self.date >> 5) & 0xf;
        let year_off: u16 = self.date >> 9;
        let second: u16 = (self.time & 0x1f) << 1;
        let minute: u16 = (self.time >> 5) & 0x3f;
        let hour: u16 = self.time >> 11;
        proof {
            let d = self.date;
            let t = self.time;
            assert((d & 0x1f) < 32 && ((d >> 5) & 0xf) < 16 && (d >> 9) < 128 && (t & 0x1f) < 32 && ((t >> 5)
                & 0x3f) < 64 && (t >> 11) < 32) by (bit_vector);
        }
        if 1 <= month && month <= 12 && 1 <= day && hour <= 23 && minute <= 59 && second <= 59 {
            (1980i32 + year_off as i32, month as u8, day as u8, hour as u8, minute as u8, second as u8)
        } else {
            (1980i32, 1u8, 1u8, 0u8, 0u8, 0u8)
        }
    }

    /// Relies on `chrono::Utc::now` and its calendar accessors: the current
    /// UTC calendar fields, each within its documented range.
    #[verifier::external_body]
    pub fn now_utc() -> (r: (i32, u8, u8, u8, u8, u8))
        ensures
            1 <= r.1 <= 12,
            1 <= r.2 <= 31,
            r.3 <= 23,
            r.4 <= 59,
            r.5 <= 59,
    {
        let now = chrono::Utc::now();
        let date = (chrono::Datelike::year(&now), chrono::Datelike::month(&now) as u8, chrono::Datelike::day(&now) as u8);
        let time = (chrono::Timelike::hour(&now) as u8, chrono::Timelike::minute(&now) as u8, chrono::Timelike::second(&now) as u8);
        (date.0, date.1, date.2, time.0, time.1, time.2)
    }

    /// The DOS pair for the present moment in UTC.  Whatever the clock
    /// read, the stored fields stay in calendar range.
    pub fn now() -> (r: ZipDateTime)
        ensures
            dos_fields_in_range(r),
    {
        let (year, month, day, hour, minute, second) = Self::now_utc();
        let r = Self::from_calendar(year, month, day, hour, minute, second);
        proof {
            if dos_representable(
                year as int,
                month as int,
                day as int,
                hour as int,
                minute as int,
                second as int,
            ) {
                lemma_dos_roundtrip(
                    year as int,
                    month as int,
                    day as int,
                    hour as int,
                    minute as int,
                    second as int,
                );
            } else {
                lemma_dos_epoch_in_range();
            }
        }
        r
    }
}

/// Converting in-range calendar fields to the DOS pair and back returns the
/// fields unchanged, with the second rounded down to even.
pub proof fn lemma_dos_roundtrip(year: int, month: int, day: int, hour: int, minute: int, second: int)
    requires
        dos_representable(year, month, day, hour, minute, second),
    ensures
        spec_dos_year(spec_dos_date_of(year, month, day)) == year,
        spec_dos_month(spec_dos_date_of(year, month, day)) == month,
        spec_dos_day(spec_dos_date_of(year, month, day)) == day,
        spec_dos_hour(spec_dos_time_of(hour, minute, second)) == hour,
        spec_dos_minute(spec_dos_time_of(hour, minute, second)) == minute,
        spec_dos_second(spec_dos_time_of(hour, minute, second)) == 2 * (second / 2),
{
    let y: u16 = (year - 1980) as u16;
    let mo: u16 = month as u16;
    let d: u16 = day as u16;
    let h: u16 = hour as u16;
    let mi: u16 = minute as u16;
    let s2: u16 = (second / 2) as u16;
    assert(spec_dos_date_of(year, month, day) == (y << 9) | (mo << 5) | d);
    assert(spec_dos_time_of(hour, minute, second) == (h << 11) | (mi << 5) | s2);
    assert(y < 128 && 1 <= mo && mo <= 12 && 1 <= d && d <= 31 ==> (((y << 9) | (mo << 5) | d) >> 9 == y
        && (((y << 9) | (mo << 5) | d) >> 5) & 0xf == mo && ((y << 9) | (mo << 5) | d) & 0x1f == d))
        by (bit_vector);
    assert(h < 24 && mi < 60 && s2 < 30 ==> (((h << 11) | (mi << 5) | s2) >> 11 == h && (((h << 11) | (mi
        << 5) | s2) >> 5) & 0x3f == mi && (((h << 11) | (mi << 5) | s2) & 0x1f) << 1 == s2 << 1))
        by (bit_vector);
    assert(s2 < 30 ==> s2 << 1 == 2 * s2) by (bit_vector);
}

/// The clamped epoch pair, 1980-01-01 00:00:00, lies in calendar range.
pub proof fn lemma_dos_epoch_in_range()
    ensures
        dos_fields_in_range(ZipDateTime { date: 0x21, time: 0 }),
{
    assert((0x21u16 >> 5) & 0xf == 1 && 0x21u16 & 0x1f == 1 && 0u16 >> 11 == 0 && (0u16 >> 5)
        & 0x3f == 0 && (0u16 & 0x1f) << 1 == 0) by (bit_vector);
}

} // verus!
