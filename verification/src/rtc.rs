//! The real-time clock: its registers decoded into a date and time.

use vstd::prelude::*;

use chrono::{Datelike, Timelike};

verus! {

/// The registers of the clock as read: seconds (0x00), minutes (0x02),
/// hours (0x04), day of the month (0x07), month (0x08), year (0x09) and
/// status register B (0x0B).
#[derive(Debug, Clone, Copy, PartialEq, Eq, Structural)]
pub struct RtcRegisters {
    pub second: u8,
    pub minute: u8,
    pub hour: u8,
    pub day: u8,
    pub month: u8,
    pub year: u8,
    pub register_b: u8,
}

/// The clock registers to read, in order.
pub const TIME_REGISTERS: [u8; 7] = [0x00, 0x02, 0x04, 0x07, 0x08, 0x09, 0x0B];

/// A binary-coded decimal byte as a number.
pub open spec fn from_bcd(x: u8) -> u8 {
    ((x & 0x0F) + ((x / 16) * 10)) as u8
}

/// The time fields after decoding: binary-coded decimal unless register B
/// says binary (bit 2), where the hour keeps its PM bit (bit 7); then a
/// 12-hour clock (bit 1 of register B clear) with the PM bit set moves to
/// the 24-hour clock.
pub open spec fn decoded(r: RtcRegisters) -> (u8, u8, u8, u8, u8, u8) {
    let bcd = r.register_b & 0x04 == 0;
    let second = if bcd { from_bcd(r.second) } else { r.second };
    let minute = if bcd { from_bcd(r.minute) } else { r.minute };
    let hour = if bcd {
        (((r.hour & 0x0F) + (((r.hour & 0x70) / 16) * 10)) as u8) | (r.hour & 0x80)
    } else {
        r.hour
    };
    let day = if bcd { from_bcd(r.day) } else { r.day };
    let month = if bcd { from_bcd(r.month) } else { r.month };
    let year = if bcd { from_bcd(r.year) } else { r.year };
    let hour = if r.register_b & 0x02 == 0 && hour & 0x80 != 0 {
        (((hour & 0x7F) + 12) % 24) as u8
    } else {
        hour
    };
    (second, minute, hour, day, month, year)
}

/// The seconds from the start of the year to the start of `month`; 0 for
/// a month that does not exist.  February always has 28 days here.
pub open spec fn month_seconds(month: u8) -> u64 {
    if month == 1 {
        0
    } else if month == 2 {
        2678400
    } else if month == 3 {
        5097600
    } else if month == 4 {
        7776000
    } else if month == 5 {
        10368000
    } else if month == 6 {
        13046400
    } else if month == 7 {
        15638400
    } else if month == 8 {
        18316800
    } else if month == 9 {
        20995200
    } else if month == 10 {
        23587200
    } else if month == 11 {
        26265600
    } else if month == 12 {
        28857600
    } else {
        0
    }
}

/// The seconds since 1970 that the decoded fields stand for, the year
/// counted from 2000, with a leap day every fourth year save the centuries
/// not divisible by 400.
pub open spec fn timestamp_of(f: (u8, u8, u8, u8, u8, u8)) -> int {
    let (second, minute, hour, day, month, year) = f;
    let year = year + 2000;
    (year - 1970) * 31536000 + ((year - 1969) / 4) * 86400 - ((year - 1901) / 100) * 86400 + ((year - 1601)
        / 400) * 86400 + month_seconds(month) + (day - 1) * 86400 + hour * 3600 + minute * 60 + second
}

/// The days of month `m` in a year of 365 days.
pub open spec fn days_in_month(m: int) -> int {
    if m == 2 {
        28
    } else if m == 4 || m == 6 || m == 9 || m == 11 {
        30
    } else {
        31
    }
}

/// Whether `year` is a leap year of the Gregorian calendar.
pub open spec fn leap_year(year: int) -> bool {
    year % 4 == 0 && (year % 100 != 0 || year % 400 == 0)
}

/// How the timestamp of decoded fields (second, minute, hour, day, month,
/// year of the century) grows: 2000-01-01 00:00:00 is 946684800; one year
/// more adds 365 days, or 366 when the year left behind is a leap year;
/// each month adds the days of the month before it in a year of 365 days
/// (so a date in July lies 181 days after one in January); one day adds a
/// day, one hour 3600 seconds, one minute 60 and one second 1.
pub proof fn lemma_timestamp_counts_the_calendar(f: (u8, u8, u8, u8, u8, u8))
    ensures
        timestamp_of((0, 0, 0, 1, 1, 0)) == 946684800,
        f.5 < 255 ==> timestamp_of((f.0, f.1, f.2, f.3, 1, (f.5 + 1) as u8)) == timestamp_of((f.0, f.1, f.2, f.3, 1, f.5))
            + 86400 * (if leap_year(2000 + f.5) { 366int } else { 365int }),
        2 <= f.4 <= 12 ==> timestamp_of(f) == timestamp_of((f.0, f.1, f.2, f.3, (f.4 - 1) as u8, f.5)) + 86400
            * days_in_month(f.4 - 1),
        f.3 < 255 ==> timestamp_of((f.0, f.1, f.2, (f.3 + 1) as u8, f.4, f.5)) == timestamp_of(f) + 86400,
        f.2 < 255 ==> timestamp_of((f.0, f.1, (f.2 + 1) as u8, f.3, f.4, f.5)) == timestamp_of(f) + 3600,
        f.1 < 255 ==> timestamp_of((f.0, (f.1 + 1) as u8, f.2, f.3, f.4, f.5)) == timestamp_of(f) + 60,
        f.0 < 255 ==> timestamp_of(((f.0 + 1) as u8, f.1, f.2, f.3, f.4, f.5)) == timestamp_of(f) + 1,
{
    let y = f.5 + 2000;
    assert(((y + 1 - 1969) / 4 - (y - 1969) / 4 == 1) == (y % 4 == 0));
    assert(((y + 1 - 1901) / 100 - (y - 1901) / 100 == 1) == (y % 100 == 0));
    assert(((y + 1 - 1601) / 400 - (y - 1601) / 400 == 1) == (y % 400 == 0));
    assert(0 <= (y + 1 - 1969) / 4 - (y - 1969) / 4 <= 1);
    assert(0 <= (y + 1 - 1901) / 100 - (y - 1901) / 100 <= 1);
    assert(0 <= (y + 1 - 1601) / 400 - (y - 1601) / 400 <= 1);
}

/// Decodes a binary-coded decimal byte.
fn bcd(x: u8) -> (r: u8)
    ensures
        r == from_bcd(x),
{
    assert((x & 0x0F) <= 15) by (bit_vector);
    (x & 0x0F) + ((x / 16) * 10)
}

/// The time fields that the registers hold: second, minute, hour, day,
/// month and year of the century.
pub fn decode(r: RtcRegisters) -> (f: (u8, u8, u8, u8, u8, u8))
    ensures
        f == decoded(r),
{
    let mut second = r.second;
    let mut minute = r.minute;
    let mut hour = r.hour;
    let mut day = r.day;
    let mut month = r.month;
    let mut year = r.year;
    if (r.register_b & 0x04) == 0 {
        second = bcd(second);
        minute = bcd(minute);
        assert((hour & 0x0F) <= 15 && (hour & 0x70) <= 0x70) by (bit_vector);
        hour = ((hour & 0x0F) + (((hour & 0x70) / 16) * 10)) | (hour & 0x80);
        day = bcd(day);
        month = bcd(month);
        year = bcd(year);
    }
    if (r.register_b & 0x02) == 0 && (hour & 0x80) != 0 {
        assert((hour & 0x7F) <= 0x7F) by (bit_vector);
        hour = ((hour & 0x7F) + 12) % 24;
    }
    (second, minute, hour, day, month, year)
}

/// The seconds since 1970 that the registers stand for.  A day of 0 has no
/// start, and the kernel stops on it.
pub fn timestamp(r: RtcRegisters) -> (t: u64)
    requires
        decoded(r).3 >= 1,
    ensures
        t == timestamp_of(decoded(r)),
{
    let (second, minute, hour, day, month, year) = decode(r);
    let year = year as u64 + 2000;
    let month_offset: u64 = if month == 1 {
        0
    } else if month == 2 {
        2678400
    } else if month == 3 {
        5097600
    } else if month == 4 {
        7776000
    } else if month == 5 {
        10368000
    } else if month == 6 {
        13046400
    } else if month == 7 {
        15638400
    } else if month == 8 {
        18316800
    } else if month == 9 {
        20995200
    } else if month == 10 {
        23587200
    } else if month == 11 {
        26265600
    } else if month == 12 {
        28857600
    } else {
        0
    };
    (year - 1970) * 31536000 + ((year - 1969) / 4) * 86400 - ((year - 1901) / 100) * 86400 + ((year - 1601) / 400)
        * 86400 + month_offset + (day as u64 - 1) * 86400 + hour as u64 * 3600 + minute as u64 * 60 + second as u64
}

/// A date and time of the proleptic Gregorian calendar, without a time zone.
#[derive(Debug, Clone, Copy, PartialEq, Eq, Structural)]
pub struct DateTime {
    pub year: i32,
    pub month: u32,
    pub day: u32,
    pub hour: u32,
    pub minute: u32,
    pub second: u32,
}

impl DateTime {
    /// The fields in order.
    pub open spec fn fields(self) -> (i32, u32, u32, u32, u32, u32) {
        (self.year, self.month, self.day, self.hour, self.minute, self.second)
    }
}

/// The date and time `secs` seconds after the start of 1970, when chrono
/// can represent it.
pub uninterp spec fn utc_datetime(secs: i64) -> Option<(i32, u32, u32, u32, u32, u32)>;

/// The last second of the year 9999, counted from the start of 1970.
pub const LAST_SECOND_OF_9999: i64 = 253402300799;

/// The date of the proleptic Gregorian calendar that lies `days` days after
/// 1970-01-01, for `days >= 0`: year, month and day.  Days are counted from
/// 0000-03-01 in eras of 400 years, each year from March on, so that the
/// leap day comes last.
pub open spec fn civil_from_days(days: int) -> (int, int, int) {
    let z = days + 719468;
    let era = z / 146097;
    let doe = z - era * 146097;
    let yoe = (doe - doe / 1460 + doe / 36524 - doe / 146096) / 365;
    let doy = doe - (365 * yoe + yoe / 4 - yoe / 100);
    let mp = (5 * doy + 2) / 153;
    let day = doy - (153 * mp + 2) / 5 + 1;
    let month = if mp < 10 { mp + 3 } else { mp - 9 };
    let year = yoe + era * 400 + if month <= 2 { 1int } else { 0int };
    (year, month, day)
}

/// The date and time, in UTC, `secs` seconds after the start of 1970, for
/// `secs >= 0`: year, month, day, hour, minute and second.
pub open spec fn civil_time(secs: int) -> (i32, u32, u32, u32, u32, u32) {
    let (year, month, day) = civil_from_days(secs / 86400);
    let rest = secs % 86400;
    (year as i32, month as u32, day as u32, (rest / 3600) as u32, ((rest % 3600) / 60) as u32, (rest % 60) as u32)
}

/// `chrono::NaiveDateTime::from_timestamp_opt(secs, 0)`, its date and time
/// fields read out.  The result is named `utc_datetime`; for the seconds from
/// the start of 1970 to the end of the year 9999, which chrono represents,
/// it is the date and time of the proleptic Gregorian calendar, `civil_time`.
#[verifier::external_body]
#[allow(deprecated)]
fn datetime_from_timestamp(secs: i64) -> (r: Option<DateTime>)
    ensures
        match r {
            Some(d) => utc_datetime(secs) == Some(d.fields()),
            None => utc_datetime(secs) is None,
        },
        0 <= secs <= LAST_SECOND_OF_9999 ==> r is Some && r.unwrap().fields() == civil_time(secs as int),
{
    chrono::NaiveDateTime::from_timestamp_opt(secs, 0).map(|t| DateTime {
        year: t.year(),
        month: t.month(),
        day: t.day(),
        hour: t.hour(),
        minute: t.minute(),
        second: t.second(),
    })
}

/// The date and time that the registers stand for: the calendar date and
/// time of their timestamp; nothing where the day is 0, where the kernel
/// stops.  Every timestamp that the registers can give lies between 2000
/// and the year 2256, which chrono represents.
pub fn get_time(r: RtcRegisters) -> (t: Option<DateTime>)
    ensures
        decoded(r).3 == 0 ==> t is None,
        decoded(r).3 >= 1 ==> t is Some && t.unwrap().fields() == civil_time(timestamp_of(decoded(r))),
{
    let (_, _, _, day, _, _) = decode(r);
    if day == 0 {
        return None;
    }
    let unix = timestamp(r);
    assert(0 <= unix <= LAST_SECOND_OF_9999);
    datetime_from_timestamp(unix as i64)
}

} // verus!
