//! Creation times packed in 32 bits. The low half is the date: bits 15-9 the
//! year after 1980, bits 8-5 the month, bits 4-0 the day. The high half is the
//! time: bits 15-11 the hour, bits 10-5 the minute, bits 4-0 half the second.
//! No time zone is stored.
use vstd::prelude::*;

use crate::text::{dec, pad_left, push_dec, push_padded, string_of};

verus! {

/// A calendar date and time of day, with no time zone.
#[derive(Clone, Copy, Debug, PartialEq, Eq)]
pub struct DateTime {
    pub year: u16,
    pub month: u8,
    pub day: u8,
    pub hour: u8,
    pub minute: u8,
    pub second: u8,
}

pub open spec fn packed_year(t: u32) -> u32 {
    (((t >> 9u32) & 0x7Fu32) + 1980) as u32
}

pub open spec fn packed_month(t: u32) -> u32 {
    (t >> 5u32) & 0xFu32
}

pub open spec fn packed_day(t: u32) -> u32 {
    t & 0x1Fu32
}

pub open spec fn packed_hour(t: u32) -> u32 {
    (t >> 27u32) & 0x1Fu32
}

pub open spec fn packed_minute(t: u32) -> u32 {
    (t >> 21u32) & 0x3Fu32
}

pub open spec fn packed_second(t: u32) -> u32 {
    (((t >> 16u32) & 0x1Fu32) * 2) as u32
}

pub open spec fn is_leap_year(y: int) -> bool {
    (y % 4 == 0 && y % 100 != 0) || y % 400 == 0
}

pub open spec fn days_in_month(y: int, m: int) -> int {
    if m == 2 {
        if is_leap_year(y) {
            29
        } else {
            28
        }
    } else if m == 4 || m == 6 || m == 9 || m == 11 {
        30
    } else {
        31
    }
}

/// The day exists in the Gregorian calendar.
pub open spec fn valid_date(y: int, m: int, d: int) -> bool {
    1 <= m <= 12 && 1 <= d <= days_in_month(y, m)
}

/// The time exists on a day without leap seconds.
pub open spec fn valid_time(h: int, mi: int, s: int) -> bool {
    0 <= h < 24 && 0 <= mi < 60 && 0 <= s < 60
}

/// The packed value names a date and time that exist.
pub open spec fn timestamp_valid(t: u32) -> bool {
    valid_date(packed_year(t) as int, packed_month(t) as int, packed_day(t) as int) && valid_time(
        packed_hour(t) as int,
        packed_minute(t) as int,
        packed_second(t) as int,
    )
}

/// The date and time a packed value names.
pub open spec fn unpacked(t: u32) -> DateTime {
    DateTime {
        year: packed_year(t) as u16,
        month: packed_month(t) as u8,
        day: packed_day(t) as u8,
        hour: packed_hour(t) as u8,
        minute: packed_minute(t) as u8,
        second: packed_second(t) as u8,
    }
}

/// The packed value of a date and time: each field cut to its bits, the year
/// counted from 1980, the second halved.
pub open spec fn packed(dt: DateTime) -> u32 {
    let year = ((dt.year as int - 1980) % 128) as u32;
    let date = (year << 9u32) | ((dt.month as u32 & 0xFu32) << 5u32) | (dt.day as u32 & 0x1Fu32);
    let time = ((dt.hour as u32 & 0x1Fu32) << 27u32) | ((dt.minute as u32 & 0x3Fu32) << 21u32) | (((
    dt.second as u32) / 2) << 16u32);
    date | time
}

/// Relies on chrono's `NaiveDate::from_ymd_opt`: it gives a date exactly for
/// the days of the (proleptic Gregorian) calendar within its range, which
/// holds every year from 1980 to 2107.
#[verifier::external_body]
fn date_exists(year: u16, month: u8, day: u8) -> (r: bool)
    requires
        1980 <= year <= 2107,
    ensures
        r == valid_date(year as int, month as int, day as int),
{
    chrono::NaiveDate::from_ymd_opt(year as i32, month as u32, day as u32).is_some()
}

/// Relies on chrono's `NaiveTime::from_hms_opt`: it gives a time exactly for
/// an hour below 24, a minute below 60 and a second below 60.
#[verifier::external_body]
fn time_exists(hour: u8, minute: u8, second: u8) -> (r: bool)
    ensures
        r == valid_time(hour as int, minute as int, second as int),
{
    chrono::NaiveTime::from_hms_opt(hour as u32, minute as u32, second as u32).is_some()
}

/// Days from 1970-01-01 to a date of the Gregorian calendar, for years from 1
/// on: whole 400-year eras, then years of the era counted from March.
pub open spec fn days_from_civil(y: int, m: int, d: int) -> int {
    let yy = if m <= 2 {
        y - 1
    } else {
        y
    };
    let era = yy / 400;
    let yoe = yy - era * 400;
    let mp = if m > 2 {
        m - 3
    } else {
        m + 9
    };
    let doy = (153 * mp + 2) / 5 + d - 1;
    let doe = yoe * 365 + yoe / 4 - yoe / 100 + doy;
    era * 146097 + doe - 719468
}

/// Seconds since 1970-01-01 00:00:00 of a date and time taken as UTC.
pub open spec fn utc_seconds_of(y: int, mo: int, d: int, h: int, mi: int, s: int) -> int {
    days_from_civil(y, mo, d) * 86400 + h * 3600 + mi * 60 + s
}

/// Relies on chrono's `NaiveDate::and_hms_opt`, `NaiveDateTime::and_utc` and
/// `DateTime::timestamp`: the seconds since the Unix epoch of the given date
/// and time taken as UTC, which the calendar arithmetic above states.
#[verifier::external_body]
fn utc_seconds(dt: &DateTime) -> (r: i64)
    requires
        valid_date(dt.year as int, dt.month as int, dt.day as int),
        valid_time(dt.hour as int, dt.minute as int, dt.second as int),
        1980 <= dt.year <= 2107,
    ensures
        r == utc_seconds_of(
            dt.year as int,
            dt.month as int,
            dt.day as int,
            dt.hour as int,
            dt.minute as int,
            dt.second as int,
        ),
{
    chrono::NaiveDate::from_ymd_opt(dt.year as i32, dt.month as u32, dt.day as u32).unwrap().and_hms_opt(
        dt.hour as u32,
        dt.minute as u32,
        dt.second as u32,
    ).unwrap().and_utc().timestamp()
}

/// The date and time a packed value names, where they exist.
pub fn decode_timestamp(t: u32) -> (r: Option<DateTime>)
    ensures
        r is Some <==> timestamp_valid(t),
        r matches Some(dt) ==> dt == unpacked(t),
{
    assert((t >> 9u32) & 0x7Fu32 <= 127) by (bit_vector);
    assert((t >> 5u32) & 0xFu32 <= 15) by (bit_vector);
    assert(t & 0x1Fu32 <= 31) by (bit_vector);
    assert((t >> 27u32) & 0x1Fu32 <= 31) by (bit_vector);
    assert((t >> 21u32) & 0x3Fu32 <= 63) by (bit_vector);
    assert((t >> 16u32) & 0x1Fu32 <= 31) by (bit_vector);
    let year = (((t >> 9u32) & 0x7Fu32) + 1980) as u16;
    let month = ((t >> 5u32) & 0xFu32) as u8;
    let day = (t & 0x1Fu32) as u8;
    let hour = ((t >> 27u32) & 0x1Fu32) as u8;
    let minute = ((t >> 21u32) & 0x3Fu32) as u8;
    let second = (((t >> 16u32) & 0x1Fu32) * 2) as u8;
    if date_exists(year, month, day) && time_exists(hour, minute, second) {
        Some(DateTime { year, month, day, hour, minute, second })
    } else {
        None
    }
}

/// The packed value of a date and time. A year outside 1980 to 2107 keeps only
/// its low seven bits after 1980, and an odd second is rounded down.
pub fn encode_timestamp(dt: &DateTime) -> (r: u32)
    ensures
        r == packed(*dt),
{
    let year = ((dt.year as u32) + 68) % 128;
    let date = (year << 9u32) | ((dt.month as u32 & 0xFu32) << 5u32) | (dt.day as u32 & 0x1Fu32);
    let time = ((dt.hour as u32 & 0x1Fu32) << 27u32) | ((dt.minute as u32 & 0x3Fu32) << 21u32) | (((
    dt.second as u32) / 2) << 16u32);
    date | time
}

/// Packing what a packed value names gives that value back.
pub proof fn law_timestamp_round_trip(t: u32)
    requires
        timestamp_valid(t),
    ensures
        packed(unpacked(t)) == t,
{
    let y = (t >> 9u32) & 0x7Fu32;
    let mo = (t >> 5u32) & 0xFu32;
    let d = t & 0x1Fu32;
    let h = (t >> 27u32) & 0x1Fu32;
    let mi = (t >> 21u32) & 0x3Fu32;
    let s = (t >> 16u32) & 0x1Fu32;
    assert(y <= 127 && mo <= 15 && d <= 31 && h <= 31 && mi <= 63 && s <= 31) by (bit_vector)
        requires
            y == (t >> 9u32) & 0x7Fu32,
            mo == (t >> 5u32) & 0xFu32,
            d == t & 0x1Fu32,
            h == (t >> 27u32) & 0x1Fu32,
            mi == (t >> 21u32) & 0x3Fu32,
            s == (t >> 16u32) & 0x1Fu32,
    ;
    let dt = unpacked(t);
    assert((dt.year as int - 1980) % 128 == y);
    assert(dt.month as u32 == mo && dt.day as u32 == d && dt.hour as u32 == h);
    assert(dt.minute as u32 == mi && (dt.second as u32) / 2 == s);
    assert(((y << 9u32) | ((mo & 0xFu32) << 5u32) | (d & 0x1Fu32)) | (((h & 0x1Fu32) << 27u32) | ((mi
        & 0x3Fu32) << 21u32) | (s << 16u32)) == t) by (bit_vector)
        requires
            y == (t >> 9u32) & 0x7Fu32,
            mo == (t >> 5u32) & 0xFu32,
            d == t & 0x1Fu32,
            h == (t >> 27u32) & 0x1Fu32,
            mi == (t >> 21u32) & 0x3Fu32,
            s == (t >> 16u32) & 0x1Fu32,
    ;
}

/// A packed value whose month is 0 or above 12, whose day is 0, whose hour is
/// 24 or more or whose minute is 60 or more names no date and time.
pub proof fn law_timestamp_out_of_range(t: u32)
    requires
        packed_month(t) == 0 || packed_month(t) > 12 || packed_day(t) == 0 || packed_hour(t) >= 24
            || packed_minute(t) >= 60,
    ensures
        !timestamp_valid(t),
{
}

/// `DD-MM-YY HH:MM:SS`, each field in two digits.
pub open spec fn timestamp_text(dt: DateTime) -> Seq<char> {
    pad_left(dec(dt.day as nat), '0', 2) + "-"@ + pad_left(dec(dt.month as nat), '0', 2) + "-"@
        + pad_left(dec((dt.year % 100) as nat), '0', 2) + " "@ + pad_left(
        dec(dt.hour as nat),
        '0',
        2,
    ) + ":"@ + pad_left(dec(dt.minute as nat), '0', 2) + ":"@ + pad_left(
        dec(dt.second as nat),
        '0',
        2,
    )
}

fn push_two_digits(out: &mut Vec<char>, n: u8)
    ensures
        final(out)@ == old(out)@ + pad_left(dec(n as nat), '0', 2),
{
    let mut digits: Vec<char> = Vec::new();
    push_dec(&mut digits, n as u64);
    assert(digits@ =~= dec(n as nat));
    push_padded(out, &digits, '0', 2);
}

/// Conversion from and to packed creation times.
pub trait FromPSYQTimestamp: Sized {
    /// The value a valid packed time names.
    spec fn unpacked_value(t: u32) -> Self;

    /// The packed time of a value.
    spec fn packed_value(&self) -> u32;

    /// The value a packed time names, where it names one.
    fn from_psyq_timestamp(t: u32) -> (r: Option<Self>)
        ensures
            r is Some <==> timestamp_valid(t),
            r matches Some(v) ==> v == Self::unpacked_value(t),
    ;

    /// The packed time of this value.
    fn to_psyq_timestamp(&self) -> (r: u32)
        ensures
            r == self.packed_value(),
    ;
}

impl FromPSYQTimestamp for DateTime {
    open spec fn unpacked_value(t: u32) -> DateTime {
        unpacked(t)
    }

    open spec fn packed_value(&self) -> u32 {
        packed(*self)
    }

    fn from_psyq_timestamp(t: u32) -> Option<DateTime> {
        decode_timestamp(t)
    }

    fn to_psyq_timestamp(&self) -> u32 {
        encode_timestamp(self)
    }
}

impl DateTime {
    /// This date and time as `DD-MM-YY HH:MM:SS`.
    pub fn to_text(&self) -> (r: String)
        ensures
            r@ == timestamp_text(*self),
    {
        let mut out: Vec<char> = Vec::new();
        push_two_digits(&mut out, self.day);
        out.push('-');
        push_two_digits(&mut out, self.month);
        out.push('-');
        push_two_digits(&mut out, (self.year % 100) as u8);
        out.push(' ');
        push_two_digits(&mut out, self.hour);
        out.push(':');
        push_two_digits(&mut out, self.minute);
        out.push(':');
        push_two_digits(&mut out, self.second);
        proof {
            reveal_strlit("-");
            reveal_strlit(" ");
            reveal_strlit(":");
        }
        assert(out@ =~= timestamp_text(*self));
        string_of(out)
    }

    /// Seconds since the Unix epoch, taking this date and time as UTC.
    pub fn utc_seconds(&self) -> (r: i64)
        requires
            valid_date(self.year as int, self.month as int, self.day as int),
            valid_time(self.hour as int, self.minute as int, self.second as int),
            1980 <= self.year <= 2107,
        ensures
            r == utc_seconds_of(
                self.year as int,
                self.month as int,
                self.day as int,
                self.hour as int,
                self.minute as int,
                self.second as int,
            ),
    {
        utc_seconds(self)
    }
}

} // verus!
