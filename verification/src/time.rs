//! Timekeeping: the tick counter, uptime split into seconds, the CMOS
//! real-time clock decoding, Unix-time conversion and the `ctime` text.
//!
//! Port I/O to the CMOS and the PIT, and the floating-point tick period,
//! stay with the caller, which passes in the raw register values and the
//! uptime in milliseconds.
use vstd::prelude::*;
use vstd::string::StringSliceAdditionalSpecFns;
use crate::bytes::{decimal, push_decimal, push_str};

verus! {

pub struct Time {
    pub second: usize,
    pub millisecond: usize,
}

/// Uptime, taken as a `usize` (truncated where `usize` is narrower than 64
/// bits), split into whole seconds and the milliseconds past them.
pub fn get_timestamp(uptime_ms: u64) -> (r: Time)
    ensures
        r.second == (uptime_ms as usize) / 1000,
        r.millisecond == (uptime_ms as usize) % 1000,
{
    let total_ms = uptime_ms as usize;
    Time { second: total_ms / 1000, millisecond: total_ms % 1000 }
}

/// The PIT tick counter and the RTC sample that anchors wall-clock time.
pub struct Clock {
    pub jiffies: usize,
    /// Unix seconds at the RTC sample; 0 until a sample succeeded.
    pub rtc_base_epoch: usize,
    /// Uptime in milliseconds at the RTC sample.
    pub rtc_base_uptime_ms: usize,
}

impl Clock {
    pub fn new() -> (r: Self)
        ensures
            r.jiffies == 0,
            r.rtc_base_epoch == 0,
            r.rtc_base_uptime_ms == 0,
    {
        Clock { jiffies: 0, rtc_base_epoch: 0, rtc_base_uptime_ms: 0 }
    }

    /// One more timer interrupt (the counter wraps).
    pub fn jiffies_inc(&mut self)
        ensures
            final(self).jiffies == (if old(self).jiffies == usize::MAX { 0 } else { old(self).jiffies + 1 }),
            final(self).rtc_base_epoch == old(self).rtc_base_epoch,
            final(self).rtc_base_uptime_ms == old(self).rtc_base_uptime_ms,
    {
        self.jiffies = self.jiffies.wrapping_add(1);
    }

    pub fn jiffies(&self) -> (r: usize)
        ensures
            r == self.jiffies,
    {
        self.jiffies
    }

    /// No RTC sample anchors wall-clock time yet.
    pub fn needs_rtc(&self) -> (r: bool)
        ensures
            r == (self.rtc_base_epoch == 0),
    {
        self.rtc_base_epoch == 0
    }

    /// Unix time in milliseconds. Once anchored it is the anchor plus the
    /// uptime since; before, `epoch` (the RTC reading, when it succeeded)
    /// becomes the anchor, and without one the uptime is returned and the
    /// next call tries again.
    pub fn realtime_ms(&mut self, now_ms: u64, epoch: Option<u64>) -> (r: u64)
        requires
            old(self).rtc_base_epoch * 1000 + now_ms <= u64::MAX,
            epoch matches Some(e) ==> (e as usize) * 1000 + now_ms <= u64::MAX,
        ensures
            old(self).rtc_base_epoch != 0 ==> {
                &&& final(self).rtc_base_epoch == old(self).rtc_base_epoch
                &&& final(self).rtc_base_uptime_ms == old(self).rtc_base_uptime_ms
                &&& r == old(self).rtc_base_epoch * 1000 + sat_sub(now_ms, old(self).rtc_base_uptime_ms as u64)
            },
            old(self).rtc_base_epoch == 0 && epoch is None ==> {
                &&& final(self).rtc_base_epoch == 0
                &&& final(self).rtc_base_uptime_ms == old(self).rtc_base_uptime_ms
                &&& r == now_ms
            },
            old(self).rtc_base_epoch == 0 && epoch is Some ==> {
                &&& final(self).rtc_base_epoch == epoch->0 as usize
                &&& final(self).rtc_base_uptime_ms == now_ms as usize
                &&& r == (epoch->0 as usize) * 1000 + sat_sub(now_ms, (now_ms as usize) as u64)
            },
            final(self).jiffies == old(self).jiffies,
    {
        let mut base = self.rtc_base_epoch;
        if base == 0 {
            let now_up = now_ms as usize;
            match epoch {
                Some(e) => {
                    let e = e as usize;
                    self.rtc_base_uptime_ms = now_up;
                    self.rtc_base_epoch = e;
                    base = e;
                },
                None => {
                    return now_ms;
                },
            }
        }
        let base_up = self.rtc_base_uptime_ms as u64;
        (base as u64) * 1000 + now_ms.saturating_sub(base_up)
    }
}

pub open spec fn sat_sub(a: u64, b: u64) -> u64 {
    if a >= b { (a - b) as u64 } else { 0 }
}

/// Binary value of a packed-BCD byte.
pub open spec fn spec_bcd(v: u8) -> u8 {
    (v % 16 + (v / 16) * 10) as u8
}

pub fn bcd(v: u8) -> (r: u8)
    ensures
        r == spec_bcd(v),
{
    assert((v & 0x0f == v % 16) && (v >> 4u8 == v / 16)) by (bit_vector);
    (v & 0x0f) + ((v >> 4u8) * 10)
}

#[derive(Debug, Clone, Copy, PartialEq, Eq, Structural)]
pub struct RtcDateTime {
    pub second: u8,
    pub minute: u8,
    pub hour: u8,
    pub day: u8,
    pub month: u8,
    pub year: u16,
}

/// The CMOS registers of one RTC reading, as read from ports 0x70/0x71.
#[derive(Debug, Clone, Copy, PartialEq, Eq, Structural)]
pub struct RtcRegisters {
    pub second: u8,
    pub minute: u8,
    pub hour: u8,
    pub day: u8,
    pub month: u8,
    pub year: u8,
    pub status_b: u8,
}

/// Decode the registers: packed BCD unless status B bit 2 is set, 12-hour
/// clock unless bit 1 is set (hour bit 7 marks PM), two-digit years from
/// 1970 on; out-of-range fields give `None`.
pub open spec fn spec_decode_rtc(r: RtcRegisters) -> Option<RtcDateTime> {
    let binary = r.status_b & 0x04 != 0;
    let h0 = r.hour & 0x7f;
    let conv = |v: u8| if binary { v } else { spec_bcd(v) };
    let (s, mi, h1, d, mo, y) = (conv(r.second), conv(r.minute), conv(h0), conv(r.day), conv(r.month), conv(r.year));
    let h = if r.status_b & 0x02 == 0 {
        if r.hour & 0x80 != 0 { (h1 % 12 + 12) as u8 } else { h1 % 12 }
    } else {
        h1
    };
    let year: u16 = if y >= 70 { (1900 + y) as u16 } else { (2000 + y) as u16 };
    if s > 59 || mi > 59 || h > 23 || d == 0 || d > 31 || mo == 0 || mo > 12 {
        None
    } else {
        Some(RtcDateTime { second: s, minute: mi, hour: h, day: d, month: mo, year })
    }
}

/// The number a clock register holds: two decimal digits, one per nibble,
/// in packed-BCD mode; the byte itself in binary mode.
pub open spec fn rtc_register_value(v: u8, bcd_mode: bool) -> int {
    if bcd_mode { 10 * (v as int / 16) + v as int % 16 } else { v as int }
}

/// What a decoded clock reading says, over every register set: in packed
/// BCD mode (status B bit 2 clear) every field, the hour included, is the
/// two-digit decimal number of its register, in binary mode the register
/// itself; a 24-hour clock (status B bit 1 set) gives the hour as it is, a
/// 12-hour clock gives it modulo 12 plus 12 after noon (hour bit 7); years
/// from 70 on are 19xx, the others 20xx. The reading is valid exactly when
/// every field is in its range.
pub proof fn law_rtc_fields_are_the_register_numbers(r: RtcRegisters)
    ensures
        ({
            let bcd_mode = r.status_b & 0x04 == 0;
            let hr = rtc_register_value(r.hour & 0x7f, bcd_mode);
            let hour = if r.status_b & 0x02 != 0 {
                hr
            } else if r.hour & 0x80 != 0 {
                hr % 12 + 12
            } else {
                hr % 12
            };
            let y = rtc_register_value(r.year, bcd_mode);
            let second = rtc_register_value(r.second, bcd_mode);
            let minute = rtc_register_value(r.minute, bcd_mode);
            let day = rtc_register_value(r.day, bcd_mode);
            let month = rtc_register_value(r.month, bcd_mode);
            &&& (spec_decode_rtc(r) is Some) == (second <= 59 && minute <= 59 && hour <= 23 && 1 <= day <= 31
                && 1 <= month <= 12)
            &&& spec_decode_rtc(r) matches Some(t) ==> {
                &&& t.second == second && t.minute == minute && t.hour == hour
                &&& t.day == day && t.month == month
                &&& t.year == (if y >= 70 { 1900 + y } else { 2000 + y })
            }
        }),
{
    let bcd_mode = r.status_b & 0x04 == 0;
    assert forall|v: u8| bcd_mode implies #[trigger] spec_bcd(v) == rtc_register_value(v, bcd_mode) by {
        assert(v as int % 16 + (v as int / 16) * 10 < 256);
    }
    assert(spec_bcd(r.second) == rtc_register_value(r.second, bcd_mode) || !bcd_mode);
    assert(spec_bcd(r.minute) == rtc_register_value(r.minute, bcd_mode) || !bcd_mode);
    assert(spec_bcd(r.hour & 0x7f) == rtc_register_value(r.hour & 0x7f, bcd_mode) || !bcd_mode);
    assert(spec_bcd(r.day) == rtc_register_value(r.day, bcd_mode) || !bcd_mode);
    assert(spec_bcd(r.month) == rtc_register_value(r.month, bcd_mode) || !bcd_mode);
    assert(spec_bcd(r.year) == rtc_register_value(r.year, bcd_mode) || !bcd_mode);
}

pub fn decode_rtc(regs: RtcRegisters) -> (r: Option<RtcDateTime>)
    ensures
        r == spec_decode_rtc(regs),
{
    let mut second = regs.second;
    let mut minute = regs.minute;
    let mut day = regs.day;
    let mut month = regs.month;
    let mut year = regs.year;
    let pm = regs.hour & 0x80 != 0;
    let mut hour = regs.hour & 0x7f;
    if regs.status_b & 0x04 == 0 {
        second = bcd(second);
        minute = bcd(minute);
        hour = bcd(hour);
        day = bcd(day);
        month = bcd(month);
        year = bcd(year);
    }
    if regs.status_b & 0x02 == 0 {
        hour = hour % 12;
        if pm {
            hour = hour.saturating_add(12);
        }
    }
    let year: u16 = if year >= 70 { 1900 + year as u16 } else { 2000 + year as u16 };
    if second > 59 || minute > 59 || hour > 23 || day == 0 || day > 31 || month == 0 || month > 12 {
        return None;
    }
    Some(RtcDateTime { second, minute, hour, day, month, year })
}

pub open spec fn spec_leap(year: int) -> bool {
    year % 4 == 0 && (year % 100 != 0 || year % 400 == 0)
}

pub fn leap_year(year: u16) -> (r: bool)
    ensures
        r == spec_leap(year as int),
{
    year % 4 == 0 && (year % 100 != 0 || year % 400 == 0)
}

pub open spec fn days_in_year(y: int) -> int {
    if spec_leap(y) { 366 } else { 365 }
}

/// Days from 1970-01-01 to January 1st of `y`.
pub open spec fn days_before_year(y: int) -> int
    decreases y - 1970,
{
    if y <= 1970 { 0 } else { days_before_year(y - 1) + days_in_year(y - 1) }
}

/// Length of month `m` (1-based) in a common year.
pub open spec fn common_month_len(m: int) -> int {
    if m == 2 { 28 } else if m == 4 || m == 6 || m == 9 || m == 11 { 30 } else { 31 }
}

pub open spec fn month_len(m: int, y: int) -> int {
    common_month_len(m) + if m == 2 && spec_leap(y) { 1int } else { 0int }
}

/// Days in the months of `y` before month `m`.
pub open spec fn days_before_month(m: int, y: int) -> int
    decreases m,
{
    if m <= 1 { 0 } else { days_before_month(m - 1, y) + month_len(m - 1, y) }
}

/// Seconds since the Unix epoch of an RTC date, when it is a real date
/// from 1970 on.
pub open spec fn spec_unix_seconds(t: RtcDateTime) -> Option<u64> {
    if t.year < 1970 || t.day > month_len(t.month as int, t.year as int) {
        None
    } else {
        Some(((days_before_year(t.year as int) + days_before_month(t.month as int, t.year as int) + t.day - 1) * 86_400
            + t.hour * 3_600 + t.minute * 60 + t.second) as u64)
    }
}

proof fn lemma_days_before_year_bound(y: int)
    ensures
        0 <= days_before_year(y) <= 366 * (if y > 1970 { y - 1970 } else { 0 }),
    decreases y - 1970,
{
    if y > 1970 {
        lemma_days_before_year_bound(y - 1);
    }
}

proof fn lemma_days_before_month_bound(m: int, y: int)
    requires
        m <= 13,
    ensures
        0 <= days_before_month(m, y) <= 31 * (if m > 1 { m - 1 } else { 0 }),
    decreases m,
{
    if m > 1 {
        lemma_days_before_month_bound(m - 1, y);
    }
}

fn common_month_days(m: u8) -> (r: u64)
    requires
        1 <= m <= 12,
    ensures
        r == common_month_len(m as int),
{
    if m == 2 { 28 } else if m == 4 || m == 6 || m == 9 || m == 11 { 30 } else { 31 }
}

/// Seconds since the Unix epoch; `None` before 1970 or for a day past the
/// end of its month.
pub fn rtc_to_unix_seconds(t: RtcDateTime) -> (r: Option<u64>)
    requires
        1 <= t.month <= 12,
        t.day >= 1,
    ensures
        r == spec_unix_seconds(t),
{
    if t.year < 1970 {
        return None;
    }
    let mut days: u64 = 0;
    let mut year: u16 = 1970;
    while year < t.year
        invariant
            1970 <= year <= t.year,
            days == days_before_year(year as int),
        decreases t.year - year,
    {
        proof {
            lemma_days_before_year_bound(year + 1);
        }
        days = days + if leap_year(year) { 366 } else { 365 };
        year = year + 1;
    }
    let mut month: u8 = 1;
    let ghost base = days;
    proof {
        lemma_days_before_year_bound(t.year as int);
    }
    while month < t.month
        invariant
            1 <= month <= t.month,
            t.month <= 12,
            base == days_before_year(t.year as int),
            base <= 366 * (t.year - 1970),
            days == base + days_before_month(month as int, t.year as int),
        decreases t.month - month,
    {
        proof {
            lemma_days_before_month_bound(month + 1, t.year as int);
        }
        days = days + common_month_days(month);
        if month == 2 && leap_year(t.year) {
            days = days + 1;
        }
        month = month + 1;
    }
    proof {
        lemma_days_before_month_bound(t.month as int, t.year as int);
    }
    let max_day: u64 = common_month_days(t.month) + if t.month == 2 && leap_year(t.year) { 1 } else { 0 };
    if t.day as u64 > max_day {
        return None;
    }
    days = days + (t.day - 1) as u64;
    assert(days <= 366 * 65536 + 31 * 12 + 31);
    Some(days * 86_400 + t.hour as u64 * 3_600 + t.minute as u64 * 60 + t.second as u64)
}

/// Unix seconds of a stable RTC reading.
pub fn rtc_unix_seconds(stable: Option<RtcDateTime>) -> (r: Option<u64>)
    requires
        stable matches Some(t) ==> 1 <= t.month <= 12 && t.day >= 1,
    ensures
        r == (match stable {
            Some(t) => spec_unix_seconds(t),
            None => None,
        }),
{
    match stable {
        Some(t) => rtc_to_unix_seconds(t),
        None => None,
    }
}

/// PIT divisor for a requested interrupt frequency, kept within the
/// 16-bit counter.
pub fn pit_divisor(frequency: u32) -> (r: u32)
    requires
        frequency != 0,
    ensures
        r == (if 1_193_182u32 / frequency < 1 { 1u32 } else if 1_193_182u32 / frequency > 0xFFFF { 0xFFFFu32 } else { 1_193_182u32 / frequency }),
{
    let d = 1_193_182u32 / frequency;
    if d < 1 {
        1
    } else if d > 0xFFFF {
        0xFFFF
    } else {
        d
    }
}

/// Day-of-year and year of day count `t` counted from January 1st of `y`.
pub open spec fn ct_years(t: int, y: int) -> (int, int)
    decreases t,
{
    if t < days_in_year(y) || t < 0 {
        (t, y)
    } else {
        ct_years(t - days_in_year(y), y + 1)
    }
}

/// Day-of-month and 0-based month of 1-based day-of-year `d` in year `y`,
/// counting from 0-based month `m`.
pub open spec fn ct_month(d: int, m: int, y: int) -> (int, int)
    decreases 12 - m,
{
    if m < 12 && d > month_len(m + 1, y) {
        ct_month(d - month_len(m + 1, y), m + 1, y)
    } else {
        (d, m)
    }
}

/// Days in the months of `y` from 0-based month `m` to December.
pub open spec fn days_from_month(m: int, y: int) -> int
    decreases 12 - m,
{
    if m >= 12 { 0 } else { month_len(m + 1, y) + days_from_month(m + 1, y) }
}

pub open spec fn wday_name(w: int) -> Seq<u8> {
    if w == 0 { "Sun".spec_bytes() }
    else if w == 1 { "Mon".spec_bytes() }
    else if w == 2 { "Tue".spec_bytes() }
    else if w == 3 { "Wed".spec_bytes() }
    else if w == 4 { "Thu".spec_bytes() }
    else if w == 5 { "Fri".spec_bytes() }
    else { "Sat".spec_bytes() }
}

pub open spec fn month_name(m: int) -> Seq<u8> {
    if m == 0 { "Jan".spec_bytes() }
    else if m == 1 { "Feb".spec_bytes() }
    else if m == 2 { "Mar".spec_bytes() }
    else if m == 3 { "Apr".spec_bytes() }
    else if m == 4 { "May".spec_bytes() }
    else if m == 5 { "Jun".spec_bytes() }
    else if m == 6 { "Jul".spec_bytes() }
    else if m == 7 { "Aug".spec_bytes() }
    else if m == 8 { "Sep".spec_bytes() }
    else if m == 9 { "Oct".spec_bytes() }
    else if m == 10 { "Nov".spec_bytes() }
    else { "Dec".spec_bytes() }
}

/// `n` right-aligned in three columns.
pub open spec fn pad3(n: nat) -> Seq<u8> {
    (if n < 10 { seq![0x20u8, 0x20u8] } else if n < 100 { seq![0x20u8] } else { Seq::empty() }) + decimal(n)
}

/// `n` zero-padded to two digits.
pub open spec fn two_digits(n: nat) -> Seq<u8> {
    (if n < 10 { seq![0x30u8] } else { Seq::empty() }) + decimal(n)
}

/// The `ctime` text of a Unix timestamp (the C `ctime` layout without the
/// newline): weekday, month, day, time and year of the proleptic
/// Gregorian calendar.
pub open spec fn spec_ctime(ts: u32) -> Seq<u8> {
    let days = ts as int / 86_400;
    let (t, year) = ct_years(days, 1970);
    let (d, m) = ct_month(t + 1, 0, year);
    wday_name((4 + days) % 7) + " ".spec_bytes() + month_name(m) + pad3(d as nat) + " ".spec_bytes()
        + two_digits((ts as int / 3600 % 24) as nat) + ":".spec_bytes() + two_digits((ts as int / 60 % 60) as nat)
        + ":".spec_bytes() + two_digits((ts as int % 60) as nat) + " ".spec_bytes() + decimal(year as nat)
}

fn push_pad3(out: &mut Vec<u8>, n: u32)
    ensures
        final(out)@ == old(out)@ + pad3(n as nat),
{
    if n < 10 {
        out.push(0x20);
        out.push(0x20);
    } else if n < 100 {
        out.push(0x20);
    }
    push_decimal(out, n as u64);
    assert(final(out)@ =~= old(out)@ + pad3(n as nat));
}

fn push_two_digits(out: &mut Vec<u8>, n: u32)
    ensures
        final(out)@ == old(out)@ + two_digits(n as nat),
{
    if n < 10 {
        out.push(0x30);
    }
    push_decimal(out, n as u64);
    assert(final(out)@ =~= old(out)@ + two_digits(n as nat));
}

fn wday_str(w: u32) -> (r: &'static str)
    ensures
        r.spec_bytes() == wday_name(w as int),
{
    if w == 0 { "Sun" } else if w == 1 { "Mon" } else if w == 2 { "Tue" } else if w == 3 { "Wed" }
    else if w == 4 { "Thu" } else if w == 5 { "Fri" } else { "Sat" }
}

fn month_str(m: usize) -> (r: &'static str)
    ensures
        r.spec_bytes() == month_name(m as int),
{
    if m == 0 { "Jan" } else if m == 1 { "Feb" } else if m == 2 { "Mar" } else if m == 3 { "Apr" }
    else if m == 4 { "May" } else if m == 5 { "Jun" } else if m == 6 { "Jul" } else if m == 7 { "Aug" }
    else if m == 8 { "Sep" } else if m == 9 { "Oct" } else if m == 10 { "Nov" } else { "Dec" }
}

fn month_days(m: u8, year: u32) -> (r: u32)
    requires
        1 <= m <= 12,
        year < 65536,
    ensures
        r == month_len(m as int, year as int),
{
    let base = common_month_days(m) as u32;
    if m == 2 && leap_year(year as u16) {
        assert(spec_leap(year as u16 as int) == spec_leap(year as int));
        base + 1
    } else {
        assert(m == 2 ==> spec_leap(year as u16 as int) == spec_leap(year as int));
        base
    }
}

proof fn lemma_days_from_january(y: int)
    ensures
        days_from_month(0, y) == days_in_year(y),
        days_from_month(12, y) == 0,
{
    reveal_with_fuel(days_from_month, 13);
}

/// Human-readable time of a Unix timestamp (ASCII bytes).
pub fn ctime(timestamp: u32) -> (r: Vec<u8>)
    ensures
        r@ == spec_ctime(timestamp),
{
    let ss = timestamp % 60;
    let mut ts = timestamp / 60;
    let mm = ts % 60;
    ts = ts / 60;
    let hh = ts % 24;
    ts = ts / 24;
    assert(ts == timestamp / 86_400);
    assert(mm == timestamp as int / 60 % 60);
    assert(hh == timestamp as int / 3600 % 24);
    let days = ts;
    let wday = (4 + ts) % 7;
    let mut year: u32 = 1970;
    loop
        invariant
            ct_years(ts as int, year as int) == ct_years(days as int, 1970),
            (year - 1970) * 365 <= days - ts,
            days <= u32::MAX / 86_400,
            ts <= days,
            year >= 1970,
        ensures
            ct_years(ts as int, year as int) == ct_years(days as int, 1970),
            ts < days_in_year(year as int),
            year >= 1970,
            year < 65536,
        decreases ts,
    {
        assert(year < 65536);
        let len: u32 = if leap_year(year as u16) { 366 } else { 365 };
        assert(spec_leap(year as u16 as int) == spec_leap(year as int));
        if ts < len {
            break;
        }
        ts = ts - len;
        year = year + 1;
    }
    let ghost t = ts;
    assert(ct_years(days as int, 1970) == (t as int, year as int));
    let mut d = ts + 1;
    let mut month: usize = 0;
    proof {
        lemma_days_from_january(year as int);
    }
    while month < 12 && d > month_days((month + 1) as u8, year)
        invariant
            month <= 11,
            year < 65536,
            1 <= d <= days_from_month(month as int, year as int),
            days_from_month(12, year as int) == 0,
            ct_month(d as int, month as int, year as int) == ct_month(t + 1, 0, year as int),
        decreases 12 - month,
    {
        d = d - month_days((month + 1) as u8, year);
        month = month + 1;
    }
    let mut out: Vec<u8> = Vec::new();
    push_str(&mut out, wday_str(wday));
    push_str(&mut out, " ");
    push_str(&mut out, month_str(month));
    push_pad3(&mut out, d);
    push_str(&mut out, " ");
    push_two_digits(&mut out, hh);
    push_str(&mut out, ":");
    push_two_digits(&mut out, mm);
    push_str(&mut out, ":");
    push_two_digits(&mut out, ss);
    push_str(&mut out, " ");
    push_decimal(&mut out, year as u64);
    assert(out@ =~= spec_ctime(timestamp));
    out
}

/// How a sleep is carried out: longer than a second it waits on the
/// timer; otherwise it spins that many one-microsecond port delays.
#[derive(Clone, Copy, Debug, PartialEq, Eq, Structural)]
pub enum SleepPlan {
    Timer(usize),
    Spin(usize),
}

/// Plan a sleep of `ms` milliseconds.
pub fn sleep(ms: usize) -> (r: SleepPlan)
    requires
        ms <= 1000 ==> ms * 1000 <= usize::MAX,
    ensures
        ms > 1000 ==> r == SleepPlan::Timer(ms),
        ms <= 1000 ==> r == SleepPlan::Spin((ms * 1000) as usize),
{
    if ms > 1000 {
        SleepPlan::Timer(ms)
    } else {
        SleepPlan::Spin(ms * 1000)
    }
}

} // verus!
