use vstd::prelude::*;

verus! {

pub const MINUTE: u64 = 60;
pub const HOUR: u64 = 3600;
pub const DAY: u64 = 86400;
pub const YEAR: u64 = 31536000;

/// Days before the first day of each month in a leap year.
pub open spec fn month_days_before(mon: int) -> u64 {
    if mon == 0 { 0 }
    else if mon == 1 { 31 }
    else if mon == 2 { 60 }
    else if mon == 3 { 91 }
    else if mon == 4 { 121 }
    else if mon == 5 { 152 }
    else if mon == 6 { 182 }
    else if mon == 7 { 213 }
    else if mon == 8 { 244 }
    else if mon == 9 { 274 }
    else if mon == 10 { 305 }
    else { 335 }
}

/// Days before the first day of each month in a leap year, as this kernel
/// keeps them.
pub fn month_table() -> (t: [u64; 12])
    ensures
        forall|i: int| 0 <= i < 12 ==> t[i] == month_days_before(i),
{
    [0, 31, 31 + 29, 31 + 29 + 31, 31 + 29 + 31 + 30, 31 + 29 + 31 + 30 + 31,
     31 + 29 + 31 + 30 + 31 + 30, 31 + 29 + 31 + 30 + 31 + 30 + 31,
     31 + 29 + 31 + 30 + 31 + 30 + 31 + 31, 31 + 29 + 31 + 30 + 31 + 30 + 31 + 31 + 30,
     31 + 29 + 31 + 30 + 31 + 30 + 31 + 31 + 30 + 31,
     31 + 29 + 31 + 30 + 31 + 30 + 31 + 31 + 30 + 31 + 30]
}

/// A calendar time as the CMOS clock reports it.
pub struct TM {
    pub tm_sec: u32,
    pub tm_min: u32,
    pub tm_hour: u32,
    pub tm_mday: u32,
    pub tm_mon: u32,
    pub tm_year: u32,
    pub tm_wday: u32,
    pub tm_yday: u32,
    pub tm_isdst: u32,
}

/// Seconds since 1970-01-01 00:00:00.
#[derive(Clone, Copy, Debug)]
pub struct Time {
    pub tick: u64,
}

pub open spec fn spec_leap_year(year: int) -> bool {
    ((year % 4 == 0) && (year % 100 != 0)) || (year % 400 == 0)
}

/// Days from the first day of 1970 to the first day of `year`
/// (0 for a year before 1970).
pub open spec fn days_before_year(year: int) -> nat
    decreases year - 1970,
{
    if year <= 1970 {
        0
    } else {
        days_before_year(year - 1) + 365 + if spec_leap_year(year - 1) { 1nat } else { 0nat }
    }
}

/// The timestamp `mktime` computes for `time` in the given century.
pub open spec fn spec_mktime(time: TM, century: u32) -> int {
    let year = century * 100 + time.tm_year;
    let leap_fix: int = if !spec_leap_year(year) && time.tm_mon > 2 { DAY as int } else { 0 };
    days_before_year(year) * DAY + month_days_before(time.tm_mon - 1) * DAY - leap_fix
        + (time.tm_mday - 1) * DAY + time.tm_hour * HOUR + time.tm_min * MINUTE + time.tm_sec
}

/// The days of month `mon` (1 to 12) of `year` in the Gregorian calendar:
/// February has 29 in a year divisible by 4 but not by 100, or by 400.
pub open spec fn gregorian_month_days(year: int, mon: int) -> int {
    if mon == 2 {
        if (year % 4 == 0 && year % 100 != 0) || year % 400 == 0 { 29 } else { 28 }
    } else if mon == 4 || mon == 6 || mon == 9 || mon == 11 {
        30
    } else {
        31
    }
}

/// 1970-01-01 00:00:00 is time stamp 0.
pub proof fn lemma_mktime_epoch(t: TM)
    requires
        t.tm_year == 70,
        t.tm_mon == 1,
        t.tm_mday == 1,
        t.tm_hour == 0,
        t.tm_min == 0,
        t.tm_sec == 0,
    ensures
        spec_mktime(t, 19) == 0,
{
}

/// The same day and time a month later is that month's days later.
pub proof fn lemma_mktime_next_month(t: TM, century: u32)
    requires
        1 <= t.tm_mon <= 11,
    ensures
        spec_mktime(TM { tm_mon: (t.tm_mon + 1) as u32, ..t }, century) - spec_mktime(t, century)
            == gregorian_month_days(century * 100 + t.tm_year, t.tm_mon as int) * 86400,
{
    let year = century * 100 + t.tm_year;
    let m = t.tm_mon as int;
    let t2 = TM { tm_mon: (t.tm_mon + 1) as u32, ..t };
    assert(t2.tm_mon - 1 == m);
    assert(spec_leap_year(year) == ((year % 4 == 0 && year % 100 != 0) || year % 400 == 0));
}

/// The first of January of one year to that of the next, at the same time,
/// is 365 days, or 366 when the first year is a leap year.
pub proof fn lemma_mktime_next_year(t: TM, century: u32)
    requires
        t.tm_mon == 1,
        t.tm_year < u32::MAX,
        century * 100 + t.tm_year >= 1970,
    ensures
        spec_mktime(TM { tm_year: (t.tm_year + 1) as u32, ..t }, century) - spec_mktime(t, century)
            == (if ((century * 100 + t.tm_year) % 4 == 0 && (century * 100 + t.tm_year) % 100 != 0)
                || (century * 100 + t.tm_year) % 400 == 0 { 366int } else { 365int }) * 86400,
{
    let year = century * 100 + t.tm_year;
    let t2 = TM { tm_year: (t.tm_year + 1) as u32, ..t };
    assert(century * 100 + t2.tm_year == year + 1);
    assert(days_before_year(year + 1) == days_before_year(year) + 365 + if spec_leap_year(year) { 1nat } else { 0nat });
}

/// Within a month, time stamps differ by the days, hours, minutes and
/// seconds between the two times.
pub proof fn lemma_mktime_within_month(t1: TM, t2: TM, century: u32)
    requires
        t1.tm_year == t2.tm_year,
        t1.tm_mon == t2.tm_mon,
    ensures
        spec_mktime(t2, century) - spec_mktime(t1, century)
            == (t2.tm_mday - t1.tm_mday) * 86400 + (t2.tm_hour - t1.tm_hour) * 3600
                + (t2.tm_min - t1.tm_min) * 60 + (t2.tm_sec - t1.tm_sec),
{
}

proof fn lemma_days_before_year_bound(year: int)
    ensures
        days_before_year(year) <= 366 * (if year <= 1970 { 0 } else { year - 1970 }),
    decreases year - 1970,
{
    if year > 1970 {
        lemma_days_before_year_bound(year - 1);
    }
}

impl Time {
    /// The time stamp zero.
    pub fn new() -> (t: Time)
        ensures
            t.tick == 0,
    {
        Time { tick: 0 }
    }

    /// Whether `year` is a Gregorian leap year.
    pub fn leap_year(year: u32) -> (b: bool)
        ensures
            b == spec_leap_year(year as int),
    {
        ((year % 4 == 0) && (year % 100 != 0)) || (year % 400 == 0)
    }

    /// Converts a calendar time of the given century to seconds since 1970.
    pub fn mktime(time: &TM, century: u32) -> (t: Time)
        requires
            century * 100 + time.tm_year <= u32::MAX,
            1 <= time.tm_mon <= 12,
            1 <= time.tm_mday,
        ensures
            t.tick == spec_mktime(*time, century),
    {
        let mut time_stamp = Time::new();
        let year: u32 = century * 100 + time.tm_year;
        let mut base_year: u32 = 1970;
        proof { lemma_days_before_year_bound(year as int); }
        while base_year < year
            invariant
                1970 <= base_year,
                base_year <= year || year < 1970,
                base_year == 1970 || base_year <= year,
                time_stamp.tick == days_before_year(base_year as int) * DAY,
                days_before_year(year as int) <= 366 * (if year <= 1970 { 0 } else { year - 1970 }),
                year <= u32::MAX,
            decreases year - base_year,
        {
            proof {
                lemma_days_before_year_bound(base_year as int + 1);
                assert(days_before_year(base_year as int + 1) <= 366 * (base_year as int + 1 - 1970));
            }
            assert((base_year as int + 1 - 1970) * 366 * 86400 <= 0x1_0000_0000int * 366 * 86400) by (nonlinear_arith)
                requires base_year as int + 1 - 1970 <= 0x1_0000_0000int;
            time_stamp.tick += YEAR;
            if Self::leap_year(base_year) {
                time_stamp.tick += DAY;
            }
            base_year += 1;
        }
        let months = month_table();
        assert(time_stamp.tick == days_before_year(year as int) * DAY);
        assert(days_before_year(year as int) * DAY <= 0x1_0000_0000int * 366 * 86400) by (nonlinear_arith)
            requires days_before_year(year as int) <= 366 * (if year <= 1970 { 0 } else { year - 1970 }),
                year <= u32::MAX;
        let m = months[(time.tm_mon - 1) as usize];
        assert(m == month_days_before(time.tm_mon - 1));
        assert(m <= 335 && (time.tm_mon > 2 ==> m >= 60));
        time_stamp.tick += m * DAY;
        if !Self::leap_year(year) && time.tm_mon > 2 {
            time_stamp.tick -= DAY;
        }
        time_stamp.tick += (time.tm_mday - 1) as u64 * DAY;
        time_stamp.tick += time.tm_hour as u64 * HOUR;
        time_stamp.tick += time.tm_min as u64 * MINUTE;
        time_stamp.tick += time.tm_sec as u64;
        time_stamp
    }
}

pub open spec fn spec_bin_to_bcd(bin: u8) -> int {
    (bin % 10) + (bin / 10) * 0x10
}

pub open spec fn spec_bcd_to_bin(bcd: u8) -> int {
    (bcd & 0xfu8) + (bcd >> 4u8) * 10
}

impl TM {
    /// Packs a binary number below 160 into binary-coded decimal: the tens
    /// in the high nibble, the units in the low nibble.
    pub fn bin_to_bcd(bin: u8) -> (bcd: u8)
        requires
            bin < 160,
        ensures
            bcd == spec_bin_to_bcd(bin),
    {
        (bin % 10) + (bin / 10) * 0x10
    }

    /// Unpacks a binary-coded decimal byte.
    pub fn bcd_to_bin(bcd: u8) -> (bin: u8)
        ensures
            bin == spec_bcd_to_bin(bcd),
    {
        assert((bcd & 0xfu8) <= 15u8 && (bcd >> 4u8) <= 15u8) by (bit_vector);
        (bcd & 0xf) + (bcd >> 4) * 10
    }

    /// The calendar time whose fields, as read from the CMOS clock, are in
    /// binary-coded decimal, converted to binary; the day of the year stays
    /// as it was.  Also gives the century converted the same way.
    pub fn from_bcd(bcd: &TM, century_bcd: u32) -> (res: (TM, u32))
        ensures
            res.0.tm_sec == spec_bcd_to_bin(bcd.tm_sec as u8),
            res.0.tm_min == spec_bcd_to_bin(bcd.tm_min as u8),
            res.0.tm_hour == spec_bcd_to_bin(bcd.tm_hour as u8),
            res.0.tm_wday == spec_bcd_to_bin(bcd.tm_wday as u8),
            res.0.tm_mday == spec_bcd_to_bin(bcd.tm_mday as u8),
            res.0.tm_mon == spec_bcd_to_bin(bcd.tm_mon as u8),
            res.0.tm_year == spec_bcd_to_bin(bcd.tm_year as u8),
            res.0.tm_yday == spec_bcd_to_bin(bcd.tm_yday as u8),
            res.0.tm_isdst == bcd.tm_isdst,
            res.1 == spec_bcd_to_bin(century_bcd as u8),
    {
        let tm = TM {
            tm_sec: Self::bcd_to_bin(bcd.tm_sec as u8) as u32,
            tm_min: Self::bcd_to_bin(bcd.tm_min as u8) as u32,
            tm_hour: Self::bcd_to_bin(bcd.tm_hour as u8) as u32,
            tm_mday: Self::bcd_to_bin(bcd.tm_mday as u8) as u32,
            tm_mon: Self::bcd_to_bin(bcd.tm_mon as u8) as u32,
            tm_year: Self::bcd_to_bin(bcd.tm_year as u8) as u32,
            tm_wday: Self::bcd_to_bin(bcd.tm_wday as u8) as u32,
            tm_yday: Self::bcd_to_bin(bcd.tm_yday as u8) as u32,
            tm_isdst: bcd.tm_isdst,
        };
        let century = Self::bcd_to_bin(century_bcd as u8) as u32;
        (tm, century)
    }
}

/// Packing a number below 100 into binary-coded decimal and unpacking it
/// gives it back.
pub proof fn lemma_bcd_round_trip(bin: u8)
    requires
        bin < 100,
    ensures
        spec_bcd_to_bin(((bin % 10) + (bin / 10) * 0x10) as u8) == bin,
{
    let b: u8 = ((bin % 10) + (bin / 10) * 0x10) as u8;
    assert((b & 0xfu8) + (b >> 4u8) * 10 == bin) by (bit_vector)
        requires bin < 100u8, b == ((bin % 10) + (bin / 10) * 0x10) as u8;
}

/// The current time: the start-up time plus the elapsed clock ticks, each
/// `jiffy` milliseconds long.
pub fn sys_time(startup: Time, jiffies: u64, jiffy: u64) -> (t: Time)
    requires
        jiffies * jiffy <= u64::MAX,
        startup.tick + (jiffies * jiffy) / 1000 <= u64::MAX,
    ensures
        t.tick == startup.tick + (jiffies * jiffy) / 1000,
{
    Time { tick: startup.tick + (jiffies * jiffy) / 1000 }
}

} // verus!
