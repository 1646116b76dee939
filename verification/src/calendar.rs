use vstd::prelude::*;

verus! {

/// Proleptic Gregorian leap-year rule.
pub open spec fn is_leap_year(y: int) -> bool {
    (y % 4 == 0 && y % 100 != 0) || y % 400 == 0
}

pub open spec fn days_in_year(y: int) -> int {
    if is_leap_year(y) {
        366
    } else {
        365
    }
}

pub open spec fn days_in_month(y: int, m: int) -> int {
    if m == 2 {
        if is_leap_year(y) {
            29
        } else {
            28
        }
    } else if m == 4 || m == 6 || m == 9 || m == 11 {
        30
    } else {
        31
    }
}

/// Days in all years of the range `[0, y)`.
pub open spec fn days_before_year(y: int) -> int
    decreases y,
{
    if y <= 0 {
        0
    } else {
        days_before_year(y - 1) + days_in_year(y - 1)
    }
}

/// Days in the months `[1, m)` of year `y`.
pub open spec fn days_before_month(y: int, m: int) -> int
    decreases m,
{
    if m <= 1 {
        0
    } else {
        days_before_month(y, m - 1) + days_in_month(y, m - 1)
    }
}

/// Day index of a calendar date, counted from 0000-01-01 as day zero.
pub open spec fn civil_days(y: int, m: int, d: int) -> int {
    days_before_year(y) + days_before_month(y, m) + (d - 1)
}

/// Seconds since the Unix epoch of a calendar date and time of day read
/// in the UTC-equivalent reference.
pub open spec fn civil_secs(y: int, m: int, d: int, h: int, mi: int, s: int) -> int {
    (civil_days(y, m, d) - days_before_year(1970)) * 86400 + h * 3600 + mi * 60 + s
}

/// A calendar date with a time of day, the shape in which an instant is
/// written out and read back.
#[derive(Clone, Copy, PartialEq, Eq, Structural, Debug)]
pub struct Fields {
    pub year: u16,
    pub month: u8,
    pub day: u8,
    pub hour: u8,
    pub minute: u8,
    pub second: u8,
    pub nanos: u32,
}

impl Fields {
    pub open spec fn wf(self) -> bool {
        &&& self.year <= 9999
        &&& 1 <= self.month <= 12
        &&& 1 <= self.day <= days_in_month(self.year as int, self.month as int)
        &&& self.hour < 24
        &&& self.minute < 60
        &&& self.second < 60
        &&& self.nanos < 1_000_000_000
    }

    /// The instant the fields denote, as seconds since the Unix epoch.
    pub open spec fn to_secs(self) -> int {
        civil_secs(
            self.year as int,
            self.month as int,
            self.day as int,
            self.hour as int,
            self.minute as int,
            self.second as int,
        )
    }
}

pub proof fn lemma_days_before_year_monotone(a: int, b: int)
    requires
        0 <= a <= b,
    ensures
        days_before_year(a) <= days_before_year(b),
        days_before_year(b) - days_before_year(a) >= 365 * (b - a),
    decreases b - a,
{
    if a < b {
        lemma_days_before_year_monotone(a, b - 1);
    }
}

pub proof fn lemma_days_before_year_bound(y: int)
    requires
        0 <= y,
    ensures
        365 * y <= days_before_year(y) <= 366 * y,
    decreases y,
{
    if y > 0 {
        lemma_days_before_year_bound(y - 1);
    }
}

/// A whole year holds exactly the days of its twelve months.
pub proof fn lemma_months_fill_year(y: int)
    ensures
        days_before_month(y, 13) == days_in_year(y),
{
    reveal_with_fuel(days_before_month, 13);
}

pub proof fn lemma_days_before_month_monotone(y: int, a: int, b: int)
    requires
        1 <= a <= b,
    ensures
        days_before_month(y, a) <= days_before_month(y, b),
    decreases b - a,
{
    if a < b {
        lemma_days_before_month_monotone(y, a, b - 1);
    }
}

pub fn exec_is_leap_year(y: u16) -> (r: bool)
    ensures
        r == is_leap_year(y as int),
{
    (y % 4 == 0 && y % 100 != 0) || y % 400 == 0
}

pub fn exec_days_in_year(y: u16) -> (r: u16)
    ensures
        r == days_in_year(y as int),
{
    if exec_is_leap_year(y) {
        366
    } else {
        365
    }
}

pub fn exec_days_in_month(y: u16, m: u8) -> (r: u8)
    ensures
        r == days_in_month(y as int, m as int),
{
    if m == 2 {
        if exec_is_leap_year(y) {
            29
        } else {
            28
        }
    } else if m == 4 || m == 6 || m == 9 || m == 11 {
        30
    } else {
        31
    }
}

pub fn exec_days_before_year(y: u16) -> (r: i64)
    requires
        y <= 10000,
    ensures
        r == days_before_year(y as int),
        0 <= r <= 366 * (y as int),
{
    let mut i: u16 = 0;
    let mut acc: i64 = 0;
    while i < y
        invariant
            i <= y,
            y <= 10000,
            acc == days_before_year(i as int),
            0 <= acc <= 366 * (i as int),
        decreases y - i,
    {
        acc = acc + exec_days_in_year(i) as i64;
        i = i + 1;
    }
    acc
}

pub fn exec_days_before_month(y: u16, m: u8) -> (r: i64)
    requires
        1 <= m <= 12,
    ensures
        r == days_before_month(y as int, m as int),
        0 <= r <= 341,
{
    let mut i: u8 = 1;
    let mut acc: i64 = 0;
    while i < m
        invariant
            1 <= i <= m,
            m <= 12,
            acc == days_before_month(y as int, i as int),
            0 <= acc <= 31 * (i as int - 1),
        decreases m - i,
    {
        acc = acc + exec_days_in_month(y, i) as i64;
        i = i + 1;
    }
    acc
}

/// Seconds since the Unix epoch of well-formed calendar fields.
pub fn fields_to_secs(f: &Fields) -> (r: i64)
    requires
        f.wf(),
    ensures
        r == f.to_secs(),
        -62_300_000_000 <= r <= 320_000_000_000,
{
    let dby = exec_days_before_year(f.year);
    let dbm = exec_days_before_month(f.year, f.month);
    let epoch = exec_days_before_year(1970);
    let days: i64 = dby + dbm + (f.day as i64 - 1) - epoch;
    days * 86400 + (f.hour as i64) * 3600 + (f.minute as i64) * 60 + (f.second as i64)
}

/// The range of epoch seconds whose calendar date falls within the four-digit
/// years 0000 through 9999.
pub open spec fn in_render_range(secs: int) -> bool {
    -days_before_year(1970) * 86400 <= secs
        < (days_before_year(10000) - days_before_year(1970)) * 86400
}

/// Recovers the calendar fields of an epoch second count; the sub-second
/// part is carried through unchanged.
pub fn secs_to_fields(secs: i64, nanos: u32) -> (f: Fields)
    requires
        in_render_range(secs as int),
        nanos < 1_000_000_000,
    ensures
        f.wf(),
        f.to_secs() == secs as int,
        f.nanos == nanos,
{
    proof {
        lemma_days_before_year_bound(1970);
        lemma_days_before_year_bound(10000);
        lemma_days_before_year_monotone(1970, 10000);
    }
    let epoch: i64 = exec_days_before_year(1970);
    let total: i64 = secs + epoch * 86400;
    let z: i64 = total / 86400;
    let sod: i64 = total % 86400;
    assert(0 <= total < days_before_year(10000) * 86400);
    assert(z == total as int / 86400 && sod == total as int % 86400);
    assert(days_before_year(10000) <= 3_660_000);
    assert(z < days_before_year(10000)) by {
        if z >= days_before_year(10000) {
            assert(total as int >= 86400 * days_before_year(10000)) by (nonlinear_arith)
                requires
                    total as int / 86400 >= days_before_year(10000),
                    total >= 0,
            ;
        }
    };

    let mut y: u16 = 0;
    let mut acc: i64 = 0;
    while acc + (exec_days_in_year(y) as i64) <= z
        invariant
            y <= 9999,
            acc == days_before_year(y as int),
            0 <= acc <= z,
            z < days_before_year(10000),
            z <= 3_660_000,
        decreases z - acc,
    {
        proof {
            if y as int + 1 >= 10000 {
                lemma_days_before_year_monotone(y as int + 1, 10000);
            }
        }
        acc = acc + exec_days_in_year(y) as i64;
        y = y + 1;
        proof {
            lemma_days_before_year_monotone(y as int, 10000);
        }
    }
    let doy: i64 = z - acc;
    assert(0 <= doy < days_in_year(y as int));

    proof {
        lemma_months_fill_year(y as int);
    }
    let mut m: u8 = 1;
    let mut macc: i64 = 0;
    while m < 12 && macc + (exec_days_in_month(y, m) as i64) <= doy
        invariant
            1 <= m <= 12,
            macc == days_before_month(y as int, m as int),
            macc <= doy,
            doy < days_in_year(y as int),
            days_before_month(y as int, 13) == days_in_year(y as int),
        decreases 12 - m,
    {
        macc = macc + exec_days_in_month(y, m) as i64;
        m = m + 1;
    }
    // Either the next month starts past `doy`, or the twelfth month was
    // reached and the year's total caps the day anyway.
    assert(doy - macc < days_in_month(y as int, m as int)) by {
        if m == 12 {
            assert(days_before_month(y as int, 13) == days_before_month(y as int, 12)
                + days_in_month(y as int, 12));
        }
    };
    let d: u8 = (doy - macc) as u8 + 1;

    let hour: u8 = (sod / 3600) as u8;
    let minute: u8 = ((sod % 3600) / 60) as u8;
    let second: u8 = (sod % 60) as u8;
    assert(hour as int * 3600 + minute as int * 60 + second as int == sod as int) by {
        assert(sod as int == 3600 * (sod as int / 3600) + sod as int % 3600);
        assert(sod as int % 3600 == 60 * ((sod as int % 3600) / 60) + (sod as int % 3600) % 60);
        assert((sod as int % 3600) % 60 == sod as int % 60) by (nonlinear_arith);
    };

    let f = Fields { year: y, month: m, day: d, hour, minute, second, nanos };
    assert(f.to_secs() == secs as int) by {
        assert(civil_days(y as int, m as int, d as int) == z as int);
        assert(total as int == 86400 * (total as int / 86400) + total as int % 86400);
    };
    f
}

} // verus!
