//! Proleptic Gregorian calendar arithmetic on day numbers counted from
//! 1970-01-01, and the `HH:mm` / `YYYY-MM-DD` stamps built on it.

use vstd::prelude::*;

verus! {

/// Gregorian leap year.
pub open spec fn is_leap(y: int) -> bool {
    (y % 4 == 0 && y % 100 != 0) || y % 400 == 0
}

/// Number of days of month `m` (1-based) of year `y`.
pub open spec fn days_in_month(y: int, m: int) -> int {
    if m == 2 {
        if is_leap(y) {
            29
        } else {
            28
        }
    } else if m == 4 || m == 6 || m == 9 || m == 11 {
        30
    } else {
        31
    }
}

/// A real calendar date.
pub open spec fn valid_date(y: int, m: int, d: int) -> bool {
    1 <= m <= 12 && 1 <= d <= days_in_month(y, m)
}

/// Day number of a date, 1970-01-01 being day 0 (years are counted from
/// March so that the leap day ends the counting year).
pub open spec fn days_from_civil(y: int, m: int, d: int) -> int {
    let yy = if m <= 2 {
        y - 1
    } else {
        y
    };
    let era = yy / 400;
    let yoe = yy - era * 400;
    let mp = if m > 2 {
        m - 3
    } else {
        m + 9
    };
    let doy = (153 * mp + 2) / 5 + d - 1;
    let doe = yoe * 365 + yoe / 4 - yoe / 100 + doy;
    era * 146097 + doe - 719468
}

/// Day of era → (year of era, day of year) facts.
proof fn lemma_year_of_era(doe: int)
    requires
        0 <= doe < 146097,
    ensures
        ({
            let yoe = (doe - doe / 1460 + doe / 36524 - doe / 146096) / 365;
            let start = 365 * yoe + yoe / 4 - yoe / 100;
            &&& 0 <= yoe < 400
            &&& start <= doe
            &&& doe - start < 365 + (if (yoe + 1) % 4 == 0 && ((yoe + 1) % 100 != 0 || yoe
                == 399) {
                1int
            } else {
                0int
            })
        }),
{
    assert(0 <= doe < 146097 ==> ({
        let yoe = (doe - doe / 1460 + doe / 36524 - doe / 146096) / 365;
        let start = 365 * yoe + yoe / 4 - yoe / 100;
        &&& 0 <= yoe < 400
        &&& start <= doe
        &&& doe - start < 365 + (if (yoe + 1) % 4 == 0 && ((yoe + 1) % 100 != 0 || yoe == 399) {
            1int
        } else {
            0int
        })
    })) by (nonlinear_arith);
}

/// Day of (March-based) year → month and day facts.
proof fn lemma_month_of_year(doy: int)
    requires
        0 <= doy <= 365,
    ensures
        ({
            let mp = (5 * doy + 2) / 153;
            let d = doy - (153 * mp + 2) / 5 + 1;
            &&& 0 <= mp <= 11
            &&& 1 <= d
            &&& d <= (if mp == 11 {
                30int
            } else if mp == 1 || mp == 3 || mp == 6 || mp == 8 {
                30int
            } else {
                31int
            })
            &&& (mp == 11 ==> d == doy - 336)
        }),
{
    assert(0 <= doy <= 365 ==> ({
        let mp = (5 * doy + 2) / 153;
        let d = doy - (153 * mp + 2) / 5 + 1;
        &&& 0 <= mp <= 11
        &&& 1 <= d
        &&& d <= (if mp == 11 {
            30int
        } else if mp == 1 || mp == 3 || mp == 6 || mp == 8 {
            30int
        } else {
            31int
        })
        &&& (mp == 11 ==> d == doy - 336)
    })) by (nonlinear_arith);
}

/// The date of day number `z` (1970-01-01 is day 0): `(year, month, day)`.
pub open spec fn civil_spec(z: int) -> (int, int, int) {
    let zz = z + 719468;
    let era = zz / 146097;
    let doe = zz - era * 146097;
    let yoe = (doe - doe / 1460 + doe / 36524 - doe / 146096) / 365;
    let y = yoe + era * 400;
    let doy = doe - (365 * yoe + yoe / 4 - yoe / 100);
    let mp = (5 * doy + 2) / 153;
    let d = doy - (153 * mp + 2) / 5 + 1;
    let m = if mp < 10 {
        mp + 3
    } else {
        mp - 9
    };
    (if m <= 2 {
        y + 1
    } else {
        y
    }, m, d)
}

/// Every day number names a real date, and that date's day number is the
/// day number we started from.
pub proof fn law_civil_round_trip(z: int)
    ensures
        valid_date(civil_spec(z).0, civil_spec(z).1, civil_spec(z).2),
        days_from_civil(civil_spec(z).0, civil_spec(z).1, civil_spec(z).2) == z,
{
    let zz = z + 719468;
    let era = zz / 146097;
    let doe = zz - era * 146097;
    assert(0 <= doe < 146097);
    lemma_year_of_era(doe);
    let yoe = (doe - doe / 1460 + doe / 36524 - doe / 146096) / 365;
    let y = yoe + era * 400;
    let doy = doe - (365 * yoe + yoe / 4 - yoe / 100);
    assert(0 <= doy <= 365);
    lemma_month_of_year(doy);
    let mp = (5 * doy + 2) / 153;
    let d = doy - (153 * mp + 2) / 5 + 1;
    let m = if mp < 10 {
        mp + 3
    } else {
        mp - 9
    };
    let year = if m <= 2 {
        y + 1
    } else {
        y
    };
    // The March-based year is `y` and the era/year-of-era come back out.
    let yy = if m <= 2 {
        year - 1
    } else {
        year
    };
    assert(yy == y);
    assert(y / 400 == era) by (nonlinear_arith)
        requires
            y == yoe + era * 400,
            0 <= yoe < 400,
    ;
    assert(y - era * 400 == yoe);
    let mp2 = if m > 2 {
        m - 3
    } else {
        m + 9
    };
    assert(mp2 == mp);
    // February: the leap day only exists in leap years.
    if m == 2 {
        assert(mp == 11);
        assert(d == doy - 336);
        assert(is_leap(year) <==> ((yoe + 1) % 4 == 0 && ((yoe + 1) % 100 != 0 || yoe == 399)))
            by (nonlinear_arith)
            requires
                year == yoe + era * 400 + 1,
                0 <= yoe < 400,
        ;
    }
}

/// The date of day number `z` (1970-01-01 is day 0) as
/// `(year, month, day)`; see [`law_civil_round_trip`] for what makes it the
/// right date.
pub fn civil_from_days(z: i64) -> (r: (i64, u32, u32))
    requires
        z <= i64::MAX - 719468,
    ensures
        r.0 == civil_spec(z as int).0,
        r.1 == civil_spec(z as int).1,
        r.2 == civil_spec(z as int).2,
{
    let zz: i64 = z + 719468;
    let era: i64 = if zz >= 0 {
        zz / 146097
    } else {
        -((146096 - zz) / 146097)
    };
    assert(era == zz / 146097) by (nonlinear_arith)
        requires
            zz >= 0 ==> era == zz / 146097,
            zz < 0 ==> era == -((146096 - zz) / 146097),
    ;
    assert(0 <= zz - era * 146097 < 146097) by (nonlinear_arith)
        requires
            era == zz / 146097,
    ;
    assert(-(i64::MAX / 146097) - 1 <= era <= i64::MAX / 146097) by (nonlinear_arith)
        requires
            era == zz / 146097,
            i64::MIN + 146097 <= zz <= i64::MAX,
    ;
    let doe: i64 = zz - era * 146097;
    proof {
        lemma_year_of_era(doe as int);
    }
    let yoe: i64 = (doe - doe / 1460 + doe / 36524 - doe / 146096) / 365;
    let y: i64 = yoe + era * 400;
    let doy: i64 = doe - (365 * yoe + yoe / 4 - yoe / 100);
    proof {
        lemma_month_of_year(doy as int);
    }
    let mp: i64 = (5 * doy + 2) / 153;
    let d: i64 = doy - (153 * mp + 2) / 5 + 1;
    let m: i64 = if mp < 10 {
        mp + 3
    } else {
        mp - 9
    };
    let year: i64 = if m <= 2 {
        y + 1
    } else {
        y
    };
    (year, m as u32, d as u32)
}

/// Day numbers from 0 on fall in years from 1970 on.
proof fn lemma_civil_year_nonneg(z: int)
    requires
        z >= 0,
    ensures
        civil_spec(z).0 >= 1970,
{
    let zz = z + 719468;
    let era = zz / 146097;
    assert(era >= 4);
    let doe = zz - era * 146097;
    lemma_year_of_era(doe);
    let yoe = (doe - doe / 1460 + doe / 36524 - doe / 146096) / 365;
    if era == 4 {
        assert(doe >= 135080);
        assert(yoe >= 369 || yoe < 369) ;
        assert(yoe >= 369) by (nonlinear_arith)
            requires
                doe >= 135080,
                doe < 146097,
                yoe == (doe - doe / 1460 + doe / 36524 - doe / 146096) / 365,
        ;
        lemma_month_of_year(doe - (365 * yoe + yoe / 4 - yoe / 100));
    }
}

/// What callers of [`civil_from_days`] rely on: a real date, in a year
/// from 1970 on for day numbers from 0 on.
pub proof fn lemma_civil_facts(z: int)
    ensures
        valid_date(civil_spec(z).0, civil_spec(z).1, civil_spec(z).2),
        z >= 0 ==> civil_spec(z).0 >= 1970,
{
    law_civil_round_trip(z);
    if z >= 0 {
        lemma_civil_year_nonneg(z);
    }
}

/// The day after a date.
pub open spec fn next_date(y: int, m: int, d: int) -> (int, int, int) {
    if d < days_in_month(y, m) {
        (y, m, d + 1)
    } else if m < 12 {
        (y, m + 1, 1)
    } else {
        (y + 1, 1, 1)
    }
}

/// Day numbers start at 1970-01-01.
pub proof fn law_epoch()
    ensures
        days_from_civil(1970, 1, 1) == 0,
{
}

/// Consecutive dates have consecutive day numbers; with [`law_epoch`]
/// this pins `days_from_civil` down as the count of days since 1970-01-01.
pub proof fn law_next_day(y: int, m: int, d: int)
    requires
        valid_date(y, m, d),
    ensures
        days_from_civil(next_date(y, m, d).0, next_date(y, m, d).1, next_date(y, m, d).2)
            == days_from_civil(y, m, d) + 1,
{
    if d < days_in_month(y, m) {
    } else if m != 2 && m < 12 {
        assert(m == 1 || m == 3 || m == 4 || m == 5 || m == 6 || m == 7 || m == 8 || m == 9
            || m == 10 || m == 11);
    } else if m == 12 {
    } else {
        // End of February: the March-based year rolls over.
        assert(m == 2);
        let yy = y - 1;
        let era = yy / 400;
        let yoe = yy - era * 400;
        let era2 = y / 400;
        let yoe2 = y - era2 * 400;
        assert(0 <= yoe < 400);
        if yoe == 399 {
            assert(era2 == era + 1 && yoe2 == 0) by (nonlinear_arith)
                requires
                    era == yy / 400,
                    yoe == yy - era * 400,
                    yoe == 399,
                    yy == y - 1,
                    era2 == y / 400,
                    yoe2 == y - era2 * 400,
            ;
            assert(is_leap(y)) by (nonlinear_arith)
                requires
                    y == era * 400 + 400,
            ;
        } else {
            assert(era2 == era && yoe2 == yoe + 1) by (nonlinear_arith)
                requires
                    era == yy / 400,
                    yoe == yy - era * 400,
                    0 <= yoe < 399,
                    yy == y - 1,
                    era2 == y / 400,
                    yoe2 == y - era2 * 400,
            ;
            assert(is_leap(y) <==> ((yoe + 1) % 4 == 0 && (yoe + 1) % 100 != 0)) by (nonlinear_arith)
                requires
                    y == era * 400 + yoe + 1,
                    0 <= yoe < 399,
            ;
            assert((yoe + 1) / 4 - (yoe + 1) / 100 == yoe / 4 - yoe / 100 + (if (yoe + 1) % 4
                == 0 && (yoe + 1) % 100 != 0 {
                1int
            } else {
                0int
            })) by (nonlinear_arith)
                requires
                    0 <= yoe < 399,
            ;
        }
    }
}

} // verus!
