//! RFC 3339 timestamps from Unix seconds, by the civil-from-days algorithm.

use vstd::prelude::*;
use crate::text::{append_chars, fmt_signed_pad, fmt_signed_pad_chars, string_of};

verus! {

/// Civil date `(year, month, day)` of a day count since 1970-01-01, by Howard
/// Hinnant's `civil_from_days` (all divisions here are floor divisions).
pub open spec fn civil_from_days(days: int) -> (int, int, int) {
    let z = days + 719468;
    let era = z / 146097;
    let doe = z - era * 146097;
    let yoe = (doe - doe / 1460 + doe / 36524 - doe / 146096) / 365;
    let doy = doe - (365 * yoe + yoe / 4 - yoe / 100);
    let mp = (5 * doy + 2) / 153;
    let day = doy - (153 * mp + 2) / 5 + 1;
    let month = if mp < 10 { mp + 3 } else { mp - 9 };
    let year = yoe + era * 400 + (if month <= 2 { 1int } else { 0int });
    (year, month, day)
}

/// Day count since 1970-01-01 of the civil date `(y, m, d)` (Hinnant's
/// `days_from_civil`; floor divisions).
pub open spec fn days_from_civil(y: int, m: int, d: int) -> int {
    let y2 = if m <= 2 { y - 1 } else { y };
    let era = y2 / 400;
    let yoe = y2 - era * 400;
    let mp = if m > 2 { m - 3 } else { m + 9 };
    let doy = (153 * mp + 2) / 5 + d - 1;
    let doe = yoe * 365 + yoe / 4 - yoe / 100 + doy;
    era * 146097 + doe - 719468
}

/// `secs` seconds after the Unix epoch as `YYYY-MM-DDTHH:MM:SSZ`, each field
/// formatted like `format!` with `{:04}` / `{:02}`.
pub open spec fn rfc3339(secs: int) -> Seq<char> {
    let days = secs / 86400;
    let rem = secs % 86400;
    let (y, m, d) = civil_from_days(days);
    fmt_signed_pad(y, 4) + seq!['-'] + fmt_signed_pad(m, 2) + seq!['-'] + fmt_signed_pad(d, 2)
        + seq!['T'] + fmt_signed_pad(rem / 3600, 2) + seq![':'] + fmt_signed_pad(
        (rem % 3600) / 60,
        2,
    ) + seq![':'] + fmt_signed_pad(rem % 60, 2) + seq!['Z']
}

/// The year of an era (`0..400`) that day `doe` of the era (`0..146097`)
/// falls in, by the civil-from-days formula.
pub open spec fn era_yoe(doe: int) -> int {
    (doe - doe / 1460 + doe / 36524 - doe / 146096) / 365
}

/// Within an era, the civil-from-days steps give a month in `1..=12` and a
/// day in `1..=31`, and the days-from-civil steps lead back to `doe`.
pub open spec fn era_round_trip(doe: int) -> bool {
    let yoe = era_yoe(doe);
    let doy = doe - (365 * yoe + yoe / 4 - yoe / 100);
    let mp = (5 * doy + 2) / 153;
    let d = doy - (153 * mp + 2) / 5 + 1;
    let m = if mp < 10 { mp + 3 } else { mp - 9 };
    let mp2 = if m > 2 { m - 3 } else { m + 9 };
    let doy2 = (153 * mp2 + 2) / 5 + d - 1;
    &&& 0 <= yoe < 400
    &&& 1 <= m <= 12
    &&& 1 <= d <= 31
    &&& yoe * 365 + yoe / 4 - yoe / 100 + doy2 == doe
}

#[verifier::rlimit(100)]
pub(crate) proof fn lemma_doy_range(doe: int)
    requires
        0 <= doe <= 146096,
    ensures
        0 <= era_yoe(doe) < 400,
        0 <= doe - (365 * era_yoe(doe) + era_yoe(doe) / 4 - era_yoe(doe) / 100) <= 365,
{
    let a = doe / 1460;
    let b = doe / 36524;
    let c = doe / 146096;
    let n = doe - a + b - c;
    let yoe = n / 365;
    assert(0 <= yoe < 400);
}

pub(crate) proof fn lemma_month_of_doy(doy: int)
    requires
        0 <= doy <= 365,
    ensures
        0 <= (5 * doy + 2) / 153 <= 11,
        1 <= doy - (153 * ((5 * doy + 2) / 153) + 2) / 5 + 1 <= 31,
{
    let mp = (5 * doy + 2) / 153;
    assert(153 * mp <= 5 * doy + 2 < 153 * mp + 153);
    let k = (153 * mp + 2) / 5;
    assert(5 * k <= 153 * mp + 2 < 5 * k + 5);
}

proof fn lemma_era_round_trip(doe: int)
    requires
        0 <= doe <= 146096,
    ensures
        era_round_trip(doe),
{
    lemma_doy_range(doe);
    let yoe = era_yoe(doe);
    let doy = doe - (365 * yoe + yoe / 4 - yoe / 100);
    lemma_month_of_doy(doy);
}

/// The civil date of a day count is a real date (month `1..=12`, day
/// `1..=31`), and converting it back gives the same day count.
pub proof fn lemma_civil_round_trip(days: int)
    ensures
        1 <= civil_from_days(days).1 <= 12,
        1 <= civil_from_days(days).2 <= 31,
        days_from_civil(civil_from_days(days).0, civil_from_days(days).1, civil_from_days(days).2) == days,
{
    let z = days + 719468;
    let era = z / 146097;
    let doe = z - era * 146097;
    assert(0 <= doe < 146097);
    lemma_era_round_trip(doe);
    let yoe = era_yoe(doe);
    assert((yoe + era * 400) / 400 == era);
}

/// An RFC 3339 timestamp's fields denote exactly the seconds it was made
/// from: the date converts back to the day count, and the time of day is in
/// range and adds up to the remaining seconds.
pub proof fn lemma_rfc3339_fields(secs: int)
    ensures
        ({
            let days = secs / 86400;
            let rem = secs % 86400;
            let (y, m, d) = civil_from_days(days);
            &&& 1 <= m <= 12
            &&& 1 <= d <= 31
            &&& 0 <= rem / 3600 < 24
            &&& 0 <= (rem % 3600) / 60 < 60
            &&& 0 <= rem % 60 < 60
            &&& days_from_civil(y, m, d) * 86400 + (rem / 3600) * 3600 + ((rem % 3600) / 60) * 60 + rem % 60 == secs
        }),
{
    let days = secs / 86400;
    let rem = secs % 86400;
    lemma_civil_round_trip(days);
    assert(0 <= rem < 86400);
    assert(days * 86400 + rem == secs);
    assert((rem / 3600) * 3600 + ((rem % 3600) / 60) * 60 + rem % 60 == rem);
}

proof fn lemma_trunc_div_neg(z: int, q: int)
    requires
        z < 0,
        q == -((146096 - z) / 146097),
    ensures
        q == z / 146097,
{
    let w = -z;
    assert((w + 146096) / 146097 == -((-w) / 146097)) by (nonlinear_arith)
        requires
            w > 0,
    ;
}

proof fn lemma_yoe_bounds(doe: int)
    requires
        0 <= doe < 146097,
    ensures
        0 <= (doe - doe / 1460 + doe / 36524 - doe / 146096) / 365 < 400,
        0 <= doe - doe / 1460 + doe / 36524 - doe / 146096,
{
    let a = doe / 1460;
    let b = doe / 36524;
    let c = doe / 146096;
    assert(a * 1460 <= doe < a * 1460 + 1460) by (nonlinear_arith)
        requires
            a == doe / 1460,
            doe >= 0,
    ;
    assert(b * 36524 <= doe < b * 36524 + 36524) by (nonlinear_arith)
        requires
            b == doe / 36524,
            doe >= 0,
    ;
    assert(c * 146096 <= doe < c * 146096 + 146096) by (nonlinear_arith)
        requires
            c == doe / 146096,
            doe >= 0,
    ;
    assert(0 <= c <= 1);
    assert(0 <= b <= 4);
    assert(0 <= a <= 100);
    let n = doe - a + b - c;
    assert(0 <= n < 146000);
    assert(0 <= n / 365 < 400) by (nonlinear_arith)
        requires
            0 <= n < 146000,
    ;
}

fn fmt_field(out: &mut Vec<char>, n: i64, w: usize)
    requires
        n > i64::MIN,
    ensures
        final(out)@ == old(out)@ + fmt_signed_pad(n as int, w as nat),
{
    let f = fmt_signed_pad_chars(n, w);
    append_chars(out, f.as_slice());
}

fn split_days(secs: i64) -> (r: (i64, i64))
    ensures
        r.0 == secs as int / 86400,
        r.1 == secs as int % 86400,
        -106751991167301 <= r.0 <= 106751991167300,
{
    let mut days = secs / 86400;
    let mut rem = secs % 86400;
    if rem < 0 {
        rem = rem + 86400;
        days = days - 1;
    }
    assert(days == secs as int / 86400 && rem == secs as int % 86400) by (nonlinear_arith)
        requires
            secs >= 0 ==> days == secs as int / 86400 && rem == secs as int % 86400,
            secs < 0 ==> (days * 86400 + rem == secs && 0 <= rem < 86400),
    ;
    assert(-106751991167301 <= secs as int / 86400 <= 106751991167300) by (nonlinear_arith)
        requires
            i64::MIN <= secs <= i64::MAX,
    ;
    (days, rem)
}

#[verifier::rlimit(40)]
fn civil_exec(days: i64) -> (r: (i64, i64, i64))
    requires
        -106751991167301 <= days <= 106751991167300,
    ensures
        (r.0 as int, r.1 as int, r.2 as int) == civil_from_days(days as int),
        r.0 > i64::MIN && r.1 > i64::MIN && r.2 > i64::MIN,
{
    let z = days + 719468;
    let era = if z >= 0 {
        z
    } else {
        z - 146096
    } / 146097;
    proof {
        if z < 0 {
            lemma_trunc_div_neg(z as int, era as int);
        }
    }
    assert(-730692558 <= era <= 730692567) by (nonlinear_arith)
        requires
            era == z as int / 146097,
            -106751991167301 + 719468 <= z <= 106751991167300 + 719468,
    ;
    let doe = z - era * 146097;
    proof {
        lemma_yoe_bounds(doe as int);
    }
    let yoe = (doe - doe / 1460 + doe / 36524 - doe / 146096) / 365;
    let doy = doe - (365 * yoe + yoe / 4 - yoe / 100);
    let mp = (5 * doy + 2) / 153;
    let day = doy - (153 * mp + 2) / 5 + 1;
    let month = if mp < 10 {
        mp + 3
    } else {
        mp - 9
    };
    let year = yoe + era * 400 + if month <= 2 {
        1
    } else {
        0
    };
    (year, month, day)
}

/// Format Unix `secs` as `YYYY-MM-DDTHH:MM:SSZ` (the RFC 3339 UTC form the AWS
/// CLI writes for `expiresAt`), using the civil-from-days algorithm.
pub fn unix_to_rfc3339(secs: i64) -> (r: String)
    ensures
        r@ == rfc3339(secs as int),
{
    let (days, rem) = split_days(secs);
    let hour = rem / 3600;
    let min = (rem % 3600) / 60;
    let sec = rem % 60;
    let (year, month, day) = civil_exec(days);
    let mut out: Vec<char> = Vec::new();
    fmt_field(&mut out, year, 4);
    out.push('-');
    fmt_field(&mut out, month, 2);
    out.push('-');
    fmt_field(&mut out, day, 2);
    out.push('T');
    fmt_field(&mut out, hour, 2);
    out.push(':');
    fmt_field(&mut out, min, 2);
    out.push(':');
    fmt_field(&mut out, sec, 2);
    out.push('Z');
    proof {
        assert(out@ =~= rfc3339(secs as int));
    }
    string_of(out.as_slice())
}

} // verus!
