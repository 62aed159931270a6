//! The shape of RFC 3339 timestamps: fixed-width digit fields, so that the
//! text is always 20 characters and compares like the time it denotes.

use vstd::prelude::*;
use crate::aws::time::{civil_from_days, era_yoe, lemma_civil_round_trip, lemma_doy_range, lemma_month_of_doy, rfc3339};
use crate::feature::config::{chars_lt, lemma_chars_lt_irreflexive};
use crate::text::{decimal, digit_char, fmt_signed_pad, repeat_char, zero_pad};

verus! {

/// `10^w`.
pub open spec fn pow10(w: nat) -> nat
    decreases w,
{
    if w == 0 {
        1
    } else {
        10 * pow10((w - 1) as nat)
    }
}

/// The last `w` decimal digits of `n`, leading zeros included.
pub open spec fn fixed(n: nat, w: nat) -> Seq<char>
    decreases w,
{
    if w == 0 {
        seq![]
    } else {
        fixed(n / 10, (w - 1) as nat).push(digit_char(n % 10))
    }
}

proof fn lemma_fixed_len(n: nat, w: nat)
    ensures
        fixed(n, w).len() == w,
    decreases w,
{
    if w > 0 {
        lemma_fixed_len(n / 10, (w - 1) as nat);
    }
}

proof fn lemma_decimal_len(n: nat, w: nat)
    requires
        w >= 1,
        n < pow10(w),
    ensures
        decimal(n).len() <= w,
    decreases w,
{
    if n >= 10 {
        let p = pow10((w - 1) as nat);
        assert(w >= 2) by {
            if w == 1 {
                assert(pow10(1) == 10);
            }
        }
        assert(n / 10 < p) by (nonlinear_arith)
            requires
                n < 10 * p,
        ;
        lemma_decimal_len(n / 10, (w - 1) as nat);
    }
}

/// Zero-padding the decimal digits of a number below `10^w` to `w` places
/// gives its `w` last digits.
proof fn lemma_zero_pad_fixed(n: nat, w: nat)
    requires
        w >= 1,
        n < pow10(w),
    ensures
        zero_pad(decimal(n), w) == fixed(n, w),
    decreases w,
{
    lemma_decimal_len(n, w);
    if w == 1 {
        assert(n < 10) by {
            assert(pow10(1) == 10);
        }
        assert(fixed(n / 10, 0) == Seq::<char>::empty());
        assert(zero_pad(decimal(n), 1) =~= fixed(n, 1));
    } else {
        let p = pow10((w - 1) as nat);
        assert(n / 10 < p) by (nonlinear_arith)
            requires
                n < 10 * p,
        ;
        lemma_zero_pad_fixed(n / 10, (w - 1) as nat);
        lemma_decimal_len(n / 10, (w - 1) as nat);
        if n < 10 {
            assert(n / 10 == 0 && n % 10 == n);
            assert(decimal(0) == seq![digit_char(0)]);
            assert(digit_char(0) == '0');
            assert(zero_pad(decimal(0), (w - 1) as nat) =~= repeat_char('0', (w - 1) as nat));
            assert(zero_pad(decimal(n), w) =~= repeat_char('0', (w - 1) as nat).push(digit_char(n)));
        } else {
            let a = decimal(n / 10);
            assert(decimal(n) == a.push(digit_char(n % 10)));
            assert(zero_pad(decimal(n), w) =~= zero_pad(a, (w - 1) as nat).push(digit_char(n % 10)));
        }
    }
}

/// A digit's character comes before another's exactly when the digit is
/// smaller.
proof fn lemma_digit_order(a: nat, b: nat)
    requires
        a < 10,
        b < 10,
    ensures
        (digit_char(a) as u32) < (digit_char(b) as u32) <==> a < b,
        digit_char(a) == digit_char(b) <==> a == b,
{
    assert(digit_char(a) as u32 == 48 + a);
    assert(digit_char(b) as u32 == 48 + b);
}

/// Of two strings of one length, each extended by a character, the first
/// comes first when its start does, or the starts are equal and its last
/// character is smaller.
proof fn lemma_chars_lt_push(a: Seq<char>, b: Seq<char>, x: char, y: char)
    requires
        a.len() == b.len(),
    ensures
        chars_lt(a.push(x), b.push(y)) == (chars_lt(a, b) || (a == b && (x as u32) < (y as u32))),
    decreases a.len(),
{
    if a.len() == 0 {
        assert(a =~= b);
        assert(a.push(x).drop_first() =~= Seq::<char>::empty());
        assert(b.push(y).drop_first() =~= Seq::<char>::empty());
        vstd::utf8::char_u32_cast(x, x as u32);
        vstd::utf8::char_u32_cast(y, y as u32);
        assert(!chars_lt(Seq::<char>::empty(), Seq::<char>::empty()));
        assert(!chars_lt(a, b));
        assert(a.push(x)[0] == x && b.push(y)[0] == y);
    } else {
        assert(a.push(x)[0] == a[0] && b.push(y)[0] == b[0]);
        assert(a.push(x).drop_first() =~= a.drop_first().push(x));
        assert(b.push(y).drop_first() =~= b.drop_first().push(y));
        lemma_chars_lt_push(a.drop_first(), b.drop_first(), x, y);
        if a[0] == b[0] && a.drop_first() == b.drop_first() {
            assert(a =~= seq![a[0]] + a.drop_first());
            assert(b =~= seq![b[0]] + b.drop_first());
        }
        if a == b {
            assert(a.drop_first() == b.drop_first());
        }
    }
}

/// Fixed-width digit fields compare like the numbers (below `10^w`).
proof fn lemma_fixed_order(n: nat, m: nat, w: nat)
    requires
        n < pow10(w),
        m < pow10(w),
    ensures
        chars_lt(fixed(n, w), fixed(m, w)) <==> n < m,
        fixed(n, w) == fixed(m, w) <==> n == m,
    decreases w,
{
    if w == 0 {
        assert(n == 0 && m == 0);
        lemma_chars_lt_irreflexive(fixed(n, w));
    } else {
        let p = pow10((w - 1) as nat);
        assert(n / 10 < p && m / 10 < p) by (nonlinear_arith)
            requires
                n < 10 * p,
                m < 10 * p,
        ;
        lemma_fixed_order(n / 10, m / 10, (w - 1) as nat);
        lemma_fixed_len(n / 10, (w - 1) as nat);
        lemma_fixed_len(m / 10, (w - 1) as nat);
        lemma_digit_order(n % 10, m % 10);
        lemma_chars_lt_push(fixed(n / 10, (w - 1) as nat), fixed(m / 10, (w - 1) as nat), digit_char(n % 10), digit_char(m % 10));
        assert(n == (n / 10) * 10 + n % 10 && m == (m / 10) * 10 + m % 10);
        if fixed(n, w) == fixed(m, w) {
            assert(fixed(n, w).drop_last() =~= fixed(n / 10, (w - 1) as nat));
            assert(fixed(m, w).drop_last() =~= fixed(m / 10, (w - 1) as nat));
            assert(fixed(n, w).last() == digit_char(n % 10));
        }
    }
}

/// The numerator of the year-of-era formula.
pub open spec fn yoe_num(doe: int) -> int {
    doe - doe / 1460 + doe / 36524 - doe / 146096
}

proof fn lemma_yoe_num_step(d: int)
    requires
        0 <= d < 146096,
    ensures
        yoe_num(d) <= yoe_num(d + 1),
{
    assert((d + 1) / 1460 <= d / 1460 + 1);
    assert((d + 1) / 36524 >= d / 36524);
    assert((d + 1) / 146096 <= d / 146096 + 1);
    if (d + 1) / 146096 == d / 146096 + 1 {
        assert(d + 1 == 146096);
        assert((d + 1) / 1460 == d / 1460);
    }
}

proof fn lemma_yoe_mono(d1: int, d2: int)
    requires
        0 <= d1 <= d2 <= 146096,
    ensures
        era_yoe(d1) <= era_yoe(d2),
    decreases d2 - d1,
{
    if d1 < d2 {
        lemma_yoe_num_step(d2 - 1);
        lemma_yoe_mono(d1, d2 - 1);
        assert(yoe_num(d2 - 1) / 365 <= yoe_num(d2) / 365);
    }
}

/// A date's place in a month count: `year * 12 + month`.
pub open spec fn month_key(days: int) -> int {
    civil_from_days(days).0 * 12 + civil_from_days(days).1
}

/// Whether date `a` comes before date `b` (year, then month, then day).
pub open spec fn date_lt(a: (int, int, int), b: (int, int, int)) -> bool {
    a.0 < b.0 || (a.0 == b.0 && (a.1 < b.1 || (a.1 == b.1 && a.2 < b.2)))
}

/// In the era's own terms: year `400 * era + yoe` counted from March, the
/// month `mp` from March, the day.
proof fn lemma_civil_parts(days: int)
    ensures
        ({
            let z = days + 719468;
            let era = z / 146097;
            let doe = z - era * 146097;
            let yoe = era_yoe(doe);
            let doy = doe - (365 * yoe + yoe / 4 - yoe / 100);
            let mp = (5 * doy + 2) / 153;
            let (y, m, d) = civil_from_days(days);
            &&& 0 <= doe < 146097
            &&& 0 <= yoe < 400
            &&& 0 <= doy <= 365
            &&& 0 <= mp <= 11
            &&& y * 12 + m == (era * 400 + yoe) * 12 + mp + 3
            &&& d == doy - (153 * mp + 2) / 5 + 1
            &&& 1 <= m <= 12
        }),
{
    let z = days + 719468;
    let era = z / 146097;
    let doe = z - era * 146097;
    lemma_doy_range(doe);
    let yoe = era_yoe(doe);
    let doy = doe - (365 * yoe + yoe / 4 - yoe / 100);
    lemma_month_of_doy(doy);
}

/// Later days have later dates.
proof fn lemma_civil_mono(d1: int, d2: int)
    requires
        d1 < d2,
    ensures
        date_lt(civil_from_days(d1), civil_from_days(d2)),
{
    lemma_civil_parts(d1);
    lemma_civil_parts(d2);
    let z1 = d1 + 719468;
    let z2 = d2 + 719468;
    let e1 = z1 / 146097;
    let e2 = z2 / 146097;
    let doe1 = z1 - e1 * 146097;
    let doe2 = z2 - e2 * 146097;
    let y1 = era_yoe(doe1);
    let y2 = era_yoe(doe2);
    let doy1 = doe1 - (365 * y1 + y1 / 4 - y1 / 100);
    let doy2 = doe2 - (365 * y2 + y2 / 4 - y2 / 100);
    let mp1 = (5 * doy1 + 2) / 153;
    let mp2 = (5 * doy2 + 2) / 153;
    let c1 = civil_from_days(d1);
    let c2 = civil_from_days(d2);
    assert(e1 <= e2);
    let k1 = (e1 * 400 + y1) * 12 + mp1 + 3;
    let k2 = (e2 * 400 + y2) * 12 + mp2 + 3;
    if e1 < e2 {
        assert(k1 < k2) by (nonlinear_arith)
            requires
                e1 < e2,
                0 <= y1 < 400,
                0 <= y2 < 400,
                0 <= mp1 <= 11,
                0 <= mp2 <= 11,
                k1 == (e1 * 400 + y1) * 12 + mp1 + 3,
                k2 == (e2 * 400 + y2) * 12 + mp2 + 3,
        ;
    } else {
        assert(doe1 < doe2);
        lemma_yoe_mono(doe1, doe2);
        if y1 < y2 {
            assert(k1 < k2);
        } else {
            assert(doy1 < doy2);
            assert(mp1 <= mp2);
            if mp1 == mp2 {
                assert(k1 == k2);
                assert(c1.2 < c2.2);
            } else {
                assert(k1 < k2);
            }
        }
    }
    if k1 < k2 {
        if c1.0 > c2.0 {
            assert(c1.0 * 12 + c1.1 > c2.0 * 12 + c2.1);
        }
    } else {
        assert(c1.0 == c2.0) by {
            if c1.0 < c2.0 {
                assert(c1.0 * 12 + c1.1 < c2.0 * 12 + c2.1);
            }
            if c1.0 > c2.0 {
                assert(c1.0 * 12 + c1.1 > c2.0 * 12 + c2.1);
            }
        }
    }
}

/// Strings after equal-length starts compare by the starts first.
proof fn lemma_chars_lt_concat(x: Seq<char>, y: Seq<char>, x2: Seq<char>, y2: Seq<char>)
    requires
        x.len() == x2.len(),
    ensures
        chars_lt(x + y, x2 + y2) == (chars_lt(x, x2) || (x == x2 && chars_lt(y, y2))),
        (x + y == x2 + y2) == (x == x2 && y == y2),
    decreases x.len(),
{
    let n = x.len() as int;
    if x + y == x2 + y2 {
        assert((x + y).take(n) =~= x);
        assert((x2 + y2).take(n) =~= x2);
        assert((x + y).skip(n) =~= y);
        assert((x2 + y2).skip(n) =~= y2);
    }
    if x.len() == 0 {
        assert(x =~= x2);
        assert(x + y =~= y);
        assert(x2 + y2 =~= y2);
        assert(!chars_lt(x, x2));
    } else {
        assert((x + y).drop_first() =~= x.drop_first() + y);
        assert((x2 + y2).drop_first() =~= x2.drop_first() + y2);
        assert((x + y)[0] == x[0] && (x2 + y2)[0] == x2[0]);
        lemma_chars_lt_concat(x.drop_first(), y, x2.drop_first(), y2);
        if x[0] == x2[0] && x.drop_first() == x2.drop_first() {
            assert(x =~= seq![x[0]] + x.drop_first());
            assert(x2 =~= seq![x2[0]] + x2.drop_first());
        }
        if x == x2 {
            assert(x.drop_first() == x2.drop_first());
        }
    }
}

/// The seconds field and the closing `Z`.
pub open spec fn tail_sec(t: (nat, nat, nat, nat, nat, nat)) -> Seq<char> {
    fixed(t.5, 2) + seq!['Z']
}

/// From the minutes on: `MM:SSZ`.
pub open spec fn tail_min(t: (nat, nat, nat, nat, nat, nat)) -> Seq<char> {
    fixed(t.4, 2) + (seq![':'] + tail_sec(t))
}

/// From the hours on: `HH:MM:SSZ`.
pub open spec fn tail_hour(t: (nat, nat, nat, nat, nat, nat)) -> Seq<char> {
    fixed(t.3, 2) + (seq![':'] + tail_min(t))
}

/// From the day on: `DDTHH:MM:SSZ`.
pub open spec fn tail_day(t: (nat, nat, nat, nat, nat, nat)) -> Seq<char> {
    fixed(t.2, 2) + (seq!['T'] + tail_hour(t))
}

/// From the month on: `MM-DDTHH:MM:SSZ`.
pub open spec fn tail_month(t: (nat, nat, nat, nat, nat, nat)) -> Seq<char> {
    fixed(t.1, 2) + (seq!['-'] + tail_day(t))
}

/// A timestamp's text from its fields: `YYYY-MM-DDTHH:MM:SSZ`.
pub open spec fn stamp_text(t: (nat, nat, nat, nat, nat, nat)) -> Seq<char> {
    fixed(t.0, 4) + (seq!['-'] + tail_month(t))
}

/// Whether the fields `a` come before `b`, field by field.
pub open spec fn stamp_lt(a: (nat, nat, nat, nat, nat, nat), b: (nat, nat, nat, nat, nat, nat)) -> bool {
    a.0 < b.0 || (a.0 == b.0 && (a.1 < b.1 || (a.1 == b.1 && (a.2 < b.2 || (a.2 == b.2 && (a.3 < b.3
        || (a.3 == b.3 && (a.4 < b.4 || (a.4 == b.4 && a.5 < b.5)))))))))
}

/// The fields fit their widths: a four-digit year, two digits for the rest.
pub open spec fn stamp_fits(t: (nat, nat, nat, nat, nat, nat)) -> bool {
    t.0 < 10000 && t.1 < 100 && t.2 < 100 && t.3 < 100 && t.4 < 100 && t.5 < 100
}

proof fn lemma_pow10_values()
    ensures
        pow10(2) == 100,
        pow10(4) == 10000,
{
    assert(pow10(0) == 1);
    assert(pow10(1) == 10);
    assert(pow10(2) == 100);
    assert(pow10(3) == 1000);
    assert(pow10(4) == 10000);
}

proof fn lemma_field_step(a: nat, b: nat, w: nat, r1: Seq<char>, r2: Seq<char>)
    requires
        a < pow10(w),
        b < pow10(w),
    ensures
        chars_lt(fixed(a, w) + r1, fixed(b, w) + r2) == (a < b || (a == b && chars_lt(r1, r2))),
        (fixed(a, w) + r1 == fixed(b, w) + r2) == (a == b && r1 == r2),
{
    lemma_fixed_len(a, w);
    lemma_fixed_len(b, w);
    lemma_fixed_order(a, b, w);
    lemma_chars_lt_concat(fixed(a, w), r1, fixed(b, w), r2);
}

proof fn lemma_sep_step(c: char, r1: Seq<char>, r2: Seq<char>)
    ensures
        chars_lt(seq![c] + r1, seq![c] + r2) == chars_lt(r1, r2),
        (seq![c] + r1 == seq![c] + r2) == (r1 == r2),
{
    lemma_chars_lt_irreflexive(seq![c]);
    lemma_chars_lt_concat(seq![c], r1, seq![c], r2);
}

/// Timestamp texts compare like their fields, and are equal exactly when
/// the fields are.
proof fn lemma_stamp_order(a: (nat, nat, nat, nat, nat, nat), b: (nat, nat, nat, nat, nat, nat))
    requires
        stamp_fits(a),
        stamp_fits(b),
    ensures
        chars_lt(stamp_text(a), stamp_text(b)) == stamp_lt(a, b),
        (stamp_text(a) == stamp_text(b)) == (a == b),
        stamp_text(a).len() == 20,
{
    lemma_pow10_values();
    let z1 = fixed(a.5, 2) + seq!['Z'];
    let z2 = fixed(b.5, 2) + seq!['Z'];
    lemma_field_step(a.5, b.5, 2, seq!['Z'], seq!['Z']);
    lemma_chars_lt_irreflexive(seq!['Z']);
    let s1 = seq![':'] + z1;
    let s2 = seq![':'] + z2;
    lemma_sep_step(':', z1, z2);
    let m1 = fixed(a.4, 2) + s1;
    let m2 = fixed(b.4, 2) + s2;
    lemma_field_step(a.4, b.4, 2, s1, s2);
    let n1 = seq![':'] + m1;
    let n2 = seq![':'] + m2;
    lemma_sep_step(':', m1, m2);
    let h1 = fixed(a.3, 2) + n1;
    let h2 = fixed(b.3, 2) + n2;
    lemma_field_step(a.3, b.3, 2, n1, n2);
    let t1 = seq!['T'] + h1;
    let t2 = seq!['T'] + h2;
    lemma_sep_step('T', h1, h2);
    let d1 = fixed(a.2, 2) + t1;
    let d2 = fixed(b.2, 2) + t2;
    lemma_field_step(a.2, b.2, 2, t1, t2);
    let e1 = seq!['-'] + d1;
    let e2 = seq!['-'] + d2;
    lemma_sep_step('-', d1, d2);
    let o1 = fixed(a.1, 2) + e1;
    let o2 = fixed(b.1, 2) + e2;
    lemma_field_step(a.1, b.1, 2, e1, e2);
    let p1 = seq!['-'] + o1;
    let p2 = seq!['-'] + o2;
    lemma_sep_step('-', o1, o2);
    lemma_field_step(a.0, b.0, 4, p1, p2);
    assert(stamp_text(a) == fixed(a.0, 4) + p1);
    assert(stamp_text(b) == fixed(b.0, 4) + p2);
    lemma_fixed_len(a.0, 4);
    lemma_fixed_len(a.1, 2);
    lemma_fixed_len(a.2, 2);
    lemma_fixed_len(a.3, 2);
    lemma_fixed_len(a.4, 2);
    lemma_fixed_len(a.5, 2);
}

/// The fields of the timestamp of `secs`.
pub open spec fn stamp_fields(secs: int) -> (nat, nat, nat, nat, nat, nat) {
    let days = secs / 86400;
    let rem = secs % 86400;
    let (y, m, d) = civil_from_days(days);
    (y as nat, m as nat, d as nat, (rem / 3600) as nat, ((rem % 3600) / 60) as nat, (rem % 60) as nat)
}

/// The last second with a four-digit year: 9999-12-31T23:59:59Z.
pub open spec fn last_four_digit_second() -> int {
    253_402_300_799
}

/// From the epoch to the end of year 9999, years have four digits.
proof fn lemma_year_range(days: int)
    requires
        0 <= days <= 2932896,
    ensures
        0 <= civil_from_days(days).0 <= 9999,
        1 <= civil_from_days(days).1 <= 12,
        1 <= civil_from_days(days).2 <= 31,
{
    lemma_civil_round_trip(days);
    lemma_civil_parts(days);
    let (y, m, d) = civil_from_days(days);
    let z = days + 719468;
    let era = z / 146097;
    let doe = z - era * 146097;
    let yoe = era_yoe(doe);
    let doy = doe - (365 * yoe + yoe / 4 - yoe / 100);
    let mp = (5 * doy + 2) / 153;
    assert(4 <= era <= 24);
    if era <= 23 {
        assert(y * 12 + m <= 9599 * 12 + 14);
    } else if yoe <= 398 {
        assert(y * 12 + m <= 9998 * 12 + 14);
    } else {
        assert(doe <= 146036);
        assert(doy <= 305);
        assert(mp <= 9);
        assert(y * 12 + m <= 9999 * 12 + 12);
    }
}

/// The time of day splits into hours, minutes and seconds, in range.
proof fn lemma_time_of_day(secs: int)
    requires
        0 <= secs,
    ensures
        0 <= secs / 86400,
        0 <= secs % 86400 < 86400,
        0 <= (secs % 86400) / 3600 < 24,
        0 <= ((secs % 86400) % 3600) / 60 < 60,
        0 <= (secs % 86400) % 60 < 60,
{
}

proof fn lemma_pad_fixed(v: int, w: nat)
    requires
        w >= 1,
        0 <= v < pow10(w),
    ensures
        fmt_signed_pad(v, w) == fixed(v as nat, w),
{
    lemma_zero_pad_fixed(v as nat, w);
}

/// The text of the fields, joined as `rfc3339` joins them.
proof fn lemma_stamp_join(t: (nat, nat, nat, nat, nat, nat))
    ensures
        fixed(t.0, 4) + seq!['-'] + fixed(t.1, 2) + seq!['-'] + fixed(t.2, 2) + seq!['T'] + fixed(t.3, 2)
            + seq![':'] + fixed(t.4, 2) + seq![':'] + fixed(t.5, 2) + seq!['Z'] == stamp_text(t),
{
    assert(fixed(t.0, 4) + seq!['-'] + fixed(t.1, 2) + seq!['-'] + fixed(t.2, 2) + seq!['T'] + fixed(t.3, 2)
        + seq![':'] + fixed(t.4, 2) + seq![':'] + fixed(t.5, 2) + seq!['Z'] =~= stamp_text(t));
}

proof fn lemma_stamp_fields(secs: int)
    requires
        0 <= secs <= last_four_digit_second(),
    ensures
        stamp_fits(stamp_fields(secs)),
        rfc3339(secs) == stamp_text(stamp_fields(secs)),
{
    let days = secs / 86400;
    let rem = secs % 86400;
    assert(days <= 2932896) by (nonlinear_arith)
        requires
            0 <= secs <= 253_402_300_799,
            days == secs / 86400,
    ;
    lemma_year_range(days);
    lemma_time_of_day(secs);
    let (y, m, d) = civil_from_days(days);
    lemma_pow10_values();
    lemma_pad_fixed(y, 4);
    lemma_pad_fixed(m, 2);
    lemma_pad_fixed(d, 2);
    lemma_pad_fixed(rem / 3600, 2);
    lemma_pad_fixed((rem % 3600) / 60, 2);
    lemma_pad_fixed(rem % 60, 2);
    let t = stamp_fields(secs);
    lemma_stamp_join(t);
}

/// Within a day, later seconds have later hours, minutes and seconds.
proof fn lemma_time_order(ra: int, rb: int)
    requires
        0 <= ra < rb < 86400,
    ensures
        ra / 3600 < rb / 3600 || (ra / 3600 == rb / 3600 && ((ra % 3600) / 60 < (rb % 3600) / 60
            || ((ra % 3600) / 60 == (rb % 3600) / 60 && ra % 60 < rb % 60))),
{
    assert(ra == (ra / 3600) * 3600 + ((ra % 3600) / 60) * 60 + ra % 60);
    assert(rb == (rb / 3600) * 3600 + ((rb % 3600) / 60) * 60 + rb % 60);
}

/// Later seconds have later fields.
proof fn lemma_fields_mono(a: int, b: int)
    requires
        0 <= a < b <= last_four_digit_second(),
    ensures
        stamp_lt(stamp_fields(a), stamp_fields(b)),
{
    let da = a / 86400;
    let db = b / 86400;
    assert(da <= db && db <= 2932896);
    lemma_year_range(da);
    lemma_year_range(db);
    lemma_time_of_day(a);
    lemma_time_of_day(b);
    if da < db {
        lemma_civil_mono(da, db);
    } else {
        assert(a % 86400 < b % 86400);
        lemma_time_order(a % 86400, b % 86400);
    }
}

/// An RFC 3339 timestamp of a second from the epoch to the end of year 9999
/// is 20 characters long, and timestamps compare like the seconds they
/// denote: string order is time order, and equal strings are equal times.
pub proof fn lemma_rfc3339_order(a: int, b: int)
    requires
        0 <= a <= last_four_digit_second(),
        0 <= b <= last_four_digit_second(),
    ensures
        rfc3339(a).len() == 20,
        chars_lt(rfc3339(a), rfc3339(b)) <==> a < b,
        rfc3339(a) == rfc3339(b) <==> a == b,
{
    lemma_stamp_fields(a);
    lemma_stamp_fields(b);
    lemma_stamp_order(stamp_fields(a), stamp_fields(b));
    if a < b {
        lemma_fields_mono(a, b);
    } else if b < a {
        lemma_fields_mono(b, a);
    }
}

} // verus!
