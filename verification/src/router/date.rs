//! Dates as HTTP writes them.

use crate::text::{
    all_digits, chars_of, decimal, decimal_of, digits_value, has_char, is_digit, is_name, is_space,
    lemma_decimal, lemma_split_extends, lower, parse_uint, push_str, push_text, read_u64, same_name,
    split, split_of, string_of, strip_lead, strip_lead_of, strip_trail, strip_trail_of, word_scan,
    words, words_of,
};
use vstd::prelude::*;

verus! {

pub open spec fn is_leap(y: int) -> bool {
    y % 4 == 0 && (y % 100 != 0 || y % 400 == 0)
}

pub open spec fn leap_day(y: int) -> int {
    if is_leap(y) {
        1
    } else {
        0
    }
}

pub open spec fn days_in_month(y: int, m: int) -> int {
    if m == 2 {
        28 + leap_day(y)
    } else if m == 4 || m == 6 || m == 9 || m == 11 {
        30
    } else {
        31
    }
}

/// The days of a common year before a month.
pub open spec fn days_before_month(m: int) -> int {
    if m <= 1 {
        0
    } else if m == 2 {
        31
    } else if m == 3 {
        59
    } else if m == 4 {
        90
    } else if m == 5 {
        120
    } else if m == 6 {
        151
    } else if m == 7 {
        181
    } else if m == 8 {
        212
    } else if m == 9 {
        243
    } else if m == 10 {
        273
    } else if m == 11 {
        304
    } else {
        334
    }
}

/// The days of the Gregorian calendar before a year, counted from the year 1.
pub open spec fn days_before_year(y: int) -> int {
    365 * (y - 1) + (y - 1) / 4 - (y - 1) / 100 + (y - 1) / 400
}

/// A date that the calendar has.
pub open spec fn valid_date(y: int, m: int, d: int) -> bool {
    1 <= m <= 12 && 1 <= d <= days_in_month(y, m)
}

/// The days from the first of January 1970 to a date.
pub open spec fn day_number(y: int, m: int, d: int) -> int {
    days_before_year(y) + days_before_month(m) + (if m > 2 {
        leap_day(y)
    } else {
        0
    }) + d - 1 - 719162
}

/// The date that many days after the first of January 1970.
pub open spec fn date_of(days: int) -> (int, int, int) {
    choose|t: (int, int, int)| #[trigger]
        valid_date(t.0, t.1, t.2) && day_number(t.0, t.1, t.2) == days
}

pub open spec fn weekday_name(i: int) -> Seq<char> {
    if i == 0 {
        "Sun"@
    } else if i == 1 {
        "Mon"@
    } else if i == 2 {
        "Tue"@
    } else if i == 3 {
        "Wed"@
    } else if i == 4 {
        "Thu"@
    } else if i == 5 {
        "Fri"@
    } else {
        "Sat"@
    }
}

pub open spec fn month_name(m: int) -> Seq<char> {
    if m == 1 {
        "Jan"@
    } else if m == 2 {
        "Feb"@
    } else if m == 3 {
        "Mar"@
    } else if m == 4 {
        "Apr"@
    } else if m == 5 {
        "May"@
    } else if m == 6 {
        "Jun"@
    } else if m == 7 {
        "Jul"@
    } else if m == 8 {
        "Aug"@
    } else if m == 9 {
        "Sep"@
    } else if m == 10 {
        "Oct"@
    } else if m == 11 {
        "Nov"@
    } else {
        "Dec"@
    }
}

/// A number with leading zeros up to a width.
pub open spec fn padded(n: nat, width: nat) -> Seq<char> {
    let d = decimal(n);
    if d.len() < width {
        Seq::new((width - d.len()) as nat, |i: int| '0') + d
    } else {
        d
    }
}

pub open spec fn clock(t: int) -> Seq<char> {
    padded((t / 3600) as nat, 2) + ":"@ + padded((t % 3600 / 60) as nat, 2) + ":"@ + padded(
        (t % 60) as nat,
        2,
    )
}

/// The date of a moment as HTTP writes it.
pub open spec fn http_date(secs: int) -> Seq<char> {
    let days = secs / 86400;
    let (y, m, d) = date_of(days);
    weekday_name((days + 4) % 7) + ", "@ + padded(d as nat, 2) + " "@ + month_name(m) + " "@
        + padded(y as nat, 4) + " "@ + clock(secs % 86400) + " GMT"@
}

/// The number of the month with that name from `m` on, or 13.
pub open spec fn month_from(s: Seq<char>, m: int) -> int
    decreases 13 - m,
{
    if m >= 13 || same_name(month_name(m), s) {
        m
    } else {
        month_from(s, m + 1)
    }
}

/// The moment that a day, month, year and time of day denote.
pub open spec fn moment(day: Seq<char>, month: Seq<char>, year: Seq<char>, time: Seq<char>) ->
    Option<nat> {
    let big = u64::MAX as nat;
    let m = month_from(month, 1);
    let t = split(time, ':');
    match (parse_uint(strip_trail(strip_lead(day, ','), ','), big), parse_uint(year, big)) {
        (Some(d), Some(y)) => if m > 12 || t.len() != 3 {
            None
        } else {
            match (parse_uint(t[0], big), parse_uint(t[1], big), parse_uint(t[2], big)) {
                (Some(hour), Some(min), Some(sec)) => {
                    let days = day_number(y as int, m, d as int);
                    let total = days * 86400 + hour * 3600 + min * 60 + sec;
                    if days < 0 || total > big {
                        None
                    } else {
                        Some(total as nat)
                    }
                },
                _ => None,
            }
        },
        _ => None,
    }
}

/// The moment that an HTTP date denotes: with six words the first is the weekday,
/// else the date begins with the day. A moment beyond the clock is none.
pub open spec fn parsed_date(s: Seq<char>) -> Option<nat> {
    let p = words(s);
    if p.len() < 5 {
        None
    } else if p.len() == 6 {
        moment(p[1], p[2], p[3], p[4])
    } else {
        moment(p[0], p[1], p[2], p[3])
    }
}

proof fn lemma_fourth(y: int)
    ensures
        y / 4 - (y - 1) / 4 == (if y % 4 == 0 {
            1int
        } else {
            0
        }),
        y % 100 == 0 ==> y % 4 == 0,
{
}

proof fn lemma_hundredth(y: int)
    ensures
        y / 100 - (y - 1) / 100 == (if y % 100 == 0 {
            1int
        } else {
            0
        }),
        y % 400 == 0 ==> y % 100 == 0,
{
}

proof fn lemma_four_hundredth(y: int)
    ensures
        y / 400 - (y - 1) / 400 == (if y % 400 == 0 {
            1int
        } else {
            0
        }),
{
}

proof fn lemma_year_step(y: int)
    ensures
        days_before_year(y + 1) == days_before_year(y) + 365 + leap_day(y),
{
    lemma_fourth(y);
    lemma_hundredth(y);
    lemma_four_hundredth(y);
}

proof fn lemma_years_grow(a: int, b: int)
    requires
        a <= b,
    ensures
        days_before_year(a) <= days_before_year(b),
    decreases b - a,
{
    if a < b {
        lemma_year_step(b - 1);
        lemma_years_grow(a, b - 1);
    }
}

proof fn lemma_day_in_year(y: int, m: int, d: int)
    requires
        valid_date(y, m, d),
    ensures
        days_before_year(y) <= day_number(y, m, d) + 719162 < days_before_year(y + 1),
{
    lemma_year_step(y);
}

/// No two dates of the calendar have the same day number.
pub proof fn law_dates_are_unique(a: (int, int, int), b: (int, int, int))
    requires
        valid_date(a.0, a.1, a.2),
        valid_date(b.0, b.1, b.2),
        day_number(a.0, a.1, a.2) == day_number(b.0, b.1, b.2),
    ensures
        a == b,
{
    lemma_day_in_year(a.0, a.1, a.2);
    lemma_day_in_year(b.0, b.1, b.2);
    if a.0 < b.0 {
        lemma_years_grow(a.0 + 1, b.0);
    } else if b.0 < a.0 {
        lemma_years_grow(b.0 + 1, a.0);
    }
    assert(a.0 == b.0);
    assert(a.1 == b.1);
}

/// The bounds that the steps of the calendar computation keep.
proof fn lemma_century(l: int)
    requires
        l >= 2509157,
    ensures
        ({
            let n = 4 * l / 146097;
            let l1 = l - (146097 * n + 3) / 4;
            let i = 4000 * (l1 + 1) / 1461001;
            let rest = l1 - 1461 * i / 4;
            &&& 0 <= l1 <= 36524
            &&& 0 <= i <= 99
            &&& 0 <= rest <= 365
            &&& rest == 365 ==> is_leap(100 * (n - 49) + i + 1)
            &&& n >= 49
        }),
{
    let n = 4 * l / 146097;
    let r = 4 * l - 146097 * n;
    assert(0 <= r < 146097);
    let l1 = l - (146097 * n + 3) / 4;
    assert(0 <= l1 <= 36524);
    let i = 4000 * (l1 + 1) / 1461001;
    assert(1461001 * i <= 4000 * (l1 + 1) < 1461001 * (i + 1));
    assert(0 <= i <= 99);
    let q = 1461 * i / 4;
    assert(4 * q <= 1461 * i < 4 * q + 4);
    assert(q <= l1);
    assert(l1 - q <= 365);
    if l1 - q == 365 {
        assert(i % 4 == 3) by {
            if i % 4 != 3 {
                let next = 1461 * (i + 1) / 4;
                assert(4 * next <= 1461 * (i + 1) < 4 * next + 4);
                assert(next == q + 365);
                assert(4000 * (next + 1) >= 1461001 * (i + 1));
            }
        }
        let y = 100 * (n - 49) + i + 1;
        assert(y % 4 == 0);
        if i == 99 {
            assert(l1 == 36524);
            assert(r >= 146096);
            assert(n % 4 == 0);
            assert(y == 100 * (n - 48));
            assert(y % 400 == 0);
        } else {
            assert(y % 100 == i + 1);
        }
    }
}

proof fn lemma_month(l2: int)
    requires
        31 <= l2 <= 396,
    ensures
        ({
            let j = 80 * l2 / 2447;
            let d = l2 - 2447 * j / 80;
            let m = j + 2 - 12 * (j / 11);
            &&& 1 <= j <= 12
            &&& 1 <= m <= 12
            &&& 1 <= d <= 31
            &&& (m == 4 || m == 6 || m == 9 || m == 11) ==> d <= 30
            &&& m == 2 ==> d <= 29 && (d == 29 ==> l2 == 396)
            &&& j <= 10 ==> m > 2 && days_before_month(m) - 29 == 2447 * j / 80
            &&& j > 10 ==> m <= 2 && days_before_month(m) + 336 == 2447 * j / 80
            &&& j / 11 == (if j > 10 {
                1int
            } else {
                0
            })
        }),
{
    let j = 80 * l2 / 2447;
    assert(2447 * j <= 80 * l2 < 2447 * (j + 1));
    assert(1 <= j <= 12);
    assert(j == 1 || j == 2 || j == 3 || j == 4 || j == 5 || j == 6 || j == 7 || j == 8 || j == 9
        || j == 10 || j == 11 || j == 12);
}

/// The calendar computation gives the date of the day.
proof fn lemma_calendar(days: int)
    requires
        days >= 0,
    ensures
        ({
            let l = days + 2509157;
            let n = 4 * l / 146097;
            let l1 = l - (146097 * n + 3) / 4;
            let i = 4000 * (l1 + 1) / 1461001;
            let l2 = l1 - 1461 * i / 4 + 31;
            let j = 80 * l2 / 2447;
            let d = l2 - 2447 * j / 80;
            let m = j + 2 - 12 * (j / 11);
            let y = 100 * (n - 49) + i + j / 11;
            &&& valid_date(y, m, d)
            &&& day_number(y, m, d) == days
            &&& date_of(days) == (y, m, d)
            &&& y >= 0
        }),
{
    let l = days + 2509157;
    lemma_century(l);
    let n = 4 * l / 146097;
    let l1 = l - (146097 * n + 3) / 4;
    let i = 4000 * (l1 + 1) / 1461001;
    let l2 = l1 - 1461 * i / 4 + 31;
    lemma_month(l2);
    let j = 80 * l2 / 2447;
    let d = l2 - 2447 * j / 80;
    let m = j + 2 - 12 * (j / 11);
    let c = n - 49;
    let s = 100 * c + i;
    let y = s + j / 11;
    assert(s / 100 == c);
    assert(s / 4 == 25 * c + i / 4);
    assert(s / 400 == c / 4);
    let b = 365 * s + s / 4 - s / 100 + s / 400;
    assert((146097 * n + 3) / 4 == 36524 * n + (n + 3) / 4);
    assert(c / 4 == (n + 3) / 4 - 13);
    assert(1461 * i / 4 == 365 * i + i / 4);
    assert(b == days + 719499 - l2);
    if j <= 10 {
        lemma_year_step(s);
        assert(days_before_year(s) + leap_day(s) == b - 365);
    } else {
        assert(days_before_year(y) == b);
    }
    assert(day_number(y, m, d) == days);
    let t = (y, m, d);
    assert(valid_date(t.0, t.1, t.2));
    law_dates_are_unique(t, date_of(days));
}

/// The Julian day number of a date, from the days since 1970.
proof fn lemma_julian(y: int, m: int, d: int)
    requires
        1 <= m <= 12,
    ensures
        ({
            let a = (14 - m) / 12;
            let yy = y + 4800 - a;
            let mm = m + 12 * a - 3;
            d + (153 * mm + 2) / 5 + 365 * yy + yy / 4 - yy / 100 + yy / 400 - 32045
                == day_number(y, m, d) + 2440588
        }),
{
    let a = (14 - m) / 12;
    assert(m == 1 || m == 2 || m == 3 || m == 4 || m == 5 || m == 6 || m == 7 || m == 8 || m == 9
        || m == 10 || m == 11 || m == 12);
    let z = y - a;
    let yy = z + 4800;
    assert(yy / 4 == z / 4 + 1200);
    assert(yy / 100 == z / 100 + 48);
    assert(yy / 400 == z / 400 + 12);
    if m > 2 {
        assert(a == 0);
        lemma_year_step(y);
    } else {
        assert(a == 1);
    }
}

fn push_padded(out: &mut Vec<char>, n: u64, width: usize)
    requires
        width <= 8,
    ensures
        final(out)@ == old(out)@ + padded(n as nat, width as nat),
{
    let ghost start = out@;
    let d = decimal_of(n);
    let mut k: usize = d.len();
    let ghost from = k;
    while k < width
        invariant
            from <= k,
            from == d@.len(),
            if from <= width {
                k <= width
            } else {
                k == from
            },
            width <= 8,
            out@ == start + Seq::new((k - from) as nat, |i: int| '0'),
        decreases width - k,
    {
        let ghost prev = out@;
        out.push('0');
        k = k + 1;
        assert(out@ =~= start + Seq::new((k - from) as nat, |i: int| '0'));
    }
    push_text(out, &d);
    assert(out@ =~= start + padded(n as nat, width as nat));
}

fn weekday(i: u64) -> (r: &'static str)
    ensures
        r@ == weekday_name(i as int),
{
    if i == 0 {
        "Sun"
    } else if i == 1 {
        "Mon"
    } else if i == 2 {
        "Tue"
    } else if i == 3 {
        "Wed"
    } else if i == 4 {
        "Thu"
    } else if i == 5 {
        "Fri"
    } else {
        "Sat"
    }
}

fn month(m: u64) -> (r: &'static str)
    ensures
        r@ == month_name(m as int),
{
    if m == 1 {
        "Jan"
    } else if m == 2 {
        "Feb"
    } else if m == 3 {
        "Mar"
    } else if m == 4 {
        "Apr"
    } else if m == 5 {
        "May"
    } else if m == 6 {
        "Jun"
    } else if m == 7 {
        "Jul"
    } else if m == 8 {
        "Aug"
    } else if m == 9 {
        "Sep"
    } else if m == 10 {
        "Oct"
    } else if m == 11 {
        "Nov"
    } else {
        "Dec"
    }
}

/// The date of a moment, in seconds since 1970, as HTTP writes it.
pub fn format_http_date(secs: u64) -> (r: String)
    ensures
        r@ == http_date(secs as int),
{
    let days: u64 = secs / 86400;
    let time: u64 = secs % 86400;
    proof {
        lemma_century(days + 2509157);
        lemma_calendar(days as int);
    }
    let l: u64 = days + 2509157;
    let n: u64 = 4 * l / 146097;
    let l1: u64 = l - (146097 * n + 3) / 4;
    let i: u64 = 4000 * (l1 + 1) / 1461001;
    let l2: u64 = l1 - 1461 * i / 4 + 31;
    proof {
        lemma_month(l2 as int);
    }
    let j: u64 = 80 * l2 / 2447;
    let day: u64 = l2 - 2447 * j / 80;
    let turn: u64 = j / 11;
    let m: u64 = j + 2 - 12 * turn;
    let year: u64 = 100 * (n - 49) + i + turn;
    let mut out: Vec<char> = chars_of(weekday((days + 4) % 7));
    push_str(&mut out, ", ");
    push_padded(&mut out, day, 2);
    push_str(&mut out, " ");
    push_str(&mut out, month(m));
    push_str(&mut out, " ");
    push_padded(&mut out, year, 4);
    push_str(&mut out, " ");
    let ghost date = out@;
    push_padded(&mut out, time / 3600, 2);
    push_str(&mut out, ":");
    push_padded(&mut out, time % 3600 / 60, 2);
    push_str(&mut out, ":");
    push_padded(&mut out, time % 60, 2);
    assert(out@ =~= date + clock(time as int));
    push_str(&mut out, " GMT");
    string_of(&out)
}

fn month_number(s: &Vec<char>) -> (m: u64)
    ensures
        m == month_from(s@, 1),
        1 <= m <= 13,
{
    let mut m: u64 = 1;
    while m < 13
        invariant
            1 <= m <= 13,
            month_from(s@, m as int) == month_from(s@, 1),
        decreases 13 - m,
    {
        assert(same_name(month_name(m as int), s@) == same_name(s@, month_name(m as int)));
        if is_name(s, month(m)) {
            return m;
        }
        m = m + 1;
    }
    m
}

fn moment_of(day: &Vec<char>, month: &Vec<char>, year: &Vec<char>, time: &Vec<char>) -> (r:
    Option<u64>)
    ensures
        match r {
            Some(n) => moment(day@, month@, year@, time@) == Some(n as nat),
            None => moment(day@, month@, year@, time@) is None,
        },
{
    let d = match read_u64(&strip_trail_of(&strip_lead_of(day, ','), ',')) {
        Some(d) => d,
        None => {
            return None;
        },
    };
    let y = match read_u64(year) {
        Some(y) => y,
        None => {
            return None;
        },
    };
    let m: u64 = month_number(month);
    let t = split_of(time, ':');
    let ghost p = split(time@, ':');
    if m > 12 || t.len() != 3 {
        return None;
    }
    assert(p[0] == t@[0]@ && p[1] == t@[1]@ && p[2] == t@[2]@);
    let (hour, min, sec) = match (read_u64(&t[0]), read_u64(&t[1]), read_u64(&t[2])) {
        (Some(a), Some(b), Some(c)) => (a, b, c),
        _ => {
            return None;
        },
    };
    let a: u128 = ((14 - m) / 12) as u128;
    let yy: u128 = y as u128 + 4800 - a;
    let mm: u128 = m as u128 + 12 * a - 3;
    proof {
        lemma_julian(y as int, m as int, d as int);
    }
    let jdn: u128 = d as u128 + (153 * mm + 2) / 5 + 365 * yy + yy / 4 - yy / 100 + yy / 400
        - 32045;
    if jdn < 2440588 {
        return None;
    }
    let days: u128 = jdn - 2440588;
    let total: u128 = days * 86400 + hour as u128 * 3600 + min as u128 * 60 + sec as u128;
    if total > 0xffff_ffff_ffff_ffff {
        return None;
    }
    Some(total as u64)
}

/// The moment, in seconds since 1970, that an HTTP date denotes.
pub fn parse_http_date(s: &str) -> (r: Option<u64>)
    ensures
        match r {
            Some(n) => parsed_date(s@) == Some(n as nat),
            None => parsed_date(s@) is None,
        },
{
    let p = words_of(&chars_of(s));
    let ghost w = words(s@);
    if p.len() < 5 {
        return None;
    }
    assert(w[0] == p@[0]@ && w[1] == p@[1]@ && w[2] == p@[2]@ && w[3] == p@[3]@ && w[4] == p@[4]@);
    if p.len() == 6 {
        moment_of(&p[1], &p[2], &p[3], &p[4])
    } else {
        moment_of(&p[0], &p[1], &p[2], &p[3])
    }
}

spec fn no_space(s: Seq<char>) -> bool {
    forall|i: int| 0 <= i < s.len() ==> !is_space(#[trigger] s[i])
}

proof fn lemma_scan_word(s: Seq<char>, w: Seq<char>)
    requires
        no_space(w),
    ensures
        word_scan(s + w) == (word_scan(s).0, word_scan(s).1 + w),
    decreases w.len(),
{
    if w.len() == 0 {
        assert(s + w =~= s);
        assert(word_scan(s).1 + w =~= word_scan(s).1);
    } else {
        let v = w.drop_last();
        assert(forall|i: int| 0 <= i < v.len() ==> v[i] == w[i]);
        lemma_scan_word(s, v);
        assert((s + w).drop_last() =~= s + v);
        assert(!is_space(w[w.len() - 1]));
        assert((word_scan(s).1 + v).push(w.last()) =~= word_scan(s).1 + w);
    }
}

proof fn lemma_next_word(s: Seq<char>, w: Seq<char>)
    requires
        word_scan(s).1.len() == 0,
        no_space(w),
        w.len() > 0,
    ensures
        word_scan(s + w + " "@) == (word_scan(s).0.push(w), Seq::<char>::empty()),
{
    reveal_strlit(" ");
    lemma_scan_word(s, w);
    assert((s + w + " "@).drop_last() =~= s + w);
    assert(word_scan(s).1 + w =~= w);
}

proof fn lemma_zeros_value(k: nat, d: Seq<char>)
    ensures
        digits_value(Seq::new(k, |i: int| '0') + d) == digits_value(d),
    decreases k, d.len(),
{
    let z = Seq::new(k, |i: int| '0');
    if d.len() > 0 {
        lemma_zeros_value(k, d.drop_last());
        assert((z + d).drop_last() =~= z + d.drop_last());
    } else if k > 0 {
        let y = Seq::new((k - 1) as nat, |i: int| '0');
        lemma_zeros_value((k - 1) as nat, d);
        assert((z + d).drop_last() =~= y + d);
        assert((z + d).last() == '0');
    } else {
        assert(z + d =~= d);
    }
}

proof fn lemma_padded(n: nat, width: nat)
    ensures
        padded(n, width).len() > 0,
        all_digits(padded(n, width)),
        no_space(padded(n, width)),
        !has_char(padded(n, width), ':'),
        n <= u64::MAX ==> parse_uint(padded(n, width), u64::MAX as nat) == Some(n),
        strip_trail(strip_lead(padded(n, width), ','), ',') == padded(n, width),
{
    let p = padded(n, width);
    lemma_decimal(n);
    let d = decimal(n);
    if d.len() < width {
        lemma_zeros_value((width - d.len()) as nat, d);
        assert forall|i: int| 0 <= i < p.len() implies is_digit(#[trigger] p[i]) by {
            if i >= width - d.len() {
                assert(p[i] == d[i - (width - d.len())]);
            }
        }
    }
    assert forall|i: int| 0 <= i < p.len() implies !is_space(#[trigger] p[i]) && p[i] != ':'
        && p[i] != ',' && p[i] != '+' by {
        assert(is_digit(p[i]));
    }
    assert(p[0] != '+');
    assert(p[0] != ',');
    assert(p[p.len() - 1] != ',');
}

spec fn month_code(m: int) -> (char, char, char) {
    if m == 1 {
        ('j', 'a', 'n')
    } else if m == 2 {
        ('f', 'e', 'b')
    } else if m == 3 {
        ('m', 'a', 'r')
    } else if m == 4 {
        ('a', 'p', 'r')
    } else if m == 5 {
        ('m', 'a', 'y')
    } else if m == 6 {
        ('j', 'u', 'n')
    } else if m == 7 {
        ('j', 'u', 'l')
    } else if m == 8 {
        ('a', 'u', 'g')
    } else if m == 9 {
        ('s', 'e', 'p')
    } else if m == 10 {
        ('o', 'c', 't')
    } else if m == 11 {
        ('n', 'o', 'v')
    } else {
        ('d', 'e', 'c')
    }
}

proof fn lemma_month_code(m: int)
    requires
        1 <= m <= 12,
    ensures
        month_name(m).len() == 3,
        no_space(month_name(m)),
        lower(month_name(m))[0] == month_code(m).0,
        lower(month_name(m))[1] == month_code(m).1,
        lower(month_name(m))[2] == month_code(m).2,
{
    reveal_strlit("Jan");
    reveal_strlit("Feb");
    reveal_strlit("Mar");
    reveal_strlit("Apr");
    reveal_strlit("May");
    reveal_strlit("Jun");
    reveal_strlit("Jul");
    reveal_strlit("Aug");
    reveal_strlit("Sep");
    reveal_strlit("Oct");
    reveal_strlit("Nov");
    reveal_strlit("Dec");
    assert(m == 1 || m == 2 || m == 3 || m == 4 || m == 5 || m == 6 || m == 7 || m == 8 || m == 9
        || m == 10 || m == 11 || m == 12);
}

proof fn lemma_month_found(m: int, k: int)
    requires
        1 <= k <= m <= 12,
    ensures
        month_from(month_name(m), k) == m,
    decreases m - k,
{
    if k < m {
        lemma_month_code(m);
        lemma_month_code(k);
        lemma_month_found(m, k + 1);
        assert(month_code(m) != month_code(k));
        assert(lower(month_name(m)) != lower(month_name(k)));
    }
}

proof fn lemma_weekday(i: int)
    ensures
        no_space(weekday_name(i) + ","@),
        (weekday_name(i) + ","@).len() > 0,
{
    reveal_strlit("Sun");
    reveal_strlit("Mon");
    reveal_strlit("Tue");
    reveal_strlit("Wed");
    reveal_strlit("Thu");
    reveal_strlit("Fri");
    reveal_strlit("Sat");
    reveal_strlit(",");
    let w = weekday_name(i) + ","@;
    assert(weekday_name(i).len() == 3);
    assert(w[0] == weekday_name(i)[0] && w[1] == weekday_name(i)[1] && w[2] == weekday_name(
        i,
    )[2] && w[3] == ',');
}

proof fn lemma_clock(t: int)
    requires
        0 <= t < 86400,
    ensures
        no_space(clock(t)),
        clock(t).len() > 0,
        split(clock(t), ':') == seq![
            padded((t / 3600) as nat, 2),
            padded((t % 3600 / 60) as nat, 2),
            padded((t % 60) as nat, 2),
        ],
{
    let a = padded((t / 3600) as nat, 2);
    let b = padded((t % 3600 / 60) as nat, 2);
    let c = padded((t % 60) as nat, 2);
    let none = Seq::<char>::empty();
    lemma_padded((t / 3600) as nat, 2);
    lemma_padded((t % 3600 / 60) as nat, 2);
    lemma_padded((t % 60) as nat, 2);
    reveal_strlit(":");
    let x = a + ":"@;
    let y = x + b;
    let z = y + ":"@;
    lemma_split_extends(none, a, ':');
    assert(none + a =~= a);
    assert(split(none, ':') =~= seq![none]);
    assert(split(a, ':') =~= seq![a]);
    assert(x.drop_last() =~= a);
    assert(split(x, ':') =~= seq![a, none]);
    lemma_split_extends(x, b, ':');
    assert(none + b =~= b);
    assert(split(y, ':') =~= seq![a, b]);
    assert(z.drop_last() =~= y);
    assert(split(z, ':') =~= seq![a, b, none]);
    lemma_split_extends(z, c, ':');
    assert(none + c =~= c);
    assert(split(clock(t), ':') =~= seq![a, b, c]);
    let w = clock(t);
    assert forall|i: int| 0 <= i < w.len() implies !is_space(#[trigger] w[i]) by {
        if i < a.len() {
            assert(w[i] == a[i]);
        } else if i == a.len() {
            assert(w[i] == ':');
        } else if i < a.len() + 1 + b.len() {
            assert(w[i] == b[i - a.len() - 1]);
        } else if i == a.len() + 1 + b.len() {
            assert(w[i] == ':');
        } else {
            assert(w[i] == c[i - a.len() - b.len() - 2]);
        }
    }
}

/// The words of a written date.
proof fn lemma_date_words(w0: Seq<char>, w1: Seq<char>, w2: Seq<char>, w3: Seq<char>, w4: Seq<char>)
    requires
        no_space(w0) && w0.len() > 0,
        no_space(w1) && w1.len() > 0,
        no_space(w2) && w2.len() > 0,
        no_space(w3) && w3.len() > 0,
        no_space(w4) && w4.len() > 0,
    ensures
        words(w0 + " "@ + w1 + " "@ + w2 + " "@ + w3 + " "@ + w4 + " "@ + "GMT"@) == seq![
            w0,
            w1,
            w2,
            w3,
            w4,
            "GMT"@,
        ],
{
    let none = Seq::<char>::empty();
    reveal_strlit("GMT");
    let s1 = w0 + " "@;
    let s2 = s1 + w1 + " "@;
    let s3 = s2 + w2 + " "@;
    let s4 = s3 + w3 + " "@;
    let s5 = s4 + w4 + " "@;
    assert(none + w0 =~= w0);
    lemma_next_word(none, w0);
    lemma_next_word(s1, w1);
    lemma_next_word(s2, w2);
    lemma_next_word(s3, w3);
    lemma_next_word(s4, w4);
    lemma_scan_word(s5, "GMT"@);
    assert(none + "GMT"@ =~= "GMT"@);
    let p = words(s5 + "GMT"@);
    assert(p =~= seq![w0, w1, w2, w3, w4, "GMT"@]);
}

/// The moment that the words of a written date denote.
proof fn lemma_written_moment(y: int, m: int, d: int, time: int)
    requires
        valid_date(y, m, d),
        0 <= y,
        0 <= day_number(y, m, d),
        0 <= time < 86400,
        day_number(y, m, d) * 86400 + time <= u64::MAX,
    ensures
        moment(padded(d as nat, 2), month_name(m), padded(y as nat, 4), clock(time)) == Some(
            (day_number(y, m, d) * 86400 + time) as nat,
        ),
{
    lemma_year_bound(y, m, d);
    lemma_padded(d as nat, 2);
    lemma_month_found(m, 1);
    lemma_padded(y as nat, 4);
    lemma_clock(time);
    lemma_padded((time / 3600) as nat, 2);
    lemma_padded((time % 3600 / 60) as nat, 2);
    lemma_padded((time % 60) as nat, 2);
    assert(time / 3600 * 3600 + time % 3600 / 60 * 60 + time % 60 == time);
}

/// A date that was written is read back as the same moment.
pub proof fn law_dates_read_back(secs: u64)
    ensures
        parsed_date(http_date(secs as int)) == Some(secs as nat),
{
    let days = secs as int / 86400;
    let time = secs as int % 86400;
    lemma_calendar(days);
    let (y, m, d) = date_of(days);
    let w0 = weekday_name((days + 4) % 7) + ","@;
    let w1 = padded(d as nat, 2);
    let w2 = month_name(m);
    let w3 = padded(y as nat, 4);
    let w4 = clock(time);
    lemma_weekday((days + 4) % 7);
    lemma_padded(d as nat, 2);
    lemma_month_code(m);
    lemma_padded(y as nat, 4);
    lemma_clock(time);
    lemma_date_words(w0, w1, w2, w3, w4);
    lemma_written_moment(y, m, d, time);
    assert(http_date(secs as int) =~= w0 + " "@ + w1 + " "@ + w2 + " "@ + w3 + " "@ + w4 + " "@
        + "GMT"@) by {
        reveal_strlit(", ");
        reveal_strlit(",");
        reveal_strlit(" ");
        reveal_strlit(" GMT");
        reveal_strlit("GMT");
    }
}

/// The year of a day is no greater than the day.
proof fn lemma_year_bound(y: int, m: int, d: int)
    requires
        valid_date(y, m, d),
        0 <= y,
        0 <= day_number(y, m, d) <= u64::MAX / 86400,
    ensures
        y <= u64::MAX,
{
    lemma_day_in_year(y, m, d);
}

} // verus!
