//! The calendar, and dates as HTTP writes them.

use crate::router::date::{
    date_of, day_number, http_date, law_dates_are_unique, padded, valid_date, weekday_name,
};
use crate::text::decimal;
use vstd::prelude::*;

verus! {

/// The names of the months, from the first on.
pub open spec fn months() -> Seq<Seq<char>> {
    seq![
        "Jan"@,
        "Feb"@,
        "Mar"@,
        "Apr"@,
        "May"@,
        "Jun"@,
        "Jul"@,
        "Aug"@,
        "Sep"@,
        "Oct"@,
        "Nov"@,
        "Dec"@,
    ]
}

/// Days follow each other: a day is counted one more than the one before it in its month,
/// the first of a month one more than the last of the month before, and the first of a year
/// one more than the last of December. The count begins with the first of January 1970.
pub proof fn law_days_follow_each_other(y: int, m: int, d: int)
    requires
        valid_date(y, m, d),
    ensures
        day_number(1970, 1, 1) == 0,
        valid_date(y, m, d + 1) ==> day_number(y, m, d + 1) == day_number(y, m, d) + 1,
        !valid_date(y, m, d + 1) && m < 12 ==> day_number(y, m + 1, 1) == day_number(y, m, d) + 1,
        m == 12 && d == 31 ==> day_number(y + 1, 1, 1) == day_number(y, m, d) + 1,
        valid_date(y, 2, 29) <==> y % 4 == 0 && (y % 100 != 0 || y % 400 == 0),
        valid_date(y, m, 30) <==> m != 2,
        valid_date(y, m, 31) <==> m != 2 && m != 4 && m != 6 && m != 9 && m != 11,
        !valid_date(y, m, 32),
{
    lemma_quotients(y);
}

proof fn lemma_quotients(y: int)
    ensures
        y / 4 - (y - 1) / 4 == (if y % 4 == 0 {
            1int
        } else {
            0
        }),
        y / 100 - (y - 1) / 100 == (if y % 100 == 0 {
            1int
        } else {
            0
        }),
        y / 400 - (y - 1) / 400 == (if y % 400 == 0 {
            1int
        } else {
            0
        }),
        y % 400 == 0 ==> y % 100 == 0,
        y % 100 == 0 ==> y % 4 == 0,
{
}

/// A date is written as its weekday, its day, the name of its month, its year and its time
/// of day.
pub proof fn law_dates_are_written_in_words(
    y: int,
    m: int,
    d: int,
    hour: int,
    minute: int,
    second: int,
)
    requires
        valid_date(y, m, d),
        day_number(y, m, d) >= 0,
        y >= 0,
        0 <= hour < 24,
        0 <= minute < 60,
        0 <= second < 60,
    ensures
        http_date(day_number(y, m, d) * 86400 + hour * 3600 + minute * 60 + second)
            == weekday_name((day_number(y, m, d) + 4) % 7) + ", "@ + padded(d as nat, 2) + " "@
            + months()[m - 1] + " "@ + padded(y as nat, 4) + " "@ + (padded(hour as nat, 2) + ":"@
            + padded(minute as nat, 2) + ":"@ + padded(second as nat, 2)) + " GMT"@,
{
    let n = day_number(y, m, d);
    let t = hour * 3600 + minute * 60 + second;
    let secs = n * 86400 + hour * 3600 + minute * 60 + second;
    assert(0 <= t < 86400);
    assert(secs / 86400 == n && secs % 86400 == t);
    let a = date_of(n);
    let w = (y, m, d);
    assert(valid_date(w.0, w.1, w.2) && day_number(w.0, w.1, w.2) == n);
    law_dates_are_unique(a, w);
    assert(t / 3600 == hour);
    assert(t % 3600 == minute * 60 + second);
    assert(t % 3600 / 60 == minute);
    assert(t % 60 == second);
}

/// A number is written with at least so many digits.
pub proof fn law_numbers_are_filled_up(n: nat, width: nat)
    ensures
        padded(n, width).len() >= width,
        n < 10 ==> padded(n, 2) == seq!['0', (n + 48) as char],
        10 <= n < 100 ==> padded(n, 2) == seq![(n / 10 + 48) as char, (n % 10 + 48) as char],
{
    if 10 <= n < 100 {
        assert(decimal(n / 10) == seq![(n / 10 + 48) as char]);
        assert(padded(n, 2) =~= seq![(n / 10 + 48) as char, (n % 10 + 48) as char]);
    }
}

} // verus!
