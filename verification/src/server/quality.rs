//! Content negotiation: quality values and the codings that a client accepts.

use crate::text::{
    all_digits, chars_of, digit, digit_value, digits_value, find, find_of, is_digit, is_name,
    is_text, part, same_name, split, split_of, starts_with, starts_with_str, trim, trim_of,
};
use vstd::prelude::*;

verus! {

/// The significant digits of half the least positive single-precision number,
/// 2^-150. They stand behind a leading digit of weight 10^-46.
pub const HALF_LEAST: &'static str = "700649232162408535461864791644958065640130970938257885878534141944895541342930300743319094181060791015625";

/// The weight of the leading digit of that number.
pub const HALF_LEAST_WEIGHT: i128 = -46;

/// The position of the exponent mark, or the length.
pub open spec fn exponent_mark(s: Seq<char>) -> int {
    let a = find(s, 'e');
    let b = find(s, 'E');
    if a <= b {
        a
    } else {
        b
    }
}

/// The number without its sign.
pub open spec fn unsigned_part(s: Seq<char>) -> Seq<char> {
    if s.len() > 0 && (s[0] == '+' || s[0] == '-') {
        s.subrange(1, s.len() as int)
    } else {
        s
    }
}

pub open spec fn is_negative(s: Seq<char>) -> bool {
    s.len() > 0 && s[0] == '-'
}

/// A decimal exponent: an optional sign and digits.
pub open spec fn exponent(s: Seq<char>) -> Option<int> {
    let d = unsigned_part(s);
    if d.len() == 0 || !all_digits(d) {
        None
    } else if is_negative(s) {
        Some(-(digits_value(d) as int))
    } else {
        Some(digits_value(d) as int)
    }
}

/// The digits of a decimal fraction and how many of them stand before the point.
pub open spec fn mantissa(s: Seq<char>) -> Option<(Seq<char>, int)> {
    let p = find(s, '.');
    let whole = s.subrange(0, p);
    let rest = if p < s.len() {
        s.subrange(p + 1, s.len() as int)
    } else {
        Seq::empty()
    };
    if all_digits(whole) && all_digits(rest) && whole.len() + rest.len() > 0 {
        Some((whole + rest, p))
    } else {
        None
    }
}

/// The number of leading zeros.
pub open spec fn zeros_at(d: Seq<char>) -> int
    decreases d.len(),
{
    if d.len() > 0 && d[0] == '0' {
        1 + zeros_at(d.subrange(1, d.len() as int))
    } else {
        0
    }
}

/// The fraction with digits `d` is greater than the one with digits `t`.
pub open spec fn exceeds(d: Seq<char>, t: Seq<char>) -> bool
    decreases t.len(),
{
    if t.len() == 0 {
        exists|i: int| 0 <= i < d.len() && d[i] != '0'
    } else if d.len() == 0 {
        false
    } else if d[0] != t[0] {
        digit_value(d[0]) > digit_value(t[0])
    } else {
        exceeds(d.subrange(1, d.len() as int), t.subrange(1, t.len() as int))
    }
}

/// Whether digits with the given number of them before the point, times the power
/// of ten, round to a positive single-precision number.
pub open spec fn rounds_up(d: Seq<char>, point: int, exp: int) -> bool {
    let z = zeros_at(d);
    let weight = point - z - 1 + exp;
    z < d.len() && (weight > HALF_LEAST_WEIGHT || (weight == HALF_LEAST_WEIGHT && exceeds(
        d.subrange(z, d.len() as int),
        HALF_LEAST@,
    )))
}

/// Whether a text that denotes a single-precision number denotes a positive one;
/// none where it denotes no number.
pub open spec fn positive(s: Seq<char>) -> Option<bool> {
    let u = unsigned_part(s);
    if same_name(u, "inf"@) || same_name(u, "infinity"@) {
        Some(!is_negative(s))
    } else if same_name(u, "nan"@) {
        Some(false)
    } else {
        let k = exponent_mark(u);
        let exp = if k < u.len() {
            exponent(u.subrange(k + 1, u.len() as int))
        } else {
            Some(0)
        };
        match (mantissa(u.subrange(0, k)), exp) {
            (Some((d, point)), Some(e)) => Some(!is_negative(s) && rounds_up(d, point, e)),
            _ => None,
        }
    }
}

fn digits_only(v: &Vec<char>) -> (b: bool)
    ensures
        b == all_digits(v@),
{
    let mut i: usize = 0;
    while i < v.len()
        invariant
            i <= v@.len(),
            forall|j: int| 0 <= j < i ==> is_digit(#[trigger] v@[j]),
        decreases v@.len() - i,
    {
        if !digit(v[i]) {
            return false;
        }
        i = i + 1;
    }
    true
}

proof fn lemma_digits_at_least(s: Seq<char>, i: int)
    requires
        0 <= i <= s.len(),
    ensures
        digits_value(s.subrange(0, i)) <= digits_value(s),
    decreases s.len(),
{
    if i < s.len() {
        lemma_digits_at_least(s.drop_last(), i);
        assert(s.drop_last().subrange(0, i) =~= s.subrange(0, i));
    } else {
        assert(s.subrange(0, i) =~= s);
    }
}

/// Beyond this no exponent makes a difference.
pub const FAR: u128 = 1000000000000000000000000000000;

/// The value of the digits, or [`FAR`] where it is greater.
fn capped_value(v: &Vec<char>) -> (n: u128)
    requires
        all_digits(v@),
    ensures
        n == (if digits_value(v@) <= FAR {
            digits_value(v@)
        } else {
            FAR as nat
        }),
{
    let mut i: usize = 0;
    let mut n: u128 = 0;
    assert(v@.subrange(0, 0) =~= Seq::<char>::empty());
    while i < v.len()
        invariant
            all_digits(v@),
            i <= v@.len(),
            n == digits_value(v@.subrange(0, i as int)),
            n <= FAR,
        decreases v@.len() - i,
    {
        let c = v[i];
        assert(is_digit(v@[i as int]));
        let wide: u128 = n * 10 + (c as u32 - 48) as u128;
        proof {
            let t = v@.subrange(0, i + 1);
            assert(t.drop_last() =~= v@.subrange(0, i as int));
            assert(digits_value(t) == wide);
            lemma_digits_at_least(v@, i + 1);
        }
        if wide > FAR {
            return FAR;
        }
        n = wide;
        i = i + 1;
    }
    assert(v@.subrange(0, v@.len() as int) =~= v@);
    n
}

fn unsigned_part_of(v: &Vec<char>) -> (r: Vec<char>)
    ensures
        r@ == unsigned_part(v@),
{
    if v.len() > 0 && (v[0] == '+' || v[0] == '-') {
        part(v, 1, v.len())
    } else {
        crate::text::copy(v)
    }
}

fn negative(v: &Vec<char>) -> (b: bool)
    ensures
        b == is_negative(v@),
{
    v.len() > 0 && v[0] == '-'
}

fn zeros_of(v: &Vec<char>) -> (k: usize)
    ensures
        k == zeros_at(v@),
        k <= v@.len(),
{
    let mut k: usize = 0;
    assert(v@.subrange(0, v@.len() as int) =~= v@);
    while k < v.len() && v[k] == '0'
        invariant
            k <= v@.len(),
            k + zeros_at(v@.subrange(k as int, v@.len() as int)) == zeros_at(v@),
        decreases v@.len() - k,
    {
        proof {
            let t = v@.subrange(k as int, v@.len() as int);
            assert(t.subrange(1, t.len() as int) =~= v@.subrange(k + 1, v@.len() as int));
        }
        k = k + 1;
    }
    k
}

fn exceeds_of(d: &Vec<char>, from: usize, t: &Vec<char>) -> (b: bool)
    requires
        from <= d@.len(),
        all_digits(d@),
        all_digits(t@),
    ensures
        b == exceeds(d@.subrange(from as int, d@.len() as int), t@),
{
    let ghost whole = d@.subrange(from as int, d@.len() as int);
    let mut i: usize = from;
    let mut j: usize = 0;
    assert(t@.subrange(0, t@.len() as int) =~= t@);
    while j < t.len()
        invariant
            from <= i <= d@.len(),
            j <= t@.len(),
            i - from == j,
            all_digits(d@),
            all_digits(t@),
            exceeds(
                d@.subrange(i as int, d@.len() as int),
                t@.subrange(j as int, t@.len() as int),
            ) == exceeds(whole, t@),
            whole == d@.subrange(from as int, d@.len() as int),
        decreases t@.len() - j,
    {
        if i == d.len() {
            return false;
        }
        let a = d[i];
        let b = t[j];
        let ghost x = d@.subrange(i as int, d@.len() as int);
        let ghost y = t@.subrange(j as int, t@.len() as int);
        assert(is_digit(d@[i as int]));
        assert(is_digit(t@[j as int]));
        assert(x[0] == a && y[0] == b);
        if a != b {
            return (a as u32) > (b as u32);
        }
        assert(x.subrange(1, x.len() as int) =~= d@.subrange(i + 1, d@.len() as int));
        assert(y.subrange(1, y.len() as int) =~= t@.subrange(j + 1, t@.len() as int));
        i = i + 1;
        j = j + 1;
    }
    let ghost x = d@.subrange(i as int, d@.len() as int);
    assert(t@.subrange(j as int, t@.len() as int).len() == 0);
    let ghost start: int = i as int;
    while i < d.len()
        invariant
            0 <= start <= i <= d@.len(),
            x == d@.subrange(start, d@.len() as int),
            exceeds(whole, t@) == (exists|k: int| 0 <= k < x.len() && x[k] != '0'),
            whole == d@.subrange(from as int, d@.len() as int),
            forall|k: int| 0 <= k < i - start ==> x[k] == '0',
        decreases d@.len() - i,
    {
        assert(x[i - start] == d@[i as int]);
        if d[i] != '0' {
            return true;
        }
        i = i + 1;
    }
    false
}

fn rounds_up_of(d: &Vec<char>, point: usize, exp: i128) -> (b: bool)
    requires
        all_digits(d@),
        -(FAR as int) <= exp <= FAR,
    ensures
        b == rounds_up(d@, point as int, exp as int),
{
    let z: usize = zeros_of(d);
    if z == d.len() {
        return false;
    }
    let weight: i128 = point as i128 - z as i128 - 1 + exp;
    if weight > HALF_LEAST_WEIGHT {
        return true;
    }
    if weight < HALF_LEAST_WEIGHT {
        return false;
    }
    let t = chars_of(HALF_LEAST);
    proof {
        reveal_strlit("700649232162408535461864791644958065640130970938257885878534141944895541342930300743319094181060791015625");
    }
    exceeds_of(d, z, &t)
}

/// A capped exponent decides as the exact one does.
proof fn lemma_cap(d: Seq<char>, point: int, exact: int, capped: int)
    requires
        0 <= point <= usize::MAX,
        d.len() <= usize::MAX,
        0 <= zeros_at(d) <= d.len(),
        capped == exact || (exact > FAR && capped == FAR) || (exact < -(FAR as int) && capped
            == -(FAR as int)),
    ensures
        rounds_up(d, point, exact) == rounds_up(d, point, capped),
{
}

/// Whether a text that denotes a single-precision number denotes a positive one.
pub fn is_positive(raw: &Vec<char>) -> (r: Option<bool>)
    ensures
        r == positive(raw@),
{
    let u = unsigned_part_of(raw);
    let minus = negative(raw);
    if is_name(&u, "inf") || is_name(&u, "infinity") {
        return Some(!minus);
    }
    if is_name(&u, "nan") {
        return Some(false);
    }
    let a: usize = find_of(&u, 'e');
    let b: usize = find_of(&u, 'E');
    let k: usize = if a <= b {
        a
    } else {
        b
    };
    let m = part(&u, 0, k);
    let p: usize = find_of(&m, '.');
    let whole = part(&m, 0, p);
    let rest = if p < m.len() {
        part(&m, p + 1, m.len())
    } else {
        Vec::new()
    };
    if !digits_only(&whole) || !digits_only(&rest) || (whole.len() == 0 && rest.len() == 0) {
        assert(rest@ =~= (if p < m@.len() {
            m@.subrange(p + 1, m@.len() as int)
        } else {
            Seq::empty()
        }));
        assert(mantissa(u@.subrange(0, k as int)) is None);
        return None;
    }
    let mut d = whole;
    crate::text::push_text(&mut d, &rest);
    proof {
        assert(rest@ =~= (if p < m@.len() {
            m@.subrange(p + 1, m@.len() as int)
        } else {
            Seq::empty()
        }));
        assert(mantissa(u@.subrange(0, k as int)) == Some((d@, p as int)));
        assert(all_digits(d@));
    }
    let z: usize = zeros_of(&d);
    if k == u.len() {
        return Some(!minus && rounds_up_of(&d, p, 0));
    }
    let e = part(&u, k + 1, u.len());
    let digits = unsigned_part_of(&e);
    if digits.len() == 0 || !digits_only(&digits) {
        return None;
    }
    let n: u128 = capped_value(&digits);
    let exp: i128 = if negative(&e) {
        -(n as i128)
    } else {
        n as i128
    };
    proof {
        let exact = exponent(e@).unwrap();
        lemma_cap(d@, p as int, exact, exp as int);
    }
    Some(!minus && rounds_up_of(&d, p, exp))
}

/// The quality that one parameter of an entry gives, where it gives one.
pub open spec fn quality(param: Seq<char>) -> Option<Seq<char>> {
    let t = trim(param);
    if starts_with(t, "q="@) {
        Some(t.subrange(2, t.len() as int))
    } else {
        None
    }
}

/// The name of the coding of an entry.
pub open spec fn coding(entry: Seq<char>) -> Seq<char> {
    trim(split(trim(entry), ';')[0])
}

/// Whether the last quality of an entry is positive; one that is no number is not,
/// and without one the entry is accepted.
pub open spec fn last_quality(p: Seq<Seq<char>>) -> bool
    decreases p.len(),
{
    if p.len() <= 1 {
        true
    } else {
        match quality(p.last()) {
            Some(raw) => positive(raw) == Some(true),
            None => last_quality(p.drop_last()),
        }
    }
}

/// Whether the first quality of an entry that is a number is positive; without one
/// the entry is accepted.
pub open spec fn first_quality(p: Seq<Seq<char>>, i: int) -> bool
    decreases p.len() - i,
{
    if i < 0 || i >= p.len() {
        true
    } else {
        match quality(p[i]) {
            Some(raw) => match positive(raw) {
                Some(b) => b,
                None => first_quality(p, i + 1),
            },
            None => first_quality(p, i + 1),
        }
    }
}

/// What the entries say of gzip: the first entry of that name decides, else the
/// last wildcard.
pub open spec fn static_choice(e: Seq<Seq<char>>, i: int, wildcard: bool) -> bool
    decreases e.len() - i,
{
    if i < 0 || i >= e.len() {
        wildcard
    } else {
        let q = last_quality(split(trim(e[i]), ';'));
        if same_name(coding(e[i]), "gzip"@) {
            q
        } else {
            static_choice(
                e,
                i + 1,
                if coding(e[i]) == "*"@ {
                    q
                } else {
                    wildcard
                },
            )
        }
    }
}

/// Whether a file may be sent compressed.
pub open spec fn gzip_for_files(value: Option<Seq<char>>) -> bool {
    match value {
        None => false,
        Some(v) => static_choice(split(v, ','), 0, false),
    }
}

/// An entry that admits gzip.
pub open spec fn admits_gzip(entry: Seq<char>) -> bool {
    (same_name(coding(entry), "gzip"@) || coding(entry) == "*"@) && first_quality(
        split(trim(entry), ';'),
        1,
    )
}

pub open spec fn some_entry_admits(e: Seq<Seq<char>>) -> bool {
    exists|i: int| 0 <= i < e.len() && admits_gzip(#[trigger] e[i])
}

/// Whether an upstream's response may be sent compressed: some entry admits gzip.
pub open spec fn gzip_for_upstreams(value: Option<Seq<char>>) -> bool {
    match value {
        None => false,
        Some(v) => some_entry_admits(split(v, ',')),
    }
}

fn quality_of(param: &Vec<char>) -> (r: Option<Vec<char>>)
    ensures
        match r {
            Some(v) => quality(param@) == Some(v@),
            None => quality(param@) is None,
        },
{
    let t = trim_of(param);
    if starts_with_str(&t, "q=") {
        proof {
            reveal_strlit("q=");
        }
        Some(part(&t, 2, t.len()))
    } else {
        None
    }
}

fn last_quality_of(p: &Vec<Vec<char>>) -> (b: bool)
    ensures
        b == last_quality(crate::text::texts(p@)),
{
    let ghost t = crate::text::texts(p@);
    let mut n: usize = p.len();
    assert(t.subrange(0, n as int) =~= t);
    while n > 1
        invariant
            t == crate::text::texts(p@),
            n <= p@.len(),
            last_quality(t.subrange(0, n as int)) == last_quality(t),
        decreases n,
    {
        assert(t.subrange(0, n as int).drop_last() =~= t.subrange(0, n - 1));
        assert(t.subrange(0, n as int).last() == p@[n - 1]@);
        match quality_of(&p[n - 1]) {
            Some(raw) => {
                return match is_positive(&raw) {
                    Some(b) => b,
                    None => false,
                };
            },
            None => {},
        }
        n = n - 1;
    }
    true
}

fn first_quality_of(p: &Vec<Vec<char>>) -> (b: bool)
    ensures
        b == first_quality(crate::text::texts(p@), 1),
{
    let ghost t = crate::text::texts(p@);
    let mut i: usize = 1;
    while i < p.len()
        invariant
            t == crate::text::texts(p@),
            1 <= i,
            first_quality(t, i as int) == first_quality(t, 1),
        decreases p@.len() - i,
    {
        assert(t[i as int] == p@[i as int]@);
        match quality_of(&p[i]) {
            Some(raw) => match is_positive(&raw) {
                Some(b) => {
                    return b;
                },
                None => {},
            },
            None => {},
        }
        i = i + 1;
    }
    true
}

/// Whether a file may be sent compressed to a client with that `Accept-Encoding`.
pub fn accepts_gzip(value: Option<&str>) -> (b: bool)
    ensures
        b == gzip_for_files(
            match value {
                Some(v) => Some(v@),
                None => None,
            },
        ),
{
    let v = match value {
        Some(v) => chars_of(v),
        None => {
            return false;
        },
    };
    let e = split_of(&v, ',');
    let ghost t = split(v@, ',');
    let mut wildcard = false;
    let mut i: usize = 0;
    while i < e.len()
        invariant
            t == crate::text::texts(e@),
            t == split(v@, ','),
            value matches Some(s) && s@ == v@,
            i <= e@.len(),
            static_choice(t, i as int, wildcard) == static_choice(t, 0, false),
        decreases e@.len() - i,
    {
        assert(t[i as int] == e@[i as int]@);
        let parts = split_of(&trim_of(&e[i]), ';');
        let name = trim_of(&parts[0]);
        assert(name@ == coding(t[i as int])) by {
            assert(crate::text::texts(parts@)[0] == parts@[0]@);
        }
        let q = last_quality_of(&parts);
        if is_name(&name, "gzip") {
            return q;
        }
        if is_text(&name, "*") {
            wildcard = q;
        }
        i = i + 1;
    }
    wildcard
}

/// Whether an upstream's response may be sent compressed to a client with that
/// `Accept-Encoding`.
pub fn accepts_gzip_from_upstream(value: Option<&str>) -> (b: bool)
    ensures
        b == gzip_for_upstreams(
            match value {
                Some(v) => Some(v@),
                None => None,
            },
        ),
{
    let v = match value {
        Some(v) => chars_of(v),
        None => {
            return false;
        },
    };
    let e = split_of(&v, ',');
    let ghost t = split(v@, ',');
    let mut i: usize = 0;
    while i < e.len()
        invariant
            t == crate::text::texts(e@),
            t == split(v@, ','),
            value matches Some(s) && s@ == v@,
            i <= e@.len(),
            forall|j: int| 0 <= j < i ==> !admits_gzip(#[trigger] t[j]),
        decreases e@.len() - i,
    {
        assert(t[i as int] == e@[i as int]@);
        let parts = split_of(&trim_of(&e[i]), ';');
        let name = trim_of(&parts[0]);
        assert(name@ == coding(t[i as int])) by {
            assert(crate::text::texts(parts@)[0] == parts@[0]@);
        }
        if (is_name(&name, "gzip") || is_text(&name, "*")) && first_quality_of(&parts) {
            assert(admits_gzip(t[i as int]));
            return true;
        }
        i = i + 1;
    }
    false
}

} // verus!
