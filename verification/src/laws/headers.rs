//! What becomes of the headers of requests and responses.

use crate::config::merge::{drop_all_named, drop_named, pair_at};
use crate::config::types::DirView;
use crate::config::veysrule::without_breaks;
use crate::laws::texts::one_line;
use crate::router::negotiate::{ruled, with_headers};
use crate::server::http::header_value;
use crate::server::response::ResponseView;
use crate::text::{is_upper, lower, lower_char, same_name};
use vstd::prelude::*;

verus! {

/// Two characters are the same but for the case of an ASCII letter.
pub open spec fn same_letter(a: char, b: char) -> bool {
    a == b || (97 <= a as u32 <= 122 && b as u32 + 32 == a as u32) || (97 <= b as u32 <= 122
        && a as u32 + 32 == b as u32)
}

proof fn lemma_lower_char(a: char, b: char)
    ensures
        lower_char(a) == lower_char(b) <==> same_letter(a, b),
{
    assert(is_upper(a) ==> lower_char(a) as u32 == a as u32 + 32);
    assert(is_upper(b) ==> lower_char(b) as u32 == b as u32 + 32);
    assert(a as u32 == b as u32 ==> a == b);
}

/// Names are compared letter by letter, where a capital letter counts as the small one.
pub proof fn law_names_are_compared_without_case(a: Seq<char>, b: Seq<char>)
    ensures
        same_name(a, b) <==> a.len() == b.len() && forall|i: int|
            0 <= i < a.len() ==> same_letter(#[trigger] a[i], b[i]),
{
    if same_name(a, b) {
        assert(lower(a).len() == lower(b).len());
        assert forall|i: int| 0 <= i < a.len() implies same_letter(#[trigger] a[i], b[i]) by {
            assert(lower(a)[i] == lower(b)[i]);
            lemma_lower_char(a[i], b[i]);
        }
    }
    if a.len() == b.len() && forall|i: int|
        0 <= i < a.len() ==> same_letter(#[trigger] a[i], b[i]) {
        assert forall|i: int| 0 <= i < a.len() implies lower(a)[i] == lower(b)[i] by {
            assert(same_letter(a[i], b[i]));
            lemma_lower_char(a[i], b[i]);
        }
        assert(lower(a) =~= lower(b));
    }
}

/// The value of a header is that of the first one of its name, in any case of its letters.
pub proof fn law_the_first_header_counts(
    h: Seq<(Seq<char>, Seq<char>)>,
    name: Seq<char>,
    k: int,
)
    requires
        0 <= k <= h.len(),
        forall|i: int| 0 <= i < k ==> !same_name((#[trigger] h[i]).0, name),
        k < h.len() ==> same_name(h[k].0, name),
    ensures
        header_value(h, name) == (if k < h.len() {
            Some(h[k].1)
        } else {
            None
        }),
        pair_at(h, name) == k,
    decreases h.len(),
{
    if k > 0 {
        let t = h.subrange(1, h.len() as int);
        assert forall|i: int| 0 <= i < k - 1 implies !same_name((#[trigger] t[i]).0, name) by {
            assert(t[i] == h[i + 1]);
        }
        assert(!same_name(h[0].0, name));
        law_the_first_header_counts(t, name, k - 1);
    }
}

pub proof fn lemma_unbroken(s: Seq<char>)
    requires
        one_line(s),
    ensures
        without_breaks(s) == s,
    decreases s.len(),
{
    if s.len() > 0 {
        let t = s.drop_last();
        assert forall|i: int| 0 <= i < t.len() implies #[trigger] t[i] != '\r' && t[i]
            != '\n' by {
            assert(t[i] == s[i]);
        }
        lemma_unbroken(t);
        assert(s[s.len() - 1] != '\r');
        assert(t.push(s.last()) =~= s);
    }
}

proof fn lemma_drop_keeps(a: Seq<(Seq<char>, Seq<char>)>, name: Seq<char>, p: (Seq<char>, Seq<char>))
    ensures
        drop_named(a, name).contains(p) <==> a.contains(p) && !same_name(p.0, name),
    decreases a.len(),
{
    if a.len() > 0 {
        let t = a.drop_last();
        let r = drop_named(t, name);
        let d = drop_named(a, name);
        lemma_drop_keeps(t, name, p);
        if a.contains(p) && !same_name(p.0, name) {
            let i = choose|i: int| 0 <= i < a.len() && a[i] == p;
            if i < t.len() {
                assert(t[i] == p);
                let j = choose|j: int| 0 <= j < r.len() && r[j] == p;
                assert(d[j] == p);
            } else {
                assert(d[r.len() as int] == p);
            }
        }
        if d.contains(p) {
            let j = choose|j: int| 0 <= j < d.len() && d[j] == p;
            if j < r.len() {
                assert(r[j] == p);
                let i = choose|i: int| 0 <= i < t.len() && t[i] == p;
                assert(a[i] == p);
            } else {
                assert(a[a.len() - 1] == p);
            }
        }
    }
}

pub proof fn lemma_drop_all_keeps(
    a: Seq<(Seq<char>, Seq<char>)>,
    names: Seq<Seq<char>>,
    p: (Seq<char>, Seq<char>),
)
    ensures
        drop_all_named(a, names).contains(p) <==> a.contains(p) && forall|i: int|
            0 <= i < names.len() ==> !same_name(p.0, #[trigger] names[i]),
    decreases names.len(),
{
    if names.len() > 0 {
        let t = names.drop_last();
        lemma_drop_all_keeps(a, t, p);
        lemma_drop_keeps(drop_all_named(a, t), names.last(), p);
        if drop_all_named(a, names).contains(p) {
            assert forall|i: int| 0 <= i < names.len() implies !same_name(
                p.0,
                #[trigger] names[i],
            ) by {
                if i < t.len() {
                    assert(t[i] == names[i]);
                }
            }
        } else if a.contains(p) && forall|i: int|
            0 <= i < names.len() ==> !same_name(p.0, #[trigger] names[i]) {
            assert forall|i: int| 0 <= i < t.len() implies !same_name(p.0, #[trigger] t[i]) by {
                assert(t[i] == names[i]);
            }
            assert(!same_name(p.0, names[names.len() - 1]));
        }
    }
}

pub proof fn lemma_with_headers(r: ResponseView, l: Seq<(Seq<char>, Seq<char>)>)
    ensures
        with_headers(r, l).status == r.status,
        with_headers(r, l).body_source == r.body_source,
        with_headers(r, l).close_connection == r.close_connection,
        with_headers(r, l).headers == r.headers + Seq::new(
            l.len(),
            |i: int| (without_breaks(l[i].0), without_breaks(l[i].1)),
        ),
    decreases l.len(),
{
    if l.len() > 0 {
        lemma_with_headers(r, l.drop_last());
    }
    assert(with_headers(r, l).headers =~= r.headers + Seq::new(
        l.len(),
        |i: int| (without_breaks(l[i].0), without_breaks(l[i].1)),
    ));
}

/// The rules of a directory leave the status and the body of an answer alone. A header of
/// the answer, or one that the rules set or add, stays exactly where the rules do not
/// remove its name.
pub proof fn law_rules_shape_answers(r: ResponseView, d: DirView, p: (Seq<char>, Seq<char>))
    requires
        one_line(p.0),
        one_line(p.1),
    ensures
        ruled(r, d).status == r.status,
        ruled(r, d).body_source == r.body_source,
        ruled(r, d).close_connection == r.close_connection,
        (r.headers.contains(p) || d.headers.contains(p) || d.add_headers.contains(p)) && (forall|
            i: int,
        |
            0 <= i < d.remove_headers.len() ==> !same_name(p.0, #[trigger] d.remove_headers[i]))
            ==> ruled(r, d).headers.contains(p),
        forall|i: int, j: int|
            0 <= i < ruled(r, d).headers.len() && 0 <= j < d.remove_headers.len() ==> !same_name(
                (#[trigger] ruled(r, d).headers[i]).0,
                #[trigger] d.remove_headers[j],
            ),
        r.headers.len() == 0 && d.headers.len() == 0 && d.add_headers.len() == 0
            ==> !ruled(r, d).headers.contains(p),
{
    let a = with_headers(r, d.headers);
    let b = with_headers(a, d.add_headers);
    lemma_with_headers(r, d.headers);
    lemma_with_headers(a, d.add_headers);
    lemma_unbroken(p.0);
    lemma_unbroken(p.1);
    lemma_drop_all_keeps(b.headers, d.remove_headers, p);
    if r.headers.contains(p) {
        let i = choose|i: int| 0 <= i < r.headers.len() && r.headers[i] == p;
        assert(b.headers[i] == p);
    } else if d.headers.contains(p) {
        let i = choose|i: int| 0 <= i < d.headers.len() && d.headers[i] == p;
        assert(b.headers[r.headers.len() + i] == p);
    } else if d.add_headers.contains(p) {
        let i = choose|i: int| 0 <= i < d.add_headers.len() && d.add_headers[i] == p;
        assert(b.headers[a.headers.len() + i] == p);
    }
    assert forall|i: int, j: int|
        0 <= i < ruled(r, d).headers.len() && 0 <= j < d.remove_headers.len() implies !same_name(
        (#[trigger] ruled(r, d).headers[i]).0,
        #[trigger] d.remove_headers[j],
    ) by {
        let x = ruled(r, d).headers[i];
        assert(ruled(r, d).headers.contains(x));
        lemma_drop_all_keeps(b.headers, d.remove_headers, x);
    }
    if r.headers.len() == 0 && d.headers.len() == 0 && d.add_headers.len() == 0 {
        assert(b.headers.len() == 0);
    }
}

} // verus!
