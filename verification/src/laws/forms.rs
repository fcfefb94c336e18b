//! In which form an answer is sent: compressed or not, for how long it may be kept, and how
//! a directory is listed.

use crate::config::merge::{drop_named, pair_at};
use crate::config::types::{DirView, ServerView};
use crate::laws::headers::law_names_are_compared_without_case;
use crate::laws::texts::{
    lemma_decimal_is_digits, lemma_split_more, lemma_trim_unspaced, lemma_uncut, unspaced,
};
use crate::router::date::{http_date, weekday_name};
use crate::router::handler::{negotiated, with_caching};
use crate::router::negotiate::{compressible, with_encoded_tag, with_vary};
use crate::router::render::{place, shown};
use crate::server::http::{header_value, RequestView, StatusCode};
use crate::server::quality::{
    admits_gzip, coding, first_quality, gzip_for_files, gzip_for_upstreams, last_quality, mantissa,
    positive, quality, static_choice, unsigned_part, zeros_at,
};
use crate::server::response::{has_header, ResponseView, SourceView};
use crate::text::{
    decimal, has_char, is_digit, is_space, lemma_decimal, lemma_find_is, same_name, split, trim,
};
use vstd::prelude::*;

verus! {

/// A word of a list of encodings: no white space, comma or semicolon.
pub open spec fn encoding_word(s: Seq<char>) -> bool {
    s.len() > 0 && forall|i: int|
        0 <= i < s.len() ==> !is_space(#[trigger] s[i]) && s[i] != ',' && s[i] != ';'
}

proof fn lemma_word(s: Seq<char>)
    requires
        encoding_word(s),
    ensures
        trim(s) == s,
        split(s, ',') == seq![s],
        split(s, ';') == seq![s],
        coding(s) == s,
{
    lemma_trim_unspaced(s);
    assert(!has_char(s, ',') && !has_char(s, ';'));
    lemma_uncut(s, ',');
    lemma_uncut(s, ';');
}

/// A client that names `gzip`, or takes anything, may be sent compressed answers, and one
/// that names something else, or nothing, may not.
pub proof fn law_clients_choose_compression(word: Seq<char>)
    requires
        encoding_word(word),
    ensures
        gzip_for_files(Some(word)) <==> same_name(word, "gzip"@) || word == "*"@,
        gzip_for_upstreams(Some(word)) <==> same_name(word, "gzip"@) || word == "*"@,
        !gzip_for_files(None),
        !gzip_for_upstreams(None),
{
    lemma_word(word);
    let e = seq![word];
    assert(split(word, ',') == e);
    let p = split(word, ';');
    assert(p.len() == 1);
    assert(first_quality(p, 1));
    assert(last_quality(p));
    reveal_with_fuel(static_choice, 2);
    assert(e[0] == word);
    if same_name(word, "gzip"@) || word == "*"@ {
        assert(admits_gzip(e[0]));
    }
}

/// A quality decides whether what it stands behind is taken.
pub proof fn law_qualities_decide(word: Seq<char>, raw: Seq<char>)
    requires
        encoding_word(word),
        encoding_word(raw),
    ensures
        gzip_for_files(Some(word + seq![';'] + ("q="@ + raw))) <==> (same_name(word, "gzip"@)
            || word == "*"@) && positive(raw) == Some(true),
        positive(raw) is Some ==> (gzip_for_upstreams(Some(word + seq![';'] + ("q="@ + raw))) <==> (
        same_name(word, "gzip"@) || word == "*"@) && positive(raw) == Some(true)),
{
    reveal_strlit("q=");
    let q = "q="@ + raw;
    let v = word + seq![';'] + q;
    assert forall|i: int| 0 <= i < q.len() implies !is_space(#[trigger] q[i]) && q[i] != ',' && q[i]
        != ';' by {
        if i >= 2 {
            assert(q[i] == raw[i - 2]);
        }
    }
    assert forall|i: int| 0 <= i < v.len() implies !is_space(#[trigger] v[i]) && v[i] != ',' by {
        if i < word.len() {
            assert(v[i] == word[i]);
        } else if i > word.len() {
            assert(v[i] == q[i - word.len() - 1]);
        }
    }
    assert(encoding_word(q));
    lemma_word(word);
    lemma_word(q);
    assert(unspaced(v));
    lemma_trim_unspaced(v);
    assert(!has_char(v, ','));
    lemma_uncut(v, ',');
    assert(!has_char(q, ';'));
    lemma_split_more(word, ';', q);
    let p = split(v, ';');
    assert(p =~= seq![word, q]);
    assert(p.last() == q);
    assert(q.subrange(0, 2) =~= "q="@);
    assert(q.subrange(2, q.len() as int) =~= raw);
    assert(quality(q) == Some(raw));
    assert(coding(v) == word);
    let e = seq![v];
    assert(split(v, ',') == e);
    assert(e[0] == v);
    assert(last_quality(p) == (positive(raw) == Some(true)));
    reveal_with_fuel(static_choice, 2);
    reveal_with_fuel(first_quality, 3);
    assert(positive(raw) is Some ==> first_quality(p, 1) == (positive(raw) == Some(true)));
    if admits_gzip(v) {
        assert(admits_gzip(e[0]));
    }
}

proof fn lemma_first_digit(n: nat)
    requires
        n > 0,
    ensures
        decimal(n)[0] != '0',
        decimal(n).len() > 0,
    decreases n,
{
    if n >= 10 {
        lemma_first_digit(n / 10);
    } else {
        assert((n + 48) as char as u32 == n + 48);
    }
}

/// A quality that is a whole number is positive exactly where it is not zero.
pub proof fn law_zero_refuses(n: nat)
    ensures
        positive(decimal(n)) == Some(n > 0),
{
    reveal_strlit("inf");
    reveal_strlit("infinity");
    reveal_strlit("nan");
    let d = decimal(n);
    lemma_decimal(n);
    lemma_decimal_is_digits(n);
    assert(is_digit(d[0]));
    assert(unsigned_part(d) == d);
    law_names_are_compared_without_case(d, "inf"@);
    law_names_are_compared_without_case(d, "infinity"@);
    law_names_are_compared_without_case(d, "nan"@);
    assert(!crate::laws::headers::same_letter(d[0], 'i'));
    assert(!crate::laws::headers::same_letter(d[0], 'n'));
    assert forall|i: int| 0 <= i < d.len() implies d[i] != 'e' && d[i] != 'E' && d[i] != '.' by {
        assert(is_digit(d[i]));
    }
    let len = d.len() as int;
    lemma_find_is(d, 'e', len);
    lemma_find_is(d, 'E', len);
    lemma_find_is(d, '.', len);
    assert(d.subrange(0, len) =~= d);
    let none = Seq::<char>::empty();
    assert(d + none =~= d);
    assert(mantissa(d) == Some((d, len)));
    if n > 0 {
        lemma_first_digit(n);
        assert(zeros_at(d) == 0);
    } else {
        assert(d =~= seq!['0']);
        let t = d.subrange(1, d.len() as int);
        assert(t.len() == 0);
        assert(zeros_at(t) == 0);
        assert(zeros_at(d) == 1);
    }
}

proof fn lemma_dropped(a: Seq<(Seq<char>, Seq<char>)>, name: Seq<char>)
    ensures
        forall|i: int|
            0 <= i < drop_named(a, name).len() ==> !same_name(
                (#[trigger] drop_named(a, name)[i]).0,
                name,
            ),
    decreases a.len(),
{
    if a.len() > 0 {
        let r = drop_named(a.drop_last(), name);
        let d = drop_named(a, name);
        lemma_dropped(a.drop_last(), name);
        assert forall|i: int| 0 <= i < d.len() implies !same_name((#[trigger] d[i]).0, name) by {
            if i < r.len() {
                assert(d[i] == r[i]);
            }
        }
    }
}

proof fn lemma_pair_at(a: Seq<(Seq<char>, Seq<char>)>, name: Seq<char>)
    ensures
        0 <= pair_at(a, name) <= a.len(),
    decreases a.len(),
{
    if a.len() > 0 && !same_name(a[0].0, name) {
        lemma_pair_at(a.subrange(1, a.len() as int), name);
    }
}

/// A file that is worth it is compressed for a client that takes it: it is sent whole, at
/// the level of the server, says how it is encoded and announces no length. For any other
/// client it is sent as it is.
pub proof fn law_files_are_compressed_for_those_who_take_it(
    req: RequestView,
    r: ResponseView,
    c: ServerView,
    n: u64,
)
    requires
        req.method is Get,
        r.status == StatusCode::Okay,
        r.body_source == SourceView::File(n),
        n >= c.compression_min_size,
        compressible(r.headers, c.compression_mime_types),
    ensures
        ({
            let a = negotiated(req, r, c);
            let takes = gzip_for_files(header_value(req.headers, "Accept-Encoding"@));
            &&& a.status == r.status
            &&& c.compression_enabled && takes ==> a.body_source == SourceView::GzipFile(
                n,
                c.compression_level,
            ) && a.headers.last() == ("Content-Encoding"@, "gzip"@) && !has_header(
                a.headers,
                "Content-Length"@,
            )
            &&& !c.compression_enabled || !takes ==> a.body_source == r.body_source
            &&& header_value(req.headers, "Accept-Encoding"@) is None ==> a == r
        }),
{
    reveal_strlit("Content-Encoding");
    reveal_strlit("Content-Length");
    let a = negotiated(req, r, c);
    let takes = gzip_for_files(header_value(req.headers, "Accept-Encoding"@));
    if c.compression_enabled && takes {
        let v = with_vary(r.headers);
        let w = drop_named(v, "Content-Length"@);
        lemma_dropped(v, "Content-Length"@);
        let t = with_encoded_tag(w, "gzip"@);
        lemma_pair_at(w, "ETag"@);
        assert(a.headers == t.push(("Content-Encoding"@, "gzip"@)));
        law_names_are_compared_without_case("Content-Encoding"@, "Content-Length"@);
        assert(!same_name("Content-Encoding"@, "Content-Length"@));
        assert forall|i: int| 0 <= i < a.headers.len() implies !same_name(
            (#[trigger] a.headers[i]).0,
            "Content-Length"@,
        ) by {
            if i < t.len() {
                assert(a.headers[i] == t[i]);
                assert(t[i].0 == w[i].0);
            }
        }
    }
}

/// What is too small, or of a type that is not worth it, or no whole file, is sent as it is.
pub proof fn law_other_answers_are_left_alone(req: RequestView, r: ResponseView, c: ServerView)
    requires
        !(req.method is Get) || r.status != StatusCode::Okay || (r.body_source matches SourceView::File(
            n,
        ) && n < c.compression_min_size) || !compressible(r.headers, c.compression_mime_types),
    ensures
        negotiated(req, r, c) == r,
{
}

/// The rules say how long an answer may be kept: `cache` lets it be kept or forbids it, and
/// `expires` gives the moment so many seconds from now. Nothing else of the answer changes.
pub proof fn law_answers_are_kept_as_the_rules_say(r: ResponseView, d: DirView, now: u64)
    ensures
        ({
            let a = with_caching(r, d, now);
            &&& a.status == r.status
            &&& a.body_source == r.body_source
            &&& d.cache is None && d.expires is None ==> a == r
            &&& d.cache == Some(true) ==> a.headers.contains(("Cache-Control"@, "public"@))
            &&& d.cache == Some(false) ==> a.headers.contains(("Cache-Control"@, "no-store"@))
            &&& d.expires matches Some(s) ==> a.headers.contains(("Expires"@, http_date(now + s)))
            &&& forall|i: int| 0 <= i < r.headers.len() ==> a.headers[i] == #[trigger] r.headers[i]
        }),
{
    let a = with_caching(r, d, now);
    let n = r.headers.len() as int;
    if d.cache is Some {
        assert(a.headers[n].0 == "Cache-Control"@);
    }
    if d.expires is Some {
        assert(a.headers[a.headers.len() - 1].0 == "Expires"@);
    }
}

proof fn lemma_place(e: Seq<(Seq<char>, bool)>, name: Seq<char>)
    ensures
        0 <= place(e, name) <= e.len(),
    decreases e.len(),
{
    if e.len() > 0 {
        lemma_place(e.drop_last(), name);
    }
}

/// A listing shows every entry of the directory but rule files and, where those are denied,
/// hidden ones, and nothing else.
pub proof fn law_listings_are_complete(
    e: Seq<(Seq<char>, bool)>,
    deny_hidden: bool,
    x: (Seq<char>, bool),
)
    ensures
        shown(e, deny_hidden).contains(x) <==> e.contains(x) && x.0 != ".veysrule"@ && !(deny_hidden
            && x.0.len() > 0 && x.0[0] == '.'),
    decreases e.len(),
{
    if e.len() > 0 {
        let t = e.drop_last();
        let r = shown(t, deny_hidden);
        let s = shown(e, deny_hidden);
        let y = e.last();
        let k = place(r, y.0);
        lemma_place(r, y.0);
        law_listings_are_complete(t, deny_hidden, x);
        let kept = !(y.0 == ".veysrule"@ || (deny_hidden && y.0.len() > 0 && y.0[0] == '.'));
        if e.contains(x) {
            let i = choose|i: int| 0 <= i < e.len() && e[i] == x;
            if i < t.len() {
                assert(t[i] == x);
            }
        }
        if t.contains(x) {
            let i = choose|i: int| 0 <= i < t.len() && t[i] == x;
            assert(e[i] == x);
        }
        assert(e[e.len() - 1] == y);
        if kept {
            assert(s == r.insert(k, y));
            assert(s[k] == y);
            if r.contains(x) {
                let j = choose|j: int| 0 <= j < r.len() && r[j] == x;
                if j < k {
                    assert(s[j] == x);
                } else {
                    assert(s[j + 1] == x);
                }
            }
            if s.contains(x) {
                let j = choose|j: int| 0 <= j < s.len() && s[j] == x;
                if j < k {
                    assert(r[j] == x);
                } else if j > k {
                    assert(r[j - 1] == x);
                }
            }
        }
    }
}

/// The first of January 1970 was a Thursday, and the days of the week follow each other in
/// the dates of one day and the next.
pub proof fn law_weekdays_follow_each_other(secs: u64)
    ensures
        ({
            let today = http_date(secs as int).subrange(0, 3);
            let next = http_date(secs + 86400).subrange(0, 3);
            &&& secs < 86400 ==> today == "Thu"@
            &&& today == "Sun"@ ==> next == "Mon"@
            &&& today == "Mon"@ ==> next == "Tue"@
            &&& today == "Tue"@ ==> next == "Wed"@
            &&& today == "Wed"@ ==> next == "Thu"@
            &&& today == "Thu"@ ==> next == "Fri"@
            &&& today == "Fri"@ ==> next == "Sat"@
            &&& today == "Sat"@ ==> next == "Sun"@
        }),
{
    let a = secs as int / 86400;
    let b = (secs + 86400) / 86400;
    assert(b == a + 1);
    lemma_date_begins(secs as int);
    lemma_date_begins(secs + 86400);
    let i = (a + 4) % 7;
    let j = (b + 4) % 7;
    assert(j == if i == 6 {
        0
    } else {
        i + 1
    });
    lemma_weekdays_differ(i, 0);
    lemma_weekdays_differ(i, 1);
    lemma_weekdays_differ(i, 2);
    lemma_weekdays_differ(i, 3);
    lemma_weekdays_differ(i, 4);
    lemma_weekdays_differ(i, 5);
    lemma_weekdays_differ(i, 6);
}

proof fn lemma_weekdays()
    ensures
        forall|i: int| (#[trigger] weekday_name(i)).len() == 3,
{
    reveal_strlit("Sun");
    reveal_strlit("Mon");
    reveal_strlit("Tue");
    reveal_strlit("Wed");
    reveal_strlit("Thu");
    reveal_strlit("Fri");
    reveal_strlit("Sat");
}

proof fn lemma_weekdays_differ(i: int, j: int)
    requires
        0 <= i < 7,
        0 <= j < 7,
    ensures
        weekday_name(i) == weekday_name(j) ==> i == j,
{
    reveal_strlit("Sun");
    reveal_strlit("Mon");
    reveal_strlit("Tue");
    reveal_strlit("Wed");
    reveal_strlit("Thu");
    reveal_strlit("Fri");
    reveal_strlit("Sat");
    assert("Sun"@[0] == 'S' && "Sun"@[1] == 'u' && "Sat"@[0] == 'S' && "Sat"@[1] == 'a'
        && "Mon"@[0] == 'M' && "Tue"@[0] == 'T' && "Tue"@[1] == 'u' && "Thu"@[0] == 'T'
        && "Thu"@[1] == 'h' && "Wed"@[0] == 'W' && "Fri"@[0] == 'F');
}

proof fn lemma_date_begins(secs: int)
    ensures
        http_date(secs).subrange(0, 3) == weekday_name((secs / 86400 + 4) % 7),
{
    lemma_weekdays();
    let w = weekday_name((secs / 86400 + 4) % 7);
    assert(w.len() == 3);
    assert(http_date(secs).subrange(0, 3) =~= w);
}

} // verus!
