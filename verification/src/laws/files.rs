//! Which form of a file a client is sent.

use crate::config::types::{DirView, ServerView};
use crate::laws::headers::law_rules_shape_answers;
use crate::laws::texts::{lemma_decimal_is_digits, lemma_split_more, lemma_trim_is, lemma_uncut};
use crate::router::date::{http_date, law_dates_read_back, weekday_name};
use crate::router::handler::{file_answer, served, type_of_file, FactsView, FileView};
use crate::router::range::{etag, requested_range, RangeSpec};
use crate::server::http::{header_value, RequestView, StatusCode};
use crate::server::response::{hexadecimal, SourceView};
use crate::text::{
    contains_text, decimal, has_char, is_digit, is_space, law_decimal_reads_back, occurs_at, split,
    starts_with, trim,
};
use vstd::prelude::*;

verus! {

proof fn lemma_dates_are_trimmed(t: u64)
    ensures
        trim(http_date(t as int)) == http_date(t as int),
{
    reveal_strlit("Sun");
    reveal_strlit("Mon");
    reveal_strlit("Tue");
    reveal_strlit("Wed");
    reveal_strlit("Thu");
    reveal_strlit("Fri");
    reveal_strlit("Sat");
    reveal_strlit(" GMT");
    let s = http_date(t as int);
    let w = weekday_name((t as int / 86400 + 4) % 7);
    assert(w.len() == 3 && !is_space(w[0]));
    assert(s[0] == w[0]);
    assert(s.last() == " GMT"@[3]);
    lemma_trim_is(s);
}

/// A client without a tag that says when it got a file is told that the file is unchanged
/// exactly where the file was modified at that moment or before.
pub proof fn law_files_are_sent_when_they_changed(
    req: RequestView,
    c: ServerView,
    d: DirView,
    clean: Seq<char>,
    f: FactsView,
    t: u64,
)
    requires
        f.root_found,
        f.directory is None,
        f.file is Some,
        header_value(req.headers, "If-None-Match"@) is None,
        header_value(req.headers, "If-Modified-Since"@) == Some(http_date(t as int)),
    ensures
        served(req, c, d, clean, f).status == StatusCode::NotModified <==> f.file.unwrap().modified
            <= t,
        f.file.unwrap().modified > t && req.method is Get && header_value(req.headers, "Range"@)
            is None ==> served(req, c, d, clean, f).status == StatusCode::Okay,
{
    let file = f.file.unwrap();
    let kind = type_of_file(d, file.path);
    law_dates_read_back(t);
    lemma_dates_are_trimmed(t);
    let r = file_answer(req, file, kind);
    law_rules_shape_answers(r, d, (Seq::empty(), Seq::empty()));
}

/// A client that has nothing to compare with is sent the file.
pub proof fn law_unconditional_requests_get_the_file(
    req: RequestView,
    c: ServerView,
    d: DirView,
    clean: Seq<char>,
    f: FactsView,
)
    requires
        f.root_found,
        f.directory is None,
        f.file is Some,
        req.method is Get,
        header_value(req.headers, "If-None-Match"@) is None,
        header_value(req.headers, "If-Modified-Since"@) is None,
        header_value(req.headers, "Range"@) is None,
    ensures
        served(req, c, d, clean, f).status == StatusCode::Okay,
        match served(req, c, d, clean, f).body_source {
            SourceView::File(n) => n == f.file.unwrap().size,
            SourceView::GzipFile(n, level) => n == f.file.unwrap().size,
            _ => false,
        },
{
    let file = f.file.unwrap();
    let r = file_answer(req, file, type_of_file(d, file.path));
    law_rules_shape_answers(r, d, (Seq::empty(), Seq::empty()));
}

proof fn lemma_hexadecimal(n: nat)
    ensures
        hexadecimal(n).len() > 0,
        forall|i: int|
            0 <= i < hexadecimal(n).len() ==> #[trigger] hexadecimal(n)[i] != '"' && hexadecimal(
                n,
            )[i] != '-' && !is_space(hexadecimal(n)[i]),
    decreases n,
{
    if n >= 16 {
        lemma_hexadecimal(n / 16);
    }
}

/// Different numbers have different hexadecimal forms.
pub proof fn law_hexadecimals_differ(a: nat, b: nat)
    requires
        hexadecimal(a) == hexadecimal(b),
    ensures
        a == b,
    decreases a,
{
    lemma_hexadecimal(a);
    lemma_hexadecimal(b);
    let x = hexadecimal(a);
    assert(x.last() == hexadecimal(b).last());
    assert(a % 16 == b % 16) by {
        let c = x.last() as u32;
        assert(c == if a % 16 < 10 {
            a % 16 + 48
        } else {
            a % 16 + 87
        });
        assert(c == if b % 16 < 10 {
            b % 16 + 48
        } else {
            b % 16 + 87
        });
    }
    if a >= 16 {
        lemma_hexadecimal(a / 16);
        assert(x.drop_last() =~= hexadecimal(a / 16));
        assert(x.len() > 1);
        if b >= 16 {
            assert(x.drop_last() =~= hexadecimal(b / 16));
            law_hexadecimals_differ(a / 16, b / 16);
        }
    } else if b >= 16 {
        lemma_hexadecimal(b / 16);
        assert(hexadecimal(b).len() > 1);
    }
}

proof fn lemma_tag(m: u64, n: u64)
    ensures
        ({
            let t = etag(m, n);
            let k = 1 + hexadecimal(m as nat).len() as int;
            &&& t.len() == k + hexadecimal(n as nat).len() + 2
            &&& t[0] == '"'
            &&& t[k] == '-'
            &&& t.last() == '"'
            &&& t.subrange(1, k) == hexadecimal(m as nat)
            &&& t.subrange(k + 1, t.len() - 1) == hexadecimal(n as nat)
            &&& forall|i: int| 0 < i < t.len() - 1 ==> #[trigger] t[i] != '"' && !is_space(t[i])
            &&& forall|i: int| 0 < i < k ==> #[trigger] t[i] != '-'
        }),
{
    reveal_strlit("\"");
    reveal_strlit("-");
    lemma_hexadecimal(m as nat);
    lemma_hexadecimal(n as nat);
    let a = hexadecimal(m as nat);
    let b = hexadecimal(n as nat);
    let t = etag(m, n);
    let k = 1 + a.len() as int;
    assert(t.subrange(1, k) =~= a);
    assert(t.subrange(k + 1, t.len() - 1) =~= b);
    assert forall|i: int| 0 < i < t.len() - 1 implies #[trigger] t[i] != '"' && !is_space(t[i]) by {
        if i < k {
            assert(t[i] == a[i - 1]);
        } else if i > k {
            assert(t[i] == b[i - k - 1]);
        }
    }
    assert forall|i: int| 0 < i < k implies #[trigger] t[i] != '-' by {
        assert(t[i] == a[i - 1]);
    }
}

/// Files that differ in their time of modification or their size have different tags, and
/// the tag of one does not stand within that of the other.
pub proof fn law_tags_tell_files_apart(m: u64, n: u64, other_m: u64, other_n: u64)
    ensures
        contains_text(etag(m, n), etag(other_m, other_n)) <==> m == other_m && n == other_n,
{
    let a = etag(m, n);
    let b = etag(other_m, other_n);
    lemma_tag(m, n);
    lemma_tag(other_m, other_n);
    let k = 1 + hexadecimal(m as nat).len() as int;
    let l = 1 + hexadecimal(other_m as nat).len() as int;
    if contains_text(a, b) {
        let i = choose|i: int| #[trigger] occurs_at(a, b, i);
        let s = a.subrange(i, i + b.len());
        assert(a[i] == s[0]);
        assert(b[0] == '"');
        assert(i == 0 || i == a.len() - 1);
        assert(b.len() >= 3);
        assert(i == 0);
        assert(s[b.len() - 1] == a[b.len() - 1]);
        assert(b.last() == b[b.len() - 1]);
        assert(b.len() == a.len());
        assert(s =~= a);
        if k < l {
            assert(b[k] != '-');
        }
        if l < k {
            assert(a[l] != '-');
        }
        law_hexadecimals_differ(m as nat, other_m as nat);
        law_hexadecimals_differ(n as nat, other_n as nat);
    }
    if m == other_m && n == other_n {
        assert(a.subrange(0, a.len() as int) =~= a);
        assert(occurs_at(a, b, 0));
    }
}

/// A client that names the tag of a file is told that the file is unchanged exactly where
/// that is its tag still.
pub proof fn law_tags_decide(
    req: RequestView,
    c: ServerView,
    d: DirView,
    clean: Seq<char>,
    f: FactsView,
    m: u64,
    n: u64,
)
    requires
        f.root_found,
        f.directory is None,
        f.file is Some,
        header_value(req.headers, "If-None-Match"@) == Some(etag(m, n)),
    ensures
        served(req, c, d, clean, f).status == StatusCode::NotModified <==> f.file.unwrap().modified
            == m && f.file.unwrap().size == n,
{
    let file = f.file.unwrap();
    let tag = etag(m, n);
    lemma_tag(m, n);
    lemma_trim_is(tag);
    reveal_strlit("*");
    law_tags_tell_files_apart(m, n, file.modified, file.size);
    lemma_tag(file.modified, file.size);
    if tag == etag(file.modified, file.size) {
        assert(tag.subrange(0, tag.len() as int) =~= tag);
        assert(occurs_at(tag, etag(file.modified, file.size), 0));
    }
    let r = file_answer(req, file, type_of_file(d, file.path));
    law_rules_shape_answers(r, d, (Seq::empty(), Seq::empty()));
}

proof fn lemma_range_halves(a: Seq<char>, b: Seq<char>)
    requires
        forall|i: int| 0 <= i < a.len() ==> is_digit(#[trigger] a[i]),
        forall|i: int| 0 <= i < b.len() ==> is_digit(#[trigger] b[i]),
    ensures
        ({
            let s = a + "-"@ + b;
            let h = "bytes="@ + s;
            &&& starts_with(h, "bytes="@)
            &&& trim(h.subrange(6, h.len() as int)) == s
            &&& split(s, '-') == seq![a, b]
            &&& !has_char(s, ',')
            &&& trim(a) == a
            &&& trim(b) == b
            &&& trim(h) == h
        }),
{
    reveal_strlit("bytes=");
    reveal_strlit("-");
    let s = a + "-"@ + b;
    let h = "bytes="@ + s;
    assert(h.subrange(0, 6) =~= "bytes="@);
    assert(h.subrange(6, h.len() as int) =~= s);
    assert(!is_space(s[0])) by {
        if a.len() > 0 {
            assert(s[0] == a[0]);
        }
    }
    assert(!is_space(s.last())) by {
        if b.len() > 0 {
            assert(s.last() == b[b.len() - 1]);
        }
    }
    lemma_trim_is(s);
    lemma_trim_is(a);
    lemma_trim_is(b);
    assert(h.last() == s.last());
    lemma_trim_is(h);
    assert("-"@ =~= seq!['-']);
    lemma_uncut(a, '-');
    lemma_split_more(a, '-', b);
    assert(split(s, '-') =~= seq![a, b]);
    assert forall|i: int| 0 <= i < s.len() implies s[i] != ',' by {
        if i < a.len() {
            assert(s[i] == a[i]);
        } else if i > a.len() {
            assert(s[i] == b[i - a.len() - 1]);
        }
    }
}

/// A range names its first and its last byte, its first byte alone, or how many bytes at
/// the end are wanted. What lies behind the end of the file is left out, and a range that
/// begins there is refused.
pub proof fn law_ranges_mean_what_they_say(a: u64, b: u64, size: u64)
    requires
        size > 0,
    ensures
        requested_range("bytes="@ + (decimal(a as nat) + "-"@ + decimal(b as nat)), size) == (if a
            <= b && a < size {
            Ok::<_, ()>(
                Some(
                    RangeSpec {
                        start: a,
                        end: if b < size {
                            b
                        } else {
                            (size - 1) as u64
                        },
                    },
                ),
            )
        } else {
            Err::<Option<RangeSpec>, ()>(())
        }),
        requested_range("bytes="@ + (decimal(a as nat) + "-"@ + Seq::empty()), size) == (if a
            < size {
            Ok::<_, ()>(Some(RangeSpec { start: a, end: (size - 1) as u64 }))
        } else {
            Err::<Option<RangeSpec>, ()>(())
        }),
        requested_range("bytes="@ + (Seq::empty() + "-"@ + decimal(b as nat)), size) == (if b > 0 {
            Ok::<_, ()>(
                Some(
                    RangeSpec {
                        start: if b < size {
                            (size - b) as u64
                        } else {
                            0
                        },
                        end: (size - 1) as u64,
                    },
                ),
            )
        } else {
            Err::<Option<RangeSpec>, ()>(())
        }),
{
    let e = Seq::<char>::empty();
    lemma_decimal_is_digits(a as nat);
    lemma_decimal_is_digits(b as nat);
    law_decimal_reads_back(a as nat, u64::MAX as nat);
    law_decimal_reads_back(b as nat, u64::MAX as nat);
    lemma_range_halves(decimal(a as nat), decimal(b as nat));
    lemma_range_halves(decimal(a as nat), e);
    lemma_range_halves(e, decimal(b as nat));
}

/// A part of a file is sent with its place and its length, and a range that cannot be
/// satisfied is refused with the size of the file.
pub proof fn law_parts_of_files_are_sent(
    req: RequestView,
    f: FileView,
    kind: Seq<char>,
    a: u64,
    b: u64,
)
    requires
        req.method is Get,
        header_value(req.headers, "If-None-Match"@) is None,
        header_value(req.headers, "If-Modified-Since"@) is None,
        header_value(req.headers, "Range"@) == Some(
            "bytes="@ + (decimal(a as nat) + "-"@ + decimal(b as nat)),
        ),
        a <= b,
        f.size > 0,
    ensures
        ({
            let r = file_answer(req, f, kind);
            let last = if b < f.size {
                b as int
            } else {
                f.size - 1
            };
            if a < f.size {
                &&& r.status == StatusCode::PartialContent
                &&& r.body_source == SourceView::FileRange(a, (last - a + 1) as u64)
                &&& r.headers.contains(("Content-Length"@, decimal((last - a + 1) as nat)))
                &&& r.headers.contains(
                    (
                        "Content-Range"@,
                        "bytes "@ + decimal(a as nat) + "-"@ + decimal(last as nat) + "/"@ + decimal(
                            f.size as nat,
                        ),
                    ),
                )
                &&& r.headers.contains(("Content-Type"@, kind))
                &&& r.headers.contains(("ETag"@, etag(f.modified, f.size)))
            } else {
                &&& r.status == StatusCode::RangeNotSatisfiable
                &&& r.headers.contains(("Content-Range"@, "bytes */"@ + decimal(f.size as nat)))
            }
        }),
{
    law_ranges_mean_what_they_say(a, b, f.size);
    lemma_decimal_is_digits(a as nat);
    lemma_decimal_is_digits(b as nat);
    lemma_range_halves(decimal(a as nat), decimal(b as nat));
    let r = file_answer(req, f, kind);
    if a < f.size {
        assert(r.headers[1].0 == "ETag"@);
        assert(r.headers[3].0 == "Content-Range"@);
        assert(r.headers[5].0 == "Content-Length"@);
        assert(r.headers[6].0 == "Content-Type"@);
    } else {
        assert(r.headers[1].0 == "Content-Range"@);
    }
}

/// A whole file is described by its size, its type, its tag and the date of its last
/// change, whether it is sent or only asked about.
pub proof fn law_whole_files_are_described(req: RequestView, f: FileView, kind: Seq<char>)
    requires
        req.method is Get || req.method is Head,
        header_value(req.headers, "If-None-Match"@) is None,
        header_value(req.headers, "If-Modified-Since"@) is None,
        header_value(req.headers, "Range"@) is None,
        crate::laws::texts::one_line(kind),
    ensures
        ({
            let r = file_answer(req, f, kind);
            &&& r.status == StatusCode::Okay
            &&& r.headers.contains(("Content-Length"@, decimal(f.size as nat)))
            &&& r.headers.contains(("Content-Type"@, kind))
            &&& r.headers.contains(("ETag"@, etag(f.modified, f.size)))
            &&& r.headers.contains(("Last-Modified"@, http_date(f.modified as int)))
            &&& r.headers.contains(("Accept-Ranges"@, "bytes"@))
            &&& req.method is Get ==> r.body_source == SourceView::File(f.size)
        }),
{
    let r = file_answer(req, f, kind);
    crate::laws::headers::lemma_unbroken(kind);
    if req.method is Get {
        assert(r.headers[1].0 == "ETag"@);
        assert(r.headers[2].0 == "Last-Modified"@);
        assert(r.headers[3].0 == "Accept-Ranges"@);
        assert(r.headers[4].0 == "Content-Length"@);
        assert(r.headers[5].0 == "Content-Type"@);
    } else {
        assert(r.headers[1].0 == "Content-Length"@);
        assert(r.headers[2].0 == "Content-Type"@);
        assert(r.headers[3].0 == "ETag"@);
        assert(r.headers[4].0 == "Last-Modified"@);
        assert(r.headers[5].0 == "Accept-Ranges"@);
    }
}

} // verus!
