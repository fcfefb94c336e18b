//! The request that a client sent over HTTP/2 is the one that is served.

use crate::server::http::{method_named, method_text, unicode_upper};
use crate::server::http2::request::{
    exact_values, h2_headers, h2_name_ok, h2_request, header_in_place, is_pseudo, known_pseudo,
    last_value, regular_headers, request_headers_ok,
};
use crate::server::http2::stream::StreamView;
use crate::text::{decimal, law_decimal_reads_back, parse_uint};
use vstd::prelude::*;

verus! {

proof fn lemma_only_value(h: Seq<(Seq<char>, Seq<char>)>, name: Seq<char>, i: int)
    requires
        0 <= i < h.len(),
        h[i].0 == name,
        forall|j: int| i < j < h.len() ==> (#[trigger] h[j]).0 != name,
    ensures
        last_value(h, name) == Some(h[i].1),
    decreases h.len(),
{
    if i < h.len() - 1 {
        assert(h.last() == h[h.len() - 1]);
        lemma_only_value(h.drop_last(), name, i);
    }
}

proof fn lemma_value_stands_somewhere(h: Seq<(Seq<char>, Seq<char>)>, name: Seq<char>)
    requires
        last_value(h, name) is Some,
    ensures
        exists|i: int|
            0 <= i < h.len() && (#[trigger] h[i]).0 == name && last_value(h, name) == Some(h[i].1),
    decreases h.len(),
{
    if h.last().0 == name {
        assert(h[h.len() - 1].0 == name);
    } else {
        let t = h.drop_last();
        lemma_value_stands_somewhere(t, name);
        let i = choose|i: int|
            0 <= i < t.len() && (#[trigger] t[i]).0 == name && last_value(t, name) == Some(t[i].1);
        assert(h[i] == t[i]);
    }
}

proof fn lemma_rest_is_regular(h: Seq<(Seq<char>, Seq<char>)>, k: int)
    requires
        0 <= k <= h.len(),
        forall|i: int| 0 <= i < k ==> is_pseudo((#[trigger] h[i]).0),
        forall|i: int| k <= i < h.len() ==> !is_pseudo((#[trigger] h[i]).0),
    ensures
        regular_headers(h) == h.subrange(k, h.len() as int),
    decreases h.len(),
{
    if h.len() > 0 {
        let t = h.drop_last();
        assert(h.last() == h[h.len() - 1]);
        if k < h.len() {
            lemma_rest_is_regular(t, k);
            assert(t.subrange(k, t.len() as int).push(h.last()) =~= h.subrange(k, h.len() as int));
        } else {
            lemma_rest_is_regular(t, k - 1);
            assert(t.subrange(k - 1, t.len() as int) =~= h.subrange(k, h.len() as int));
        }
    } else {
        assert(h.subrange(k, h.len() as int) =~= h);
    }
}

proof fn lemma_pseudo_headers_come_first(h: Seq<(Seq<char>, Seq<char>)>, n: int) -> (k: int)
    requires
        0 <= n <= h.len(),
        forall|i: int| 0 <= i < h.len() ==> #[trigger] header_in_place(h, i),
    ensures
        0 <= k <= n,
        forall|i: int| 0 <= i < k ==> is_pseudo((#[trigger] h[i]).0),
        forall|i: int| k <= i < n ==> !is_pseudo((#[trigger] h[i]).0),
    decreases n,
{
    if n == 0 {
        0
    } else {
        let k = lemma_pseudo_headers_come_first(h, n - 1);
        if is_pseudo(h[n - 1].0) {
            assert(header_in_place(h, n - 1));
            if k < n - 1 {
                assert(is_pseudo(h[k].0));
            }
            n
        } else {
            k
        }
    }
}

proof fn lemma_exact_value(h: Seq<(Seq<char>, Seq<char>)>, name: Seq<char>, i: int)
    requires
        0 <= i < h.len(),
        h[i].0 == name,
    ensures
        exact_values(h, name).contains(h[i].1),
    decreases h.len(),
{
    let t = h.drop_last();
    let r = exact_values(t, name);
    if i == h.len() - 1 {
        assert(exact_values(h, name)[r.len() as int] == h[i].1);
    } else {
        lemma_exact_value(t, name, i);
        let j = choose|j: int| 0 <= j < r.len() && r[j] == t[i].1;
        assert(exact_values(h, name)[j] == h[i].1);
    }
}

proof fn lemma_no_exact_value(h: Seq<(Seq<char>, Seq<char>)>, name: Seq<char>)
    requires
        forall|i: int| 0 <= i < h.len() ==> (#[trigger] h[i]).0 != name,
    ensures
        exact_values(h, name).len() == 0,
    decreases h.len(),
{
    if h.len() > 0 {
        assert(h.last() == h[h.len() - 1]);
        lemma_no_exact_value(h.drop_last(), name);
    }
}

/// A name and the method that it stands for say the same.
pub proof fn law_methods_keep_their_names(name: Seq<char>)
    ensures
        method_text(method_named(name)) == name,
        method_named(name) is Get <==> name == "GET"@,
        method_named(name) is Head <==> name == "HEAD"@,
        method_named(name) is Post <==> name == "POST"@,
{
    reveal_strlit("GET");
    reveal_strlit("HEAD");
    reveal_strlit("POST");
    assert("GET"@.len() == 3 && "HEAD"@.len() == 4 && "POST"@.len() == 4);
    assert("HEAD"@[0] == 'H' && "POST"@[0] == 'P');
}

/// A request that is accepted from a stream has the bytes that the stream received as its
/// body, the value of `:path` as its target and that of `:method` as its method. Its headers
/// are those that follow the pseudo-headers, in their order, and the authority as `Host`
/// behind them. A length that it announces is that of its body.
pub proof fn law_streams_carry_their_requests(s: StreamView)
    requires
        h2_request(s) is Ok,
    ensures
        ({
            let q = h2_request(s)->Ok_0;
            let h = s.request_headers;
            &&& q.body == s.request_body
            &&& q.version == "HTTP/2.0"@
            &&& exists|i: int| 0 <= i < h.len() && (#[trigger] h[i]).0 == ":method"@
            &&& forall|i: int|
                0 <= i < h.len() && (#[trigger] h[i]).0 == ":method"@ ==> method_text(q.method)
                    == unicode_upper(h[i].1)
            &&& forall|i: int|
                0 <= i < h.len() && (#[trigger] h[i]).0 == ":path"@ ==> q.uri == h[i].1
        }),
        ({
            let q = h2_request(s)->Ok_0;
            let h = s.request_headers;
            exists|k: int|
                0 <= k <= h.len() && (forall|i: int|
                    0 <= i < h.len() ==> (i < k <==> (#[trigger] h[i]).0[0] == ':'))
                    && h.subrange(k, h.len() as int) == #[trigger] q.headers.subrange(
                    0,
                    h.len() - k,
                ) && if q.headers.len() == h.len() - k {
                    forall|i: int| 0 <= i < h.len() ==> (#[trigger] h[i]).0 != ":authority"@
                } else {
                    q.headers.len() == h.len() - k + 1 && q.headers.last().0 == "Host"@ && exists|
                        i: int,
                    |
                        0 <= i < h.len() && (#[trigger] h[i]).0 == ":authority"@ && h[i].1
                            == q.headers.last().1
                }
        }),
        ({
            let q = h2_request(s)->Ok_0;
            forall|i: int|
                0 <= i < q.headers.len() && (#[trigger] q.headers[i]).0 == "content-length"@
                    && s.request_body.len() <= usize::MAX ==> parse_uint(
                    q.headers[i].1,
                    usize::MAX as nat,
                ) == Some(q.body.len())
        }),
{
    let q = h2_request(s)->Ok_0;
    let h = s.request_headers;
    let len = h.len() as int;
    lemma_value_stands_somewhere(h, ":method"@);
    assert forall|i: int| 0 <= i < h.len() && (#[trigger] h[i]).0 == ":method"@ implies method_text(
        q.method,
    ) == unicode_upper(h[i].1) by {
        reveal_strlit(":method");
        lemma_unique_pseudo(h, i);
        lemma_only_value(h, ":method"@, i);
        law_methods_keep_their_names(unicode_upper(h[i].1));
    }
    assert forall|i: int| 0 <= i < h.len() && (#[trigger] h[i]).0 == ":path"@ implies q.uri
        == h[i].1 by {
        reveal_strlit(":path");
        lemma_unique_pseudo(h, i);
        lemma_only_value(h, ":path"@, i);
    }
    let k = lemma_pseudo_headers_come_first(h, len);
    lemma_rest_is_regular(h, k);
    assert forall|i: int| 0 <= i < h.len() implies (i < k <==> (#[trigger] h[i]).0[0] == ':') by {
        assert(header_in_place(h, i));
    }
    let regular = regular_headers(h);
    assert(q.headers.subrange(0, len - k) =~= regular);
    match last_value(h, ":authority"@) {
        Some(a) => {
            lemma_value_stands_somewhere(h, ":authority"@);
            assert(q.headers == regular.push(("Host"@, a)));
        },
        None => {
            assert forall|i: int| 0 <= i < h.len() implies (#[trigger] h[i]).0 != ":authority"@ by {
                if h[i].0 == ":authority"@ {
                    reveal_strlit(":authority");
                    lemma_unique_pseudo(h, i);
                    lemma_only_value(h, ":authority"@, i);
                }
            }
            assert(q.headers == regular);
        },
    }
    assert forall|i: int|
        0 <= i < q.headers.len() && (#[trigger] q.headers[i]).0 == "content-length"@
            && s.request_body.len() <= usize::MAX implies parse_uint(
        q.headers[i].1,
        usize::MAX as nat,
    ) == Some(q.body.len()) by {
        lemma_exact_value(q.headers, "content-length"@, i);
    }
}

proof fn lemma_unique_pseudo(h: Seq<(Seq<char>, Seq<char>)>, i: int)
    requires
        0 <= i < h.len(),
        is_pseudo(h[i].0),
        forall|j: int| 0 <= j < h.len() ==> #[trigger] header_in_place(h, j),
    ensures
        forall|j: int| i < j < h.len() ==> (#[trigger] h[j]).0 != h[i].0,
{
    assert forall|j: int| i < j < h.len() implies (#[trigger] h[j]).0 != h[i].0 by {
        assert(header_in_place(h, j));
        if is_pseudo(h[j].0) {
            assert(is_pseudo(h[i].0) && h[i].0 != h[j].0);
        }
    }
}

/// A stream with a method, a scheme, a path and an authority makes a request; where it
/// announces a length, exactly where its body has that length.
pub proof fn law_complete_streams_make_requests(
    s: StreamView,
    method: Seq<char>,
    scheme: Seq<char>,
    path: Seq<char>,
    authority: Seq<char>,
    n: nat,
)
    requires
        s.request_body.len() <= usize::MAX,
        n <= usize::MAX,
    ensures
        s.request_headers == seq![
            (":method"@, method),
            (":scheme"@, scheme),
            (":path"@, path),
            (":authority"@, authority),
        ] ==> h2_request(s) is Ok,
        s.request_headers == seq![
            (":method"@, method),
            (":scheme"@, scheme),
            (":path"@, path),
            (":authority"@, authority),
            ("content-length"@, decimal(n)),
        ] ==> (h2_request(s) is Ok <==> n == s.request_body.len()),
{
    reveal_strlit(":method");
    reveal_strlit(":scheme");
    reveal_strlit(":path");
    reveal_strlit(":authority");
    reveal_strlit("content-length");
    reveal_strlit("Host");
    reveal_strlit("connection");
    reveal_strlit("keep-alive");
    reveal_strlit("proxy-connection");
    reveal_strlit("upgrade");
    reveal_strlit("transfer-encoding");
    reveal_strlit("te");
    assert(":method"@[1] == 'm' && ":scheme"@[1] == 's' && ":path"@[1] == 'p' && ":authority"@[1]
        == 'a');
    assert("content-length"@[2] == 'n' && "connection"@.len() == 10 && "content-length"@.len()
        == 14);
    let h = s.request_headers;
    let short = seq![
        (":method"@, method),
        (":scheme"@, scheme),
        (":path"@, path),
        (":authority"@, authority),
    ];
    let long = short.push(("content-length"@, decimal(n)));
    assert(long =~= seq![
        (":method"@, method),
        (":scheme"@, scheme),
        (":path"@, path),
        (":authority"@, authority),
        ("content-length"@, decimal(n)),
    ]);
    if h == short || h == long {
        assert forall|i: int| 0 <= i < h.len() implies #[trigger] header_in_place(h, i) by {
            assert(h2_name_ok(h[i].0));
            if i < 4 {
                assert(known_pseudo(h[i].0));
            }
        }
        lemma_only_value(h, ":method"@, 0);
        lemma_only_value(h, ":scheme"@, 1);
        lemma_only_value(h, ":path"@, 2);
        lemma_only_value(h, ":authority"@, 3);
        assert(request_headers_ok(h));
        lemma_rest_is_regular(h, 4);
        let q = h2_headers(h);
        if h == short {
            assert(q =~= seq![("Host"@, authority)]);
            lemma_no_exact_value(q, "content-length"@);
        } else {
            assert(q =~= seq![("content-length"@, decimal(n)), ("Host"@, authority)]);
            assert(q.drop_last() =~= seq![("content-length"@, decimal(n))]);
            let none = q.drop_last().drop_last();
            assert(exact_values(none, "content-length"@).len() == 0);
            assert(exact_values(q.drop_last(), "content-length"@) =~= seq![decimal(n)]);
            assert(exact_values(q, "content-length"@) == seq![decimal(n)]);
            law_decimal_reads_back(n, usize::MAX as nat);
        }
    }
}

} // verus!
