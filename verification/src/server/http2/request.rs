//! Requests that arrive over HTTP/2.

use crate::config::types::pairs;
use crate::server::http::{method_named, unicode_upper, HttpRequest, Method, RequestView};
use crate::server::http2::frame::Http2ErrorCode;
use crate::server::http2::stream::{Stream, StreamView};
use crate::text::{
    chars_of, is_name, is_text, is_upper, parse_uint, read_usize, same_name,
};
use vstd::prelude::*;

verus! {

/// A header name that HTTP/2 allows: no upper case, white space or control
/// character.
pub open spec fn h2_name_ok(n: Seq<char>) -> bool {
    n.len() > 0 && forall|i: int|
        0 <= i < n.len() ==> !is_upper(#[trigger] n[i]) && n[i] as u32 > 0x20 && n[i] as u32
            != 0x7f
}

pub open spec fn is_pseudo(n: Seq<char>) -> bool {
    n.len() > 0 && n[0] == ':'
}

pub open spec fn known_pseudo(n: Seq<char>) -> bool {
    n == ":method"@ || n == ":scheme"@ || n == ":path"@ || n == ":authority"@
}

/// A regular header that may cross an HTTP/2 connection.
pub open spec fn regular_ok(n: Seq<char>, v: Seq<char>) -> bool {
    n != "connection"@ && n != "keep-alive"@ && n != "proxy-connection"@ && n != "upgrade"@ && n
        != "transfer-encoding"@ && (n == "te"@ ==> same_name(v, "trailers"@))
}

/// The last value under exactly that name.
pub open spec fn last_value(h: Seq<(Seq<char>, Seq<char>)>, name: Seq<char>) -> Option<Seq<char>>
    decreases h.len(),
{
    if h.len() == 0 {
        None
    } else if h.last().0 == name {
        Some(h.last().1)
    } else {
        last_value(h.drop_last(), name)
    }
}

/// One header in its place: a pseudo-header is known, new and preceded by
/// pseudo-headers only; a regular one is allowed.
pub open spec fn header_in_place(h: Seq<(Seq<char>, Seq<char>)>, i: int) -> bool {
    h2_name_ok(h[i].0) && if is_pseudo(h[i].0) {
        known_pseudo(h[i].0) && forall|k: int|
            0 <= k < i ==> is_pseudo((#[trigger] h[k]).0) && h[k].0 != h[i].0
    } else {
        regular_ok(h[i].0, h[i].1)
    }
}

/// The headers of a request are in order and complete.
pub open spec fn request_headers_ok(h: Seq<(Seq<char>, Seq<char>)>) -> bool {
    &&& forall|i: int| 0 <= i < h.len() ==> #[trigger] header_in_place(h, i)
    &&& last_value(h, ":method"@) is Some
    &&& last_value(h, ":method"@) != Some("CONNECT"@) ==> last_value(h, ":scheme"@) is Some
        && last_value(h, ":path"@) is Some
}

/// The values under exactly that name.
pub open spec fn exact_values(h: Seq<(Seq<char>, Seq<char>)>, name: Seq<char>) -> Seq<Seq<char>>
    decreases h.len(),
{
    if h.len() == 0 {
        Seq::empty()
    } else {
        let r = exact_values(h.drop_last(), name);
        if h.last().0 == name {
            r.push(h.last().1)
        } else {
            r
        }
    }
}

/// No announced length, or one, and the body has it.
pub open spec fn content_length_ok(h: Seq<(Seq<char>, Seq<char>)>, actual: usize) -> bool {
    let l = exact_values(h, "content-length"@);
    l.len() == 0 || (l.len() == 1 && parse_uint(l[0], usize::MAX as nat) == Some(actual as nat))
}

/// The headers that are no pseudo-headers.
pub open spec fn regular_headers(h: Seq<(Seq<char>, Seq<char>)>) -> Seq<(Seq<char>, Seq<char>)>
    decreases h.len(),
{
    if h.len() == 0 {
        h
    } else {
        let r = regular_headers(h.drop_last());
        if is_pseudo(h.last().0) {
            r
        } else {
            r.push(h.last())
        }
    }
}

/// The headers of the request: the regular ones, and the authority as host.
pub open spec fn h2_headers(h: Seq<(Seq<char>, Seq<char>)>) -> Seq<(Seq<char>, Seq<char>)> {
    match last_value(h, ":authority"@) {
        Some(a) => regular_headers(h).push(("Host"@, a)),
        None => regular_headers(h),
    }
}

pub open spec fn value_or(o: Option<Seq<char>>, d: Seq<char>) -> Seq<char> {
    match o {
        Some(v) => v,
        None => d,
    }
}

/// The request that a stream carries.
pub open spec fn h2_request(s: StreamView) -> Result<RequestView, Http2ErrorCode> {
    let h = s.request_headers;
    let headers = h2_headers(h);
    if !request_headers_ok(h) || !content_length_ok(headers, s.request_body.len() as usize) {
        Err(Http2ErrorCode::ProtocolError)
    } else {
        Ok(
            RequestView {
                method: method_named(unicode_upper(value_or(last_value(h, ":method"@), "GET"@))),
                uri: value_or(last_value(h, ":path"@), "/"@),
                version: "HTTP/2.0"@,
                headers,
                body: s.request_body,
            },
        )
    }
}

proof fn lemma_regular(h: Seq<(Seq<char>, Seq<char>)>, all: Seq<(Seq<char>, Seq<char>)>)
    requires
        h.len() <= all.len(),
        forall|i: int| 0 <= i < h.len() ==> h[i] == all[i],
        forall|i: int| 0 <= i < all.len() ==> #[trigger] header_in_place(all, i),
    ensures
        forall|i: int|
            0 <= i < regular_headers(h).len() ==> regular_ok(
                (#[trigger] regular_headers(h)[i]).0,
                regular_headers(h)[i].1,
            ) && h2_name_ok(regular_headers(h)[i].0),
    decreases h.len(),
{
    if h.len() > 0 {
        lemma_regular(h.drop_last(), all);
        assert(header_in_place(all, h.len() - 1));
        assert(h.last() == all[h.len() - 1]);
        let before = regular_headers(h.drop_last());
        assert forall|i: int| 0 <= i < regular_headers(h).len() implies regular_ok(
            (#[trigger] regular_headers(h)[i]).0,
            regular_headers(h)[i].1,
        ) && h2_name_ok(regular_headers(h)[i].0) by {
            if i < before.len() {
                assert(regular_headers(h)[i] == before[i]);
            }
        }
    }
}

/// A request that is accepted over HTTP/2 carries no header that belongs to an
/// HTTP/1.1 connection.
pub proof fn law_h2_requests_carry_no_connection_headers(s: StreamView, i: int)
    requires
        h2_request(s) is Ok,
        0 <= i < regular_headers(s.request_headers).len(),
    ensures
        regular_headers(s.request_headers)[i].0 != "connection"@,
        regular_headers(s.request_headers)[i].0 != "transfer-encoding"@,
        regular_headers(s.request_headers)[i].0 != "upgrade"@,
{
    lemma_regular(s.request_headers, s.request_headers);
}

fn valid_h2_name(n: &Vec<char>) -> (b: bool)
    ensures
        b == h2_name_ok(n@),
{
    let mut i: usize = 0;
    while i < n.len()
        invariant
            i <= n@.len(),
            forall|j: int|
                0 <= j < i ==> !is_upper(#[trigger] n@[j]) && n@[j] as u32 > 0x20 && n@[j] as u32
                    != 0x7f,
        decreases n@.len() - i,
    {
        let c: u32 = n[i] as u32;
        if (65 <= c && c <= 90) || c <= 0x20 || c == 0x7f {
            assert(n@[i as int] as u32 == c);
            return false;
        }
        i = i + 1;
    }
    n.len() > 0
}

fn pseudo(n: &Vec<char>) -> (b: bool)
    ensures
        b == is_pseudo(n@),
{
    n.len() > 0 && n[0] == ':'
}

fn last_value_of(h: &Vec<(String, String)>, name: &str) -> (r: Option<Vec<char>>)
    ensures
        match r {
            Some(v) => last_value(pairs(h@), name@) == Some(v@),
            None => last_value(pairs(h@), name@) is None,
        },
{
    let ghost p = pairs(h@);
    let mut n: usize = h.len();
    assert(p.subrange(0, n as int) =~= p);
    while n > 0
        invariant
            p == pairs(h@),
            n <= h@.len(),
            last_value(p.subrange(0, n as int), name@) == last_value(p, name@),
        decreases n,
    {
        let ghost t = p.subrange(0, n as int);
        assert(t.drop_last() =~= p.subrange(0, n - 1));
        assert(t.last() == (h@[n - 1].0@, h@[n - 1].1@));
        if is_text(&chars_of(h[n - 1].0.as_str()), name) {
            return Some(chars_of(h[n - 1].1.as_str()));
        }
        n = n - 1;
    }
    None
}

fn in_place(h: &Vec<(String, String)>, i: usize) -> (b: bool)
    requires
        i < h@.len(),
    ensures
        b == header_in_place(pairs(h@), i as int),
{
    let ghost p = pairs(h@);
    let name = chars_of(h[i].0.as_str());
    assert(p[i as int] == (name@, h@[i as int].1@));
    if !valid_h2_name(&name) {
        return false;
    }
    if !pseudo(&name) {
        if is_text(&name, "connection") || is_text(&name, "keep-alive") || is_text(
            &name,
            "proxy-connection",
        ) || is_text(&name, "upgrade") || is_text(&name, "transfer-encoding") {
            return false;
        }
        return !is_text(&name, "te") || is_name(&chars_of(h[i].1.as_str()), "trailers");
    }
    if !is_text(&name, ":method") && !is_text(&name, ":scheme") && !is_text(&name, ":path")
        && !is_text(&name, ":authority") {
        return false;
    }
    let mut k: usize = 0;
    while k < i
        invariant
            p == pairs(h@),
            i < h@.len(),
            k <= i,
            p[i as int].0 == name@,
            is_pseudo(name@),
            forall|j: int| 0 <= j < k ==> is_pseudo((#[trigger] p[j]).0) && p[j].0 != name@,
        decreases i - k,
    {
        let other = chars_of(h[k].0.as_str());
        assert(p[k as int].0 == other@);
        if !pseudo(&other) || crate::text::same(&other, &name) {
            return false;
        }
        k = k + 1;
    }
    true
}

/// Whether the headers of a stream make a request.
pub fn validate_request_headers(h2_stream: &Stream) -> (r: Result<(), Http2ErrorCode>)
    ensures
        r == (if request_headers_ok(h2_stream@.request_headers) {
            Ok::<(), Http2ErrorCode>(())
        } else {
            Err::<(), Http2ErrorCode>(Http2ErrorCode::ProtocolError)
        }),
{
    let h = &h2_stream.request_headers;
    let ghost p = pairs(h@);
    let mut i: usize = 0;
    while i < h.len()
        invariant
            *h == h2_stream.request_headers,
            p == pairs(h@),
            i <= h@.len(),
            forall|j: int| 0 <= j < i ==> #[trigger] header_in_place(p, j),
        decreases h@.len() - i,
    {
        if !in_place(h, i) {
            return Err(Http2ErrorCode::ProtocolError);
        }
        i = i + 1;
    }
    match last_value_of(h, ":method") {
        None => Err(Http2ErrorCode::ProtocolError),
        Some(m) => {
            if !is_text(&m, "CONNECT") && (last_value_of(h, ":scheme").is_none() || last_value_of(
                h,
                ":path",
            ).is_none()) {
                return Err(Http2ErrorCode::ProtocolError);
            }
            Ok(())
        },
    }
}

/// Whether the announced length is the length of the body.
pub fn validate_content_length(headers: &Vec<(String, String)>, actual_body_len: usize) -> (r:
    Result<(), Http2ErrorCode>)
    ensures
        r == (if content_length_ok(pairs(headers@), actual_body_len) {
            Ok::<(), Http2ErrorCode>(())
        } else {
            Err::<(), Http2ErrorCode>(Http2ErrorCode::ProtocolError)
        }),
{
    let ghost p = pairs(headers@);
    let mut found: Option<Vec<char>> = None;
    let mut i: usize = 0;
    assert(p.subrange(0, 0) =~= Seq::<(Seq<char>, Seq<char>)>::empty());
    while i < headers.len()
        invariant
            p == pairs(headers@),
            i <= headers@.len(),
            match found {
                None => exact_values(p.subrange(0, i as int), "content-length"@).len() == 0,
                Some(v) => exact_values(p.subrange(0, i as int), "content-length"@) == seq![v@],
            },
        decreases headers@.len() - i,
    {
        let ghost t = p.subrange(0, i + 1);
        assert(t.drop_last() =~= p.subrange(0, i as int));
        assert(t.last() == (headers@[i as int].0@, headers@[i as int].1@));
        if is_text(&chars_of(headers[i].0.as_str()), "content-length") {
            if found.is_some() {
                proof {
                    lemma_exact_grow(p, i + 1, "content-length"@);
                }
                return Err(Http2ErrorCode::ProtocolError);
            }
            let v = chars_of(headers[i].1.as_str());
            assert(exact_values(t, "content-length"@) =~= seq![v@]);
            found = Some(v);
        }
        i = i + 1;
    }
    assert(p.subrange(0, headers@.len() as int) =~= p);
    match found {
        None => Ok(()),
        Some(v) => match read_usize(&v) {
            Some(n) => if n == actual_body_len {
                Ok(())
            } else {
                Err(Http2ErrorCode::ProtocolError)
            },
            None => Err(Http2ErrorCode::ProtocolError),
        },
    }
}

proof fn lemma_exact_grow(h: Seq<(Seq<char>, Seq<char>)>, i: int, name: Seq<char>)
    requires
        0 <= i <= h.len(),
    ensures
        exact_values(h.subrange(0, i), name).len() <= exact_values(h, name).len(),
    decreases h.len(),
{
    if i < h.len() {
        assert(h.drop_last().subrange(0, i) =~= h.subrange(0, i));
        lemma_exact_grow(h.drop_last(), i, name);
    } else {
        assert(h.subrange(0, i) =~= h);
    }
}

fn regular_of(h: &Vec<(String, String)>) -> (r: Vec<(String, String)>)
    ensures
        pairs(r@) == regular_headers(pairs(h@)),
{
    let ghost p = pairs(h@);
    let mut r: Vec<(String, String)> = Vec::new();
    let mut i: usize = 0;
    assert(p.subrange(0, 0) =~= Seq::<(Seq<char>, Seq<char>)>::empty());
    assert(pairs(r@) =~= Seq::<(Seq<char>, Seq<char>)>::empty());
    while i < h.len()
        invariant
            p == pairs(h@),
            i <= h@.len(),
            pairs(r@) == regular_headers(p.subrange(0, i as int)),
        decreases h@.len() - i,
    {
        let ghost t = p.subrange(0, i + 1);
        assert(t.drop_last() =~= p.subrange(0, i as int));
        assert(t.last() == (h@[i as int].0@, h@[i as int].1@));
        if !pseudo(&chars_of(h[i].0.as_str())) {
            let ghost prev = pairs(r@);
            r.push((h[i].0.clone(), h[i].1.clone()));
            assert(pairs(r@) =~= prev.push(t.last()));
        }
        i = i + 1;
    }
    assert(p.subrange(0, h@.len() as int) =~= p);
    r
}

/// The request that a stream carries.
pub fn request_of_stream(h2_stream: &Stream) -> (r: Result<HttpRequest, Http2ErrorCode>)
    ensures
        match r {
            Ok(q) => h2_request(h2_stream@) == Ok::<_, Http2ErrorCode>(q@),
            Err(e) => h2_request(h2_stream@) == Err::<RequestView, _>(e),
        },
{
    match validate_request_headers(h2_stream) {
        Ok(_) => {},
        Err(e) => {
            return Err(e);
        },
    }
    let h = &h2_stream.request_headers;
    let mut headers = regular_of(h);
    match last_value_of(h, ":authority") {
        Some(a) => {
            let host = crate::text::string_of(&a);
            crate::server::response::push_header(&mut headers, "Host", host.as_str());
        },
        None => {},
    }
    match validate_content_length(&headers, h2_stream.request_body.len()) {
        Ok(_) => {},
        Err(e) => {
            return Err(e);
        },
    }
    let name = match last_value_of(h, ":method") {
        Some(m) => crate::text::string_of(&m),
        None => "GET".to_owned(),
    };
    let uri = match last_value_of(h, ":path") {
        Some(p) => crate::text::string_of(&p),
        None => "/".to_owned(),
    };
    Ok(
        HttpRequest {
            method: Method::from(name.as_str()),
            uri,
            version: "HTTP/2.0".to_owned(),
            headers,
            body: crate::bytes::part_bytes_all(h2_stream.request_body.as_slice()),
        },
    )
}

} // verus!
