//! Responses of upstreams on HTTP/2 streams: how they are compressed, and which of
//! them are waited for.

use crate::config::types::pairs;
use crate::server::dispatch::Target;
use crate::server::http::{header_value, list_contains, list_has, StatusCode};
use crate::server::http2::connection::{ConnView, Http2Connection, WaitingResponse};
use crate::server::quality::{accepts_gzip_from_upstream, gzip_for_upstreams};
use crate::server::response::{
    plain_answer, push_header, HttpResponse, ResponseView,
};
use crate::server::upstream::{forbids_transform, is_fixed, is_text_like, text_like};
use crate::text::{
    before, chars_of, decimal, decimal_of, find_of, is_name, lower, lower_of, part, same_name,
    string_of, trim, trim_of,
};
use vstd::prelude::*;

verus! {

/// A response of an upstream that is compressed for a client that takes it.
pub open spec fn dynamically_compressible(r: ResponseView) -> bool {
    r.status != StatusCode::NoContent && r.status != StatusCode::NotModified
        && !forbids_transform(r.headers) && (header_value(r.headers, "Content-Type"@) matches Some(
        v,
    ) && text_like(lower(trim(before(v, ';')))))
}

/// Whether a response of an upstream is compressed for a client that takes it.
pub fn dynamic_response_compressible(response: &HttpResponse) -> (b: bool)
    ensures
        b == dynamically_compressible(response@),
{
    match response.status {
        StatusCode::NoContent => {
            return false;
        },
        StatusCode::NotModified => {
            return false;
        },
        _ => {},
    }
    if is_fixed(&response.headers) {
        return false;
    }
    match crate::server::http::get_pair(&response.headers, "Content-Type") {
        Some(v) => {
            let c = chars_of(v);
            is_text_like(&lower_of(&trim_of(&part(&c, 0, find_of(&c, ';')))))
        },
        None => false,
    }
}

/// The headers but those of that name.
pub open spec fn headers_without(h: Seq<(Seq<char>, Seq<char>)>, name: Seq<char>) -> Seq<
    (Seq<char>, Seq<char>),
>
    decreases h.len(),
{
    if h.len() == 0 {
        h
    } else if same_name(h.last().0, name) {
        headers_without(h.drop_last(), name)
    } else {
        headers_without(h.drop_last(), name).push(h.last())
    }
}

/// Takes the headers of that name out.
pub fn remove_header(headers: &mut Vec<(String, String)>, name: &str)
    ensures
        pairs(final(headers)@) == headers_without(pairs(old(headers)@), name@),
{
    let ghost p = pairs(headers@);
    let mut kept: Vec<(String, String)> = Vec::new();
    let mut i: usize = 0;
    assert(p.subrange(0, 0) =~= Seq::<(Seq<char>, Seq<char>)>::empty());
    assert(pairs(kept@) =~= Seq::<(Seq<char>, Seq<char>)>::empty());
    while i < headers.len()
        invariant
            p == pairs(headers@),
            i <= headers@.len(),
            pairs(kept@) == headers_without(p.subrange(0, i as int), name@),
        decreases headers@.len() - i,
    {
        assert(p.subrange(0, i + 1).drop_last() =~= p.subrange(0, i as int));
        assert(p.subrange(0, i + 1).last() == (headers@[i as int].0@, headers@[i as int].1@));
        if !is_name(&chars_of(headers[i].0.as_str()), name) {
            push_header(&mut kept, headers[i].0.as_str(), headers[i].1.as_str());
        }
        i = i + 1;
    }
    assert(p.subrange(0, p.len() as int) =~= p);
    *headers = kept;
}

/// The header says that the response depends on the encodings the client takes.
pub open spec fn varies_on_encoding(p: (Seq<char>, Seq<char>)) -> bool {
    same_name(p.0, "Vary"@) && list_has(p.1, "Accept-Encoding"@)
}

/// Some header says that the response depends on the encodings the client takes.
pub open spec fn says_so(h: Seq<(Seq<char>, Seq<char>)>) -> bool {
    exists|i: int| 0 <= i < h.len() && varies_on_encoding(#[trigger] h[i])
}

/// The headers, one of which says that the response depends on the encodings the
/// client takes.
pub open spec fn with_vary(h: Seq<(Seq<char>, Seq<char>)>) -> Seq<(Seq<char>, Seq<char>)> {
    if says_so(h) {
        h
    } else {
        h.push(("Vary"@, "Accept-Encoding"@))
    }
}

/// Sees to it that a header says that the response depends on the encodings the
/// client takes.
pub fn ensure_vary(headers: &mut Vec<(String, String)>)
    ensures
        pairs(final(headers)@) == with_vary(pairs(old(headers)@)),
{
    let ghost p = pairs(headers@);
    let mut i: usize = 0;
    while i < headers.len()
        invariant
            p == pairs(headers@),
            i <= headers@.len(),
            forall|j: int| 0 <= j < i ==> !varies_on_encoding(#[trigger] p[j]),
        decreases headers@.len() - i,
    {
        assert(p[i as int] == (headers@[i as int].0@, headers@[i as int].1@));
        if is_name(&chars_of(headers[i].0.as_str()), "Vary") && list_contains(
            headers[i].1.as_str(),
            "Accept-Encoding",
        ) {
            assert(varies_on_encoding(p[i as int]));
            return;
        }
        i = i + 1;
    }
    assert(!says_so(p));
    push_header(headers, "Vary", "Accept-Encoding");
}

/// The response of an upstream as it is sent where it is compressed.
pub open spec fn compressed_response(r: ResponseView) -> ResponseView {
    let h = headers_without(
        headers_without(r.headers, "Content-Length"@),
        "Content-Encoding"@,
    ).push(("Content-Encoding"@, "gzip"@));
    ResponseView { headers: with_vary(h), ..r }
}

/// What is sent of a response of an upstream: the response, whether its body is
/// compressed, and the length of the body where it is known.
pub open spec fn sent_response(
    r: ResponseView,
    has_body: bool,
    length: Option<u64>,
    accepts: bool,
) -> (ResponseView, bool, Option<u64>) {
    if accepts && has_body && dynamically_compressible(r) {
        (compressed_response(r), true, None)
    } else {
        (r, false, length)
    }
}

/// What is sent of a response of an upstream.
pub fn prepare_response(
    response: HttpResponse,
    has_body: bool,
    length: Option<u64>,
    accepts: bool,
) -> (r: (HttpResponse, bool, Option<u64>))
    ensures
        (r.0@, r.1, r.2) == sent_response(response@, has_body, length, accepts),
{
    if accepts && has_body && dynamic_response_compressible(&response) {
        let mut x = response;
        remove_header(&mut x.headers, "Content-Length");
        remove_header(&mut x.headers, "Content-Encoding");
        push_header(&mut x.headers, "Content-Encoding", "gzip");
        ensure_vary(&mut x.headers);
        (x, true, None)
    } else {
        (response, false, length)
    }
}

proof fn lemma_without(h: Seq<(Seq<char>, Seq<char>)>, name: Seq<char>, i: int)
    requires
        0 <= i < headers_without(h, name).len(),
    ensures
        !same_name(headers_without(h, name)[i].0, name),
    decreases h.len(),
{
    if h.len() > 0 {
        let t = headers_without(h.drop_last(), name);
        if !same_name(h.last().0, name) && i == t.len() {
        } else {
            lemma_without(h.drop_last(), name, i);
        }
    }
}

proof fn lemma_without_keeps(
    h: Seq<(Seq<char>, Seq<char>)>,
    name: Seq<char>,
    other: Seq<char>,
    i: int,
)
    requires
        forall|j: int| 0 <= j < h.len() ==> !same_name((#[trigger] h[j]).0, other),
        0 <= i < headers_without(h, name).len(),
    ensures
        !same_name(headers_without(h, name)[i].0, other),
    decreases h.len(),
{
    if h.len() > 0 {
        let u = h.drop_last();
        let t = headers_without(u, name);
        assert(forall|j: int| 0 <= j < u.len() ==> u[j] == h[j]);
        if !same_name(h.last().0, name) && i == t.len() {
            assert(!same_name(h[h.len() - 1].0, other));
        } else {
            lemma_without_keeps(u, name, other, i);
        }
    }
}

/// A compressed response announces no length, and says that it depends on the
/// encodings the client takes.
pub proof fn law_compressed_responses_announce_no_length(r: ResponseView, i: int)
    requires
        0 <= i < compressed_response(r).headers.len(),
    ensures
        !same_name(compressed_response(r).headers[i].0, "Content-Length"@),
        says_so(compressed_response(r).headers),
{
    let a = headers_without(r.headers, "Content-Length"@);
    let b = headers_without(a, "Content-Encoding"@);
    let h = b.push(("Content-Encoding"@, "gzip"@));
    let f = compressed_response(r).headers;
    assert(f == with_vary(h));
    assert forall|j: int| 0 <= j < a.len() implies !same_name(
        (#[trigger] a[j]).0,
        "Content-Length"@,
    ) by {
        lemma_without(r.headers, "Content-Length"@, j);
    }
    if i < b.len() {
        lemma_without_keeps(a, "Content-Encoding"@, "Content-Length"@, i);
        assert(f[i] == b[i]);
    } else if i == b.len() {
        assert(f[i].0 == "Content-Encoding"@);
        lemma_names_differ();
    } else {
        assert(f[i].0 == "Vary"@);
        lemma_names_differ();
    }
    if !says_so(h) {
        let v = ("Vary"@, "Accept-Encoding"@);
        lemma_vary_says_so();
        assert(f[h.len() as int] == v);
        assert(varies_on_encoding(f[h.len() as int]));
    }
}

proof fn lemma_names_differ()
    ensures
        !same_name("Content-Encoding"@, "Content-Length"@),
        !same_name("Vary"@, "Content-Length"@),
{
    reveal_strlit("Content-Encoding");
    reveal_strlit("Content-Length");
    reveal_strlit("Vary");
    assert(lower("Content-Encoding"@).len() == 16);
    assert(lower("Content-Length"@).len() == 14);
    assert(lower("Vary"@).len() == 4);
}

proof fn lemma_vary_says_so()
    ensures
        varies_on_encoding(("Vary"@, "Accept-Encoding"@)),
{
    let s = "Accept-Encoding"@;
    reveal_strlit("Accept-Encoding");
    assert(!crate::text::has_char(s, ','));
    let e = Seq::<char>::empty();
    crate::text::lemma_split_extends(e, s, ',');
    assert(e + s =~= s);
    assert(crate::text::split(e, ',') =~= seq![e]);
    let p = crate::text::split(s, ',');
    assert(p =~= seq![s]);
    assert(trim(s) == s) by {
        assert(!crate::text::is_space(s[0]));
        assert(!crate::text::is_space(s.last()));
    }
    assert(same_name(trim(p[0]), s));
}

/// The headers of a response on a stream: its status first.
pub open spec fn stream_headers(r: ResponseView) -> Seq<(Seq<char>, Seq<char>)> {
    seq![(":status"@, decimal(r.status.number() as nat))] + r.headers
}

/// The headers of a response on a stream.
pub fn h2_response_headers(resp: &HttpResponse) -> (r: Vec<(String, String)>)
    ensures
        pairs(r@) == stream_headers(resp@),
{
    let mut r: Vec<(String, String)> = Vec::new();
    assert(pairs(r@) =~= Seq::<(Seq<char>, Seq<char>)>::empty());
    let code = string_of(&decimal_of(resp.status.code() as u64));
    push_header(&mut r, ":status", code.as_str());
    let ghost lead = pairs(r@);
    let ghost h = resp@.headers;
    assert(lead =~= seq![(":status"@, decimal(resp@.status.number() as nat))]);
    let mut i: usize = 0;
    assert(lead + h.subrange(0, 0) =~= lead);
    while i < resp.headers.len()
        invariant
            h == pairs(resp.headers@),
            i <= resp.headers@.len(),
            pairs(r@) == lead + h.subrange(0, i as int),
        decreases resp.headers@.len() - i,
    {
        push_header(&mut r, resp.headers[i].0.as_str(), resp.headers[i].1.as_str());
        assert(h[i as int] == (resp.headers@[i as int].0@, resp.headers@[i as int].1@));
        assert(pairs(r@) =~= lead + h.subrange(0, i + 1));
        i = i + 1;
    }
    assert(h.subrange(0, h.len() as int) =~= h);
    r
}

/// The answer where an upstream could not be asked; none where none had to be.
pub fn upstream_failure(target: Target) -> (r: Option<HttpResponse>)
    ensures
        match r {
            Some(x) => x@ == plain_answer(
                StatusCode::BadGateway,
                if target == Target::Proxy {
                    "502 Bad Gateway: proxy upstream failure"@
                } else {
                    "502 Bad Gateway: FastCGI upstream failure"@
                },
            ) && target != Target::Files,
            None => target == Target::Files,
        },
{
    match target {
        Target::Proxy => Some(
            HttpResponse::plain(StatusCode::BadGateway, "502 Bad Gateway: proxy upstream failure"),
        ),
        Target::FastCgi => Some(
            HttpResponse::plain(
                StatusCode::BadGateway,
                "502 Bad Gateway: FastCGI upstream failure",
            ),
        ),
        Target::Files => None,
    }
}

impl Http2Connection {
    /// Waits for an upstream's answer to a stream. `accept` is what the client said
    /// about encodings.
    pub fn await_upstream(&mut self, stream_id: u32, accept: Option<&str>, level: u32)
        ensures
            final(self)@ == (ConnView {
                waiting: old(self)@.waiting.push(
                    WaitingResponse {
                        stream_id,
                        compress: gzip_for_upstreams(
                            match accept {
                                Some(v) => Some(v@),
                                None => None,
                            },
                        ),
                        compression_level: level,
                    },
                ),
                ..old(self)@
            }),
    {
        let compress = accepts_gzip_from_upstream(accept);
        self.pending_header_responses.push(
            WaitingResponse { stream_id, compress, compression_level: level },
        );
    }

    /// Takes the stream that is waiting for the longest time out.
    pub fn next_waiting(&mut self) -> (r: Option<WaitingResponse>)
        ensures
            match r {
                Some(w) => old(self)@.waiting.len() > 0 && w == old(self)@.waiting[0]
                    && final(self)@ == (ConnView {
                    waiting: old(self)@.waiting.subrange(1, old(self)@.waiting.len() as int),
                    ..old(self)@
                }),
                None => old(self)@.waiting.len() == 0 && final(self)@ == old(self)@,
            },
    {
        if self.pending_header_responses.len() == 0 {
            return None;
        }
        let ghost w = self@.waiting;
        let r = self.pending_header_responses.remove(0);
        assert(self@.waiting =~= w.subrange(1, w.len() as int));
        Some(r)
    }

    /// Goes on waiting for a stream.
    pub fn keep_waiting(&mut self, w: WaitingResponse)
        ensures
            final(self)@ == (ConnView { waiting: old(self)@.waiting.push(w), ..old(self)@ }),
    {
        self.pending_header_responses.push(w);
    }
}

} // verus!
