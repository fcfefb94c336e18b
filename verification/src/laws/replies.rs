//! Responses on the way from an upstream or a script to the client.

use crate::bytes::{blank_line, sub_find};
use crate::laws::headers::law_names_are_compared_without_case;
use crate::laws::heads::{lemma_block_lines, lemma_header_line, line_of, lines_for};
use crate::laws::paths::lemma_split_joins;
use crate::laws::texts::{
    lemma_crlf_more, lemma_decimal_is_digits, lemma_split_more, lemma_trim_unspaced, lemma_uncut,
    one_line, unspaced,
};
use crate::laws::wire::{law_blocks_read_back, lemma_crlf_bytes, lemma_encode_joins};
use crate::server::cgi_reader::response_of;
use crate::server::fault::FaultView;
use crate::server::gzip::Gzip;
use crate::server::http::{law_status_numbers_round_trip, StatusCode};
use crate::server::proxy_head::{
    captured_response, lenient_lines, line_status, line_version, strict_lines, upstream_head,
    RefusalView, UpstreamHeadersView,
};
use crate::server::proxy_stream::{on_upstream, Phase, UpstreamRelayView};
use crate::server::record::{cgi_head, cgi_line, cgi_lines, frames_response, CgiHeadView};
use crate::server::response::{
    bare_response, has_header, header_lines, response_head, ResponseView, SourceView,
};
use crate::server::upstream::{header_block, header_ok, is_hop_by_hop, joined_lines};
use crate::text::{
    decimal, is_digit, law_decimal_reads_back, same_name, split, split_crlf, trim, words,
};
use vstd::prelude::*;
use vstd::utf8::{decode_utf8, encode_utf8, encode_utf8_decode_utf8, encode_utf8_valid_utf8};

verus! {

/// Headers that are passed on as they are: well formed, without outer blanks, none that
/// concerns the connection alone, and each length that is announced is `n`.
pub open spec fn passes(h: Seq<(Seq<char>, Seq<char>)>, n: u64) -> bool {
    forall|i: int|
        0 <= i < h.len() ==> header_ok((#[trigger] h[i]).0, h[i].1) && !is_hop_by_hop(h[i].0)
            && trim(h[i].1) == h[i].1 && (same_name(h[i].0, "Content-Length"@) ==> h[i].1
            == decimal(n as nat))
}

proof fn lemma_passes_part(h: Seq<(Seq<char>, Seq<char>)>, n: u64)
    requires
        passes(h, n),
        h.len() > 0,
    ensures
        passes(h.drop_last(), n),
        has_header(h, "Content-Length"@) <==> has_header(h.drop_last(), "Content-Length"@)
            || same_name(h.last().0, "Content-Length"@),
{
    let t = h.drop_last();
    assert forall|i: int| 0 <= i < t.len() implies header_ok((#[trigger] t[i]).0, t[i].1)
        && !is_hop_by_hop(t[i].0) && trim(t[i].1) == t[i].1 && (same_name(
        t[i].0,
        "Content-Length"@,
    ) ==> t[i].1 == decimal(n as nat)) by {
        assert(t[i] == h[i]);
    }
    if has_header(h, "Content-Length"@) {
        let i = choose|i: int|
            0 <= i < h.len() && same_name((#[trigger] h[i]).0, "Content-Length"@);
        if i < t.len() {
            assert(same_name(t[i].0, "Content-Length"@));
        }
    }
    if has_header(t, "Content-Length"@) {
        let i = choose|i: int|
            0 <= i < t.len() && same_name((#[trigger] t[i]).0, "Content-Length"@);
        assert(same_name(h[i].0, "Content-Length"@));
    }
    assert(h[h.len() - 1] == h.last());
}

pub proof fn lemma_name_trimmed(p: (Seq<char>, Seq<char>))
    requires
        header_ok(p.0, p.1),
    ensures
        trim(p.0) == p.0,
{
    assert forall|i: int| 0 <= i < p.0.len() implies !crate::text::is_space(#[trigger] p.0[i]) by {
        assert(crate::config::scan::is_token_char(p.0[i]));
    }
    lemma_trim_unspaced(p.0);
}

pub proof fn lemma_connection_names()
    ensures
        same_name("Connection"@, "connection"@),
        same_name("Transfer-Encoding"@, "transfer-encoding"@),
{
    reveal_strlit("Connection");
    reveal_strlit("connection");
    reveal_strlit("Transfer-Encoding");
    reveal_strlit("transfer-encoding");
    law_names_are_compared_without_case("Connection"@, "connection"@);
    law_names_are_compared_without_case("Transfer-Encoding"@, "transfer-encoding"@);
}

pub proof fn lemma_lines_read(h: Seq<(Seq<char>, Seq<char>)>, n: u64)
    requires
        passes(h, n),
    ensures
        ({
            let r = UpstreamHeadersView {
                headers: h,
                content_length: if has_header(h, "Content-Length"@) {
                    Some(n)
                } else {
                    None
                },
                chunked: false,
                close: false,
            };
            lenient_lines(lines_for(h)) == Ok::<_, RefusalView>(r) && strict_lines(lines_for(h))
                == Ok::<_, FaultView>(r)
        }),
    decreases h.len(),
{
    let l = lines_for(h);
    if h.len() == 0 {
        assert(h =~= Seq::<(Seq<char>, Seq<char>)>::empty());
        assert(!has_header(h, "Content-Length"@));
    } else {
        let t = h.drop_last();
        lemma_passes_part(h, n);
        lemma_lines_read(t, n);
        assert(l.drop_last() =~= lines_for(t));
        let p = h[h.len() - 1];
        assert(l.last() == line_of(p));
        lemma_header_line(p);
        lemma_name_trimmed(p);
        lemma_connection_names();
        law_decimal_reads_back(n as nat, u64::MAX as nat);
        assert(t.push(p) =~= h);
    }
}

proof fn lemma_blank_lines_do_not_count(l: Seq<Seq<char>>)
    ensures
        lenient_lines(l.push(Seq::empty()).push(Seq::empty())) == lenient_lines(l),
        strict_lines(l.push(Seq::empty()).push(Seq::empty())) == strict_lines(l),
        cgi_lines(l.push(Seq::empty()).push(Seq::empty())) == cgi_lines(l),
{
    let e = Seq::<char>::empty();
    assert(l.push(e).drop_last() =~= l);
    assert(l.push(e).push(e).drop_last() =~= l.push(e));
    assert(lenient_lines(l.push(e)) == lenient_lines(l));
    assert(strict_lines(l.push(e)) == strict_lines(l));
    assert(cgi_lines(l.push(e)) == cgi_lines(l));
}

/// The status line of a response.
pub open spec fn status_line(version: Seq<char>, status: u16, reason: Seq<char>) -> Seq<char> {
    version + seq![' '] + decimal(status as nat) + seq![' '] + reason
}

pub proof fn lemma_status_line(version: Seq<char>, status: u16, reason: Seq<char>)
    requires
        version == "HTTP/1.1"@ || version == "HTTP/1.0"@,
        one_line(reason),
    ensures
        line_version(status_line(version, status, reason)) == version,
        100 <= status <= 599 ==> line_status(status_line(version, status, reason)) == Some(status),
        !(100 <= status <= 599) ==> line_status(status_line(version, status, reason)) is None,
        one_line(status_line(version, status, reason)),
{
    reveal_strlit("HTTP/1.1");
    reveal_strlit("HTTP/1.0");
    let d = decimal(status as nat);
    lemma_decimal_is_digits(status as nat);
    law_decimal_reads_back(status as nat, 65535);
    assert(version.len() == 8);
    assert forall|i: int| 0 <= i < version.len() implies version[i] != ' ' && version[i] != '\r'
        && version[i] != '\n' by {
        assert(version[0] == 'H' && version[1] == 'T' && version[2] == 'T' && version[3] == 'P'
            && version[4] == '/' && version[5] == '1' && version[6] == '.' && (version[7] == '1'
            || version[7] == '0'));
    }
    assert forall|i: int| 0 <= i < d.len() implies d[i] != ' ' by {
        assert(is_digit(d[i]));
    }
    lemma_uncut(version, ' ');
    lemma_split_more(version, ' ', d);
    let a = version + seq![' '] + d;
    lemma_split_joins(a, reason, ' ');
    let s = status_line(version, status, reason);
    assert(split(a, ' ') =~= seq![version, d]);
    assert(split(s, ' ')[0] == version && split(s, ' ')[1] == d);
    assert forall|i: int| 0 <= i < s.len() implies #[trigger] s[i] != '\r' && s[i] != '\n' by {
        if i < version.len() {
            assert(s[i] == version[i]);
        } else if version.len() < i < version.len() + 1 + d.len() {
            assert(s[i] == d[i - version.len() - 1]);
        } else if i > version.len() + 1 + d.len() {
            assert(s[i] == reason[i - version.len() - d.len() - 2]);
        }
    }
}

/// The bytes of a response with these headers and this body.
pub open spec fn reply_bytes(
    first: Seq<char>,
    h: Seq<(Seq<char>, Seq<char>)>,
    body: Seq<u8>,
) -> Seq<u8> {
    encode_utf8(first + "\r\n"@ + header_block(h) + "\r\n"@) + body
}

pub proof fn lemma_reply_bytes(
    first: Seq<char>,
    h: Seq<(Seq<char>, Seq<char>)>,
    body: Seq<u8>,
)
    requires
        first.len() > 0,
        one_line(first),
        forall|i: int| 0 <= i < h.len() ==> header_ok((#[trigger] h[i]).0, h[i].1),
    ensures
        ({
            let w = reply_bytes(first, h, body);
            let at = sub_find(w, blank_line(), 0);
            let l = seq![first] + lines_for(h);
            let e = Seq::<char>::empty();
            &&& at + 4 <= w.len()
            &&& at < w.len()
            &&& at >= 0
            &&& vstd::utf8::valid_utf8(w.subrange(0, at))
            &&& split_crlf(decode_utf8(w.subrange(0, at))) == l
            &&& vstd::utf8::valid_utf8(w.subrange(0, at + 4))
            &&& split_crlf(decode_utf8(w.subrange(0, at + 4))) == l.push(e).push(e)
            &&& w.subrange(at + 4, w.len() as int) == body
        }),
{
    let l = seq![first] + lines_for(h);
    let e = Seq::<char>::empty();
    let w = reply_bytes(first, h, body);
    let j = joined_lines(l);
    lemma_block_lines(first, h);
    lemma_crlf_bytes();
    let text = first + "\r\n"@ + header_block(h) + "\r\n"@;
    assert(text == j + "\r\n"@ + "\r\n"@);
    lemma_encode_joins(j + "\r\n"@, "\r\n"@);
    lemma_encode_joins(j, "\r\n"@);
    let b = encode_utf8(j);
    assert(w =~= b + blank_line() + body);
    assert forall|i: int| 0 <= i < l.len() implies (#[trigger] l[i]).len() > 0 && one_line(
        l[i],
    ) by {
        if i > 0 {
            assert(l[i] == line_of(h[i - 1]));
            lemma_header_line(h[i - 1]);
        }
    }
    law_blocks_read_back(l, body);
    let at = b.len() as int;
    assert(w.subrange(0, at + 4) =~= encode_utf8(text));
    encode_utf8_valid_utf8(text);
    encode_utf8_decode_utf8(text);
    encode_utf8_decode_utf8(j);
    lemma_crlf_more(j, e);
    lemma_crlf_more(j + "\r\n"@, e);
    assert(j + "\r\n"@ + e =~= j + "\r\n"@);
    assert(j + "\r\n"@ + "\r\n"@ + e =~= j + "\r\n"@ + "\r\n"@);
    assert(w.subrange(at + 4, w.len() as int) =~= body);
}

/// A response of an upstream is read as it was written: its status, its headers behind the
/// name of the server, and its body, whose length is the announced one.
pub proof fn law_replies_read_back(
    version: Seq<char>,
    status: u16,
    reason: Seq<char>,
    h: Seq<(Seq<char>, Seq<char>)>,
    n: u64,
    body: Seq<u8>,
)
    requires
        version == "HTTP/1.1"@ || version == "HTTP/1.0"@,
        100 <= status <= 599,
        one_line(reason),
        passes(h, n),
    ensures
        ({
            let w = reply_bytes(status_line(version, status, reason), h, body);
            let announced = has_header(h, "Content-Length"@);
            &&& captured_response(w) is Ok <==> !announced || n == body.len()
            &&& captured_response(w) matches Ok(r) ==> r.status == StatusCode::of_number(status)
                && r.headers == bare_response(r.status).headers + h && r.body_source
                == SourceView::Bytes(body)
            &&& upstream_head(w) matches Ok(r) && r.response.status == StatusCode::of_number(status)
                && r.response.headers == bare_response(r.response.status).headers + h
                && r.content_length == (if announced {
                Some(n)
            } else {
                None
            }) && (r.no_body <==> status < 200 || status == 204 || status == 304)
        }),
{
    let first = status_line(version, status, reason);
    let e = Seq::<char>::empty();
    let l = seq![first] + lines_for(h);
    lemma_status_line(version, status, reason);
    lemma_reply_bytes(first, h, body);
    lemma_lines_read(h, n);
    lemma_blank_lines_do_not_count(lines_for(h));
    assert(l.subrange(1, l.len() as int) =~= lines_for(h));
    let m = l.push(e).push(e);
    assert(m.subrange(1, m.len() as int) =~= lines_for(h).push(e).push(e));
    assert(m[0] == first && l[0] == first);
}

/// A client gets the response of an upstream as it came, with its status line, its headers
/// and the part of the body that came with them, and is told that the connection closes.
pub proof fn law_replies_are_relayed(
    s: UpstreamRelayView,
    version: Seq<char>,
    status: u16,
    reason: Seq<char>,
    h: Seq<(Seq<char>, Seq<char>)>,
    n: u64,
    body: Seq<u8>,
    fresh: Gzip,
)
    requires
        s.phase is Head,
        s.buffer.len() == 0,
        !s.head,
        !s.accept_gzip,
        version == "HTTP/1.1"@ || version == "HTTP/1.0"@,
        100 <= status <= 599,
        one_line(reason),
        passes(h, n),
        has_header(h, "Content-Length"@) ==> body.len() <= n,
    ensures
        ({
            let first = status_line(version, status, reason);
            let r = on_upstream(s, reply_bytes(first, h, body), fresh);
            let whole = has_header(h, "Content-Length"@) && body.len() == n;
            &&& r.output == encode_utf8(
                first + "\r\n"@ + header_block(h) + "Connection: close\r\n\r\n"@,
            ) + body
            &&& whole <==> r.progress is Done
            &&& !whole <==> r.progress is More
            &&& r.state.reusable <==> version == "HTTP/1.1"@ && has_header(h, "Content-Length"@)
            &&& r.state.phase == (if has_header(h, "Content-Length"@) {
                Phase::Fixed((n - body.len()) as u64)
            } else {
                Phase::Open
            })
        }),
{
    reveal_strlit("HTTP/1.1");
    reveal_strlit("HTTP/1.0");
    assert("HTTP/1.1"@[7] == '1' && "HTTP/1.0"@[7] == '0');
    let first = status_line(version, status, reason);
    let e = Seq::<char>::empty();
    let l = seq![first] + lines_for(h);
    lemma_status_line(version, status, reason);
    lemma_reply_bytes(first, h, body);
    lemma_lines_read(h, n);
    lemma_blank_lines_do_not_count(lines_for(h));
    let m = l.push(e).push(e);
    assert(m.subrange(1, m.len() as int) =~= lines_for(h).push(e).push(e));
    assert(m[0] == first);
    let w = reply_bytes(first, h, body);
    assert(s.buffer + w =~= w);
    assert(w.len() > 0);
    assert(body.subrange(0, body.len() as int) =~= body);
}

proof fn lemma_header_lines(h: Seq<(Seq<char>, Seq<char>)>)
    ensures
        header_lines(h, false) == header_block(h),
    decreases h.len(),
{
    if h.len() > 0 {
        lemma_header_lines(h.drop_last());
    }
}

/// The head of a response whose length is known is its status, its headers in their order
/// and whether the connection stays open: a client that reads it gets the response back.
pub proof fn law_heads_carry_the_response(r: ResponseView, n: u64, body: Seq<u8>)
    requires
        !(r.body_source is GzipFile),
        passes(r.headers, n),
        one_line(r.status.phrase()),
        has_header(r.headers, "Content-Length"@) ==> n == body.len(),
    ensures
        ({
            let w = encode_utf8(response_head(r)) + body;
            let keep = if r.close_connection {
                "close"@
            } else {
                "keep-alive"@
            };
            &&& response_head(r) == status_line("HTTP/1.1"@, r.status.number(), r.status.phrase())
                + "\r\n"@ + header_block(r.headers.push(("Connection"@, keep))) + "\r\n"@
            &&& captured_response(w) matches Ok(q) && q.status == r.status && q.headers
                == bare_response(r.status).headers + r.headers && q.body_source
                == SourceView::Bytes(body)
        }),
{
    reveal_strlit("HTTP/1.1 ");
    reveal_strlit("HTTP/1.1");
    reveal_strlit(" ");
    assert("HTTP/1.1 "@ =~= "HTTP/1.1"@ + seq![' ']);
    assert(" "@ =~= seq![' ']);
    reveal_strlit("Connection: close\r\n");
    reveal_strlit("Connection: keep-alive\r\n");
    reveal_strlit("Connection");
    reveal_strlit("keep-alive");
    reveal_strlit("close");
    reveal_strlit(": ");
    reveal_strlit("\r\n");
    let keep = if r.close_connection {
        "close"@
    } else {
        "keep-alive"@
    };
    let p = ("Connection"@, keep);
    let g = r.headers.push(p);
    assert("Connection: close\r\n"@ =~= "Connection"@ + ": "@ + "close"@ + "\r\n"@);
    assert("Connection: keep-alive\r\n"@ =~= "Connection"@ + ": "@ + "keep-alive"@ + "\r\n"@);
    let first = status_line("HTTP/1.1"@, r.status.number(), r.status.phrase());
    lemma_connection_names();
    assert(!has_header(r.headers, "Connection"@)) by {
        assert forall|i: int| 0 <= i < r.headers.len() implies !same_name(
            (#[trigger] r.headers[i]).0,
            "Connection"@,
        ) by {
            assert(!is_hop_by_hop(r.headers[i].0));
        }
    }
    lemma_header_lines(r.headers);
    crate::laws::heads::lemma_one_header(r.headers, p);
    let d = decimal(r.status.number() as nat);
    assert(first =~= "HTTP/1.1 "@ + d + " "@ + r.status.phrase());
    let e = Seq::<char>::empty();
    let closing = line_of(p) + "\r\n"@;
    assert(response_head(r) =~= first + "\r\n"@ + (header_block(r.headers) + closing) + "\r\n"@);
    assert(header_block(g) =~= header_block(r.headers) + closing);
    lemma_status_line("HTTP/1.1"@, r.status.number(), r.status.phrase());
    assert forall|i: int| 0 <= i < g.len() implies header_ok((#[trigger] g[i]).0, g[i].1) by {
        if i < r.headers.len() {
            assert(g[i] == r.headers[i]);
        }
    }
    lemma_reply_bytes(first, g, body);
    lemma_lines_read(r.headers, n);
    let l = lines_for(g);
    assert(l.drop_last() =~= lines_for(r.headers));
    assert(l.last() == line_of(p));
    lemma_header_line(p);
    lemma_name_trimmed(p);
    let m = seq![first] + l;
    assert(m.subrange(1, m.len() as int) =~= l);
    assert(m[0] == first);
    law_status_numbers_round_trip(r.status);
}

/// Headers that a script may set: well formed, without outer blanks, none that frames the
/// response or gives its status, and each length that is announced is `n`.
pub open spec fn script_sets(h: Seq<(Seq<char>, Seq<char>)>, n: u64) -> bool {
    forall|i: int|
        0 <= i < h.len() ==> header_ok((#[trigger] h[i]).0, h[i].1) && !frames_response(h[i].0)
            && !same_name(h[i].0, "Status"@) && trim(h[i].1) == h[i].1 && (same_name(
            h[i].0,
            "Content-Length"@,
        ) ==> h[i].1 == decimal(n as nat))
}

proof fn lemma_cgi_read(first: Seq<char>, status: u16, h: Seq<(Seq<char>, Seq<char>)>, n: u64)
    requires
        script_sets(h, n),
        cgi_lines(seq![first]) == Ok::<_, FaultView>(
            CgiHeadView { status, headers: Seq::empty(), content_length: None },
        ),
    ensures
        cgi_lines(seq![first] + lines_for(h)) == Ok::<_, FaultView>(
            CgiHeadView {
                status,
                headers: h,
                content_length: if has_header(h, "Content-Length"@) {
                    Some(n)
                } else {
                    None
                },
            },
        ),
    decreases h.len(),
{
    let l = seq![first] + lines_for(h);
    if h.len() == 0 {
        assert(l =~= seq![first]);
        assert(h =~= Seq::<(Seq<char>, Seq<char>)>::empty());
        assert(!has_header(h, "Content-Length"@));
    } else {
        let t = h.drop_last();
        assert forall|i: int| 0 <= i < t.len() implies header_ok((#[trigger] t[i]).0, t[i].1)
            && !frames_response(t[i].0) && !same_name(t[i].0, "Status"@) && trim(t[i].1) == t[i].1
            && (same_name(t[i].0, "Content-Length"@) ==> t[i].1 == decimal(n as nat)) by {
            assert(t[i] == h[i]);
        }
        lemma_cgi_read(first, status, t, n);
        assert(l.drop_last() =~= seq![first] + lines_for(t));
        let p = h[h.len() - 1];
        assert(l.last() == line_of(p));
        lemma_header_line(p);
        lemma_name_trimmed(p);
        law_decimal_reads_back(n as nat, u64::MAX as nat);
        assert(t.push(p) =~= h);
        if has_header(h, "Content-Length"@) {
            let i = choose|i: int|
                0 <= i < h.len() && same_name((#[trigger] h[i]).0, "Content-Length"@);
            if i < t.len() {
                assert(same_name(t[i].0, "Content-Length"@));
            }
        }
        if has_header(t, "Content-Length"@) {
            let i = choose|i: int|
                0 <= i < t.len() && same_name((#[trigger] t[i]).0, "Content-Length"@);
            assert(same_name(h[i].0, "Content-Length"@));
        }
        if same_name(p.0, "Content-Length"@) {
            assert(same_name(h[h.len() - 1].0, "Content-Length"@));
        }
    }
}

/// The head of a script gives the status that it names and the headers that it sets, in
/// their order, and the client gets both.
pub proof fn law_script_heads_read_back(
    status: u16,
    reason: Seq<char>,
    h: Seq<(Seq<char>, Seq<char>)>,
    n: u64,
)
    requires
        100 <= status <= 599,
        unspaced(reason),
        reason.len() > 0,
        crate::config::scan::header_value_ok(reason),
        script_sets(h, n),
    ensures
        ({
            let w = reply_bytes(
                line_of(("Status"@, decimal(status as nat) + seq![' '] + reason)),
                h,
                Seq::empty(),
            );
            &&& cgi_head(w) matches Ok(q) && q.status == status && q.headers == h
                && q.content_length == (if has_header(h, "Content-Length"@) {
                Some(n)
            } else {
                None
            }) && response_of(q).status == StatusCode::of_number(status) && response_of(q).headers
                == bare_response(StatusCode::of_number(status)).headers + h
        }),
{
    reveal_strlit("Status");
    reveal_strlit("Content-Length");
    reveal_strlit("transfer-encoding");
    reveal_strlit("connection");
    reveal_strlit("keep-alive");
    reveal_strlit("proxy-connection");
    reveal_strlit("upgrade");
    law_names_are_compared_without_case("Status"@, "transfer-encoding"@);
    law_names_are_compared_without_case("Status"@, "connection"@);
    law_names_are_compared_without_case("Status"@, "keep-alive"@);
    law_names_are_compared_without_case("Status"@, "proxy-connection"@);
    law_names_are_compared_without_case("Status"@, "upgrade"@);
    let d = decimal(status as nat);
    let v = d + seq![' '] + reason;
    let p = ("Status"@, v);
    let first = line_of(p);
    let e = Seq::<char>::empty();
    lemma_decimal_is_digits(status as nat);
    law_decimal_reads_back(status as nat, u16::MAX as nat);
    assert(header_ok(p.0, p.1)) by {
        assert forall|i: int| 0 <= i < v.len() implies #[trigger] v[i] != '\r' && v[i] != '\n'
            && v[i] != '\0' by {
            if i < d.len() {
                assert(v[i] == d[i]);
                assert(is_digit(d[i]));
            } else if i > d.len() {
                assert(v[i] == reason[i - d.len() - 1]);
            }
        }
    }
    lemma_header_line(p);
    lemma_name_trimmed(p);
    assert(v[0] == d[0] && v.last() == reason[reason.len() - 1]);
    crate::laws::texts::lemma_trim_is(v);
    crate::laws::texts::lemma_one_word(d);
    crate::laws::texts::lemma_words_more(d, reason);
    assert(words(v)[0] == d);
    let one = seq![first];
    assert(one.drop_last() =~= Seq::<Seq<char>>::empty());
    assert(one.last() == first);
    let none = CgiHeadView { status: 200, headers: Seq::empty(), content_length: None };
    assert(cgi_lines(one.drop_last()) == Ok::<_, FaultView>(none));
    assert(cgi_lines(one) == cgi_line(none, first));
    lemma_cgi_read(first, status, h, n);
    lemma_reply_bytes(first, h, Seq::empty());
    lemma_blank_lines_do_not_count(one + lines_for(h));
    let w = reply_bytes(first, h, Seq::empty());
    let at = sub_find(w, blank_line(), 0);
    assert(w.subrange(at + 4, w.len() as int).len() == 0);
    assert(w.subrange(0, at + 4) =~= w);
}

} // verus!
