//! Connections of clients and what is written down of their requests.

use crate::config::ip::IpAddr;
use crate::config::types::{DirView, ServerView};
use crate::laws::heads::{has_room, law_heads_read_back, writable, written_head};
use crate::laws::texts::{
    lemma_decimal_is_digits, lemma_one_word, lemma_trim_unspaced, lemma_uncut, lemma_words_more,
    unspaced,
};
use crate::router::handler::{access_line, handled, FactsView};
use crate::router::vhost::settings_for;
use crate::server::dispatch::{body_target_of, sniffed, Sniff};
use crate::server::http::{
    header_value, keeps_alive, list_has, method_text, with_body_bytes, RequestView, StatusCode,
};
use crate::server::http2::connection::CLIENT_PREFACE;
use crate::server::response::{ResponseView, SourceView};
use crate::server::session::{
    after_read, next_action, opening_of, ActionView, ClientEvent, SessionView,
};
use crate::text::{decimal, has_char, is_space, same_name, split, trim, upper, words};
use vstd::prelude::*;
use vstd::utf8::encode_utf8;

verus! {

/// A request whose head and body have come in is served as it was sent: its method, its
/// target, its headers and exactly the bytes of its body. What follows it stays for the
/// next one. Until all of the body has come the server goes on reading.
pub proof fn law_requests_are_served_as_sent(
    s: SessionView,
    method: Seq<char>,
    target: Seq<char>,
    h: Seq<(Seq<char>, Seq<char>)>,
    host: int,
    length: int,
    n: nat,
    rest: Seq<u8>,
    c: ServerView,
)
    requires
        s.buffer == encode_utf8(written_head(method, target, h)) + rest,
        writable(method, target, h),
        has_room(c, written_head(method, target, h), h.len()),
        forall|i: int| 0 <= i < h.len() ==> trim((#[trigger] h[i]).1) == h[i].1,
        0 <= host < h.len(),
        forall|i: int| 0 <= i < h.len() ==> (same_name((#[trigger] h[i]).0, "Host"@) <==> i == host),
        h[host].1.len() > 0,
        0 <= length <= h.len(),
        forall|i: int|
            0 <= i < h.len() ==> (same_name((#[trigger] h[i]).0, "Content-Length"@) <==> i
                == length),
        length < h.len() ==> h[length].1 == decimal(n),
        length == h.len() ==> n == 0,
        n <= c.max_request_size,
        c.proxy_routes.len() == 0,
        c.fastcgi_routes.len() == 0,
    ensures
        match next_action(s, c).1 {
            ActionView::Serve(t, q, last) => n <= rest.len() && method_text(q.method) == upper(
                method,
            ) && q.uri == target && q.headers == h && q.body == rest.subrange(0, n as int)
                && next_action(s, c).0.buffer == rest.subrange(n as int, rest.len() as int) && (last
                <==> s.requests + 1 >= c.max_requests_per_connection || s.requests == usize::MAX
                || !keeps_alive("HTTP/1.1"@, h)),
            ActionView::Read => n > rest.len() && next_action(s, c).0 == s,
            _ => false,
        },
{
    law_heads_read_back(method, target, h, host, length, n, rest, c);
    let b = encode_utf8(written_head(method, target, h));
    let q = crate::server::http::request_head(s.buffer, c)->Ok_0->Some_0;
    let x = with_body_bytes(q, Seq::empty());
    let d = settings_for(c, x);
    assert(d.proxy_routes == c.proxy_routes && d.fastcgi_routes == c.fastcgi_routes);
    assert(body_target_of(x, d) is None);
    if n <= rest.len() {
        let k = b.len() as int;
        assert(s.buffer.subrange(k, k + n) =~= rest.subrange(0, n as int));
        assert(s.buffer.subrange(k + n, s.buffer.len() as int) =~= rest.subrange(
            n as int,
            rest.len() as int,
        ));
        if s.requests == usize::MAX {
            assert(c.max_requests_per_connection <= usize::MAX);
        }
    }
}

/// A connection stays open as its client asks: `close` ends it, `keep-alive` keeps it, and
/// without either HTTP/1.1 keeps it and any other version does not.
pub proof fn law_clients_decide_how_long_a_connection_lives(
    version: Seq<char>,
    h: Seq<(Seq<char>, Seq<char>)>,
    word: Seq<char>,
)
    requires
        unspaced(word),
        !has_char(word, ','),
    ensures
        header_value(h, "Connection"@) is None ==> (keeps_alive(version, h) <==> version
            == "HTTP/1.1"@),
        header_value(h, "Connection"@) == Some(word) && same_name(word, "close"@) ==> !keeps_alive(
            version,
            h,
        ),
        header_value(h, "Connection"@) == Some(word) && same_name(word, "keep-alive"@)
            ==> keeps_alive(version, h),
        header_value(h, "Connection"@) == Some(word) && !same_name(word, "close"@) && !same_name(
            word,
            "keep-alive"@,
        ) ==> (keeps_alive(version, h) <==> version == "HTTP/1.1"@),
{
    reveal_strlit("close");
    reveal_strlit("keep-alive");
    lemma_trim_unspaced(word);
    lemma_uncut(word, ',');
    let p = split(word, ',');
    assert(p =~= seq![word]);
    assert(same_name(word, "close"@) ==> list_has(word, "close"@)) by {
        if same_name(word, "close"@) {
            assert(same_name(trim(split(word, ',')[0]), "close"@));
        }
    }
    assert(same_name(word, "keep-alive"@) ==> list_has(word, "keep-alive"@)) by {
        if same_name(word, "keep-alive"@) {
            assert(same_name(trim(split(word, ',')[0]), "keep-alive"@));
        }
    }
    assert("close"@.len() == 5 && "keep-alive"@.len() == 10);
    crate::laws::headers::law_names_are_compared_without_case(word, "close"@);
    crate::laws::headers::law_names_are_compared_without_case(word, "keep-alive"@);
}

/// A connection speaks HTTP/2 exactly where it begins with the preface of the standard,
/// the text `PRI * HTTP/2.0`, a blank line, `SM` and another blank line.
pub proof fn law_http2_begins_with_its_preface(more: Seq<u8>)
    ensures
        sniffed(encode_utf8("PRI * HTTP/2.0\r\n\r\nSM\r\n\r\n"@) + more) == Sniff::Http2,
{
    reveal_strlit("PRI * HTTP/2.0\r\n\r\nSM\r\n\r\n");
    let t = "PRI * HTTP/2.0\r\n\r\nSM\r\n\r\n"@;
    let p = CLIENT_PREFACE@;
    assert(vstd::utf8::is_ascii_chars(t));
    vstd::utf8::is_ascii_chars_encode_utf8(t);
    let b = encode_utf8(t);
    assert(b.len() == 24);
    assert(p.len() == 24);
    assert forall|i: int| 0 <= i < 24 implies b[i] == p[i] by {
        assert(t[i] as u8 == b[i]);
    }
    assert(b =~= p);
    let w = b + more;
    assert(w.subrange(0, 24) =~= p);
}

/// The metrics are given under their own path, whatever the rules and the files are.
pub proof fn law_metrics_are_answered(
    req: RequestView,
    peer: Option<IpAddr>,
    c: ServerView,
    d: DirView,
    f: FactsView,
    metrics: Seq<char>,
)
    requires
        req.uri == "/metrics"@,
        !(req.method is Head),
    ensures
        handled(req, peer, true, c, d, f, metrics).status == StatusCode::Okay,
        handled(req, peer, true, c, d, f, metrics).body_source == SourceView::Bytes(
            encode_utf8(metrics),
        ),
{
    reveal_strlit("/metrics");
    assert(!has_char("/metrics"@, '?'));
    lemma_uncut("/metrics"@, '?');
}

/// A client that asks too often is told so and when to come back.
pub proof fn law_hasty_clients_are_held_off(
    req: RequestView,
    peer: IpAddr,
    c: ServerView,
    d: DirView,
    f: FactsView,
    metrics: Seq<char>,
)
    ensures
        handled(req, Some(peer), false, c, d, f, metrics).status == StatusCode::TooManyRequests,
        handled(req, Some(peer), false, c, d, f, metrics).headers.contains(
            ("Retry-After"@, "1"@),
        ),
{
    let r = crate::router::handler::too_many();
    assert(r.headers[1] == ("Retry-After"@, "1"@));
    crate::router::negotiate::law_security_headers_override_nothing(r.headers, c);
    assert(crate::router::negotiate::secured(r.headers, c)[1] == ("Retry-After"@, "1"@));
}

/// A word of a log line: no white space and no quote.
pub open spec fn log_word(s: Seq<char>) -> bool {
    s.len() > 0 && forall|i: int| 0 <= i < s.len() ==> !is_space(#[trigger] s[i]) && s[i] != '"'
}

/// A line of the access log says, word by word, who asked, with which method, for what and
/// in which version, how it was answered, with how many bytes, and how long it took.
pub proof fn law_log_lines_read_back(
    peer: Seq<char>,
    req: RequestView,
    r: ResponseView,
    millis: Seq<char>,
)
    requires
        log_word(peer),
        log_word(method_text(req.method)),
        log_word(req.uri),
        log_word(req.version),
        log_word(millis),
        req.method is Get,
    ensures
        words(access_line(false, peer, req, r, millis)) == seq![
            "[INFO]"@,
            peer,
            "\""@ + method_text(req.method),
            req.uri,
            req.version + "\""@,
            decimal(r.status.number() as nat),
            decimal(crate::server::response::source_len(r.body_source) as nat),
            millis + "ms"@,
        ],
{
    reveal_strlit("[INFO] ");
    reveal_strlit("[INFO]");
    reveal_strlit(" \"");
    reveal_strlit("\"");
    reveal_strlit(" ");
    reveal_strlit("\" ");
    reveal_strlit("ms\n");
    reveal_strlit("ms");
    let m = method_text(req.method);
    let status = decimal(r.status.number() as nat);
    let n = decimal(crate::server::response::source_len(r.body_source) as nat);
    lemma_decimal_is_digits(r.status.number() as nat);
    lemma_decimal_is_digits(crate::server::response::source_len(r.body_source) as nat);
    let w0 = "[INFO]"@;
    let w2 = "\""@ + m;
    let w4 = req.version + "\""@;
    let w7 = millis + "ms"@;
    assert(unspaced(w0));
    assert(unspaced(w2)) by {
        assert forall|i: int| 0 <= i < w2.len() implies !is_space(#[trigger] w2[i]) by {
            if i > 0 {
                assert(w2[i] == m[i - 1]);
            }
        }
    }
    assert(unspaced(w4)) by {
        assert forall|i: int| 0 <= i < w4.len() implies !is_space(#[trigger] w4[i]) by {
            if i < req.version.len() {
                assert(w4[i] == req.version[i]);
            }
        }
    }
    assert(unspaced(w7)) by {
        assert forall|i: int| 0 <= i < w7.len() implies !is_space(#[trigger] w7[i]) by {
            if i < millis.len() {
                assert(w7[i] == millis[i]);
            }
        }
    }
    let b = seq![' '];
    let t0 = w0;
    let t1 = t0 + b + peer;
    let t2 = t1 + b + w2;
    let t3 = t2 + b + req.uri;
    let t4 = t3 + b + w4;
    let t5 = t4 + b + status;
    let t6 = t5 + b + n;
    let t7 = t6 + b + w7;
    lemma_one_word(w0);
    lemma_words_more(t0, peer);
    lemma_words_more(t1, w2);
    lemma_words_more(t2, req.uri);
    lemma_words_more(t3, w4);
    lemma_words_more(t4, status);
    lemma_words_more(t5, n);
    lemma_words_more(t6, w7);
    lemma_line_end(t7);
    let a1 = "[INFO] "@ + peer;
    assert(a1 =~= t1);
    let a2 = a1 + " \""@ + m;
    assert(a2 =~= t2);
    let a3 = a2 + " "@ + req.uri;
    assert(a3 =~= t3);
    let a4 = a3 + " "@ + req.version + "\" "@;
    assert(a4 =~= t4 + b);
    let a5 = a4 + status;
    assert(a5 =~= t5);
    let a6 = a5 + " "@ + n;
    assert(a6 =~= t6);
    let a7 = a6 + " "@ + millis + "ms\n"@;
    assert(a7 =~= t7.push('\n'));
    assert(access_line(false, peer, req, r, millis) =~= a7);
    assert(words(t7) =~= seq![w0, peer, w2, req.uri, w4, status, n, w7]);
}

proof fn lemma_line_end(s: Seq<char>)
    ensures
        words(s.push('\n')) == words(s),
{
    assert(s.push('\n').drop_last() =~= s);
    assert(is_space('\n'));
}

/// A connection is HTTP/1 where HTTP/2 is off. A client that leaves or breaks off is let go.
/// A slow client is waited for while its bytes can still become either, and is taken for
/// one of HTTP/1 when it is late.
pub proof fn law_openings_tell_the_protocols_apart(
    b: Seq<u8>,
    event: ClientEvent,
    http2: bool,
    late: bool,
)
    ensures
        event is Closed || event is Broken ==> opening_of(b, event, http2, late) is Close,
        event is Data && !http2 ==> opening_of(b, event, http2, late) is Http1,
        event is Data && http2 && sniffed(b) is Http2 ==> opening_of(b, event, http2, late)
            is Http2,
        event is Data && http2 && sniffed(b) is Http1 ==> opening_of(b, event, http2, late)
            is Http1,
        event is Data && http2 && sniffed(b) is More ==> (if late {
            opening_of(b, event, http2, late) is Http1
        } else {
            opening_of(b, event, http2, late) is Read
        }),
        event is Timeout && http2 ==> (if late {
            opening_of(b, event, http2, late) is Http1
        } else {
            opening_of(b, event, http2, late) is Read
        }),
        event is Timeout && !http2 ==> opening_of(b, event, http2, late) is Close,
{
}

/// What a client sends is put behind what has come before. A client that falls silent in the
/// middle of a request is told so; one that says nothing, leaves or breaks off is let go.
pub proof fn law_reads_are_put_together(s: SessionView, event: ClientEvent)
    ensures
        ({
            let (t, a) = after_read(s, event);
            &&& event matches ClientEvent::Data(d) ==> a is None && t.buffer == s.buffer + d@
            &&& !(event is Data) ==> t == s && a is Some
            &&& event is Timeout && s.buffer.len() > 0 ==> (a matches Some(ActionView::Answer(r))
                && r.status.number() == 408 && r.close_connection)
            &&& event is Timeout && s.buffer.len() == 0 ==> a == Some(ActionView::Close)
            &&& event is Closed || event is Broken ==> a == Some(ActionView::Close)
        }),
{
}

} // verus!
