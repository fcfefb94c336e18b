//! Where a request goes.

use crate::config::scan::rfind;
use crate::config::types::ServerView;
use crate::laws::headers::law_names_are_compared_without_case;
use crate::laws::heads::{
    has_room, lemma_head_fits, lemma_no_values, lemma_one_value, lemma_written_head, line_of,
    trimmed, written_head,
};
use crate::laws::replies::{
    lemma_connection_names, lemma_lines_read, lemma_name_trimmed, lemma_reply_bytes,
    lemma_status_line, passes, reply_bytes, status_line,
};
use crate::laws::texts::{
    lemma_cut, lemma_decimal_is_digits, lemma_trim_is, lemma_trim_unspaced, lemma_uncut, one_line,
};
use crate::laws::wire::lemma_scalar_bytes;
use crate::router::path::plain_name;
use crate::router::vhost::host_name;
use crate::server::dispatch::{target_of, Target};
use crate::server::fastcgi::{
    client_head, phrase_of, route_fits, route_host, script_name, unescaped,
};
use crate::server::fault::FaultView;
use crate::server::http::{header_value, request_head, RequestView, StatusCode};
use crate::server::proxy::{asked_host, past_last, proxy_fits, proxy_host, some_proxy_fits};
use crate::server::proxy_head::captured_response;
use crate::server::record::CgiHeadView;
use crate::server::response::{bare_response, has_header, SourceView};
use crate::server::upstream::{header_block, header_ok};
use crate::server::websocket::{
    going_along, goes_along, line_named, upgrade_objection, upgrade_request,
};
use crate::text::{
    before, decimal, has_char, is_digit, is_space, law_decimal_reads_back, lower, same_name, split,
    split_crlf, starts_with, strip_lead, trim,
};
use vstd::prelude::*;
use vstd::utf8::{encode_scalar, encode_utf8, encode_utf8_decode_utf8, encode_utf8_valid_utf8};

verus! {

/// A host name that needs no brackets: visible characters, no colon.
pub open spec fn plain_host(s: Seq<char>) -> bool {
    s.len() > 0 && s[0] != '[' && forall|i: int|
        0 <= i < s.len() ==> !is_space(#[trigger] s[i]) && s[i] as u32 > 32 && s[i] as u32 != 127
            && s[i] != ':'
}

proof fn lemma_past_last(s: Seq<char>, c: char, k: int)
    requires
        0 <= k <= s.len(),
        k > 0 ==> s[k - 1] == c,
        forall|i: int| k <= i < s.len() ==> s[i] != c,
    ensures
        past_last(s, c) == k,
        rfind(s, c) == k - 1,
    decreases s.len(),
{
    if s.len() > k {
        assert(s[s.len() - 1] != c);
        lemma_past_last(s.drop_last(), c, k);
    }
}

proof fn lemma_lower_plain(c: char)
    ensures
        ({
            let d = crate::text::lower_char(c);
            &&& is_space(d) <==> is_space(c)
            &&& d == ':' <==> c == ':'
            &&& d == '[' <==> c == '['
            &&& d as u32 > 32 <==> c as u32 > 32
            &&& d as u32 == 127 <==> c as u32 == 127
        }),
{
    if crate::text::is_upper(c) {
        assert(crate::text::lower_char(c) as u32 == c as u32 + 32);
    }
}

/// The host of a request is the name that its `Host` header gives, in small letters and
/// without a port; routes to upstreams and to responders and virtual hosts all go by it.
pub proof fn law_hosts_are_read_without_ports(req: RequestView, name: Seq<char>, port: u16)
    requires
        plain_host(name),
        header_value(req.headers, "Host"@) == Some(name) || header_value(req.headers, "Host"@)
            == Some(name + seq![':'] + decimal(port as nat)),
    ensures
        asked_host(req) == Some(lower(name)),
        proxy_host(req) == lower(name),
        route_host(req) == lower(name),
        host_name(header_value(req.headers, "Host"@).unwrap()) == Some(lower(name)),
{
    let d = decimal(port as nat);
    let v = header_value(req.headers, "Host"@).unwrap();
    let n = lower(name);
    lemma_decimal_is_digits(port as nat);
    law_decimal_reads_back(port as nat, u16::MAX as nat);
    assert forall|i: int| 0 <= i < v.len() implies !is_space(#[trigger] v[i]) && v[i] as u32 > 32
        && v[i] as u32 != 127 && (i < name.len() ==> v[i] != ':' && v[i] == name[i]) by {
        if i < name.len() {
            assert(v[i] == name[i]);
        } else if i > name.len() {
            assert(v[i] == d[i - name.len() - 1]);
        }
    }
    lemma_trim_unspaced(v);
    let raw = lower(v);
    assert forall|i: int| 0 <= i < raw.len() implies #[trigger] raw[i] as u32 > 32 && raw[i] as u32
        != 127 && (i < name.len() ==> raw[i] != ':') by {
        lemma_lower_plain(v[i]);
    }
    lemma_lower_plain(name[0]);
    assert(raw[0] != '[');
    assert(raw.subrange(0, name.len() as int) =~= n);
    if v == name {
        assert(raw =~= n);
        lemma_past_last(raw, ':', 0);
        assert(!has_char(raw, ':'));
        lemma_uncut(name, ':');
    } else {
        let k = name.len() as int;
        assert(raw[k] == ':');
        assert(raw.subrange(k + 1, raw.len() as int) =~= d) by {
            assert forall|i: int| 0 <= i < d.len() implies raw[k + 1 + i] == d[i] by {
                assert(v[k + 1 + i] == d[i]);
                assert(is_digit(d[i]));
            }
        }
        assert forall|i: int| k + 1 <= i < raw.len() implies raw[i] != ':' by {
            assert(raw.subrange(k + 1, raw.len() as int)[i - k - 1] == raw[i]);
            assert(is_digit(d[i - k - 1]));
        }
        lemma_past_last(raw, ':', k + 1);
        assert(has_char(raw, ':'));
        assert(!has_char(n, ':')) by {
            assert forall|i: int| 0 <= i < n.len() implies n[i] != ':' by {
                assert(n[i] == raw[i]);
            }
        }
        lemma_cut(name, ':', d);
    }
}

/// A request goes to an upstream where a route for its host, or for every host, has a
/// prefix of its target; else to a responder where one of those does; else to the files.
pub proof fn law_routes_take_their_requests(
    req: RequestView,
    c: ServerView,
    name: Seq<char>,
    i: int,
)
    requires
        plain_host(name),
        header_value(req.headers, "Host"@) == Some(name),
    ensures
        0 <= i < c.proxy_routes.len() && (c.proxy_routes[i].host == "*"@ || c.proxy_routes[i].host
            == lower(name)) && starts_with(req.uri, c.proxy_routes[i].prefix) ==> target_of(req, c)
            == Target::Proxy,
        c.proxy_routes.len() == 0 && 0 <= i < c.fastcgi_routes.len() && (c.fastcgi_routes[i].host
            == "*"@ || c.fastcgi_routes[i].host == lower(name)) && starts_with(
            req.uri,
            c.fastcgi_routes[i].prefix,
        ) ==> target_of(req, c) == Target::FastCgi,
        (forall|j: int|
            0 <= j < c.proxy_routes.len() ==> !starts_with(
                req.uri,
                (#[trigger] c.proxy_routes[j]).prefix,
            )) && (forall|j: int|
            0 <= j < c.fastcgi_routes.len() ==> !starts_with(
                req.uri,
                (#[trigger] c.fastcgi_routes[j]).prefix,
            ) || (c.fastcgi_routes[j].host != "*"@ && c.fastcgi_routes[j].host != lower(name)))
            ==> target_of(req, c) == Target::Files,
{
    law_hosts_are_read_without_ports(req, name, 0);
    let host = lower(name);
    if 0 <= i < c.proxy_routes.len() && (c.proxy_routes[i].host == "*"@ || c.proxy_routes[i].host
        == host) && starts_with(req.uri, c.proxy_routes[i].prefix) {
        assert(proxy_fits(c.proxy_routes[i], host, req.uri));
    }
    if c.proxy_routes.len() == 0 {
        assert(!some_proxy_fits(req, c));
    }
    if 0 <= i < c.fastcgi_routes.len() && (c.fastcgi_routes[i].host == "*"@
        || c.fastcgi_routes[i].host == host) && starts_with(req.uri, c.fastcgi_routes[i].prefix) {
        assert(route_fits(c.fastcgi_routes[i], host, req.uri));
    }
}

proof fn lemma_same_code(a: char, b: char)
    ensures
        a as u32 == b as u32 ==> a == b,
{
}

proof fn lemma_absent_byte(w: Seq<char>, c: char)
    requires
        c as u32 == 37,
        !has_char(w, c),
    ensures
        forall|i: int| 0 <= i < encode_utf8(w).len() ==> #[trigger] encode_utf8(w)[i] != 37,
    decreases w.len(),
{
    if w.len() > 0 {
        let t = w.drop_first();
        assert forall|i: int| 0 <= i < t.len() implies t[i] != c by {
            assert(t[i] == w[i + 1]);
        }
        lemma_absent_byte(t, c);
        lemma_scalar_bytes(w[0] as u32);
        let x = encode_scalar(w[0] as u32);
        let b = encode_utf8(w);
        lemma_same_code(w[0], c);
        assert(w[0] != c);
        assert forall|i: int| 0 <= i < b.len() implies #[trigger] b[i] != 37 by {
            if i < x.len() {
                assert(b[i] == x[i]);
            } else {
                assert(b[i] == encode_utf8(t)[i - x.len()]);
            }
        }
    }
}

proof fn lemma_nothing_escaped(b: Seq<u8>)
    requires
        forall|i: int| 0 <= i < b.len() ==> #[trigger] b[i] != 37,
    ensures
        unescaped(b) == Some(b),
    decreases b.len(),
{
    if b.len() > 0 {
        let t = b.subrange(1, b.len() as int);
        assert forall|i: int| 0 <= i < t.len() implies #[trigger] t[i] != 37 by {
            assert(t[i] == b[i + 1]);
        }
        lemma_nothing_escaped(t);
        assert(b[0] != 37);
        assert(seq![b[0]] + t =~= b);
    }
}

/// The script of a request is the file that its path names below the root, whatever query
/// follows.
pub proof fn law_scripts_are_named_by_the_path(
    path: Seq<char>,
    query: Seq<char>,
)
    requires
        path.len() > 0,
        path[0] != '/',
        !has_char(path, '%'),
        !has_char(path, '?'),
        forall|i: int| 0 <= i < split(path, '/').len() ==> plain_name(#[trigger] split(path, '/')[i]),
    ensures
        script_name(seq!['/'] + path) == Ok::<_, FaultView>(path),
        script_name(seq!['/'] + path + seq!['?'] + query) == Ok::<_, FaultView>(path),
{
    let u = seq!['/'] + path;
    assert forall|i: int| 0 <= i < u.len() implies u[i] != '?' && u[i] != '%' by {
        if i > 0 {
            assert(u[i] == path[i - 1]);
        }
    }
    assert(!has_char(u, '?') && !has_char(u, '%'));
    lemma_uncut(u, '?');
    lemma_cut(u, '?', query);
    lemma_absent_byte(u, '%');
    lemma_nothing_escaped(encode_utf8(u));
    encode_utf8_valid_utf8(u);
    encode_utf8_decode_utf8(u);
    assert(u.subrange(1, u.len() as int) =~= path);
    assert(strip_lead(path, '/') == path);
    assert(strip_lead(u, '/') == path);
}

/// A client gets the status and the headers that a script gave, and behind them the body.
pub proof fn law_script_responses_reach_the_client(h: CgiHeadView, n: u64, body: Seq<u8>)
    requires
        100 <= h.status <= 599,
        passes(h.headers, n),
        has_header(h.headers, "Content-Length"@) ==> n == body.len(),
    ensures
        captured_response(encode_utf8(client_head(h, false)) + body) matches Ok(q) && q.status
            == StatusCode::of_number(h.status) && q.headers == bare_response(q.status).headers
            + h.headers && q.body_source == SourceView::Bytes(body),
{
    reveal_strlit("HTTP/1.1 ");
    reveal_strlit("HTTP/1.1");
    reveal_strlit(" ");
    assert("HTTP/1.1 "@ =~= "HTTP/1.1"@ + seq![' ']);
    assert(" "@ =~= seq![' ']);
    reveal_strlit("Connection: close\r\n\r\n");
    reveal_strlit("Connection");
    reveal_strlit("close");
    reveal_strlit(": ");
    reveal_strlit("\r\n");
    assert("Connection: close\r\n\r\n"@ =~= "Connection"@ + ": "@ + "close"@ + "\r\n"@ + "\r\n"@);
    let p = ("Connection"@, "close"@);
    let g = h.headers.push(p);
    let phrase = phrase_of(h.status);
    lemma_phrases(h.status);
    let first = status_line("HTTP/1.1"@, h.status, phrase);
    assert(first =~= "HTTP/1.1 "@ + decimal(h.status as nat) + " "@ + phrase);
    crate::laws::heads::lemma_one_header(h.headers, p);
    let closing = line_of(p) + "\r\n"@;
    assert(client_head(h, false) =~= first + "\r\n"@ + (header_block(h.headers) + closing)
        + "\r\n"@);
    assert(header_block(g) =~= header_block(h.headers) + closing);
    lemma_status_line("HTTP/1.1"@, h.status, phrase);
    assert forall|i: int| 0 <= i < g.len() implies header_ok((#[trigger] g[i]).0, g[i].1) by {
        if i < h.headers.len() {
            assert(g[i] == h.headers[i]);
        }
    }
    lemma_reply_bytes(first, g, body);
    lemma_lines_read(h.headers, n);
    lemma_connection_names();
    let l = crate::laws::heads::lines_for(g);
    assert(l.drop_last() =~= crate::laws::heads::lines_for(h.headers));
    assert(l.last() == line_of(p));
    crate::laws::heads::lemma_header_line(p);
    lemma_name_trimmed(p);
    let m = seq![first] + l;
    assert(m.subrange(1, m.len() as int) =~= l);
    assert(m[0] == first);
}

proof fn lemma_phrases(status: u16)
    ensures
        one_line(phrase_of(status)),
{
    reveal_strlit("OK");
    reveal_strlit("Created");
    reveal_strlit("Accepted");
    reveal_strlit("No Content");
    reveal_strlit("Moved Permanently");
    reveal_strlit("Found");
    reveal_strlit("Bad Request");
    reveal_strlit("Unauthorized");
    reveal_strlit("Forbidden");
    reveal_strlit("Not Found");
    reveal_strlit("Internal Server Error");
    reveal_strlit("Bad Gateway");
    reveal_strlit("Service Unavailable");
    reveal_strlit("Upstream Response");
}

proof fn lemma_going_along(h: Seq<(Seq<char>, Seq<char>)>)
    ensures
        forall|i: int| 0 <= i < going_along(h).len() ==> goes_along(#[trigger] going_along(h)[i]),
        forall|i: int|
            0 <= i < h.len() && goes_along(#[trigger] h[i]) ==> going_along(h).contains(h[i]),
        forall|i: int|
            0 <= i < going_along(h).len() ==> h.contains(#[trigger] going_along(h)[i]),
    decreases h.len(),
{
    if h.len() > 0 {
        let t = h.drop_last();
        lemma_going_along(t);
        let f = going_along(t);
        let g = going_along(h);
        assert forall|i: int| 0 <= i < g.len() implies goes_along(#[trigger] g[i]) && h.contains(
            g[i],
        ) by {
            if i < f.len() {
                assert(g[i] == f[i]);
                let j = choose|j: int| 0 <= j < t.len() && t[j] == f[i];
                assert(h[j] == g[i]);
            } else {
                assert(h[h.len() - 1] == g[i]);
            }
        }
        assert forall|i: int| 0 <= i < h.len() && goes_along(#[trigger] h[i]) implies g.contains(
            h[i],
        ) by {
            if i < t.len() {
                assert(t[i] == h[i]);
                let j = choose|j: int| 0 <= j < f.len() && f[j] == h[i];
                assert(g[j] == h[i]);
            } else {
                assert(g[f.len() as int] == h[i]);
            }
        }
    }
}

/// An upstream is asked for the upgrade that the client asked for: the target as it is,
/// every header that may go along, among them the key, and the words of an upgrade.
pub proof fn law_upgrades_reach_the_upstream(
    req: RequestView,
    host: int,
    more: Seq<u8>,
    c: ServerView,
)
    requires
        req.uri.len() > 0,
        crate::server::http::no_controls(req.uri),
        !has_char(req.uri, ' '),
        forall|i: int|
            0 <= i < req.headers.len() ==> !same_name(
                (#[trigger] req.headers[i]).0,
                "Content-Length"@,
            ),
        0 <= host < going_along(req.headers).len(),
        forall|i: int|
            0 <= i < going_along(req.headers).len() ==> (same_name(
                (#[trigger] going_along(req.headers)[i]).0,
                "Host"@,
            ) <==> i == host),
        trim(going_along(req.headers)[host].1).len() > 0,
        has_room(c, upgrade_request(req), going_along(req.headers).len() + 2),
    ensures
        request_head(encode_utf8(upgrade_request(req)) + more, c) matches Ok(Some(q)) && q.method
            is Get && q.uri == req.uri && q.content_length == 0 && q.headers.contains(
            ("Connection"@, "Upgrade"@),
        ) && q.headers.contains(("Upgrade"@, "websocket"@)) && (forall|i: int|
            0 <= i < req.headers.len() && goes_along(#[trigger] req.headers[i])
                ==> q.headers.contains((req.headers[i].0, trim(req.headers[i].1)))),
{
    reveal_strlit("GET ");
    reveal_strlit("GET");
    reveal_strlit(" ");
    reveal_strlit(" HTTP/1.1\r\n");
    reveal_strlit(" HTTP/1.1");
    reveal_strlit("\r\n");
    reveal_strlit("Connection: Upgrade\r\nUpgrade: websocket\r\n\r\n");
    reveal_strlit("Connection");
    reveal_strlit("Upgrade");
    reveal_strlit("websocket");
    reveal_strlit("Host");
    reveal_strlit("Content-Length");
    reveal_strlit("Transfer-Encoding");
    reveal_strlit("transfer-encoding");
    reveal_strlit(": ");
    let f = going_along(req.headers);
    let p = ("Connection"@, "Upgrade"@);
    let q = ("Upgrade"@, "websocket"@);
    let h1 = f.push(p);
    let h = h1.push(q);
    let n = f.len() as int;
    assert("GET "@ =~= "GET"@ + " "@);
    assert(" HTTP/1.1\r\n"@ =~= " HTTP/1.1"@ + "\r\n"@);
    crate::laws::heads::lemma_one_header(f, p);
    crate::laws::heads::lemma_one_header(h1, q);
    let words = line_of(p) + "\r\n"@ + line_of(q) + "\r\n"@ + "\r\n"@;
    assert("Connection: Upgrade\r\nUpgrade: websocket\r\n\r\n"@ =~= words);
    assert(header_block(h) + "\r\n"@ =~= header_block(f) + words);
    let line = "GET"@ + " "@ + req.uri + " HTTP/1.1"@ + "\r\n"@;
    assert("GET "@ + req.uri + " HTTP/1.1\r\n"@ =~= line);
    assert(line + (header_block(h) + "\r\n"@) =~= line + header_block(h) + "\r\n"@);
    assert(line + (header_block(f) + words) =~= line + header_block(f) + words);
    assert(upgrade_request(req) =~= written_head("GET"@, req.uri, h));
    lemma_going_along(req.headers);
    lemma_connection_names();
    law_names_are_compared_without_case("Transfer-Encoding"@, "transfer-encoding"@);
    law_names_are_compared_without_case("Connection"@, "Transfer-Encoding"@);
    law_names_are_compared_without_case("Upgrade"@, "Transfer-Encoding"@);
    law_names_are_compared_without_case("Connection"@, "Host"@);
    law_names_are_compared_without_case("Upgrade"@, "Host"@);
    law_names_are_compared_without_case("Connection"@, "Content-Length"@);
    law_names_are_compared_without_case("Upgrade"@, "Content-Length"@);
    assert forall|i: int| 0 <= i < h.len() implies header_ok((#[trigger] h[i]).0, h[i].1)
        && !same_name(h[i].0, "Transfer-Encoding"@) by {
        if i < n {
            assert(h[i] == f[i]);
            assert(goes_along(f[i]));
        }
    }
    lemma_written_head("GET"@, req.uri, h, more, c);
    let t = trimmed(h);
    assert forall|i: int| 0 <= i < t.len() && i != host implies !same_name(
        (#[trigger] t[i]).0,
        "Host"@,
    ) by {
        if i < n {
            assert(t[i].0 == f[i].0);
        }
    }
    assert(t[host].0 == f[host].0);
    lemma_one_value(t, "Host"@, host);
    assert forall|i: int| 0 <= i < t.len() implies !same_name(
        (#[trigger] t[i]).0,
        "Content-Length"@,
    ) by {
        if i < n {
            assert(t[i].0 == f[i].0);
            let j = choose|j: int| 0 <= j < req.headers.len() && req.headers[j] == f[i];
            assert(!same_name(req.headers[j].0, "Content-Length"@));
        }
    }
    lemma_no_values(t, "Content-Length"@);
    assert(crate::text::upper("GET"@) =~= "GET"@);
    crate::laws::heads::lemma_trim_twice(f[host].1);
    lemma_trim_is("Upgrade"@);
    lemma_trim_is("websocket"@);
    assert(t[n] == p && t[n + 1] == q);
    assert forall|i: int| 0 <= i < req.headers.len() && goes_along(#[trigger] req.headers[i]) implies t.contains(
        (req.headers[i].0, trim(req.headers[i].1)),
    ) by {
        let j = choose|j: int| 0 <= j < f.len() && f[j] == req.headers[i];
        assert(h[j] == f[j]);
        assert(t[j] == (req.headers[i].0, trim(req.headers[i].1)));
    }
    lemma_head_fits("GET"@, req.uri, h, c);
}

proof fn lemma_line_named(l: Seq<Seq<char>>, name: Seq<char>, from: int, k: int)
    requires
        0 <= from <= k < l.len(),
        has_char(l[k], ':') && same_name(before(l[k], ':'), name),
        forall|i: int|
            from <= i < k ==> !(has_char(#[trigger] l[i], ':') && same_name(
                before(l[i], ':'),
                name,
            )),
    ensures
        line_named(l, name, from) == k,
    decreases k - from,
{
    if from < k {
        assert(!(has_char(l[from], ':') && same_name(before(l[from], ':'), name)));
        lemma_line_named(l, name, from + 1, k);
    }
}

/// An upgrade is made exactly where the upstream accepts it with what the key asks for.
pub proof fn law_upgrades_need_the_right_answer(
    reason: Seq<char>,
    h: Seq<(Seq<char>, Seq<char>)>,
    k: int,
    expected: Seq<char>,
)
    requires
        one_line(reason),
        !has_char(reason, ':'),
        forall|i: int| 0 <= i < h.len() ==> header_ok((#[trigger] h[i]).0, h[i].1),
        0 <= k < h.len(),
        forall|i: int|
            0 <= i < h.len() ==> (same_name((#[trigger] h[i]).0, "Sec-WebSocket-Accept"@) <==> i
                == k),
    ensures
        upgrade_objection(
            reply_bytes(status_line("HTTP/1.1"@, 101, reason), h, Seq::empty()),
            expected,
        ) is None <==> trim(h[k].1) == expected,
{
    reveal_strlit("HTTP/1.1");
    reveal_strlit("HTTP/1.1 101 ");
    let first = status_line("HTTP/1.1"@, 101, reason);
    let d = decimal(101);
    assert(decimal(101) == seq!['1', '0', '1']) by {
        assert(decimal(1) =~= seq!['1']);
        assert(decimal(10) =~= seq!['1', '0']);
        assert(decimal(101) =~= seq!['1', '0', '1']);
    }
    lemma_status_line("HTTP/1.1"@, 101, reason);
    lemma_reply_bytes(first, h, Seq::empty());
    let w = reply_bytes(first, h, Seq::empty());
    let text = first + "\r\n"@ + header_block(h) + "\r\n"@;
    assert(w =~= encode_utf8(text));
    encode_utf8_valid_utf8(text);
    encode_utf8_decode_utf8(text);
    assert(text.subrange(0, 13) =~= "HTTP/1.1 101 "@);
    let at = crate::bytes::sub_find(w, crate::bytes::blank_line(), 0);
    assert(w.subrange(at + 4, w.len() as int).len() == 0);
    assert(w.subrange(0, at + 4) =~= w);
    let e = Seq::<char>::empty();
    let l = (seq![first] + crate::laws::heads::lines_for(h)).push(e).push(e);
    assert(split_crlf(text) == l);
    assert(!has_char(first, ':')) by {
        assert forall|i: int| 0 <= i < first.len() implies first[i] != ':' by {
            if i >= 13 {
                assert(first[i] == reason[i - 13]);
            } else {
                assert(first[i] == text[i]);
                assert(text.subrange(0, 13)[i] == text[i]);
            }
        }
    }
    assert forall|i: int| 0 <= i < k + 1 implies !(has_char(#[trigger] l[i], ':') && same_name(
        before(l[i], ':'),
        "Sec-WebSocket-Accept"@,
    )) by {
        if i > 0 {
            assert(l[i] == line_of(h[i - 1]));
            crate::laws::heads::lemma_header_line(h[i - 1]);
        }
    }
    assert(l[k + 1] == line_of(h[k]));
    crate::laws::heads::lemma_header_line(h[k]);
    lemma_line_named(l, "Sec-WebSocket-Accept"@, 0, k + 1);
}

} // verus!
