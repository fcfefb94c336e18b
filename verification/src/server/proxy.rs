//! The reverse proxy: which requests go to an upstream, and what it is sent.

use crate::bytes::part_bytes;
use crate::config::types::{pairs, views, ProxyRoute, ProxyView, ServerConfig, ServerView};
use crate::server::fault::{early_end, fault, Fault, FaultKind};
use crate::server::http::{
    header_value, list_contains, list_has, method_text, HttpRequest, Method, MethodView,
    RequestView,
};
use crate::server::record::text_or_nothing;
use crate::server::upstream::{byte_length, header_block, header_ok, hop_by_hop, is_hop_by_hop, valid_header};
use crate::text::{
    after, before, byte_len, chars_of, decimal, decimal_of, find_of, has_char, is_name, is_text,
    lower, lower_of, parse_uint, part, push_str, push_text, read_u16, same, same_name, split,
    split_of, starts_with, starts_with_str, string_of, strip_trail, strip_trail_of, strings, texts,
    trim, trim_of,
};
use vstd::prelude::*;

verus! {

/// The largest head of an upstream's response, in bytes.
pub const MAX_UPSTREAM_HEADERS: usize = 65536;

/// The most that is read from an upstream at once.
pub const IO_CHUNK: usize = 16384;

/// The position behind the last occurrence of a character, or zero.
pub open spec fn past_last(s: Seq<char>, c: char) -> int
    decreases s.len(),
{
    if s.len() == 0 {
        0
    } else if s.last() == c {
        s.len() as int
    } else {
        past_last(s.drop_last(), c)
    }
}

/// No blank and no control character.
pub open spec fn all_visible(s: Seq<char>) -> bool {
    forall|i: int| 0 <= i < s.len() ==> (#[trigger] s[i]) as u32 > 32 && s[i] as u32 != 127
}

/// The host that a request asks for: without a port, and without the brackets of an
/// address.
pub open spec fn asked_host(req: RequestView) -> Option<Seq<char>> {
    match header_value(req.headers, "Host"@) {
        None => None,
        Some(v) => {
            let raw = lower(trim(v));
            if raw.len() == 0 || !all_visible(raw) {
                None
            } else if raw[0] == '[' {
                let inner = raw.subrange(1, raw.len() as int);
                let suffix = after(inner, ']');
                if !has_char(inner, ']') {
                    None
                } else if suffix.len() > 0 && parse_uint(suffix, 65535) is None && suffix
                    != ":80"@ {
                    None
                } else {
                    Some(before(inner, ']'))
                }
            } else if past_last(raw, ':') == 0 {
                Some(raw)
            } else {
                Some(raw.subrange(0, past_last(raw, ':') - 1))
            }
        },
    }
}

fn visible(s: &Vec<char>) -> (b: bool)
    ensures
        b == all_visible(s@),
{
    let mut i: usize = 0;
    while i < s.len()
        invariant
            i <= s@.len(),
            forall|j: int| 0 <= j < i ==> (#[trigger] s@[j]) as u32 > 32 && s@[j] as u32 != 127,
        decreases s@.len() - i,
    {
        let c = s[i];
        if c as u32 <= 32 || c as u32 == 127 {
            assert(!(s@[i as int] as u32 > 32 && s@[i as int] as u32 != 127));
            return false;
        }
        i = i + 1;
    }
    true
}

fn past_last_of(s: &Vec<char>, c: char) -> (k: usize)
    ensures
        k == past_last(s@, c),
        k <= s@.len(),
{
    let mut n: usize = s.len();
    assert(s@.subrange(0, n as int) =~= s@);
    while n > 0
        invariant
            n <= s@.len(),
            past_last(s@.subrange(0, n as int), c) == past_last(s@, c),
        decreases n,
    {
        assert(s@.subrange(0, n as int).drop_last() =~= s@.subrange(0, n - 1));
        if s[n - 1] == c {
            return n;
        }
        n = n - 1;
    }
    0
}

/// The host that a request asks for.
pub fn request_host(req: &HttpRequest) -> (r: Option<String>)
    ensures
        match r {
            Some(h) => asked_host(req@) == Some(h@),
            None => asked_host(req@) is None,
        },
{
    let raw = match req.get_header("Host") {
        Some(v) => lower_of(&trim_of(&chars_of(v))),
        None => {
            return None;
        },
    };
    if raw.len() == 0 || !visible(&raw) {
        return None;
    }
    if raw[0] == '[' {
        let inner = part(&raw, 1, raw.len());
        let k: usize = find_of(&inner, ']');
        proof {
            crate::text::lemma_find(inner@, ']');
        }
        if k == inner.len() {
            return None;
        }
        let suffix = part(&inner, k + 1, inner.len());
        if suffix.len() > 0 && read_u16(&suffix).is_none() && !is_text(&suffix, ":80") {
            return None;
        }
        return Some(string_of(&part(&inner, 0, k)));
    }
    let k: usize = past_last_of(&raw, ':');
    if k == 0 {
        Some(string_of(&raw))
    } else {
        Some(string_of(&part(&raw, 0, k - 1)))
    }
}

/// A route is for that host.
pub open spec fn host_fits(route: Seq<char>, host: Seq<char>) -> bool {
    route == "*"@ || route == host || strip_trail(route, ':') == host
}

pub open spec fn proxy_fits(r: ProxyView, host: Seq<char>, uri: Seq<char>) -> bool {
    host_fits(r.host, host) && starts_with(uri, r.prefix)
}

/// Whether a route is for that host.
pub fn route_host_matches(route: &ProxyRoute, host: &str) -> (b: bool)
    ensures
        b == host_fits(route@.host, host@),
{
    let r = chars_of(route.host.as_str());
    let h = chars_of(host);
    is_text(&r, "*") || same(&r, &h) || same(&strip_trail_of(&r, ':'), &h)
}

/// The last of the fitting routes with the longest prefix.
pub open spec fn best_proxy(l: Seq<ProxyView>, host: Seq<char>, uri: Seq<char>) -> Option<int>
    decreases l.len(),
{
    if l.len() == 0 {
        None
    } else {
        let b = best_proxy(l.drop_last(), host, uri);
        if !proxy_fits(l.last(), host, uri) {
            b
        } else {
            match b {
                Some(k) => if byte_length(l[k].prefix) <= byte_length(l.last().prefix) {
                    Some(l.len() - 1)
                } else {
                    b
                },
                None => Some(l.len() - 1),
            }
        }
    }
}

/// The route for a request fits it, and no fitting route has a longer prefix.
pub proof fn law_longest_proxy_prefix_wins(l: Seq<ProxyView>, host: Seq<char>, uri: Seq<char>)
    ensures
        match best_proxy(l, host, uri) {
            Some(k) => 0 <= k < l.len() && proxy_fits(l[k], host, uri) && forall|i: int|
                0 <= i < l.len() && proxy_fits(#[trigger] l[i], host, uri) ==> byte_length(
                    l[i].prefix,
                ) <= byte_length(l[k].prefix),
            None => forall|i: int| 0 <= i < l.len() ==> !proxy_fits(#[trigger] l[i], host, uri),
        },
    decreases l.len(),
{
    if l.len() > 0 {
        let t = l.drop_last();
        law_longest_proxy_prefix_wins(t, host, uri);
        assert(forall|i: int| 0 <= i < t.len() ==> t[i] == l[i]);
        match best_proxy(l, host, uri) {
            Some(k) => {
                assert forall|i: int|
                    0 <= i < l.len() && proxy_fits(#[trigger] l[i], host, uri) implies byte_length(
                    l[i].prefix,
                ) <= byte_length(l[k].prefix) by {
                    if i < t.len() {
                        assert(proxy_fits(t[i], host, uri));
                    }
                }
            },
            None => {
                assert forall|i: int| 0 <= i < l.len() implies !proxy_fits(
                    #[trigger] l[i],
                    host,
                    uri,
                ) by {
                    if i < t.len() {
                        assert(!proxy_fits(t[i], host, uri));
                    }
                }
            },
        }
    }
}

/// The host that routes are matched with; nothing where the request names none.
pub open spec fn proxy_host(req: RequestView) -> Seq<char> {
    text_or_nothing(asked_host(req))
}

/// The route for a request.
pub fn select_route<'a>(req: &HttpRequest, config: &'a ServerConfig) -> (r: Option<&'a ProxyRoute>)
    ensures
        match r {
            Some(v) => best_proxy(config@.proxy_routes, proxy_host(req@), req@.uri) matches Some(k)
                && 0 <= k < config@.proxy_routes.len() && v@ == config@.proxy_routes[k],
            None => best_proxy(config@.proxy_routes, proxy_host(req@), req@.uri) is None,
        },
{
    let ghost l = config@.proxy_routes;
    let host = match request_host(req) {
        Some(h) => h,
        None => {
            let none: Vec<char> = Vec::new();
            assert(none@ =~= Seq::<char>::empty());
            string_of(&none)
        },
    };
    let uri = chars_of(req.uri.as_str());
    let n: usize = config.proxy_routes.len();
    let mut best: Option<usize> = None;
    let mut i: usize = 0;
    assert(l.subrange(0, 0) =~= Seq::<ProxyView>::empty());
    while i < n
        invariant
            n == config.proxy_routes@.len(),
            l == views(config.proxy_routes@),
            l == config@.proxy_routes,
            uri@ == req@.uri,
            host@ == proxy_host(req@),
            i <= n,
            match best {
                Some(k) => k < i && best_proxy(l.subrange(0, i as int), host@, uri@) == Some(
                    k as int,
                ),
                None => best_proxy(l.subrange(0, i as int), host@, uri@) is None,
            },
        decreases n - i,
    {
        assert(l.subrange(0, i + 1).drop_last() =~= l.subrange(0, i as int));
        assert(l[i as int] == config.proxy_routes@[i as int]@);
        let r = &config.proxy_routes[i];
        if route_host_matches(r, host.as_str()) && starts_with_str(&uri, r.prefix.as_str()) {
            match best {
                Some(k) => {
                    assert(l[k as int] == config.proxy_routes@[k as int]@);
                    assert(l.subrange(0, i + 1)[k as int] == l[k as int]);
                    let a: usize = byte_len(&chars_of(config.proxy_routes[k].prefix.as_str()));
                    let b: usize = byte_len(&chars_of(r.prefix.as_str()));
                    if a <= b {
                        best = Some(i);
                    }
                },
                None => {
                    best = Some(i);
                },
            }
        }
        i = i + 1;
    }
    assert(l.subrange(0, n as int) =~= l);
    match best {
        Some(k) => {
            assert(l[k as int] == config.proxy_routes@[k as int]@);
            Some(&config.proxy_routes[k])
        },
        None => None,
    }
}

/// Some route fits a request.
pub open spec fn some_proxy_fits(req: RequestView, c: ServerView) -> bool {
    exists|i: int|
        0 <= i < c.proxy_routes.len() && proxy_fits(
            #[trigger] c.proxy_routes[i],
            proxy_host(req),
            req.uri,
        )
}

/// Whether a request goes to an upstream.
pub fn route_matches_request(req: &HttpRequest, config: &ServerConfig) -> (b: bool)
    ensures
        b == some_proxy_fits(req@, config@),
{
    let r = select_route(req, config);
    proof {
        law_longest_proxy_prefix_wins(config@.proxy_routes, proxy_host(req@), req@.uri);
    }
    r.is_some()
}

/// The request asks for a WebSocket.
pub open spec fn asks_for_websocket(req: RequestView) -> bool {
    (header_value(req.headers, "Upgrade"@) matches Some(v) && same_name(v, "websocket"@)) && (
    header_value(req.headers, "Connection"@) matches Some(v) && list_has(v, "upgrade"@))
}

/// Whether a request asks for a WebSocket.
pub fn is_websocket_upgrade(req: &HttpRequest) -> (b: bool)
    ensures
        b == asks_for_websocket(req@),
{
    let upgrade = match req.get_header("Upgrade") {
        Some(v) => is_name(&chars_of(v), "websocket"),
        None => false,
    };
    let connection = match req.get_header("Connection") {
        Some(v) => list_contains(v, "upgrade"),
        None => false,
    };
    upgrade && connection
}

/// The target that the upstream is asked for: what follows the prefix of the route.
pub open spec fn upstream_target(uri: Seq<char>, prefix: Seq<char>) -> Seq<char> {
    if !starts_with(uri, prefix) {
        if uri.len() == 0 {
            "/"@
        } else {
            uri
        }
    } else if uri.len() == prefix.len() {
        "/"@
    } else {
        uri.subrange(prefix.len() as int, uri.len() as int)
    }
}

/// A header of a request that the upstream gets.
pub open spec fn is_forwarded(p: (Seq<char>, Seq<char>)) -> bool {
    !is_hop_by_hop(p.0) && !same_name(p.0, "Host"@) && !same_name(p.0, "Content-Length"@)
        && header_ok(p.0, p.1)
}

/// The headers of a request that the upstream gets.
pub open spec fn forwarded(h: Seq<(Seq<char>, Seq<char>)>) -> Seq<(Seq<char>, Seq<char>)>
    decreases h.len(),
{
    if h.len() == 0 {
        h
    } else if is_forwarded(h.last()) {
        forwarded(h.drop_last()).push(h.last())
    } else {
        forwarded(h.drop_last())
    }
}

/// No header that concerns one connection, frames the body or names the host is
/// passed on from the client, nor one that would break the lines.
pub proof fn law_forwarded_headers_are_safe(h: Seq<(Seq<char>, Seq<char>)>, i: int)
    requires
        0 <= i < forwarded(h).len(),
    ensures
        is_forwarded(forwarded(h)[i]),
    decreases h.len(),
{
    if h.len() > 0 {
        let t = forwarded(h.drop_last());
        if is_forwarded(h.last()) && i == t.len() {
        } else {
            law_forwarded_headers_are_safe(h.drop_last(), i);
        }
    }
}

/// The head of the request to the upstream.
pub open spec fn upstream_request(
    req: RequestView,
    prefix: Seq<char>,
    peer: Seq<char>,
    secure: bool,
    keep: bool,
    length: nat,
) -> Seq<char> {
    let host = text_or_nothing(header_value(req.headers, "Host"@));
    method_text(req.method) + " "@ + upstream_target(req.uri, prefix) + " HTTP/1.1\r\n"@
        + header_block(forwarded(req.headers)) + "Host: "@ + host + "\r\nX-Forwarded-For: "@ + peer
        + "\r\nX-Forwarded-Proto: "@ + (if secure {
        "https"@
    } else {
        "http"@
    }) + "\r\nX-Forwarded-Host: "@ + host + "\r\nConnection: "@ + (if keep {
        "keep-alive"@
    } else {
        "close"@
    }) + "\r\nContent-Length: "@ + decimal(length) + "\r\n\r\n"@
}

fn push_forwarded(out: &mut Vec<char>, h: &Vec<(String, String)>)
    ensures
        final(out)@ == old(out)@ + header_block(forwarded(pairs(h@))),
{
    let ghost start = out@;
    let ghost p = pairs(h@);
    let mut i: usize = 0;
    assert(p.subrange(0, 0) =~= Seq::<(Seq<char>, Seq<char>)>::empty());
    assert(start + Seq::<char>::empty() =~= start);
    while i < h.len()
        invariant
            p == pairs(h@),
            i <= h@.len(),
            out@ == start + header_block(forwarded(p.subrange(0, i as int))),
        decreases h@.len() - i,
    {
        let ghost f = forwarded(p.subrange(0, i as int));
        let ghost x = p[i as int];
        assert(p.subrange(0, i + 1).drop_last() =~= p.subrange(0, i as int));
        assert(x == (h@[i as int].0@, h@[i as int].1@));
        let name = chars_of(h[i].0.as_str());
        let value = chars_of(h[i].1.as_str());
        if !hop_by_hop(&name) && !is_name(&name, "Host") && !is_name(&name, "Content-Length")
            && valid_header(&name, &value) {
            push_text(out, &name);
            push_str(out, ": ");
            push_text(out, &value);
            push_str(out, "\r\n");
            assert(f.push(x).drop_last() =~= f);
            assert(out@ =~= start + (header_block(f) + x.0 + ": "@ + x.1 + "\r\n"@));
        }
        i = i + 1;
    }
    assert(p.subrange(0, p.len() as int) =~= p);
}

fn target_of(uri: &str, prefix: &str) -> (r: Vec<char>)
    ensures
        r@ == upstream_target(uri@, prefix@),
{
    let u = chars_of(uri);
    let n: usize = chars_of(prefix).len();
    if starts_with_str(&u, prefix) {
        if u.len() == n {
            chars_of("/")
        } else {
            part(&u, n, u.len())
        }
    } else if u.len() == 0 {
        chars_of("/")
    } else {
        u
    }
}

/// The head of the request to the upstream; the body follows it as it is. `peer` is
/// the address of the client and `length` the number of bytes of the body.
pub fn request_head(
    req: &HttpRequest,
    route: &ProxyRoute,
    peer: &str,
    secure: bool,
    keep: bool,
    length: usize,
) -> (r: String)
    ensures
        r@ == upstream_request(req@, route@.prefix, peer@, secure, keep, length as nat),
{
    let method = req.method.to_text();
    let mut out = chars_of(method.as_str());
    push_str(&mut out, " ");
    push_text(&mut out, &target_of(req.uri.as_str(), route.prefix.as_str()));
    push_str(&mut out, " HTTP/1.1\r\n");
    push_forwarded(&mut out, &req.headers);
    let host = match req.get_header("Host") {
        Some(v) => chars_of(v),
        None => {
            let none: Vec<char> = Vec::new();
            assert(none@ =~= Seq::<char>::empty());
            none
        },
    };
    push_str(&mut out, "Host: ");
    push_text(&mut out, &host);
    push_str(&mut out, "\r\nX-Forwarded-For: ");
    push_str(&mut out, peer);
    push_str(&mut out, "\r\nX-Forwarded-Proto: ");
    push_str(
        &mut out,
        if secure {
            "https"
        } else {
            "http"
        },
    );
    push_str(&mut out, "\r\nX-Forwarded-Host: ");
    push_text(&mut out, &host);
    push_str(&mut out, "\r\nConnection: ");
    push_str(
        &mut out,
        if keep {
            "keep-alive"
        } else {
            "close"
        },
    );
    push_str(&mut out, "\r\nContent-Length: ");
    push_text(&mut out, &decimal_of(length as u64));
    push_str(&mut out, "\r\n\r\n");
    string_of(&out)
}

/// How often a connection is tried: methods that change nothing get a second try.
pub open spec fn attempts(m: MethodView) -> int {
    match m {
        MethodView::Get => 2,
        MethodView::Head => 2,
        MethodView::Other(s) => if same_name(s, "OPTIONS"@) {
            2
        } else {
            1
        },
        MethodView::Post => 1,
    }
}

/// How often a connection is tried.
pub fn retry_attempts(method: &Method) -> (n: usize)
    ensures
        n == attempts(method@),
{
    match method {
        Method::Get => 2,
        Method::Head => 2,
        Method::Post => 1,
        Method::Other(s) => if is_name(&chars_of(s.as_str()), "OPTIONS") {
            2
        } else {
            1
        },
    }
}

/// The nonempty entries, trimmed.
pub open spec fn nonempty(l: Seq<Seq<char>>) -> Seq<Seq<char>>
    decreases l.len(),
{
    if l.len() == 0 {
        l
    } else if trim(l.last()).len() > 0 {
        nonempty(l.drop_last()).push(trim(l.last()))
    } else {
        nonempty(l.drop_last())
    }
}

/// The upstreams that a route lists.
pub open spec fn candidates(upstream: Seq<char>) -> Seq<Seq<char>> {
    nonempty(split(upstream, ','))
}

/// The upstreams that a route lists.
pub fn candidates_of(route: &ProxyRoute) -> (r: Vec<String>)
    ensures
        strings(r@) == candidates(route@.upstream),
{
    let p = split_of(&chars_of(route.upstream.as_str()), ',');
    let ghost l = split(route@.upstream, ',');
    let mut r: Vec<String> = Vec::new();
    let mut i: usize = 0;
    assert(l.subrange(0, 0) =~= Seq::<Seq<char>>::empty());
    assert(strings(r@) =~= Seq::<Seq<char>>::empty());
    while i < p.len()
        invariant
            l == texts(p@),
            i <= p@.len(),
            strings(r@) == nonempty(l.subrange(0, i as int)),
        decreases p@.len() - i,
    {
        assert(l.subrange(0, i + 1).drop_last() =~= l.subrange(0, i as int));
        assert(l.subrange(0, i + 1).last() == p@[i as int]@);
        let t = trim_of(&p[i]);
        if t.len() > 0 {
            let ghost prev = strings(r@);
            r.push(string_of(&t));
            assert(strings(r@) =~= prev.push(t@));
        }
        i = i + 1;
    }
    assert(l.subrange(0, l.len() as int) =~= l);
    r
}

/// The upstream that is tried in a turn of a round.
pub fn candidate_at(start: usize, offset: usize, count: usize) -> (k: usize)
    requires
        offset < count,
    ensures
        k == in_turn(start as int, offset as int, count as int),
        k < count,
{
    let s: usize = start % count;
    proof {
        lemma_turn(start as int, offset as int, count as int);
    }
    if offset < count - s {
        s + offset
    } else {
        offset - (count - s)
    }
}

proof fn lemma_turn(start: int, offset: int, count: int)
    requires
        0 <= start,
        0 <= offset < count,
    ensures
        0 <= start % count < count,
        in_turn(start, offset, count) == (if start % count + offset < count {
            start % count + offset
        } else {
            start % count + offset - count
        }),
{
    let s = start % count;
    vstd::arithmetic::div_mod::lemma_fundamental_div_mod(start, count);
    vstd::arithmetic::div_mod::lemma_mod_bound(start, count);
    let q = start / count;
    if s + offset < count {
        assert(start + offset == q * count + (s + offset)) by (nonlinear_arith)
            requires
                start == count * q + s,
        ;
        vstd::arithmetic::div_mod::lemma_fundamental_div_mod_converse(
            start + offset,
            count,
            q,
            s + offset,
        );
    } else {
        assert(start + offset == (q + 1) * count + (s + offset - count)) by (nonlinear_arith)
            requires
                start == count * q + s,
        ;
        vstd::arithmetic::div_mod::lemma_fundamental_div_mod_converse(
            start + offset,
            count,
            q + 1,
            s + offset - count,
        );
    }
}

/// A round tries every upstream once.
pub proof fn law_a_round_tries_every_upstream(start: int, count: int, k: int)
    requires
        0 <= start,
        0 <= k < count,
    ensures
        exists|offset: int| 0 <= offset < count && #[trigger] in_turn(start, offset, count) == k,
{
    let s = start % count;
    let offset = if k >= s {
        k - s
    } else {
        k - s + count
    };
    assert(start == count * (start / count) + s) by {
        vstd::arithmetic::div_mod::lemma_fundamental_div_mod(start, count);
    }
    let q = if k >= s {
        start / count
    } else {
        start / count + 1
    };
    assert(start + offset == count * q + k) by (nonlinear_arith)
        requires
            start == count * (start / count) + s,
            k >= s ==> offset == k - s && q == start / count,
            k < s ==> offset == k - s + count && q == start / count + 1,
    ;
    vstd::arithmetic::div_mod::lemma_fundamental_div_mod_converse(start + offset, count, q, k);
    assert(in_turn(start, offset, count) == k);
}

/// The upstream of a turn.
pub open spec fn in_turn(start: int, offset: int, count: int) -> int {
    (start + offset) % count
}

/// Takes what there is of the body of a request from a buffer.
pub fn take_buffered(buffered: &mut Vec<u8>, remaining: usize) -> (r: Vec<u8>)
    ensures
        ({
            let k = if old(buffered)@.len() <= remaining {
                old(buffered)@.len() as int
            } else {
                remaining as int
            };
            &&& r@ == old(buffered)@.subrange(0, k)
            &&& final(buffered)@ == old(buffered)@.subrange(k, old(buffered)@.len() as int)
        }),
{
    let n: usize = buffered.len();
    let k: usize = if n <= remaining {
        n
    } else {
        remaining
    };
    let r = part_bytes(buffered.as_slice(), 0, k);
    let rest = part_bytes(buffered.as_slice(), k, n);
    *buffered = rest;
    r
}

/// How much of the body is still to come after a read from the client, which gave
/// `count` bytes.
pub fn body_left(remaining: usize, count: usize) -> (r: Result<usize, Fault>)
    requires
        count <= remaining,
    ensures
        match r {
            Ok(n) => count > 0 && n == remaining - count,
            Err(f) => count == 0 && f@ == fault(
                FaultKind::UnexpectedEof,
                "client closed request body"@,
            ),
        },
{
    if count == 0 {
        return Err(early_end("client closed request body"));
    }
    Ok(remaining - count)
}

} // verus!
