//! The FastCGI side of the server: which requests go to a responder, and what is made
//! of its answer.

use crate::bytes::{blank, blank_line, find_bytes, part_bytes, push_bytes, sub_find, utf8_text};
use crate::config::scan::plain_component;
use crate::config::types::{views, FastCgiRoute, FastCgiView, ServerConfig, ServerView};
use crate::router::path::{components, components_of, hex_digit};
use crate::server::fault::{closing_bytes, error_bytes, fault, Fault, FaultKind, FaultView};
use crate::server::gzip::{
    gzip_encoder, gzip_end, gzip_finish, gzip_flush, gzip_flushed, gzip_write, gzip_written,
    is_fresh, Gzip,
};
use crate::server::http::{header_value, HttpRequest, RequestView, StatusCode};
use crate::server::record::{
    cgi_head, parse_h2_fastcgi_headers, text_or_nothing, CgiHead, CgiHeadView, END_REQUEST, STDOUT,
};
use crate::server::upstream::{
    byte_length, compress_head, compressed_head, compresses, header_block, push_header_block,
    should_compress,
};
use crate::text::{
    before, byte_len, chars_of, decimal, decimal_of, find_of, is_text, lower, lower_of, part,
    push_str, push_text, same, split, split_of, starts_with, starts_with_str, string_of, strip_lead,
    strip_lead_of, texts,
};
use vstd::prelude::*;
use vstd::utf8::{decode_utf8, encode_utf8, valid_utf8};

verus! {

/// The largest head of a response, in bytes.
pub const MAX_RESPONSE_HEADERS: usize = 65536;

/// The host that routes are matched with.
pub open spec fn route_host(req: RequestView) -> Seq<char> {
    lower(before(text_or_nothing(header_value(req.headers, "Host"@)), ':'))
}

pub open spec fn route_fits(r: FastCgiView, host: Seq<char>, uri: Seq<char>) -> bool {
    (r.host == "*"@ || r.host == host) && starts_with(uri, r.prefix)
}

/// The last of the fitting routes with the longest prefix.
pub open spec fn best_route(l: Seq<FastCgiView>, host: Seq<char>, uri: Seq<char>) -> Option<int>
    decreases l.len(),
{
    if l.len() == 0 {
        None
    } else {
        let b = best_route(l.drop_last(), host, uri);
        if !route_fits(l.last(), host, uri) {
            b
        } else {
            match b {
                Some(k) => if byte_length(l[k].prefix) <= byte_length(l.last().prefix) {
                    Some(l.len() - 1)
                } else {
                    b
                },
                None => Some(l.len() - 1),
            }
        }
    }
}

/// The route for a request fits it, and no fitting route has a longer prefix.
pub proof fn law_longest_fitting_prefix_wins(l: Seq<FastCgiView>, host: Seq<char>, uri: Seq<char>)
    ensures
        match best_route(l, host, uri) {
            Some(k) => 0 <= k < l.len() && route_fits(l[k], host, uri) && forall|i: int|
                0 <= i < l.len() && route_fits(#[trigger] l[i], host, uri) ==> byte_length(
                    l[i].prefix,
                ) <= byte_length(l[k].prefix),
            None => forall|i: int| 0 <= i < l.len() ==> !route_fits(#[trigger] l[i], host, uri),
        },
    decreases l.len(),
{
    if l.len() > 0 {
        let t = l.drop_last();
        law_longest_fitting_prefix_wins(t, host, uri);
        assert(forall|i: int| 0 <= i < t.len() ==> t[i] == l[i]);
        match best_route(l, host, uri) {
            Some(k) => {
                assert forall|i: int|
                    0 <= i < l.len() && route_fits(#[trigger] l[i], host, uri) implies byte_length(
                    l[i].prefix,
                ) <= byte_length(l[k].prefix) by {
                    if i < t.len() {
                        assert(route_fits(t[i], host, uri));
                    }
                }
            },
            None => {
                assert forall|i: int| 0 <= i < l.len() implies !route_fits(
                    #[trigger] l[i],
                    host,
                    uri,
                ) by {
                    if i < t.len() {
                        assert(!route_fits(t[i], host, uri));
                    }
                }
            },
        }
    }
}

fn host_of(req: &HttpRequest) -> (r: Vec<char>)
    ensures
        r@ == route_host(req@),
{
    match req.get_header("Host") {
        Some(h) => {
            let v = chars_of(h);
            lower_of(&part(&v, 0, find_of(&v, ':')))
        },
        None => {
            let none: Vec<char> = Vec::new();
            let ghost e = Seq::<char>::empty();
            proof {
                crate::text::lemma_find(e, ':');
            }
            assert(before(e, ':') =~= e);
            assert(lower(e) =~= e);
            assert(none@ =~= e);
            none
        },
    }
}

/// The route for a request.
pub fn select_route<'a>(req: &HttpRequest, config: &'a ServerConfig) -> (r: Option<
    &'a FastCgiRoute,
>)
    ensures
        match r {
            Some(v) => best_route(config@.fastcgi_routes, route_host(req@), req@.uri) matches Some(
                k,
            ) && 0 <= k < config@.fastcgi_routes.len() && v@ == config@.fastcgi_routes[k],
            None => best_route(config@.fastcgi_routes, route_host(req@), req@.uri) is None,
        },
{
    let ghost l = config@.fastcgi_routes;
    let host = host_of(req);
    let uri = chars_of(req.uri.as_str());
    let n: usize = config.fastcgi_routes.len();
    let mut best: Option<usize> = None;
    let mut i: usize = 0;
    assert(l.subrange(0, 0) =~= Seq::<FastCgiView>::empty());
    while i < n
        invariant
            n == config.fastcgi_routes@.len(),
            l == views(config.fastcgi_routes@),
            l == config@.fastcgi_routes,
            uri@ == req@.uri,
            host@ == route_host(req@),
            i <= n,
            match best {
                Some(k) => k < i && best_route(l.subrange(0, i as int), host@, uri@) == Some(
                    k as int,
                ),
                None => best_route(l.subrange(0, i as int), host@, uri@) is None,
            },
        decreases n - i,
    {
        assert(l.subrange(0, i + 1).drop_last() =~= l.subrange(0, i as int));
        assert(l[i as int] == config.fastcgi_routes@[i as int]@);
        let r = &config.fastcgi_routes[i];
        let h = chars_of(r.host.as_str());
        if (is_text(&h, "*") || same(&h, &host)) && starts_with_str(&uri, r.prefix.as_str()) {
            match best {
                Some(k) => {
                    assert(l[k as int] == config.fastcgi_routes@[k as int]@);
                    assert(l.subrange(0, i + 1)[k as int] == l[k as int]);
                    let a: usize = byte_len(
                        &chars_of(config.fastcgi_routes[k].prefix.as_str()),
                    );
                    let b: usize = byte_len(&chars_of(r.prefix.as_str()));
                    if a <= b {
                        best = Some(i);
                    }
                },
                None => {
                    best = Some(i);
                },
            }
        }
        i = i + 1;
    }
    assert(l.subrange(0, n as int) =~= l);
    match best {
        Some(k) => {
            assert(l[k as int] == config.fastcgi_routes@[k as int]@);
            Some(&config.fastcgi_routes[k])
        },
        None => None,
    }
}

/// Some route fits a request.
pub open spec fn some_route_fits(req: RequestView, c: ServerView) -> bool {
    exists|i: int|
        0 <= i < c.fastcgi_routes.len() && route_fits(
            #[trigger] c.fastcgi_routes[i],
            route_host(req),
            req.uri,
        )
}

/// Whether a request goes to a FastCGI responder.
pub fn route_matches_request(req: &HttpRequest, config: &ServerConfig) -> (b: bool)
    ensures
        b == some_route_fits(req@, config@),
{
    let r = select_route(req, config);
    proof {
        law_longest_fitting_prefix_wins(config@.fastcgi_routes, route_host(req@), req@.uri);
    }
    r.is_some()
}

/// The path lies below the directory; both are absolute and without links.
pub open spec fn lies_below(dir: Seq<char>, path: Seq<char>) -> bool {
    components(dir).len() <= components(path).len() && components(path).subrange(
        0,
        components(dir).len() as int,
    ) == components(dir)
}

/// Whether a path lies below a directory.
pub fn is_below(dir: &str, path: &str) -> (b: bool)
    ensures
        b == lies_below(dir@, path@),
{
    let d = components_of(&chars_of(dir));
    let p = components_of(&chars_of(path));
    let ghost x = components(dir@);
    let ghost y = components(path@);
    if d.len() > p.len() {
        return false;
    }
    let mut i: usize = 0;
    while i < d.len()
        invariant
            x == texts(d@),
            y == texts(p@),
            x == components(dir@),
            y == components(path@),
            d@.len() <= p@.len(),
            i <= d@.len(),
            forall|j: int| 0 <= j < i ==> x[j] == y[j],
        decreases d@.len() - i,
    {
        assert(x[i as int] == d@[i as int]@ && y[i as int] == p@[i as int]@);
        if !same(&d[i], &p[i]) {
            assert(y.subrange(0, x.len() as int)[i as int] == y[i as int]);
            return false;
        }
        i = i + 1;
    }
    assert(y.subrange(0, x.len() as int) =~= x);
    true
}

/// The bytes with every percent escape replaced by what it denotes.
pub open spec fn unescaped(b: Seq<u8>) -> Option<Seq<u8>>
    decreases b.len(),
{
    if b.len() == 0 {
        Some(b)
    } else if b[0] == 37 {
        if b.len() < 3 {
            None
        } else {
            match (
                hex_digit(b[1]),
                hex_digit(b[2]),
                unescaped(b.subrange(3, b.len() as int)),
            ) {
                (Some(x), Some(y), Some(r)) => Some(seq![(x * 16 + y) as u8] + r),
                _ => None,
            }
        }
    } else {
        match unescaped(b.subrange(1, b.len() as int)) {
            Some(r) => Some(seq![b[0]] + r),
            None => None,
        }
    }
}

fn hex_of(b: u8) -> (r: Option<u8>)
    ensures
        r == hex_digit(b),
        r matches Some(v) ==> v < 16,
{
    if 48 <= b && b <= 57 {
        Some(b - 48)
    } else if 65 <= b && b <= 70 {
        Some(b - 55)
    } else if 97 <= b && b <= 102 {
        Some(b - 87)
    } else {
        None
    }
}

fn unescape_bytes(b: &[u8]) -> (r: Option<Vec<u8>>)
    ensures
        match r {
            Some(v) => unescaped(b@) == Some(v@),
            None => unescaped(b@) is None,
        },
{
    let mut out: Vec<u8> = Vec::new();
    let n: usize = b.len();
    let mut i: usize = 0;
    assert(b@.subrange(0, n as int) =~= b@);
    assert(forall|r: Seq<u8>| out@ + r =~= r);
    while i < n
        invariant
            n == b@.len(),
            i <= n,
            unescaped(b@) == (match unescaped(b@.subrange(i as int, n as int)) {
                Some(r) => Some(out@ + r),
                None => None,
            }),
        decreases n - i,
    {
        let ghost t = b@.subrange(i as int, n as int);
        let ghost before = out@;
        if b[i] == 37 {
            if n - i < 3 {
                return None;
            }
            assert(t.subrange(3, t.len() as int) =~= b@.subrange(i + 3, n as int));
            match (hex_of(b[i + 1]), hex_of(b[i + 2])) {
                (Some(x), Some(y)) => {
                    let v: u8 = x * 16 + y;
                    out.push(v);
                    assert(forall|r: Seq<u8>| before.push(v) + r =~= before + (seq![v] + r));
                },
                _ => {
                    return None;
                },
            }
            i = i + 3;
        } else {
            let v: u8 = b[i];
            assert(t.subrange(1, t.len() as int) =~= b@.subrange(i + 1, n as int));
            out.push(v);
            assert(forall|r: Seq<u8>| before.push(v) + r =~= before + (seq![v] + r));
            i = i + 1;
        }
    }
    assert(b@.subrange(n as int, n as int) =~= Seq::<u8>::empty());
    assert(out@ + Seq::<u8>::empty() =~= out@);
    Some(out)
}

/// A text with its percent escapes replaced.
pub open spec fn percent_decoded(s: Seq<char>) -> Option<Seq<char>> {
    match unescaped(encode_utf8(s)) {
        Some(b) => if valid_utf8(b) {
            Some(decode_utf8(b))
        } else {
            None
        },
        None => None,
    }
}

/// A text with its percent escapes replaced.
pub fn percent_decode(input: &str) -> (r: Option<String>)
    ensures
        match r {
            Some(v) => percent_decoded(input@) == Some(v@),
            None => percent_decoded(input@) is None,
        },
{
    match unescape_bytes(input.as_bytes()) {
        Some(b) => utf8_text(b.as_slice()),
        None => None,
    }
}

pub open spec fn all_plain(p: Seq<Seq<char>>) -> bool {
    forall|i: int| 0 <= i < p.len() ==> plain_component(#[trigger] p[i])
}

/// The script that a request names, below the document root of the route.
pub open spec fn script_name(uri: Seq<char>) -> Result<Seq<char>, FaultView> {
    match percent_decoded(before(uri, '?')) {
        None => Err(fault(FaultKind::InvalidInput, "invalid request path"@)),
        Some(d) => {
            let rel = strip_lead(d, '/');
            if rel.len() == 0 || !all_plain(split(rel, '/')) {
                Err(fault(FaultKind::PermissionDenied, "invalid FastCGI script path"@))
            } else {
                Ok(rel)
            }
        },
    }
}

/// A script lies below the document root: no name on the way to it is empty, the
/// current directory or the parent.
pub proof fn law_scripts_lie_below_the_root(uri: Seq<char>, i: int)
    requires
        script_name(uri) is Ok,
        0 <= i < split(script_name(uri)->Ok_0, '/').len(),
    ensures
        split(script_name(uri)->Ok_0, '/')[i] != ".."@,
        split(script_name(uri)->Ok_0, '/')[i] != "."@,
        split(script_name(uri)->Ok_0, '/')[i].len() > 0,
{
    assert(plain_component(split(script_name(uri)->Ok_0, '/')[i]));
}

/// The script that a request names, below the document root of the route.
pub fn script_path(req: &HttpRequest) -> (r: Result<String, Fault>)
    ensures
        match r {
            Ok(p) => script_name(req@.uri) == Ok::<_, FaultView>(p@),
            Err(e) => script_name(req@.uri) == Err::<Seq<char>, _>(e@),
        },
{
    let uri = chars_of(req.uri.as_str());
    let raw = string_of(&part(&uri, 0, find_of(&uri, '?')));
    let decoded = match percent_decode(raw.as_str()) {
        Some(d) => d,
        None => {
            return Err(Fault { kind: FaultKind::InvalidInput, message: "invalid request path" });
        },
    };
    let rel = strip_lead_of(&chars_of(decoded.as_str()), '/');
    let p = split_of(&rel, '/');
    let ghost t = split(rel@, '/');
    let mut plain = rel.len() > 0;
    let mut i: usize = 0;
    while i < p.len()
        invariant
            t == texts(p@),
            i <= p@.len(),
            plain == (rel@.len() > 0 && forall|j: int|
                0 <= j < i ==> plain_component(#[trigger] t[j])),
        decreases p@.len() - i,
    {
        assert(t[i as int] == p@[i as int]@);
        if p[i].len() == 0 || is_text(&p[i], ".") || is_text(&p[i], "..") {
            assert(!plain_component(t[i as int]));
            plain = false;
        }
        i = i + 1;
    }
    if !plain {
        return Err(
            Fault {
                kind: FaultKind::PermissionDenied,
                message: "invalid FastCGI script path",
            },
        );
    }
    Ok(string_of(&rel))
}

/// The phrase behind a status on the status line.
pub open spec fn phrase_of(status: u16) -> Seq<char> {
    if status == 200 {
        "OK"@
    } else if status == 201 {
        "Created"@
    } else if status == 202 {
        "Accepted"@
    } else if status == 204 {
        "No Content"@
    } else if status == 301 {
        "Moved Permanently"@
    } else if status == 302 {
        "Found"@
    } else if status == 400 {
        "Bad Request"@
    } else if status == 401 {
        "Unauthorized"@
    } else if status == 403 {
        "Forbidden"@
    } else if status == 404 {
        "Not Found"@
    } else if status == 500 {
        "Internal Server Error"@
    } else if status == 502 {
        "Bad Gateway"@
    } else if status == 503 {
        "Service Unavailable"@
    } else {
        "Upstream Response"@
    }
}

/// The phrase behind a status on the status line.
pub fn reason_phrase(status: u16) -> (r: &'static str)
    ensures
        r@ == phrase_of(status),
{
    if status == 200 {
        "OK"
    } else if status == 201 {
        "Created"
    } else if status == 202 {
        "Accepted"
    } else if status == 204 {
        "No Content"
    } else if status == 301 {
        "Moved Permanently"
    } else if status == 302 {
        "Found"
    } else if status == 400 {
        "Bad Request"
    } else if status == 401 {
        "Unauthorized"
    } else if status == 403 {
        "Forbidden"
    } else if status == 404 {
        "Not Found"
    } else if status == 500 {
        "Internal Server Error"
    } else if status == 502 {
        "Bad Gateway"
    } else if status == 503 {
        "Service Unavailable"
    } else {
        "Upstream Response"
    }
}

/// The head that the client gets.
pub open spec fn client_head(h: CgiHeadView, compress: bool) -> Seq<char> {
    let block = header_block(h.headers);
    "HTTP/1.1 "@ + decimal(h.status as nat) + " "@ + phrase_of(h.status) + "\r\n"@ + (
    if compress {
        compressed_head(block)
    } else {
        block
    }) + "Connection: close\r\n\r\n"@
}

fn client_head_of(h: &CgiHead, compress: bool) -> (r: Vec<char>)
    ensures
        r@ == client_head(h@, compress),
{
    let mut block: Vec<char> = Vec::new();
    push_header_block(&mut block, &h.headers);
    assert(block@ =~= header_block(h@.headers));
    if compress {
        block = compress_head(&block);
    }
    let mut out = chars_of("HTTP/1.1 ");
    push_text(&mut out, &decimal_of(h.status as u64));
    push_str(&mut out, " ");
    push_str(&mut out, reason_phrase(h.status));
    push_str(&mut out, "\r\n");
    push_text(&mut out, &block);
    push_str(&mut out, "Connection: close\r\n\r\n");
    out
}

/// Whether there is more to come.
#[derive(Debug, PartialEq, Eq)]
pub enum Progress {
    More,
    Done,
    Failed(Fault),
}

#[verifier::ext_equal]
pub enum ProgressView {
    More,
    Done,
    Failed(FaultView),
}

impl View for Progress {
    type V = ProgressView;

    open spec fn view(&self) -> ProgressView {
        match self {
            Progress::More => ProgressView::More,
            Progress::Done => ProgressView::Done,
            Progress::Failed(f) => ProgressView::Failed(f@),
        }
    }
}

/// A response on its way from a responder to an HTTP/1.1 client.
pub struct ResponseStream {
    stdout: Vec<u8>,
    headers_sent: bool,
    content_length: Option<u64>,
    body_bytes: u64,
    gzip: Option<Gzip>,
    max_headers: usize,
    head: bool,
    accept_gzip: bool,
    level: u32,
}

#[verifier::ext_equal]
pub struct StreamingView {
    /// What came before the head was complete.
    pub stdout: Seq<u8>,
    pub sent: bool,
    pub content_length: Option<u64>,
    pub body_bytes: u64,
    pub gzip: Option<Gzip>,
    pub max_headers: usize,
    pub head: bool,
    pub accept_gzip: bool,
    pub level: u32,
}

impl View for ResponseStream {
    type V = StreamingView;

    closed spec fn view(&self) -> StreamingView {
        StreamingView {
            stdout: self.stdout@,
            sent: self.headers_sent,
            content_length: self.content_length,
            body_bytes: self.body_bytes,
            gzip: self.gzip,
            max_headers: self.max_headers,
            head: self.head,
            accept_gzip: self.accept_gzip,
            level: self.level,
        }
    }
}

/// What one record leads to: the state, the bytes for the client and whether more
/// is to come.
#[verifier::ext_equal]
pub struct Relayed {
    pub state: StreamingView,
    pub output: Seq<u8>,
    pub progress: ProgressView,
}

pub open spec fn bad_gateway(message: Seq<char>) -> Seq<u8> {
    closing_bytes(StatusCode::BadGateway, message)
}

pub open spec fn sum_capped(a: u64, b: nat) -> u64 {
    if a + b > u64::MAX {
        u64::MAX
    } else {
        (a + b) as u64
    }
}

/// A piece of the body as the client gets it, and the encoder after it.
pub open spec fn piece_output(g: Option<Gzip>, head: bool, data: Seq<u8>) -> Option<
    (Seq<u8>, Option<Gzip>),
> {
    if head {
        Some((Seq::empty(), g))
    } else {
        match g {
            None => Some((data, g)),
            Some(e) => {
                let (a, then) = gzip_written(e, data);
                let (b, after) = gzip_flushed(then);
                match (a, b) {
                    (Some(x), Some(y)) => Some((x + y, Some(after))),
                    _ => None,
                }
            },
        }
    }
}

pub open spec fn compression_fault() -> ProgressView {
    ProgressView::Failed(fault(FaultKind::Other, "response compression failed"@))
}

/// A piece of the body behind the head that was sent.
pub open spec fn on_body(s: StreamingView, lead: Seq<u8>, data: Seq<u8>, total: u64) -> Relayed {
    if s.content_length matches Some(limit) && total > limit {
        Relayed {
            state: s,
            output: lead + bad_gateway("FastCGI body exceeds Content-Length"@),
            progress: ProgressView::Done,
        }
    } else {
        match piece_output(s.gzip, s.head, data) {
            Some((out, g)) => Relayed {
                state: StreamingView { gzip: g, body_bytes: total, ..s },
                output: lead + out,
                progress: ProgressView::More,
            },
            None => Relayed { state: s, output: lead, progress: compression_fault() },
        }
    }
}

/// What a piece of standard output leads to. `fresh` is the encoder that is made where
/// the response turns out to be compressed.
pub open spec fn on_stdout(s: StreamingView, data: Seq<u8>, fresh: Gzip) -> Relayed {
    if s.sent {
        on_body(s, Seq::empty(), data, sum_capped(s.body_bytes, data.len()))
    } else {
        let all = s.stdout + data;
        let end = sub_find(all, blank_line(), 0);
        let held = StreamingView { stdout: all, ..s };
        if all.len() > s.max_headers {
            Relayed {
                state: held,
                output: bad_gateway("FastCGI headers too large"@),
                progress: ProgressView::Done,
            }
        } else if end >= all.len() {
            Relayed { state: held, output: Seq::empty(), progress: ProgressView::More }
        } else {
            match cgi_head(all.subrange(0, end + 4)) {
                Err(e) => Relayed {
                    state: held,
                    output: Seq::empty(),
                    progress: ProgressView::Failed(e),
                },
                Ok(h) => {
                    let compress = compresses(h.headers, h.status, s.head, s.accept_gzip);
                    let body = all.subrange(end + 4, all.len() as int);
                    let begun = StreamingView {
                        stdout: Seq::empty(),
                        sent: true,
                        content_length: if compress {
                            None
                        } else {
                            h.content_length
                        },
                        gzip: if compress {
                            Some(fresh)
                        } else {
                            None
                        },
                        ..s
                    };
                    on_body(
                        begun,
                        encode_utf8(client_head(h, compress)),
                        body,
                        body.len() as u64,
                    )
                },
            }
        }
    }
}

/// What the end of the request leads to.
pub open spec fn on_end(s: StreamingView, data: Seq<u8>) -> Relayed {
    if data.len() != 8 {
        Relayed {
            state: s,
            output: bad_gateway("malformed FastCGI END_REQUEST"@),
            progress: ProgressView::Done,
        }
    } else if s.content_length matches Some(limit) && s.body_bytes != limit {
        Relayed {
            state: s,
            output: bad_gateway("FastCGI body length mismatch"@),
            progress: ProgressView::Done,
        }
    } else {
        let lead = if s.sent {
            Seq::empty()
        } else {
            bad_gateway("FastCGI returned no response"@)
        };
        match s.gzip {
            None => Relayed { state: s, output: lead, progress: ProgressView::Done },
            Some(e) => match gzip_end(e) {
                Some(rest) => Relayed {
                    state: StreamingView { gzip: None, ..s },
                    output: lead + rest,
                    progress: ProgressView::Done,
                },
                None => Relayed {
                    state: StreamingView { gzip: None, ..s },
                    output: lead,
                    progress: compression_fault(),
                },
            },
        }
    }
}

/// What a record leads to.
pub open spec fn on_record(s: StreamingView, kind: u8, data: Seq<u8>, fresh: Gzip) -> Relayed {
    if kind == STDOUT {
        on_stdout(s, data, fresh)
    } else if kind == END_REQUEST {
        on_end(s, data)
    } else {
        Relayed { state: s, output: Seq::empty(), progress: ProgressView::More }
    }
}

/// The length that was announced is kept: while a response goes on, no more of the
/// body was passed on than announced, and it ends well only with all of it.
pub proof fn law_announced_lengths_are_kept(
    s: StreamingView,
    kind: u8,
    data: Seq<u8>,
    fresh: Gzip,
)
    requires
        s.sent,
        s.content_length matches Some(limit) && s.body_bytes <= limit,
    ensures
        ({
            let r = on_record(s, kind, data, fresh);
            &&& r.state.content_length == s.content_length
            &&& r.progress is More ==> r.state.body_bytes <= s.content_length.unwrap()
            &&& kind == END_REQUEST && data.len() == 8 && s.body_bytes != s.content_length.unwrap()
                ==> r.output == bad_gateway("FastCGI body length mismatch"@)
        }),
{
}

/// The outcome is the one described.
pub open spec fn relay_is(r: Relay, after: StreamingView, want: Relayed) -> bool {
    &&& r.output@ == want.output
    &&& r.progress@ == want.progress
    &&& !(want.progress is Failed) ==> after == want.state
}

/// Where an encoder came into use, it is a new one of the level that was asked for.
pub open spec fn encoder_is_new(s: StreamingView, after: StreamingView, fresh: Gzip) -> bool {
    s.gzip is None && after.gzip is Some ==> is_fresh(fresh, s.level)
}

/// What is sent to the client and whether more is to come.
#[derive(Debug)]
pub struct Relay {
    pub output: Vec<u8>,
    pub progress: Progress,
}

impl ResponseStream {
    /// A response of which nothing has come yet.
    pub fn new(max_headers: usize, head: bool, accept_gzip: bool, compression_level: u32) -> (r: Self)
        requires
            compression_level <= 10,
        ensures
            r@ == (StreamingView {
                stdout: Seq::empty(),
                sent: false,
                content_length: None,
                body_bytes: 0,
                gzip: None,
                max_headers,
                head,
                accept_gzip,
                level: compression_level,
            }),
    {
        let stdout: Vec<u8> = Vec::new();
        assert(stdout@ =~= Seq::<u8>::empty());
        ResponseStream {
            stdout,
            headers_sent: false,
            content_length: None,
            body_bytes: 0,
            gzip: None,
            max_headers,
            head,
            accept_gzip,
            level: compression_level,
        }
    }

    fn pass_body(&mut self, lead: Vec<u8>, data: &[u8], total: u64) -> (r: Relay)
        ensures
            relay_is(r, final(self)@, on_body(old(self)@, lead@, data@, total)),
            final(self)@.level == old(self)@.level,
    {
        let mut out = lead;
        match self.content_length {
            Some(limit) => {
                if total > limit {
                    let e = error_bytes(
                        StatusCode::BadGateway,
                        "FastCGI body exceeds Content-Length",
                    );
                    push_bytes(&mut out, e.as_slice());
                    return Relay { output: out, progress: Progress::Done };
                }
            },
            None => {},
        }
        let ghost s = self@;
        if self.head {
            self.body_bytes = total;
            assert(out@ + Seq::<u8>::empty() =~= out@);
            return Relay { output: out, progress: Progress::More };
        }
        match self.gzip.take() {
            None => {
                self.body_bytes = total;
                push_bytes(&mut out, data);
                Relay { output: out, progress: Progress::More }
            },
            Some(g) => {
                let mut e = g;
                let a = gzip_write(&mut e, data);
                let b = gzip_flush(&mut e);
                match (a, b) {
                    (Some(x), Some(y)) => {
                        let ghost start = out@;
                        push_bytes(&mut out, x.as_slice());
                        push_bytes(&mut out, y.as_slice());
                        assert(out@ =~= start + (x@ + y@));
                        self.body_bytes = total;
                        self.gzip = Some(e);
                        Relay { output: out, progress: Progress::More }
                    },
                    _ => Relay {
                        output: out,
                        progress: Progress::Failed(
                            Fault {
                                kind: FaultKind::Other,
                                message: "response compression failed",
                            },
                        ),
                    },
                }
            },
        }
    }

    fn take_stdout(&mut self, data: &[u8]) -> (r: Relay)
        requires
            old(self)@.level <= 10,
        ensures
            exists|fresh: Gzip|
                {
                    let w = #[trigger] on_stdout(old(self)@, data@, fresh);
                    relay_is(r, final(self)@, w) && encoder_is_new(old(self)@, w.state, fresh)
                },
            final(self)@.level == old(self)@.level,
    {
        let ghost s = self@;
        let ghost any = vstd::pervasive::arbitrary::<Gzip>();
        let none: Vec<u8> = Vec::new();
        assert(none@ =~= Seq::<u8>::empty());
        if self.headers_sent {
            let n: u64 = data.len() as u64;
            let total: u64 = if self.body_bytes <= 0xffff_ffff_ffff_ffff - n {
                self.body_bytes + n
            } else {
                0xffff_ffff_ffff_ffff
            };
            let r = self.pass_body(none, data, total);
            assert(relay_is(r, self@, on_stdout(s, data@, any)));
            return r;
        }
        push_bytes(&mut self.stdout, data);
        let ghost all = self.stdout@;
        if self.stdout.len() > self.max_headers {
            let r = Relay {
                output: error_bytes(StatusCode::BadGateway, "FastCGI headers too large"),
                progress: Progress::Done,
            };
            assert(relay_is(r, self@, on_stdout(s, data@, any)));
            return r;
        }
        let needle = blank();
        let at = match find_bytes(self.stdout.as_slice(), needle.as_slice()) {
            Some(p) => p,
            None => {
                let r = Relay { output: none, progress: Progress::More };
                assert(relay_is(r, self@, on_stdout(s, data@, any)));
                return r;
            },
        };
        let end: usize = at + 4;
        let raw = part_bytes(self.stdout.as_slice(), 0, end);
        let h = match parse_h2_fastcgi_headers(raw.as_slice()) {
            Ok(h) => h,
            Err(e) => {
                let r = Relay { output: none, progress: Progress::Failed(e) };
                assert(relay_is(r, self@, on_stdout(s, data@, any)));
                return r;
            },
        };
        let compress = should_compress(&h.headers, h.status, self.head, self.accept_gzip);
        let text = string_of(&client_head_of(&h, compress));
        let lead = crate::bytes::bytes_of(text.as_str());
        let body = part_bytes(self.stdout.as_slice(), end, self.stdout.len());
        self.stdout = Vec::new();
        assert(self.stdout@ =~= Seq::<u8>::empty());
        self.headers_sent = true;
        self.content_length = if compress {
            None
        } else {
            h.content_length
        };
        self.gzip = if compress {
            Some(gzip_encoder(self.level))
        } else {
            None
        };
        let ghost fresh = if compress {
            self@.gzip.unwrap()
        } else {
            any
        };
        let total: u64 = body.len() as u64;
        let r = self.pass_body(lead, body.as_slice(), total);
        assert(relay_is(r, self@, on_stdout(s, data@, fresh)));
        r
    }

    fn take_end(&mut self, data: &[u8]) -> (r: Relay)
        ensures
            relay_is(r, final(self)@, on_end(old(self)@, data@)),
            final(self)@ == on_end(old(self)@, data@).state,
    {
        if data.len() != 8 {
            return Relay {
                output: error_bytes(StatusCode::BadGateway, "malformed FastCGI END_REQUEST"),
                progress: Progress::Done,
            };
        }
        match self.content_length {
            Some(limit) => {
                if self.body_bytes != limit {
                    return Relay {
                        output: error_bytes(
                            StatusCode::BadGateway,
                            "FastCGI body length mismatch",
                        ),
                        progress: Progress::Done,
                    };
                }
            },
            None => {},
        }
        let mut out: Vec<u8> = Vec::new();
        assert(out@ =~= Seq::<u8>::empty());
        if !self.headers_sent {
            out = error_bytes(StatusCode::BadGateway, "FastCGI returned no response");
        }
        match self.gzip.take() {
            None => Relay { output: out, progress: Progress::Done },
            Some(g) => match gzip_finish(g) {
                Some(rest) => {
                    push_bytes(&mut out, rest.as_slice());
                    Relay { output: out, progress: Progress::Done }
                },
                None => Relay {
                    output: out,
                    progress: Progress::Failed(
                        Fault {
                            kind: FaultKind::Other,
                            message: "response compression failed",
                        },
                    ),
                },
            },
        }
    }

    /// Takes one record and says what to send.
    pub fn stream_response(&mut self, kind: u8, data: &[u8]) -> (r: Relay)
        requires
            old(self)@.level <= 10,
        ensures
            exists|fresh: Gzip|
                {
                    let w = #[trigger] on_record(old(self)@, kind, data@, fresh);
                    relay_is(r, final(self)@, w) && encoder_is_new(old(self)@, w.state, fresh)
                },
            final(self)@.level == old(self)@.level,
    {
        let ghost s = self@;
        if kind == STDOUT {
            let r = self.take_stdout(data);
            proof {
                let fresh = choose|fresh: Gzip|
                    {
                        let w = #[trigger] on_stdout(s, data@, fresh);
                        relay_is(r, self@, w) && encoder_is_new(s, w.state, fresh)
                    };
                assert(relay_is(r, self@, on_record(s, kind, data@, fresh)));
            }
            return r;
        }
        let ghost any = vstd::pervasive::arbitrary::<Gzip>();
        if kind == END_REQUEST {
            let r = self.take_end(data);
            assert(relay_is(r, self@, on_record(s, kind, data@, any)));
            return r;
        }
        let none: Vec<u8> = Vec::new();
        assert(none@ =~= Seq::<u8>::empty());
        let r = Relay { output: none, progress: Progress::More };
        assert(relay_is(r, self@, on_record(s, kind, data@, any)));
        r
    }
}

} // verus!
