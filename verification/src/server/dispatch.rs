//! Where a request goes, and what a connection is told when it goes nowhere.

use crate::bytes::{part_bytes, same_bytes};
use crate::config::types::{ServerConfig, ServerView};
use crate::server::cgi_request::{method_served, served_method};
use crate::server::fastcgi;
use crate::server::fault::{closing_answer, error_response};
use crate::server::http::{
    answer_to, header_value, HttpParseError, HttpRequest, RequestView, StatusCode,
};
use crate::server::http2::connection::CLIENT_PREFACE;
use crate::server::proxy;
use crate::server::proxy::{asks_for_websocket, is_websocket_upgrade, some_proxy_fits};
use crate::server::response::{
    add_header, bare_response, with_plain_text, HttpResponse, ResponseView,
};
use crate::text::{chars_of, decimal, decimal_of, push_str, string_of};
use vstd::prelude::*;

verus! {

/// What serves a request.
#[derive(Debug, Clone, Copy, PartialEq, Eq, Structural)]
pub enum Target {
    Proxy,
    FastCgi,
    Files,
}

/// What serves a request of an HTTP/1.1 connection.
pub open spec fn target_of(req: RequestView, c: ServerView) -> Target {
    if some_proxy_fits(req, c) {
        Target::Proxy
    } else if fastcgi::some_route_fits(req, c) {
        Target::FastCgi
    } else {
        Target::Files
    }
}

/// What serves a request of an HTTP/2 stream, which can be no WebSocket.
pub open spec fn stream_target_of(req: RequestView, c: ServerView) -> Target {
    if some_proxy_fits(req, c) && !asks_for_websocket(req) {
        Target::Proxy
    } else if fastcgi::some_route_fits(req, c) && served_method(req.method) {
        Target::FastCgi
    } else {
        Target::Files
    }
}

/// What takes the body of a request as it comes in, once its head is there.
pub open spec fn body_target_of(req: RequestView, c: ServerView) -> Option<Target> {
    if header_value(req.headers, "Upgrade"@) is Some {
        None
    } else if some_proxy_fits(req, c) {
        Some(Target::Proxy)
    } else if fastcgi::some_route_fits(req, c) && req.method is Post {
        Some(Target::FastCgi)
    } else {
        None
    }
}

/// What serves a request of an HTTP/1.1 connection.
pub fn request_target(req: &HttpRequest, config: &ServerConfig) -> (t: Target)
    ensures
        t == target_of(req@, config@),
{
    if proxy::route_matches_request(req, config) {
        Target::Proxy
    } else if fastcgi::route_matches_request(req, config) {
        Target::FastCgi
    } else {
        Target::Files
    }
}

/// What serves a request of an HTTP/2 stream.
pub fn stream_target(req: &HttpRequest, config: &ServerConfig) -> (t: Target)
    ensures
        t == stream_target_of(req@, config@),
{
    if proxy::route_matches_request(req, config) && !is_websocket_upgrade(req) {
        Target::Proxy
    } else if fastcgi::route_matches_request(req, config) && method_served(&req.method) {
        Target::FastCgi
    } else {
        Target::Files
    }
}

/// What takes the body of a request as it comes in.
pub fn body_target(req: &HttpRequest, config: &ServerConfig) -> (t: Option<Target>)
    ensures
        t == body_target_of(req@, config@),
{
    if req.get_header("Upgrade").is_some() {
        None
    } else if proxy::route_matches_request(req, config) {
        Some(Target::Proxy)
    } else if fastcgi::route_matches_request(req, config) && req.method.is_post() {
        Some(Target::FastCgi)
    } else {
        None
    }
}

/// Both protocols send a request to the same place, but for upgrades and for methods
/// that responders do not serve.
pub proof fn law_protocols_share_routes(req: RequestView, c: ServerView)
    requires
        !asks_for_websocket(req),
        served_method(req.method),
    ensures
        stream_target_of(req, c) == target_of(req, c),
{
}

/// A body is taken as it comes in only by what serves the request.
pub proof fn law_bodies_go_where_requests_go(req: RequestView, c: ServerView)
    ensures
        body_target_of(req, c) matches Some(t) ==> t == target_of(req, c) && t != Target::Files,
{
}

/// What the first bytes of a connection say about its protocol.
#[derive(Debug, Clone, Copy, PartialEq, Eq, Structural)]
pub enum Sniff {
    Http2,
    Http1,
    More,
}

/// The bytes are a beginning of the preface of HTTP/2, or it is one of theirs.
pub open spec fn sniffed(b: Seq<u8>) -> Sniff {
    let p = CLIENT_PREFACE@;
    if b.len() >= p.len() {
        if b.subrange(0, p.len() as int) == p {
            Sniff::Http2
        } else {
            Sniff::Http1
        }
    } else if p.subrange(0, b.len() as int) == b {
        Sniff::More
    } else {
        Sniff::Http1
    }
}

/// What the first bytes of a connection say about its protocol.
pub fn sniff(b: &[u8]) -> (r: Sniff)
    ensures
        r == sniffed(b@),
{
    let p: [u8; 24] = CLIENT_PREFACE;
    let n: usize = b.len();
    if n >= 24 {
        let head = part_bytes(b, 0, 24);
        if same_bytes(head.as_slice(), p.as_slice()) {
            Sniff::Http2
        } else {
            Sniff::Http1
        }
    } else {
        let head = part_bytes(p.as_slice(), 0, n);
        if same_bytes(head.as_slice(), b) {
            Sniff::More
        } else {
            Sniff::Http1
        }
    }
}

/// More bytes never change what is known.
pub proof fn law_sniffing_is_final(b: Seq<u8>, more: Seq<u8>)
    requires
        sniffed(b) != Sniff::More,
    ensures
        sniffed(b + more) == sniffed(b),
{
    let p = CLIENT_PREFACE@;
    let w = b + more;
    if b.len() >= p.len() {
        assert(w.subrange(0, p.len() as int) =~= b.subrange(0, p.len() as int));
    } else {
        let q = p.subrange(0, b.len() as int);
        assert(q != b);
        let k = choose|k: int| 0 <= k < b.len() && q[k] != b[k];
        if forall|i: int| 0 <= i < b.len() ==> q[i] == b[i] {
            assert(q =~= b);
        }
        assert(q[k] == p[k] && w[k] == b[k]);
        if w.len() >= p.len() {
            assert(w.subrange(0, p.len() as int)[k] == w[k]);
        } else {
            assert(p.subrange(0, w.len() as int)[k] == p[k]);
        }
    }
}

/// A request is the last one of its connection.
pub fn is_last_request(count: usize, max: usize, req: &HttpRequest) -> (b: bool)
    ensures
        b == (count >= max || !crate::server::http::keeps_alive(req@.version, req@.headers)),
{
    count >= max || !req.is_keep_alive()
}

/// The number and the phrase of a status.
pub open spec fn status_text(s: StatusCode) -> Seq<char> {
    decimal(s.number() as nat) + " "@ + s.phrase()
}

/// The answer that names a status and closes the connection.
pub fn status_answer(status: StatusCode) -> (r: HttpResponse)
    ensures
        r@ == closing_answer(status, status_text(status)),
{
    let mut t = decimal_of(status.code() as u64);
    push_str(&mut t, " ");
    push_str(&mut t, status.reason_phrase());
    let text = string_of(&t);
    error_response(status, text.as_str())
}

/// The answer to a request that could not be read; none where the client is gone.
pub fn parse_error_answer(err: HttpParseError) -> (r: Option<HttpResponse>)
    ensures
        match r {
            Some(x) => err != HttpParseError::ConnectionClosed && x@ == closing_answer(
                answer_to(err),
                status_text(answer_to(err)),
            ),
            None => err == HttpParseError::ConnectionClosed,
        },
{
    match err {
        HttpParseError::ConnectionClosed => None,
        e => Some(status_answer(StatusCode::from(e))),
    }
}

/// The answer where a request could not be passed on.
pub fn gateway_answer(error: &str) -> (r: HttpResponse)
    ensures
        r@ == closing_answer(StatusCode::BadGateway, "502 Bad Gateway: "@ + error@),
{
    let mut t = chars_of("502 Bad Gateway: ");
    push_str(&mut t, error);
    let text = string_of(&t);
    error_response(StatusCode::BadGateway, text.as_str())
}

/// The answer to a client with too many connections.
pub fn too_many_connections() -> (r: HttpResponse)
    ensures
        r@ == with_plain_text(
            add_header(
                (ResponseView {
                    close_connection: true,
                    ..bare_response(StatusCode::TooManyRequests)
                }),
                "Retry-After"@,
                "1"@,
            ),
            "429 Too Many Requests"@,
        ),
{
    HttpResponse::new(StatusCode::TooManyRequests).set_close_connection(true).with_raw_header(
        "Retry-After",
        "1",
    ).with_text("429 Too Many Requests")
}

/// The answer where the server has too many connections.
pub fn server_full() -> (r: HttpResponse)
    ensures
        r@ == closing_answer(
            StatusCode::ServiceUnavailable,
            "503 Service Unavailable: Maximum connection limit reached"@,
        ),
{
    error_response(
        StatusCode::ServiceUnavailable,
        "503 Service Unavailable: Maximum connection limit reached",
    )
}

/// The answer where a request does not come to an end.
pub fn request_timeout() -> (r: HttpResponse)
    ensures
        r@ == closing_answer(StatusCode::RequestTimeout, "408 Request Timeout"@),
{
    error_response(StatusCode::RequestTimeout, "408 Request Timeout")
}

} // verus!
