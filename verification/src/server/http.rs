//! HTTP/1.1 messages: the strict request parser and the response head.

use crate::bytes::{
    blank_line, find_bytes, lemma_sub_find, lemma_sub_find_extends, part_bytes, sub_at, sub_find,
    utf8_text,
};
use crate::config::merge::{find_pair, pair_at};
use crate::config::scan::{header_name_ok, valid_header_name};
use crate::config::types::{copy_pairs, default_server, pairs, ServerConfig, ServerView};
use crate::config::veysrule::no_breaks;
use crate::text::{
    after, before, byte_len, chars_of, find_of, has_char, is_lower, is_name, is_text, is_upper,
    parse_uint, part, read_usize, same_name, split, split_crlf, split_crlf_of, split_of, string_of,
    strings, texts, trim, trim_of, upper,
};
use vstd::prelude::*;
use vstd::utf8::{decode_utf8, encode_utf8, is_ascii_chars, valid_utf8};

verus! {

/// The `Server` header of every response.
pub const SERVER_NAME: &'static str = "veysrs/0.6.0";

#[derive(Debug, PartialEq)]
pub enum Method {
    Get,
    Head,
    Post,
    Other(String),
}

#[verifier::ext_equal]
pub enum MethodView {
    Get,
    Head,
    Post,
    Other(Seq<char>),
}

impl View for Method {
    type V = MethodView;

    open spec fn view(&self) -> MethodView {
        match self {
            Method::Get => MethodView::Get,
            Method::Head => MethodView::Head,
            Method::Post => MethodView::Post,
            Method::Other(s) => MethodView::Other(s@),
        }
    }
}

impl Clone for Method {
    fn clone(&self) -> (r: Self)
        ensures
            r@ == self@,
    {
        match self {
            Method::Get => Method::Get,
            Method::Head => Method::Head,
            Method::Post => Method::Post,
            Method::Other(s) => Method::Other(s.clone()),
        }
    }
}

/// The name of a method.
pub open spec fn method_text(m: MethodView) -> Seq<char> {
    match m {
        MethodView::Get => "GET"@,
        MethodView::Head => "HEAD"@,
        MethodView::Post => "POST"@,
        MethodView::Other(s) => s,
    }
}

/// What `str::to_uppercase` makes of a text.
pub uninterp spec fn unicode_upper(s: Seq<char>) -> Seq<char>;

/// `str::to_uppercase`: the upper case of a text; of ASCII text, its ASCII upper
/// case.
#[verifier::external_body]
fn to_uppercase(s: &str) -> (r: String)
    ensures
        r@ == unicode_upper(s@),
        is_ascii_chars(s@) ==> r@ == upper(s@),
{
    s.to_uppercase()
}

/// The method of an upper-case name.
pub open spec fn method_named(s: Seq<char>) -> MethodView {
    if s == "GET"@ {
        MethodView::Get
    } else if s == "HEAD"@ {
        MethodView::Head
    } else if s == "POST"@ {
        MethodView::Post
    } else {
        MethodView::Other(s)
    }
}

impl Method {
    /// The method of an upper-case name.
    pub fn named(s: String) -> (r: Method)
        ensures
            r@ == method_named(s@),
    {
        let v = chars_of(s.as_str());
        if is_text(&v, "GET") {
            Method::Get
        } else if is_text(&v, "HEAD") {
            Method::Head
        } else if is_text(&v, "POST") {
            Method::Post
        } else {
            Method::Other(s)
        }
    }

    /// The name of the method.
    pub fn to_text(&self) -> (r: String)
        ensures
            r@ == method_text(self@),
    {
        match self {
            Method::Get => "GET".to_owned(),
            Method::Head => "HEAD".to_owned(),
            Method::Post => "POST".to_owned(),
            Method::Other(s) => s.clone(),
        }
    }

    pub fn is_get(&self) -> (b: bool)
        ensures
            b == (self@ == MethodView::Get),
    {
        match self {
            Method::Get => true,
            _ => false,
        }
    }

    pub fn is_head(&self) -> (b: bool)
        ensures
            b == (self@ == MethodView::Head),
    {
        match self {
            Method::Head => true,
            _ => false,
        }
    }

    pub fn is_post(&self) -> (b: bool)
        ensures
            b == (self@ == MethodView::Post),
    {
        match self {
            Method::Post => true,
            _ => false,
        }
    }
}

impl From<&str> for Method {
    fn from(s: &str) -> (r: Self)
        ensures
            r@ == method_named(unicode_upper(s@)),
            is_ascii_chars(s@) ==> r@ == method_named(upper(s@)),
    {
        Method::named(to_uppercase(s))
    }
}

impl vstd::std_specs::convert::FromSpecImpl<&str> for Method {
    open spec fn obeys_from_spec() -> bool {
        false
    }

    open spec fn from_spec(s: &str) -> Self {
        Method::Get
    }
}

#[derive(Debug, Clone, Copy, PartialEq, Eq, Structural)]
pub enum StatusCode {
    Okay,
    Created,
    Accepted,
    NoContent,
    MovedPermanently,
    Found,
    PartialContent,
    NotModified,
    BadRequest,
    Unauthorized,
    Forbidden,
    NotFound,
    MethodNotAllowed,
    RequestTimeout,
    PayloadTooLarge,
    UriTooLong,
    RangeNotSatisfiable,
    RequestHeaderFieldsTooLarge,
    TooManyRequests,
    InternalServerError,
    BadGateway,
    NotImplemented,
    ServiceUnavailable,
    GatewayTimeout,
    HttpVersionNotSupported,
}

impl StatusCode {
    pub open spec fn number(self) -> u16 {
        match self {
            StatusCode::Okay => 200,
            StatusCode::Created => 201,
            StatusCode::Accepted => 202,
            StatusCode::NoContent => 204,
            StatusCode::MovedPermanently => 301,
            StatusCode::Found => 302,
            StatusCode::PartialContent => 206,
            StatusCode::NotModified => 304,
            StatusCode::BadRequest => 400,
            StatusCode::Unauthorized => 401,
            StatusCode::Forbidden => 403,
            StatusCode::NotFound => 404,
            StatusCode::MethodNotAllowed => 405,
            StatusCode::RequestTimeout => 408,
            StatusCode::PayloadTooLarge => 413,
            StatusCode::UriTooLong => 414,
            StatusCode::RangeNotSatisfiable => 416,
            StatusCode::RequestHeaderFieldsTooLarge => 431,
            StatusCode::TooManyRequests => 429,
            StatusCode::InternalServerError => 500,
            StatusCode::BadGateway => 502,
            StatusCode::NotImplemented => 501,
            StatusCode::ServiceUnavailable => 503,
            StatusCode::GatewayTimeout => 504,
            StatusCode::HttpVersionNotSupported => 505,
        }
    }

    /// The number on the status line.
    pub fn code(&self) -> (n: u16)
        ensures
            n == self.number(),
            100 <= n <= 599,
    {
        match self {
            StatusCode::Okay => 200,
            StatusCode::Created => 201,
            StatusCode::Accepted => 202,
            StatusCode::NoContent => 204,
            StatusCode::MovedPermanently => 301,
            StatusCode::Found => 302,
            StatusCode::PartialContent => 206,
            StatusCode::NotModified => 304,
            StatusCode::BadRequest => 400,
            StatusCode::Unauthorized => 401,
            StatusCode::Forbidden => 403,
            StatusCode::NotFound => 404,
            StatusCode::MethodNotAllowed => 405,
            StatusCode::RequestTimeout => 408,
            StatusCode::PayloadTooLarge => 413,
            StatusCode::UriTooLong => 414,
            StatusCode::RangeNotSatisfiable => 416,
            StatusCode::RequestHeaderFieldsTooLarge => 431,
            StatusCode::TooManyRequests => 429,
            StatusCode::InternalServerError => 500,
            StatusCode::BadGateway => 502,
            StatusCode::NotImplemented => 501,
            StatusCode::ServiceUnavailable => 503,
            StatusCode::GatewayTimeout => 504,
            StatusCode::HttpVersionNotSupported => 505,
        }
    }

    pub open spec fn phrase(self) -> Seq<char> {
        match self {
            StatusCode::Okay => "OK"@,
            StatusCode::Created => "Created"@,
            StatusCode::Accepted => "Accepted"@,
            StatusCode::NoContent => "No Content"@,
            StatusCode::MovedPermanently => "Moved Permanently"@,
            StatusCode::Found => "Found"@,
            StatusCode::PartialContent => "Partial Content"@,
            StatusCode::NotModified => "Not Modified"@,
            StatusCode::BadRequest => "Bad Request"@,
            StatusCode::Unauthorized => "Unauthorized"@,
            StatusCode::Forbidden => "Forbidden"@,
            StatusCode::NotFound => "Not Found"@,
            StatusCode::MethodNotAllowed => "Method Not Allowed"@,
            StatusCode::RequestTimeout => "Request Timeout"@,
            StatusCode::PayloadTooLarge => "Payload Too Large"@,
            StatusCode::UriTooLong => "URI Too Long"@,
            StatusCode::RangeNotSatisfiable => "Range Not Satisfiable"@,
            StatusCode::RequestHeaderFieldsTooLarge => "Request Header Fields Too Large"@,
            StatusCode::TooManyRequests => "Too Many Requests"@,
            StatusCode::InternalServerError => "Internal Server Error"@,
            StatusCode::BadGateway => "Bad Gateway"@,
            StatusCode::NotImplemented => "Not Implemented"@,
            StatusCode::ServiceUnavailable => "Service Unavailable"@,
            StatusCode::GatewayTimeout => "Gateway Timeout"@,
            StatusCode::HttpVersionNotSupported => "HTTP Version Not Supported"@,
        }
    }

    /// The words on the status line.
    pub fn reason_phrase(&self) -> (s: &'static str)
        ensures
            s@ == self.phrase(),
    {
        match self {
            StatusCode::Okay => "OK",
            StatusCode::Created => "Created",
            StatusCode::Accepted => "Accepted",
            StatusCode::NoContent => "No Content",
            StatusCode::MovedPermanently => "Moved Permanently",
            StatusCode::Found => "Found",
            StatusCode::PartialContent => "Partial Content",
            StatusCode::NotModified => "Not Modified",
            StatusCode::BadRequest => "Bad Request",
            StatusCode::Unauthorized => "Unauthorized",
            StatusCode::Forbidden => "Forbidden",
            StatusCode::NotFound => "Not Found",
            StatusCode::MethodNotAllowed => "Method Not Allowed",
            StatusCode::RequestTimeout => "Request Timeout",
            StatusCode::PayloadTooLarge => "Payload Too Large",
            StatusCode::UriTooLong => "URI Too Long",
            StatusCode::RangeNotSatisfiable => "Range Not Satisfiable",
            StatusCode::RequestHeaderFieldsTooLarge => "Request Header Fields Too Large",
            StatusCode::TooManyRequests => "Too Many Requests",
            StatusCode::InternalServerError => "Internal Server Error",
            StatusCode::BadGateway => "Bad Gateway",
            StatusCode::NotImplemented => "Not Implemented",
            StatusCode::ServiceUnavailable => "Service Unavailable",
            StatusCode::GatewayTimeout => "Gateway Timeout",
            StatusCode::HttpVersionNotSupported => "HTTP Version Not Supported",
        }
    }

    /// The status of a number: the status itself, the general client error for an
    /// unknown client error, the general server error for anything else.
    pub open spec fn of_number(code: u16) -> StatusCode {
        if exists|s: StatusCode| s.number() == code {
            choose|s: StatusCode| s.number() == code
        } else if 400 <= code <= 499 {
            StatusCode::BadRequest
        } else {
            StatusCode::InternalServerError
        }
    }

    /// The status of a number.
    pub fn from_u16(code: u16) -> (s: Self)
        ensures
            s == StatusCode::of_number(code),
    {
        let s = match code {
            200 => StatusCode::Okay,
            201 => StatusCode::Created,
            202 => StatusCode::Accepted,
            204 => StatusCode::NoContent,
            301 => StatusCode::MovedPermanently,
            302 => StatusCode::Found,
            206 => StatusCode::PartialContent,
            304 => StatusCode::NotModified,
            400 => StatusCode::BadRequest,
            401 => StatusCode::Unauthorized,
            403 => StatusCode::Forbidden,
            404 => StatusCode::NotFound,
            405 => StatusCode::MethodNotAllowed,
            408 => StatusCode::RequestTimeout,
            413 => StatusCode::PayloadTooLarge,
            414 => StatusCode::UriTooLong,
            416 => StatusCode::RangeNotSatisfiable,
            431 => StatusCode::RequestHeaderFieldsTooLarge,
            429 => StatusCode::TooManyRequests,
            500 => StatusCode::InternalServerError,
            501 => StatusCode::NotImplemented,
            502 => StatusCode::BadGateway,
            503 => StatusCode::ServiceUnavailable,
            504 => StatusCode::GatewayTimeout,
            505 => StatusCode::HttpVersionNotSupported,
            _ => {
                if 400 <= code && code <= 499 {
                    StatusCode::BadRequest
                } else {
                    StatusCode::InternalServerError
                }
            },
        };
        proof {
            let x = StatusCode::of_number(code);
            if exists|t: StatusCode| t.number() == code {
                assert(x.number() == code);
                lemma_numbers_differ(s, x);
            } else {
                assert(s.number() != code);
            }
        }
        s
    }
}

proof fn lemma_numbers_differ(a: StatusCode, b: StatusCode)
    requires
        a.number() == b.number(),
    ensures
        a == b,
{
}

/// A status survives the way through its number.
pub proof fn law_status_numbers_round_trip(s: StatusCode)
    ensures
        StatusCode::of_number(s.number()) == s,
{
    let t = choose|t: StatusCode| t.number() == s.number();
    lemma_numbers_differ(s, t);
}

#[derive(Debug, Clone, Copy, PartialEq, Eq, Structural)]
pub enum HttpParseError {
    MalformedRequest,
    OversizedRequestLine,
    OversizedHeader,
    OversizedHeaderLine,
    TooManyHeaders,
    OversizedBody,
    Timeout,
    UnsupportedVersion,
    MissingHost,
    MalformedHost,
    ChunkedEncodingNotImplemented,
    ConflictingHeaders,
    MalformedContentLength,
    IoError,
    ConnectionClosed,
}

/// The answer to a request that could not be read.
pub open spec fn answer_to(err: HttpParseError) -> StatusCode {
    match err {
        HttpParseError::UnsupportedVersion => StatusCode::HttpVersionNotSupported,
        HttpParseError::ChunkedEncodingNotImplemented => StatusCode::NotImplemented,
        HttpParseError::OversizedRequestLine => StatusCode::UriTooLong,
        HttpParseError::OversizedHeader => StatusCode::RequestHeaderFieldsTooLarge,
        HttpParseError::OversizedHeaderLine => StatusCode::RequestHeaderFieldsTooLarge,
        HttpParseError::TooManyHeaders => StatusCode::RequestHeaderFieldsTooLarge,
        HttpParseError::OversizedBody => StatusCode::PayloadTooLarge,
        HttpParseError::Timeout => StatusCode::RequestTimeout,
        _ => StatusCode::BadRequest,
    }
}

impl From<HttpParseError> for StatusCode {
    fn from(err: HttpParseError) -> (r: Self) {
        match err {
            HttpParseError::UnsupportedVersion => StatusCode::HttpVersionNotSupported,
            HttpParseError::ChunkedEncodingNotImplemented => StatusCode::NotImplemented,
            HttpParseError::OversizedRequestLine => StatusCode::UriTooLong,
            HttpParseError::OversizedHeader | HttpParseError::OversizedHeaderLine
            | HttpParseError::TooManyHeaders => StatusCode::RequestHeaderFieldsTooLarge,
            HttpParseError::OversizedBody => StatusCode::PayloadTooLarge,
            HttpParseError::Timeout => StatusCode::RequestTimeout,
            _ => StatusCode::BadRequest,
        }
    }
}

impl vstd::std_specs::convert::FromSpecImpl<HttpParseError> for StatusCode {
    open spec fn obeys_from_spec() -> bool {
        true
    }

    open spec fn from_spec(err: HttpParseError) -> Self {
        answer_to(err)
    }
}

/// A request that could not be read is never answered with success.
pub proof fn law_unread_requests_are_refused(err: HttpParseError)
    ensures
        400 <= answer_to(err).number() <= 599,
{
}

/// A complete request.
#[derive(Debug)]
pub struct HttpRequest {
    pub method: Method,
    pub uri: String,
    pub version: String,
    pub headers: Vec<(String, String)>,
    pub body: Vec<u8>,
}

#[verifier::ext_equal]
pub struct RequestView {
    pub method: MethodView,
    pub uri: Seq<char>,
    pub version: Seq<char>,
    pub headers: Seq<(Seq<char>, Seq<char>)>,
    pub body: Seq<u8>,
}

impl View for HttpRequest {
    type V = RequestView;

    open spec fn view(&self) -> RequestView {
        RequestView {
            method: self.method@,
            uri: self.uri@,
            version: self.version@,
            headers: pairs(self.headers@),
            body: self.body@,
        }
    }
}

impl Clone for HttpRequest {
    fn clone(&self) -> (r: Self)
        ensures
            r@ == self@,
    {
        HttpRequest {
            method: self.method.clone(),
            uri: self.uri.clone(),
            version: self.version.clone(),
            headers: copy_pairs(&self.headers),
            body: crate::bytes::part_bytes_all(self.body.as_slice()),
        }
    }
}

/// The value of the first header of that name.
pub open spec fn header_value(h: Seq<(Seq<char>, Seq<char>)>, name: Seq<char>) -> Option<Seq<char>> {
    let k = pair_at(h, name);
    if k < h.len() {
        Some(h[k].1)
    } else {
        None
    }
}

/// A comma-separated list holds the token, in any case.
pub open spec fn list_has(v: Seq<char>, token: Seq<char>) -> bool {
    exists|i: int|
        0 <= i < split(v, ',').len() && same_name(trim(#[trigger] split(v, ',')[i]), token)
}

/// Whether the connection stays open: `close` wins over `keep-alive`, and HTTP/1.1
/// stays open by itself.
pub open spec fn keeps_alive(version: Seq<char>, h: Seq<(Seq<char>, Seq<char>)>) -> bool {
    match header_value(h, "Connection"@) {
        Some(v) => if list_has(v, "close"@) {
            false
        } else if list_has(v, "keep-alive"@) {
            true
        } else {
            version == "HTTP/1.1"@
        },
        None => version == "HTTP/1.1"@,
    }
}

/// The first header of that name in a list.
pub fn get_pair<'a>(h: &'a Vec<(String, String)>, name: &str) -> (r: Option<&'a str>)
    ensures
        match r {
            Some(v) => header_value(pairs(h@), name@) == Some(v@),
            None => header_value(pairs(h@), name@) is None,
        },
{
    let k: usize = find_pair(h, name);
    if k < h.len() {
        assert(pairs(h@)[k as int].1 == h@[k as int].1@);
        Some(h[k].1.as_str())
    } else {
        None
    }
}

/// Whether a comma-separated list holds the token.
pub fn list_contains(v: &str, token: &str) -> (b: bool)
    ensures
        b == list_has(v@, token@),
{
    let p = split_of(&chars_of(v), ',');
    let ghost t = split(v@, ',');
    let mut i: usize = 0;
    while i < p.len()
        invariant
            t == split(v@, ','),
            texts(p@) == t,
            i <= p@.len(),
            forall|j: int| 0 <= j < i ==> !same_name(trim(#[trigger] t[j]), token@),
        decreases p@.len() - i,
    {
        assert(t[i as int] == p@[i as int]@);
        assert(t.len() == p@.len());
        if is_name(&trim_of(&p[i]), token) {
            return true;
        }
        i = i + 1;
    }
    assert(t.len() == p@.len());
    false
}

impl HttpRequest {
    /// The value of the first header of that name.
    pub fn get_header(&self, name: &str) -> (r: Option<&str>)
        ensures
            match r {
                Some(v) => header_value(self@.headers, name@) == Some(v@),
                None => header_value(self@.headers, name@) is None,
            },
    {
        get_pair(&self.headers, name)
    }

    /// Whether the connection stays open after the response.
    pub fn is_keep_alive(&self) -> (b: bool)
        ensures
            b == keeps_alive(self@.version, self@.headers),
    {
        match self.get_header("Connection") {
            Some(v) => {
                if list_contains(v, "close") {
                    return false;
                }
                if list_contains(v, "keep-alive") {
                    return true;
                }
            },
            None => {},
        }
        is_text(&chars_of(self.version.as_str()), "HTTP/1.1")
    }
}

/// The part of a request before its body.
#[derive(Debug)]
pub struct HttpRequestHead {
    pub method: Method,
    pub uri: String,
    pub version: String,
    pub headers: Vec<(String, String)>,
    pub content_length: usize,
    pub header_len: usize,
}

#[verifier::ext_equal]
pub struct HeadView {
    pub method: MethodView,
    pub uri: Seq<char>,
    pub version: Seq<char>,
    pub headers: Seq<(Seq<char>, Seq<char>)>,
    pub content_length: usize,
    pub header_len: usize,
}

impl View for HttpRequestHead {
    type V = HeadView;

    open spec fn view(&self) -> HeadView {
        HeadView {
            method: self.method@,
            uri: self.uri@,
            version: self.version@,
            headers: pairs(self.headers@),
            content_length: self.content_length,
            header_len: self.header_len,
        }
    }
}

impl Clone for HttpRequestHead {
    fn clone(&self) -> (r: Self)
        ensures
            r@ == self@,
    {
        HttpRequestHead {
            method: self.method.clone(),
            uri: self.uri.clone(),
            version: self.version.clone(),
            headers: copy_pairs(&self.headers),
            content_length: self.content_length,
            header_len: self.header_len,
        }
    }
}

/// The request of a head and a body.
pub open spec fn with_body_bytes(h: HeadView, body: Seq<u8>) -> RequestView {
    RequestView { method: h.method, uri: h.uri, version: h.version, headers: h.headers, body }
}

impl HttpRequestHead {
    /// The request made of this head and a body.
    pub fn into_request(self, body: Vec<u8>) -> (r: HttpRequest)
        ensures
            r@ == with_body_bytes(self@, body@),
    {
        HttpRequest {
            method: self.method,
            uri: self.uri,
            version: self.version,
            headers: self.headers,
            body,
        }
    }
}

/// Carriage returns and line feeds stand in pairs only.
pub open spec fn breaks_paired(b: Seq<u8>) -> bool {
    forall|i: int|
        0 <= i < b.len() ==> (#[trigger] b[i] == 10 ==> i > 0 && b[i - 1] == 13) && (b[i] == 13
            ==> i + 1 < b.len() && b[i + 1] == 10)
}

pub open spec fn all_letters(s: Seq<char>) -> bool {
    forall|i: int| 0 <= i < s.len() ==> is_upper(#[trigger] s[i]) || is_lower(s[i])
}

/// No control character.
pub open spec fn no_controls(s: Seq<char>) -> bool {
    forall|i: int| 0 <= i < s.len() ==> (#[trigger] s[i]) as u32 > 31 && s[i] as u32 != 127
}

/// The request line: a method of letters, a target and the version.
pub open spec fn request_line(line: Seq<char>, c: ServerView) -> Result<
    (MethodView, Seq<char>),
    HttpParseError,
> {
    let p = split(line, ' ');
    if p.len() != 3 || p[0].len() == 0 || p[1].len() == 0 || p[2].len() == 0 || has_char(
        line,
        '\t',
    ) {
        Err(HttpParseError::MalformedRequest)
    } else if !all_letters(p[0]) {
        Err(HttpParseError::MalformedRequest)
    } else if encode_utf8(p[1]).len() > c.max_uri_length {
        Err(HttpParseError::OversizedRequestLine)
    } else if encode_utf8(line).len() > c.max_header_line {
        Err(HttpParseError::OversizedHeaderLine)
    } else if !no_controls(p[1]) {
        Err(HttpParseError::MalformedRequest)
    } else if p[2] != "HTTP/1.1"@ {
        Err(HttpParseError::UnsupportedVersion)
    } else {
        Ok((method_named(upper(p[0])), p[1]))
    }
}

/// The headers after one more line.
pub open spec fn header_step(
    h: Seq<(Seq<char>, Seq<char>)>,
    line: Seq<char>,
    c: ServerView,
) -> Result<Seq<(Seq<char>, Seq<char>)>, HttpParseError> {
    let name = before(line, ':');
    let value = trim(after(line, ':'));
    if trim(line).len() == 0 {
        Ok(h)
    } else if encode_utf8(line).len() > c.max_header_line {
        Err(HttpParseError::OversizedHeaderLine)
    } else if h.len() >= c.max_headers {
        Err(HttpParseError::TooManyHeaders)
    } else if !has_char(line, ':') || !header_name_ok(name) || !no_breaks(value) {
        Err(HttpParseError::MalformedRequest)
    } else if same_name(name, "Transfer-Encoding"@) {
        Err(HttpParseError::ChunkedEncodingNotImplemented)
    } else {
        Ok(h.push((name, value)))
    }
}

/// The headers of the given lines.
pub open spec fn header_scan(l: Seq<Seq<char>>, c: ServerView) -> Result<
    Seq<(Seq<char>, Seq<char>)>,
    HttpParseError,
>
    decreases l.len(),
{
    if l.len() == 0 {
        Ok(Seq::empty())
    } else {
        match header_scan(l.drop_last(), c) {
            Err(e) => Err(e),
            Ok(h) => header_step(h, l.last(), c),
        }
    }
}

/// The values of all headers of that name.
pub open spec fn values_named(h: Seq<(Seq<char>, Seq<char>)>, name: Seq<char>) -> Seq<Seq<char>>
    decreases h.len(),
{
    if h.len() == 0 {
        Seq::empty()
    } else {
        let r = values_named(h.drop_last(), name);
        if same_name(h.last().0, name) {
            r.push(h.last().1)
        } else {
            r
        }
    }
}

/// The announced length of the body.
pub open spec fn body_length(h: Seq<(Seq<char>, Seq<char>)>, c: ServerView) -> Result<
    usize,
    HttpParseError,
> {
    let l = values_named(h, "Content-Length"@);
    if l.len() == 0 {
        Ok(0)
    } else if exists|i: int| 0 <= i < l.len() && #[trigger] l[i] != l[0] {
        Err(HttpParseError::ConflictingHeaders)
    } else {
        match parse_uint(l[0], usize::MAX as nat) {
            None => Err(HttpParseError::MalformedContentLength),
            Some(n) => if n > c.max_request_size {
                Err(HttpParseError::OversizedBody)
            } else {
                Ok(n as usize)
            },
        }
    }
}

/// The head made of the lines of a header block.
pub open spec fn head_of_lines(l: Seq<Seq<char>>, header_len: usize, c: ServerView) -> Result<
    HeadView,
    HttpParseError,
> {
    match request_line(l[0], c) {
        Err(e) => Err(e),
        Ok((method, uri)) => match header_scan(l.subrange(1, l.len() as int), c) {
            Err(e) => Err(e),
            Ok(headers) => {
                let hosts = values_named(headers, "Host"@);
                if hosts.len() == 0 {
                    Err(HttpParseError::MissingHost)
                } else if hosts.len() > 1 || trim(hosts[0]).len() == 0 {
                    Err(HttpParseError::MalformedHost)
                } else {
                    match body_length(headers, c) {
                        Err(e) => Err(e),
                        Ok(content_length) => Ok(
                            HeadView {
                                method,
                                uri,
                                version: "HTTP/1.1"@,
                                headers,
                                content_length,
                                header_len,
                            },
                        ),
                    }
                }
            },
        },
    }
}

/// What stands at the beginning of the received bytes: nothing complete yet, a
/// request head, or something that no request may be.
pub open spec fn request_head(b: Seq<u8>, c: ServerView) -> Result<
    Option<HeadView>,
    HttpParseError,
> {
    let end = sub_find(b, blank_line(), 0);
    let block = b.subrange(0, end);
    if end == b.len() {
        if b.len() > c.max_header_size {
            Err(HttpParseError::OversizedHeader)
        } else {
            Ok(None)
        }
    } else if end + 4 > c.max_header_size {
        Err(HttpParseError::OversizedHeader)
    } else if !breaks_paired(block) || !valid_utf8(block) {
        Err(HttpParseError::MalformedRequest)
    } else {
        match head_of_lines(split_crlf(decode_utf8(block)), (end + 4) as usize, c) {
            Ok(h) => Ok(Some(h)),
            Err(e) => Err(e),
        }
    }
}

/// Bytes that arrive later change neither a head that is complete nor a refusal.
pub proof fn law_later_bytes_change_no_head(b: Seq<u8>, more: Seq<u8>, c: ServerView)
    requires
        request_head(b, c) != Ok::<Option<HeadView>, HttpParseError>(None),
    ensures
        request_head(b + more, c) == request_head(b, c),
{
    let n = blank_line();
    let w = b + more;
    let end = sub_find(b, n, 0);
    lemma_sub_find(b, n, 0);
    if end < b.len() {
        lemma_sub_find_extends(b, more, n, 0);
        assert(w.subrange(0, end) =~= b.subrange(0, end));
    } else {
        lemma_sub_find(w, n, 0);
        let k = sub_find(w, n, 0);
        if k < w.len() && k + n.len() <= b.len() {
            assert(w.subrange(k, k + n.len()) =~= b.subrange(k, k + n.len()));
            assert(sub_at(b, n, k));
        }
    }
}

proof fn lemma_header_scan(l: Seq<Seq<char>>, c: ServerView)
    requires
        header_scan(l, c) is Ok,
    ensures
        ({
            let h = header_scan(l, c)->Ok_0;
            &&& h.len() <= c.max_headers
            &&& forall|i: int|
                0 <= i < h.len() ==> header_name_ok((#[trigger] h[i]).0) && no_breaks(h[i].1)
                    && !same_name(h[i].0, "Transfer-Encoding"@)
        }),
    decreases l.len(),
{
    if l.len() > 0 {
        lemma_header_scan(l.drop_last(), c);
    }
}

/// Every head that is accepted is HTTP/1.1, keeps the limits, has exactly one host,
/// names its headers by tokens, has no line break in a value and announces no
/// transfer encoding.
pub proof fn law_accepted_heads_are_strict(b: Seq<u8>, c: ServerView)
    requires
        request_head(b, c) matches Ok(Some(_)),
    ensures
        ({
            let h = request_head(b, c)->Ok_0->Some_0;
            &&& h.version == "HTTP/1.1"@
            &&& h.header_len <= c.max_header_size
            &&& h.header_len <= b.len()
            &&& h.content_length <= c.max_request_size
            &&& h.headers.len() <= c.max_headers
            &&& values_named(h.headers, "Host"@).len() == 1
            &&& forall|i: int|
                0 <= i < h.headers.len() ==> header_name_ok((#[trigger] h.headers[i]).0)
                    && no_breaks(h.headers[i].1) && !same_name(
                    h.headers[i].0,
                    "Transfer-Encoding"@,
                )
        }),
{
    lemma_sub_find(b, blank_line(), 0);
    let end = sub_find(b, blank_line(), 0);
    let l = split_crlf(decode_utf8(b.subrange(0, end)));
    lemma_header_scan(l.subrange(1, l.len() as int), c);
}

fn paired(b: &[u8]) -> (r: bool)
    ensures
        r == breaks_paired(b@),
{
    let mut i: usize = 0;
    while i < b.len()
        invariant
            i <= b@.len(),
            forall|j: int|
                0 <= j < i ==> (#[trigger] b@[j] == 10 ==> j > 0 && b@[j - 1] == 13) && (b@[j] == 13
                    ==> j + 1 < b@.len() && b@[j + 1] == 10),
        decreases b@.len() - i,
    {
        let x: u8 = b[i];
        if x == 10 && (i == 0 || b[i - 1] != 13) {
            assert(b@[i as int] == 10);
            return false;
        }
        if x == 13 && (i + 1 >= b.len() || b[i + 1] != 10) {
            assert(b@[i as int] == 13);
            return false;
        }
        i = i + 1;
    }
    true
}

fn only_letters(s: &Vec<char>) -> (r: bool)
    ensures
        r == all_letters(s@),
{
    let mut i: usize = 0;
    while i < s.len()
        invariant
            i <= s@.len(),
            forall|j: int| 0 <= j < i ==> is_upper(#[trigger] s@[j]) || is_lower(s@[j]),
        decreases s@.len() - i,
    {
        let n: u32 = s[i] as u32;
        if !((65 <= n && n <= 90) || (97 <= n && n <= 122)) {
            assert(!is_upper(s@[i as int]) && !is_lower(s@[i as int]));
            return false;
        }
        i = i + 1;
    }
    true
}

fn free_of_controls(s: &Vec<char>) -> (r: bool)
    ensures
        r == no_controls(s@),
{
    let mut i: usize = 0;
    while i < s.len()
        invariant
            i <= s@.len(),
            forall|j: int| 0 <= j < i ==> (#[trigger] s@[j]) as u32 > 31 && s@[j] as u32 != 127,
        decreases s@.len() - i,
    {
        let n: u32 = s[i] as u32;
        if n <= 31 || n == 127 {
            assert(s@[i as int] as u32 == n);
            return false;
        }
        i = i + 1;
    }
    true
}

fn free_of_breaks(s: &Vec<char>) -> (r: bool)
    ensures
        r == no_breaks(s@),
{
    let mut i: usize = 0;
    while i < s.len()
        invariant
            i <= s@.len(),
            forall|j: int| 0 <= j < i ==> #[trigger] s@[j] != '\r' && s@[j] != '\n',
        decreases s@.len() - i,
    {
        if s[i] == '\r' || s[i] == '\n' {
            assert(s@[i as int] == '\r' || s@[i as int] == '\n');
            return false;
        }
        i = i + 1;
    }
    true
}

fn read_request_line(line: &Vec<char>, c: &ServerConfig) -> (r: Result<
    (Method, Vec<char>),
    HttpParseError,
>)
    ensures
        match r {
            Ok(x) => request_line(line@, c@) == Ok::<_, HttpParseError>((x.0@, x.1@)),
            Err(e) => request_line(line@, c@) == Err::<(MethodView, Seq<char>), _>(e),
        },
{
    let p = split_of(line, ' ');
    let ghost t = split(line@, ' ');
    assert(t.len() == p@.len());
    assert(forall|i: int| 0 <= i < t.len() ==> t[i] == p@[i]@);
    if p.len() != 3 || p[0].len() == 0 || p[1].len() == 0 || p[2].len() == 0 || find_of(line, '\t')
        < line.len() {
        return Err(HttpParseError::MalformedRequest);
    }
    if !only_letters(&p[0]) {
        return Err(HttpParseError::MalformedRequest);
    }
    if byte_len(&p[1]) > c.max_uri_length {
        return Err(HttpParseError::OversizedRequestLine);
    }
    if byte_len(line) > c.max_header_line {
        return Err(HttpParseError::OversizedHeaderLine);
    }
    if !free_of_controls(&p[1]) {
        return Err(HttpParseError::MalformedRequest);
    }
    if !is_text(&p[2], "HTTP/1.1") {
        return Err(HttpParseError::UnsupportedVersion);
    }
    let method = Method::named(string_of(&crate::text::upper_of(&p[0])));
    Ok((method, crate::text::copy(&p[1])))
}

fn read_header(h: &mut Vec<(String, String)>, line: &Vec<char>, c: &ServerConfig) -> (r: Option<
    HttpParseError,
>)
    ensures
        match r {
            None => header_step(pairs(old(h)@), line@, c@) == Ok::<_, HttpParseError>(
                pairs(final(h)@),
            ),
            Some(e) => header_step(pairs(old(h)@), line@, c@) == Err::<
                Seq<(Seq<char>, Seq<char>)>,
                _,
            >(e),
        },
{
    if trim_of(line).len() == 0 {
        return None;
    }
    if byte_len(line) > c.max_header_line {
        return Some(HttpParseError::OversizedHeaderLine);
    }
    if h.len() >= c.max_headers {
        return Some(HttpParseError::TooManyHeaders);
    }
    let at: usize = find_of(line, ':');
    if at == line.len() {
        return Some(HttpParseError::MalformedRequest);
    }
    let name = part(line, 0, at);
    let value = trim_of(&part(line, at + 1, line.len()));
    if !valid_header_name(&name) || !free_of_breaks(&value) {
        return Some(HttpParseError::MalformedRequest);
    }
    if is_name(&name, "Transfer-Encoding") {
        return Some(HttpParseError::ChunkedEncodingNotImplemented);
    }
    crate::config::native::push_pair(h, &name, &value);
    None
}

/// The values of all headers of that name.
pub fn all_values(h: &Vec<(String, String)>, name: &str) -> (r: Vec<String>)
    ensures
        strings(r@) == values_named(pairs(h@), name@),
{
    let ghost p = pairs(h@);
    let mut r: Vec<String> = Vec::new();
    let mut i: usize = 0;
    assert(p.subrange(0, 0) =~= Seq::<(Seq<char>, Seq<char>)>::empty());
    assert(strings(r@) =~= Seq::<Seq<char>>::empty());
    while i < h.len()
        invariant
            p == pairs(h@),
            i <= h@.len(),
            strings(r@) == values_named(p.subrange(0, i as int), name@),
        decreases h@.len() - i,
    {
        assert(p.subrange(0, i + 1).drop_last() =~= p.subrange(0, i as int));
        if crate::config::merge::names_match(h[i].0.as_str(), name) {
            let ghost prev = strings(r@);
            r.push(h[i].1.clone());
            assert(strings(r@) =~= prev.push(p[i as int].1));
        }
        i = i + 1;
    }
    assert(p.subrange(0, h@.len() as int) =~= p);
    r
}

fn read_body_length(h: &Vec<(String, String)>, c: &ServerConfig) -> (r: Result<
    usize,
    HttpParseError,
>)
    ensures
        r == body_length(pairs(h@), c@),
{
    let l = all_values(h, "Content-Length");
    let ghost w = values_named(pairs(h@), "Content-Length"@);
    assert(w.len() == l@.len());
    assert(forall|i: int| 0 <= i < w.len() ==> w[i] == l@[i]@);
    if l.len() == 0 {
        return Ok(0);
    }
    let first = chars_of(l[0].as_str());
    let mut i: usize = 0;
    while i < l.len()
        invariant
            l@.len() > 0,
            i <= l@.len(),
            w == strings(l@),
            w == values_named(pairs(h@), "Content-Length"@),
            first@ == w[0],
            forall|j: int| 0 <= j < i ==> #[trigger] w[j] == w[0],
        decreases l@.len() - i,
    {
        if !is_text(&first, l[i].as_str()) {
            assert(w[i as int] != w[0]);
            return Err(HttpParseError::ConflictingHeaders);
        }
        i = i + 1;
    }
    match read_usize(&first) {
        None => Err(HttpParseError::MalformedContentLength),
        Some(n) => if n > c.max_request_size {
            Err(HttpParseError::OversizedBody)
        } else {
            Ok(n)
        },
    }
}

proof fn lemma_header_scan_fails(l: Seq<Seq<char>>, k: int, c: ServerView, e: HttpParseError)
    requires
        0 <= k <= l.len(),
        header_scan(l.subrange(0, k), c) == Err::<Seq<(Seq<char>, Seq<char>)>, _>(e),
    ensures
        header_scan(l, c) == Err::<Seq<(Seq<char>, Seq<char>)>, _>(e),
    decreases l.len(),
{
    if k == l.len() {
        assert(l.subrange(0, k) =~= l);
    } else {
        assert(l.drop_last().subrange(0, k) =~= l.subrange(0, k));
        lemma_header_scan_fails(l.drop_last(), k, c, e);
    }
}

fn read_lines(l: &Vec<Vec<char>>, header_len: usize, c: &ServerConfig) -> (r: Result<
    HttpRequestHead,
    HttpParseError,
>)
    requires
        l@.len() > 0,
    ensures
        match r {
            Ok(h) => head_of_lines(texts(l@), header_len, c@) == Ok::<_, HttpParseError>(h@),
            Err(e) => head_of_lines(texts(l@), header_len, c@) == Err::<HeadView, _>(e),
        },
{
    let ghost t = texts(l@);
    let (method, uri) = match read_request_line(&l[0], c) {
        Ok(x) => x,
        Err(e) => {
            return Err(e);
        },
    };
    let ghost rest = t.subrange(1, t.len() as int);
    let mut headers: Vec<(String, String)> = Vec::new();
    let mut i: usize = 1;
    assert(rest.subrange(0, 0) =~= Seq::<Seq<char>>::empty());
    assert(pairs(headers@) =~= Seq::<(Seq<char>, Seq<char>)>::empty());
    while i < l.len()
        invariant
            1 <= i <= l@.len(),
            t == texts(l@),
            rest == t.subrange(1, t.len() as int),
            request_line(t[0], c@) is Ok,
            header_scan(rest.subrange(0, i - 1), c@) == Ok::<_, HttpParseError>(pairs(headers@)),
        decreases l@.len() - i,
    {
        assert(rest.subrange(0, i as int).drop_last() =~= rest.subrange(0, i - 1));
        assert(rest.subrange(0, i as int).last() == l@[i as int]@);
        match read_header(&mut headers, &l[i], c) {
            Some(e) => {
                proof {
                    lemma_header_scan_fails(rest, i as int, c@, e);
                }
                return Err(e);
            },
            None => {},
        }
        i = i + 1;
    }
    assert(rest.subrange(0, l@.len() - 1) =~= rest);
    let hosts = all_values(&headers, "Host");
    assert(strings(hosts@).len() == hosts@.len());
    if hosts.len() == 0 {
        return Err(HttpParseError::MissingHost);
    }
    assert(strings(hosts@)[0] == hosts@[0]@);
    if hosts.len() > 1 || trim_of(&chars_of(hosts[0].as_str())).len() == 0 {
        return Err(HttpParseError::MalformedHost);
    }
    let content_length: usize = match read_body_length(&headers, c) {
        Ok(n) => n,
        Err(e) => {
            return Err(e);
        },
    };
    Ok(
        HttpRequestHead {
            method,
            uri: string_of(&uri),
            version: "HTTP/1.1".to_owned(),
            headers,
            content_length,
            header_len,
        },
    )
}

/// Reads a request head from the beginning of the received bytes and leaves them
/// as they are.
pub fn parse_http_request_head_from_buf_with_limits(buffer: &[u8], config: &ServerConfig) -> (r:
    Result<Option<HttpRequestHead>, HttpParseError>)
    ensures
        match r {
            Ok(Some(h)) => request_head(buffer@, config@) == Ok::<_, HttpParseError>(Some(h@))
                && 4 <= h.header_len <= buffer@.len(),
            Ok(None) => request_head(buffer@, config@) == Ok::<Option<HeadView>, HttpParseError>(
                None,
            ),
            Err(e) => request_head(buffer@, config@) == Err::<Option<HeadView>, _>(e),
        },
{
    let mark: [u8; 4] = [13, 10, 13, 10];
    let received: usize = buffer.len();
    assert(mark@ =~= blank_line());
    let end: usize = match find_bytes(buffer, mark.as_slice()) {
        Some(i) => i,
        None => {
            if received > config.max_header_size {
                return Err(HttpParseError::OversizedHeader);
            }
            return Ok(None);
        },
    };
    if end + 4 > config.max_header_size {
        return Err(HttpParseError::OversizedHeader);
    }
    let block = part_bytes(buffer, 0, end);
    if !paired(block.as_slice()) {
        return Err(HttpParseError::MalformedRequest);
    }
    let text = match utf8_text(block.as_slice()) {
        Some(s) => s,
        None => {
            return Err(HttpParseError::MalformedRequest);
        },
    };
    let lines = split_crlf_of(&chars_of(text.as_str()));
    match read_lines(&lines, end + 4, config) {
        Ok(h) => Ok(Some(h)),
        Err(e) => Err(e),
    }
}

/// Takes a complete request off the received bytes.
pub fn parse_http_request_from_buf_with_limits(buffer: &mut Vec<u8>, config: &ServerConfig) -> (r:
    Result<Option<HttpRequest>, HttpParseError>)
    ensures
        match request_head(old(buffer)@, config@) {
            Err(e) => final(buffer)@ == old(buffer)@ && r == Err::<Option<HttpRequest>, _>(e),
            Ok(None) => final(buffer)@ == old(buffer)@ && (r matches Ok(x) && x is None),
            Ok(Some(h)) => {
                let end = h.header_len + h.content_length;
                if old(buffer)@.len() < end {
                    final(buffer)@ == old(buffer)@ && (r matches Ok(x) && x is None)
                } else {
                    &&& final(buffer)@ == old(buffer)@.subrange(end, old(buffer)@.len() as int)
                    &&& r matches Ok(Some(q))
                    &&& q@ == with_body_bytes(
                        h,
                        old(buffer)@.subrange(h.header_len as int, end),
                    )
                }
            },
        },
{
    let received: usize = buffer.len();
    let head = match parse_http_request_head_from_buf_with_limits(buffer.as_slice(), config) {
        Err(e) => {
            return Err(e);
        },
        Ok(None) => {
            return Ok(None);
        },
        Ok(Some(h)) => h,
    };
    let total: usize = match head.header_len.checked_add(head.content_length) {
        Some(n) => n,
        None => {
            return Ok(None);
        },
    };
    if received < total {
        return Ok(None);
    }
    let body = part_bytes(buffer.as_slice(), head.header_len, total);
    let rest = part_bytes(buffer.as_slice(), total, received);
    *buffer = rest;
    Ok(Some(head.into_request(body)))
}

/// Takes a complete request off the received bytes, under the default limits.
pub fn parse_http_request_from_buf(buffer: &mut Vec<u8>) -> (r: Result<
    Option<HttpRequest>,
    HttpParseError,
>)
    ensures
        match request_head(old(buffer)@, default_server()) {
            Err(e) => final(buffer)@ == old(buffer)@ && r == Err::<Option<HttpRequest>, _>(e),
            Ok(None) => final(buffer)@ == old(buffer)@ && (r matches Ok(x) && x is None),
            Ok(Some(h)) => {
                let end = h.header_len + h.content_length;
                if old(buffer)@.len() < end {
                    final(buffer)@ == old(buffer)@ && (r matches Ok(x) && x is None)
                } else {
                    &&& final(buffer)@ == old(buffer)@.subrange(end, old(buffer)@.len() as int)
                    &&& r matches Ok(Some(q))
                    &&& q@ == with_body_bytes(
                        h,
                        old(buffer)@.subrange(h.header_len as int, end),
                    )
                }
            },
        },
{
    let config = ServerConfig::default();
    parse_http_request_from_buf_with_limits(buffer, &config)
}

} // verus!
