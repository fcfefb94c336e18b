//! HTTP responses: their head on the wire and where their body comes from.

use crate::bytes::{bytes_of, part_bytes_all, push_bytes};
use crate::config::types::{copy_pairs, pairs};
use crate::config::veysrule::without_breaks;
use crate::server::http::{StatusCode, SERVER_NAME};
use crate::text::{
    chars_of, decimal, decimal_of, is_name, push_str, push_text, same_name, string_of,
};
use vstd::prelude::*;
use vstd::utf8::encode_utf8;

verus! {

/// Where the body of a response comes from. Files are held by the caller: a
/// response has at most one.
#[derive(Debug, PartialEq, Eq)]
pub enum BodySource {
    Bytes(Vec<u8>),
    /// A whole file of that size.
    File(u64),
    /// A part of the file: where it starts and how long it is.
    FileRange(u64, u64),
    /// The file of that size, compressed at that level while it is sent.
    GzipFile(u64, u32),
}

#[verifier::ext_equal]
pub enum SourceView {
    Bytes(Seq<u8>),
    File(u64),
    FileRange(u64, u64),
    GzipFile(u64, u32),
}

impl View for BodySource {
    type V = SourceView;

    open spec fn view(&self) -> SourceView {
        match self {
            BodySource::Bytes(b) => SourceView::Bytes(b@),
            BodySource::File(n) => SourceView::File(*n),
            BodySource::FileRange(a, n) => SourceView::FileRange(*a, *n),
            BodySource::GzipFile(n, l) => SourceView::GzipFile(*n, *l),
        }
    }
}

impl Default for BodySource {
    fn default() -> (r: Self)
        ensures
            r@ == SourceView::Bytes(Seq::empty()),
    {
        let none: Vec<u8> = Vec::new();
        assert(none@ =~= Seq::<u8>::empty());
        BodySource::Bytes(none)
    }
}

impl Clone for BodySource {
    fn clone(&self) -> (r: Self)
        ensures
            r@ == self@,
    {
        match self {
            BodySource::Bytes(b) => BodySource::Bytes(part_bytes_all(b.as_slice())),
            BodySource::File(n) => BodySource::File(*n),
            BodySource::FileRange(a, n) => BodySource::FileRange(*a, *n),
            BodySource::GzipFile(n, l) => BodySource::GzipFile(*n, *l),
        }
    }
}

#[derive(Debug)]
pub struct HttpResponse {
    pub status: StatusCode,
    pub headers: Vec<(String, String)>,
    pub body_source: BodySource,
    pub close_connection: bool,
}

#[verifier::ext_equal]
pub struct ResponseView {
    pub status: StatusCode,
    pub headers: Seq<(Seq<char>, Seq<char>)>,
    pub body_source: SourceView,
    pub close_connection: bool,
}

impl View for HttpResponse {
    type V = ResponseView;

    open spec fn view(&self) -> ResponseView {
        ResponseView {
            status: self.status,
            headers: pairs(self.headers@),
            body_source: self.body_source@,
            close_connection: self.close_connection,
        }
    }
}

impl Clone for HttpResponse {
    fn clone(&self) -> (r: Self)
        ensures
            r@ == self@,
    {
        HttpResponse {
            status: self.status,
            headers: copy_pairs(&self.headers),
            body_source: self.body_source.clone(),
            close_connection: self.close_connection,
        }
    }
}

/// A response with nothing but the server's name.
pub open spec fn bare_response(status: StatusCode) -> ResponseView {
    ResponseView {
        status,
        headers: seq![("Server"@, SERVER_NAME@)],
        body_source: SourceView::Bytes(Seq::empty()),
        close_connection: false,
    }
}

/// The response with one more header.
pub open spec fn add_header(r: ResponseView, name: Seq<char>, value: Seq<char>) -> ResponseView {
    ResponseView { headers: r.headers.push((name, value)), ..r }
}

/// The response with a body of known length and type.
pub open spec fn add_body(r: ResponseView, length: nat, kind: Seq<char>, body: SourceView) ->
    ResponseView {
    ResponseView {
        body_source: body,
        ..add_header(
            add_header(r, "Content-Length"@, decimal(length)),
            "Content-Type"@,
            kind,
        )
    }
}

/// A plain-text answer.
pub open spec fn plain_answer(status: StatusCode, text: Seq<char>) -> ResponseView {
    with_plain_text(bare_response(status), text)
}

/// The response with a plain text as body.
pub open spec fn with_plain_text(r: ResponseView, text: Seq<char>) -> ResponseView {
    add_body(
        r,
        encode_utf8(text).len(),
        "text/plain; charset=utf-8"@,
        SourceView::Bytes(encode_utf8(text)),
    )
}

/// The response with an empty plain text as body.
pub open spec fn with_nothing(r: ResponseView) -> ResponseView {
    add_body(r, 0, "text/plain; charset=utf-8"@, SourceView::Bytes(Seq::empty()))
}

pub open spec fn has_header(h: Seq<(Seq<char>, Seq<char>)>, name: Seq<char>) -> bool {
    exists|i: int| 0 <= i < h.len() && same_name((#[trigger] h[i]).0, name)
}

/// The header lines of a response; a chunked body has no announced length.
pub open spec fn header_lines(h: Seq<(Seq<char>, Seq<char>)>, chunked: bool) -> Seq<char>
    decreases h.len(),
{
    if h.len() == 0 {
        Seq::empty()
    } else {
        let r = header_lines(h.drop_last(), chunked);
        if chunked && same_name(h.last().0, "Content-Length"@) {
            r
        } else {
            r + h.last().0 + ": "@ + h.last().1 + "\r\n"@
        }
    }
}

/// The head of a response as it is sent over HTTP/1.1.
pub open spec fn response_head(r: ResponseView) -> Seq<char> {
    let chunked = r.body_source is GzipFile;
    "HTTP/1.1 "@ + decimal(r.status.number() as nat) + " "@ + r.status.phrase() + "\r\n"@
        + header_lines(r.headers, chunked) + (if has_header(r.headers, "Connection"@) {
        Seq::empty()
    } else if r.close_connection {
        "Connection: close\r\n"@
    } else {
        "Connection: keep-alive\r\n"@
    }) + (if chunked && !has_header(r.headers, "Transfer-Encoding"@) {
        "Transfer-Encoding: chunked\r\n"@
    } else {
        Seq::empty()
    }) + "\r\n"@
}

/// The number of bytes of the body before any compression.
pub open spec fn source_len(b: SourceView) -> int {
    match b {
        SourceView::Bytes(x) => x.len() as int,
        SourceView::File(n) => n as int,
        SourceView::FileRange(_, n) => n as int,
        SourceView::GzipFile(n, _) => n as int,
    }
}

/// Whether a list of headers has one of that name.
pub fn contains_header(h: &Vec<(String, String)>, name: &str) -> (b: bool)
    ensures
        b == has_header(pairs(h@), name@),
{
    let ghost p = pairs(h@);
    let mut i: usize = 0;
    while i < h.len()
        invariant
            p == pairs(h@),
            i <= h@.len(),
            forall|j: int| 0 <= j < i ==> !same_name((#[trigger] p[j]).0, name@),
        decreases h@.len() - i,
    {
        assert(p[i as int].0 == h@[i as int].0@);
        if is_name(&chars_of(h[i].0.as_str()), name) {
            return true;
        }
        i = i + 1;
    }
    false
}

/// Adds a header to a list.
pub fn push_header(h: &mut Vec<(String, String)>, name: &str, value: &str)
    ensures
        pairs(final(h)@) == pairs(old(h)@).push((name@, value@)),
{
    let ghost prev = pairs(h@);
    h.push((name.to_owned(), value.to_owned()));
    assert(pairs(h@) =~= prev.push((name@, value@)));
}

impl HttpResponse {
    /// A response with nothing but the server's name.
    pub fn new(status: StatusCode) -> (r: Self)
        ensures
            r@ == bare_response(status),
    {
        let mut headers: Vec<(String, String)> = Vec::new();
        headers.push(("Server".to_owned(), SERVER_NAME.to_owned()));
        assert(pairs(headers@) =~= bare_response(status).headers);
        HttpResponse {
            status,
            headers,
            body_source: BodySource::default(),
            close_connection: false,
        }
    }

    /// Adds a header; line breaks in its name and value are dropped.
    pub fn with_header(self, name: &str, value: &str) -> (r: Self)
        ensures
            r@ == add_header(self@, without_breaks(name@), without_breaks(value@)),
    {
        let mut r = self;
        let n = string_of(&crate::config::veysrule::drop_breaks(&chars_of(name)));
        let v = string_of(&crate::config::veysrule::drop_breaks(&chars_of(value)));
        push_header(&mut r.headers, n.as_str(), v.as_str());
        r
    }

    fn with_source(self, length: u64, content_type: &str, source: BodySource) -> (r: Self)
        ensures
            r@ == add_body(self@, length as nat, content_type@, source@),
    {
        let mut r = self;
        let n = string_of(&decimal_of(length));
        push_header(&mut r.headers, "Content-Length", n.as_str());
        push_header(&mut r.headers, "Content-Type", content_type);
        r.body_source = source;
        r
    }

    /// Gives the response a body in memory.
    pub fn with_body(self, body: Vec<u8>, content_type: &str) -> (r: Self)
        ensures
            r@ == add_body(self@, body@.len(), content_type@, SourceView::Bytes(body@)),
    {
        let n: u64 = body.len() as u64;
        self.with_source(n, content_type, BodySource::Bytes(body))
    }

    /// Gives the response a whole file as body.
    pub fn with_file(self, file_size: u64, content_type: &str) -> (r: Self)
        ensures
            r@ == add_body(
                self@,
                file_size as nat,
                content_type@,
                SourceView::File(file_size),
            ),
    {
        self.with_source(file_size, content_type, BodySource::File(file_size))
    }

    /// Gives the response a part of a file as body.
    pub fn with_file_range(self, offset: u64, length: u64, content_type: &str) -> (r: Self)
        ensures
            r@ == add_body(
                self@,
                length as nat,
                content_type@,
                SourceView::FileRange(offset, length),
            ),
    {
        self.with_source(length, content_type, BodySource::FileRange(offset, length))
    }

    /// Says whether the connection closes after the response.
    pub fn set_close_connection(self, close: bool) -> (r: Self)
        ensures
            r@ == (ResponseView { close_connection: close, ..self@ }),
    {
        let mut r = self;
        r.close_connection = close;
        r
    }

    /// The number of bytes of the body before any compression.
    pub fn body_len(&self) -> (n: u64)
        ensures
            n == source_len(self@.body_source),
    {
        match &self.body_source {
            BodySource::Bytes(b) => b.len() as u64,
            BodySource::File(n) => *n,
            BodySource::FileRange(_, n) => *n,
            BodySource::GzipFile(n, _) => *n,
        }
    }

    /// Adds a header as it is.
    pub fn with_raw_header(self, name: &str, value: &str) -> (r: Self)
        ensures
            r@ == add_header(self@, name@, value@),
    {
        let mut r = self;
        push_header(&mut r.headers, name, value);
        r
    }

    /// Gives the response a plain text as body.
    pub fn with_text(self, text: &str) -> (r: Self)
        ensures
            r@ == with_plain_text(self@, text@),
    {
        self.with_body(bytes_of(text), "text/plain; charset=utf-8")
    }

    /// Gives the response an empty plain text as body.
    pub fn with_no_text(self) -> (r: Self)
        ensures
            r@ == with_nothing(self@),
    {
        let none: Vec<u8> = Vec::new();
        assert(none@ =~= Seq::<u8>::empty());
        self.with_body(none, "text/plain; charset=utf-8")
    }

    /// A plain-text answer in memory.
    pub fn plain(status: StatusCode, text: &str) -> (r: Self)
        ensures
            r@ == plain_answer(status, text@),
    {
        HttpResponse::new(status).with_text(text)
    }

    /// The head of the response as it is sent over HTTP/1.1.
    pub fn head_text(&self) -> (r: String)
        ensures
            r@ == response_head(self@),
    {
        let chunked = match &self.body_source {
            BodySource::GzipFile(_, _) => true,
            _ => false,
        };
        let mut out: Vec<char> = chars_of("HTTP/1.1 ");
        push_text(&mut out, &decimal_of(self.status.code() as u64));
        push_str(&mut out, " ");
        push_str(&mut out, self.status.reason_phrase());
        push_str(&mut out, "\r\n");
        let ghost line = out@;
        let ghost p = pairs(self.headers@);
        let mut i: usize = 0;
        assert(p.subrange(0, 0) =~= Seq::<(Seq<char>, Seq<char>)>::empty());
        assert(line + Seq::<char>::empty() =~= line);
        while i < self.headers.len()
            invariant
                p == pairs(self.headers@),
                i <= p.len(),
                out@ == line + header_lines(p.subrange(0, i as int), chunked),
            decreases p.len() - i,
        {
            let ghost before = header_lines(p.subrange(0, i as int), chunked);
            assert(p.subrange(0, i + 1).drop_last() =~= p.subrange(0, i as int));
            assert(p[i as int] == (self.headers@[i as int].0@, self.headers@[i as int].1@));
            if !(chunked && is_name(&chars_of(self.headers[i].0.as_str()), "Content-Length")) {
                push_str(&mut out, self.headers[i].0.as_str());
                push_str(&mut out, ": ");
                push_str(&mut out, self.headers[i].1.as_str());
                push_str(&mut out, "\r\n");
                assert(out@ =~= line + (before + p[i as int].0 + ": "@ + p[i as int].1
                    + "\r\n"@));
            }
            i = i + 1;
        }
        assert(p.subrange(0, p.len() as int) =~= p);
        if !contains_header(&self.headers, "Connection") {
            if self.close_connection {
                push_str(&mut out, "Connection: close\r\n");
            } else {
                push_str(&mut out, "Connection: keep-alive\r\n");
            }
        }
        if chunked && !contains_header(&self.headers, "Transfer-Encoding") {
            push_str(&mut out, "Transfer-Encoding: chunked\r\n");
        }
        push_str(&mut out, "\r\n");
        assert(out@ =~= response_head(self@));
        string_of(&out)
    }
}

/// The hexadecimal rendering of a number, in lower case.
pub open spec fn hexadecimal(n: nat) -> Seq<char>
    decreases n,
{
    let d = n % 16;
    let c = if d < 10 {
        (d + 48) as char
    } else {
        (d + 87) as char
    };
    if n < 16 {
        seq![c]
    } else {
        hexadecimal(n / 16).push(c)
    }
}

pub fn hexadecimal_of(n: u64) -> (r: Vec<char>)
    ensures
        r@ == hexadecimal(n as nat),
    decreases n,
{
    let d: u8 = (n % 16) as u8;
    let c = if d < 10 {
        (d + 48) as char
    } else {
        (d + 87) as char
    };
    let mut r: Vec<char> = Vec::new();
    if n >= 16 {
        r = hexadecimal_of(n / 16);
    }
    r.push(c);
    assert(n < 16 ==> r@ =~= hexadecimal(n as nat));
    r
}

/// The bytes that carry a piece of a body: as it is, or framed as a chunk; an empty
/// piece ends the body.
pub open spec fn chunk_on_wire(piece: Seq<u8>, chunked: bool) -> Seq<u8> {
    if !chunked {
        piece
    } else if piece.len() == 0 {
        encode_utf8("0\r\n\r\n"@)
    } else {
        encode_utf8(hexadecimal(piece.len()) + "\r\n"@) + piece + encode_utf8("\r\n"@)
    }
}

/// The bytes that carry a piece of a body.
pub fn write_chunked(piece: &[u8], chunked: bool) -> (r: Vec<u8>)
    ensures
        r@ == chunk_on_wire(piece@, chunked),
{
    if !chunked {
        return part_bytes_all(piece);
    }
    if piece.len() == 0 {
        return bytes_of("0\r\n\r\n");
    }
    let mut size = hexadecimal_of(piece.len() as u64);
    push_str(&mut size, "\r\n");
    let text = string_of(&size);
    let mut out = bytes_of(text.as_str());
    push_bytes(&mut out, piece);
    let end = bytes_of("\r\n");
    push_bytes(&mut out, end.as_slice());
    out
}

} // verus!
