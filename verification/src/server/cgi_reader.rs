//! FastCGI responses for HTTP/2 streams: the head is awaited without blocking and the
//! body is read as far as it has come.

use crate::bytes::{blank, blank_line, find_bytes, part_bytes, push_bytes, sub_find};
use crate::config::types::pairs;
use crate::server::fastcgi::sum_capped;
use crate::server::fault::{early_end, fault, invalid_data, Fault, FaultKind, FaultView};
use crate::server::http::StatusCode;
use crate::server::record::{
    cgi_head, first_record, parse_h2_fastcgi_headers, take_record, CgiHeadView, END_REQUEST, STDOUT,
};
use crate::server::response::{bare_response, HttpResponse, ResponseView};
use vstd::prelude::*;

verus! {

/// The body of a response as its records come in.
#[derive(Debug)]
pub struct CgiReader {
    wire: Vec<u8>,
    ready: Vec<u8>,
    done: bool,
    content_length: Option<u64>,
    body_bytes: u64,
}

#[verifier::ext_equal]
pub struct ReaderView {
    /// Bytes that make up no complete record yet.
    pub wire: Seq<u8>,
    /// Bytes of the body that were not read yet.
    pub ready: Seq<u8>,
    pub done: bool,
    pub content_length: Option<u64>,
    pub body_bytes: u64,
}

impl View for CgiReader {
    type V = ReaderView;

    closed spec fn view(&self) -> ReaderView {
        ReaderView {
            wire: self.wire@,
            ready: self.ready@,
            done: self.done,
            content_length: self.content_length,
            body_bytes: self.body_bytes,
        }
    }
}

/// The reader after a record.
pub open spec fn consumed(r: ReaderView, kind: u8, data: Seq<u8>) -> Result<ReaderView, FaultView> {
    if kind == STDOUT {
        let next = sum_capped(r.body_bytes, data.len());
        if r.content_length matches Some(limit) && next > limit {
            Err(fault(FaultKind::InvalidData, "FastCGI body exceeds Content-Length"@))
        } else {
            Ok(ReaderView { ready: r.ready + data, body_bytes: next, ..r })
        }
    } else if kind == END_REQUEST {
        if data.len() != 8 {
            Err(fault(FaultKind::InvalidData, "malformed FastCGI END_REQUEST"@))
        } else if r.content_length matches Some(limit) && r.body_bytes != limit {
            Err(fault(FaultKind::UnexpectedEof, "FastCGI body length mismatch"@))
        } else {
            Ok(ReaderView { done: true, ..r })
        }
    } else {
        Ok(r)
    }
}

/// The reader after as many records as it takes to have something to read or to be
/// at the end, or after all complete ones.
pub open spec fn advanced(r: ReaderView) -> Result<ReaderView, FaultView>
    decreases r.wire.len(),
{
    if r.ready.len() > 0 || r.done {
        Ok(r)
    } else {
        match first_record(r.wire) {
            Err(e) => Err(e),
            Ok(None) => Ok(r),
            Ok(Some((kind, data, total))) => if total <= 0 || total > r.wire.len() {
                Ok(r)
            } else {
                let rest = r.wire.subrange(total, r.wire.len() as int);
                match consumed(ReaderView { wire: rest, ..r }, kind, data) {
                    Err(e) => Err(e),
                    Ok(n) => if n.wire.len() < r.wire.len() {
                        advanced(n)
                    } else {
                        Ok(n)
                    },
                }
            },
        }
    }
}

/// A body that ends well has the announced length.
pub proof fn law_complete_bodies_have_the_announced_length(r: ReaderView, kind: u8, data: Seq<u8>)
    requires
        !r.done,
    ensures
        consumed(r, kind, data) matches Ok(n) ==> (n.done ==> (n.content_length matches Some(limit)
            ==> n.body_bytes == limit)),
        consumed(r, kind, data) matches Ok(n) ==> (r.content_length matches Some(limit)
            && r.body_bytes <= limit ==> n.body_bytes <= n.content_length.unwrap()),
{
}

/// What a read of the body gives.
#[derive(Debug, PartialEq, Eq)]
pub enum BodyPiece {
    Bytes(Vec<u8>),
    /// More has to come from the responder first.
    NeedMore,
    End,
}

#[verifier::ext_equal]
pub enum PieceView {
    Bytes(Seq<u8>),
    NeedMore,
    End,
}

impl View for BodyPiece {
    type V = PieceView;

    open spec fn view(&self) -> PieceView {
        match self {
            BodyPiece::Bytes(b) => PieceView::Bytes(b@),
            BodyPiece::NeedMore => PieceView::NeedMore,
            BodyPiece::End => PieceView::End,
        }
    }
}

/// A read of at most `max` bytes.
pub open spec fn read_piece(r: ReaderView, max: int) -> Result<(ReaderView, PieceView), FaultView> {
    match advanced(r) {
        Err(e) => Err(e),
        Ok(n) => if n.ready.len() > 0 {
            let k = if n.ready.len() <= max {
                n.ready.len() as int
            } else {
                max
            };
            Ok(
                (
                    ReaderView { ready: n.ready.subrange(k, n.ready.len() as int), ..n },
                    PieceView::Bytes(n.ready.subrange(0, k)),
                ),
            )
        } else if n.done {
            Ok((n, PieceView::End))
        } else {
            Ok((n, PieceView::NeedMore))
        },
    }
}

pub open spec fn empty_reader() -> ReaderView {
    ReaderView {
        wire: Seq::empty(),
        ready: Seq::empty(),
        done: false,
        content_length: None,
        body_bytes: 0,
    }
}

impl CgiReader {
    pub fn new() -> (r: Self)
        ensures
            r@ == empty_reader(),
    {
        let r = CgiReader {
            wire: Vec::new(),
            ready: Vec::new(),
            done: false,
            content_length: None,
            body_bytes: 0,
        };
        assert(r@ =~= empty_reader());
        r
    }

    /// Takes bytes that came from the responder.
    pub fn feed(&mut self, data: &[u8])
        ensures
            final(self)@ == (ReaderView { wire: old(self)@.wire + data@, ..old(self)@ }),
    {
        push_bytes(&mut self.wire, data);
    }

    /// The failure where the responder closes before the end of the request.
    pub fn closed(&self) -> (f: Fault)
        ensures
            f@ == fault(
                FaultKind::UnexpectedEof,
                "FastCGI upstream closed before END_REQUEST"@,
            ),
    {
        early_end("FastCGI upstream closed before END_REQUEST")
    }

    fn consume_record(&mut self, kind: u8, data: &[u8]) -> (r: Result<(), Fault>)
        ensures
            match consumed(old(self)@, kind, data@) {
                Ok(n) => r is Ok && final(self)@ == n,
                Err(e) => r matches Err(f) && f@ == e,
            },
    {
        if kind == STDOUT {
            let n: u64 = data.len() as u64;
            let next: u64 = if self.body_bytes <= 0xffff_ffff_ffff_ffff - n {
                self.body_bytes + n
            } else {
                0xffff_ffff_ffff_ffff
            };
            match self.content_length {
                Some(limit) => {
                    if next > limit {
                        return Err(invalid_data("FastCGI body exceeds Content-Length"));
                    }
                },
                None => {},
            }
            self.body_bytes = next;
            push_bytes(&mut self.ready, data);
            return Ok(());
        }
        if kind == END_REQUEST {
            if data.len() != 8 {
                return Err(invalid_data("malformed FastCGI END_REQUEST"));
            }
            match self.content_length {
                Some(limit) => {
                    if self.body_bytes != limit {
                        return Err(early_end("FastCGI body length mismatch"));
                    }
                },
                None => {},
            }
            self.done = true;
        }
        Ok(())
    }

    fn advance(&mut self) -> (r: Result<(), Fault>)
        ensures
            match advanced(old(self)@) {
                Ok(n) => r is Ok && final(self)@ == n,
                Err(e) => r matches Err(f) && f@ == e,
            },
    {
        let ghost start = self@;
        while self.ready.len() == 0 && !self.done
            invariant
                advanced(self@) == advanced(start),
                start == old(self)@,
            ensures
                match advanced(start) {
                    Ok(n) => self@ == n,
                    Err(e) => false,
                },
            decreases self.wire@.len(),
        {
            let ghost now = self@;
            match take_record(&mut self.wire) {
                Err(f) => {
                    return Err(f);
                },
                Ok(None) => {
                    assert(self@ =~= now);
                    break;
                },
                Ok(Some((kind, data))) => {
                    let ghost total = (first_record(now.wire)->Ok_0)->Some_0.2;
                    assert(self@ =~= (ReaderView {
                        wire: now.wire.subrange(total, now.wire.len() as int),
                        ..now
                    }));
                    match self.consume_record(kind, data.as_slice()) {
                        Ok(_) => {},
                        Err(f) => {
                            return Err(f);
                        },
                    }
                },
            }
        }
        Ok(())
    }

    /// Reads at most `max` bytes of the body.
    pub fn read(&mut self, max: usize) -> (r: Result<BodyPiece, Fault>)
        ensures
            match read_piece(old(self)@, max as int) {
                Ok((n, p)) => (r matches Ok(x) && x@ == p) && final(self)@ == n,
                Err(e) => r matches Err(f) && f@ == e,
            },
    {
        match self.advance() {
            Ok(_) => {},
            Err(f) => {
                return Err(f);
            },
        }
        let n: usize = self.ready.len();
        if n > 0 {
            let k: usize = if n <= max {
                n
            } else {
                max
            };
            let out = part_bytes(self.ready.as_slice(), 0, k);
            let rest = part_bytes(self.ready.as_slice(), k, n);
            self.ready = rest;
            return Ok(BodyPiece::Bytes(out));
        }
        if self.done {
            Ok(BodyPiece::End)
        } else {
            Ok(BodyPiece::NeedMore)
        }
    }
}

/// A response whose head has not come yet.
#[derive(Debug)]
pub struct H2FastCgiPending {
    reader: CgiReader,
    header_bytes: Vec<u8>,
    max_headers: usize,
    is_head: bool,
}

#[verifier::ext_equal]
pub struct AwaitingView {
    pub reader: ReaderView,
    pub header_bytes: Seq<u8>,
    pub max_headers: usize,
    pub is_head: bool,
}

impl View for H2FastCgiPending {
    type V = AwaitingView;

    closed spec fn view(&self) -> AwaitingView {
        AwaitingView {
            reader: self.reader@,
            header_bytes: self.header_bytes@,
            max_headers: self.max_headers,
            is_head: self.is_head,
        }
    }
}

/// A response whose head is complete.
#[verifier::ext_equal]
pub struct ReadyView {
    pub response: ResponseView,
    /// A body follows.
    pub has_body: bool,
    pub length: Option<u64>,
}

/// A status after which no body follows.
pub open spec fn bodiless(status: u16) -> bool {
    100 <= status <= 199 || status == 204 || status == 304
}

/// The response that a head makes.
pub open spec fn response_of(h: CgiHeadView) -> ResponseView {
    let r = bare_response(StatusCode::of_number(h.status));
    ResponseView { headers: r.headers + h.headers, ..r }
}

/// What a piece of standard output before the end of the head leads to.
pub open spec fn on_head_bytes(p: AwaitingView, data: Seq<u8>) -> Result<
    (AwaitingView, Option<ReadyView>),
    FaultView,
> {
    let all = p.header_bytes + data;
    let end = sub_find(all, blank_line(), 0);
    let held = AwaitingView { header_bytes: all, ..p };
    if all.len() > p.max_headers {
        Err(fault(FaultKind::InvalidData, "FastCGI headers too large"@))
    } else if end >= all.len() {
        Ok((held, None))
    } else {
        match cgi_head(all.subrange(0, end + 4)) {
            Err(e) => Err(e),
            Ok(h) => {
                let body = all.subrange(end + 4, all.len() as int);
                if h.content_length matches Some(limit) && body.len() > limit {
                    Err(fault(FaultKind::InvalidData, "FastCGI body exceeds Content-Length"@))
                } else {
                    let none = p.is_head || bodiless(h.status) || h.content_length == Some(0u64);
                    Ok(
                        (
                            AwaitingView {
                                reader: ReaderView {
                                    ready: p.reader.ready + body,
                                    content_length: h.content_length,
                                    body_bytes: body.len() as u64,
                                    ..p.reader
                                },
                                ..held
                            },
                            Some(
                                ReadyView {
                                    response: response_of(h),
                                    has_body: !none,
                                    length: if none {
                                        Some(0u64)
                                    } else {
                                        h.content_length
                                    },
                                },
                            ),
                        ),
                    )
                }
            },
        }
    }
}

/// What the records that have come lead to: the head, nothing yet, or a failure.
pub open spec fn polled(p: AwaitingView) -> Result<(AwaitingView, Option<ReadyView>), FaultView>
    decreases p.reader.wire.len(),
{
    match first_record(p.reader.wire) {
        Err(e) => Err(e),
        Ok(None) => Ok((p, None)),
        Ok(Some((kind, data, total))) => if total <= 0 || total > p.reader.wire.len() {
            Ok((p, None))
        } else {
            let rest = AwaitingView {
                reader: ReaderView {
                    wire: p.reader.wire.subrange(total, p.reader.wire.len() as int),
                    ..p.reader
                },
                ..p
            };
            if kind == STDOUT {
                match on_head_bytes(rest, data) {
                    Err(e) => Err(e),
                    Ok((n, Some(r))) => Ok((n, Some(r))),
                    Ok((n, None)) => if n.reader.wire.len() < p.reader.wire.len() {
                        polled(n)
                    } else {
                        Ok((n, None))
                    },
                }
            } else if kind == END_REQUEST {
                Err(fault(FaultKind::UnexpectedEof, "FastCGI ended before response headers"@))
            } else {
                polled(rest)
            }
        },
    }
}

/// A response whose head is complete.
#[derive(Debug)]
pub struct ReadyResponse {
    pub response: HttpResponse,
    pub has_body: bool,
    pub length: Option<u64>,
}

impl View for ReadyResponse {
    type V = ReadyView;

    open spec fn view(&self) -> ReadyView {
        ReadyView { response: self.response@, has_body: self.has_body, length: self.length }
    }
}

/// The response that a head makes.
pub fn response_with(status: u16, headers: Vec<(String, String)>) -> (r: HttpResponse)
    ensures
        r@ == response_of(
            CgiHeadView { status, headers: pairs(headers@), content_length: None },
        ),
{
    let mut r = HttpResponse::new(StatusCode::from_u16(status));
    let ghost start = r@;
    let ghost h = pairs(headers@);
    let mut i: usize = 0;
    assert(start.headers + h.subrange(0, 0) =~= start.headers);
    while i < headers.len()
        invariant
            h == pairs(headers@),
            i <= headers@.len(),
            r@ == (ResponseView { headers: start.headers + h.subrange(0, i as int), ..start }),
        decreases headers@.len() - i,
    {
        let ghost prev = r@.headers;
        crate::server::response::push_header(
            &mut r.headers,
            headers[i].0.as_str(),
            headers[i].1.as_str(),
        );
        assert(h[i as int] == (headers@[i as int].0@, headers@[i as int].1@));
        assert(r@.headers =~= start.headers + h.subrange(0, i + 1));
        i = i + 1;
    }
    assert(h.subrange(0, h.len() as int) =~= h);
    r
}

impl H2FastCgiPending {
    pub fn new(max_headers: usize, is_head: bool) -> (r: Self)
        ensures
            r@ == (AwaitingView {
                reader: empty_reader(),
                header_bytes: Seq::empty(),
                max_headers,
                is_head,
            }),
    {
        let header_bytes: Vec<u8> = Vec::new();
        assert(header_bytes@ =~= Seq::<u8>::empty());
        H2FastCgiPending { reader: CgiReader::new(), header_bytes, max_headers, is_head }
    }

    /// Takes bytes that came from the responder.
    pub fn feed(&mut self, data: &[u8])
        ensures
            final(self)@ == (AwaitingView {
                reader: ReaderView {
                    wire: old(self)@.reader.wire + data@,
                    ..old(self)@.reader
                },
                ..old(self)@
            }),
    {
        self.reader.feed(data);
    }

    /// The failure where the responder closes before the head is complete.
    pub fn closed(&self) -> (f: Fault)
        ensures
            f@ == fault(FaultKind::UnexpectedEof, "FastCGI returned no response headers"@),
    {
        early_end("FastCGI returned no response headers")
    }

    /// The reader of the body, once the head is complete.
    pub fn into_reader(self) -> (r: CgiReader)
        ensures
            r@ == self@.reader,
    {
        self.reader
    }

    fn take_head_bytes(&mut self, data: &[u8]) -> (r: Result<Option<ReadyResponse>, Fault>)
        ensures
            match on_head_bytes(old(self)@, data@) {
                Ok((n, Some(v))) => (r matches Ok(Some(x)) && x@ == v) && final(self)@ == n,
                Ok((n, None)) => (r matches Ok(None)) && final(self)@ == n,
                Err(e) => r matches Err(f) && f@ == e,
            },
    {
        push_bytes(&mut self.header_bytes, data);
        if self.header_bytes.len() > self.max_headers {
            return Err(invalid_data("FastCGI headers too large"));
        }
        let needle = blank();
        let at = match find_bytes(self.header_bytes.as_slice(), needle.as_slice()) {
            Some(p) => p,
            None => {
                return Ok(None);
            },
        };
        let end: usize = at + 4;
        let raw = part_bytes(self.header_bytes.as_slice(), 0, end);
        let h = match parse_h2_fastcgi_headers(raw.as_slice()) {
            Ok(h) => h,
            Err(e) => {
                return Err(e);
            },
        };
        let body = part_bytes(self.header_bytes.as_slice(), end, self.header_bytes.len());
        match h.content_length {
            Some(limit) => {
                if body.len() as u64 > limit {
                    return Err(invalid_data("FastCGI body exceeds Content-Length"));
                }
            },
            None => {},
        }
        push_bytes(&mut self.reader.ready, body.as_slice());
        self.reader.content_length = h.content_length;
        self.reader.body_bytes = body.len() as u64;
        let none = self.is_head || (100 <= h.status && h.status <= 199) || h.status == 204
            || h.status == 304 || h.content_length == Some(0u64);
        let length = if none {
            Some(0u64)
        } else {
            h.content_length
        };
        Ok(
            Some(
                ReadyResponse {
                    response: response_with(h.status, h.headers),
                    has_body: !none,
                    length,
                },
            ),
        )
    }

    /// Looks for the head among the records that have come.
    pub fn poll(&mut self, expired: bool) -> (r: Result<Option<ReadyResponse>, Fault>)
        ensures
            expired ==> (r matches Err(f) && f@ == fault(
                FaultKind::TimedOut,
                "FastCGI response header timeout"@,
            )) && final(self)@ == old(self)@,
            !expired ==> match polled(old(self)@) {
                Ok((n, Some(v))) => (r matches Ok(Some(x)) && x@ == v) && final(self)@ == n,
                Ok((n, None)) => (r matches Ok(None)) && final(self)@ == n,
                Err(e) => r matches Err(f) && f@ == e,
            },
    {
        if expired {
            return Err(
                Fault { kind: FaultKind::TimedOut, message: "FastCGI response header timeout" },
            );
        }
        let ghost start = self@;
        loop
            invariant
                polled(self@) == polled(start),
                start == old(self)@,
                !expired,
            decreases self.reader.wire@.len(),
        {
            let ghost now = self@;
            match take_record(&mut self.reader.wire) {
                Err(f) => {
                    return Err(f);
                },
                Ok(None) => {
                    assert(self@ =~= now);
                    return Ok(None);
                },
                Ok(Some((kind, data))) => {
                    let ghost total = (first_record(now.reader.wire)->Ok_0)->Some_0.2;
                    assert(self@ =~= (AwaitingView {
                        reader: ReaderView {
                            wire: now.reader.wire.subrange(total, now.reader.wire.len() as int),
                            ..now.reader
                        },
                        ..now
                    }));
                    if kind == STDOUT {
                        match self.take_head_bytes(data.as_slice()) {
                            Err(f) => {
                                return Err(f);
                            },
                            Ok(Some(r)) => {
                                return Ok(Some(r));
                            },
                            Ok(None) => {},
                        }
                    } else if kind == END_REQUEST {
                        return Err(early_end("FastCGI ended before response headers"));
                    }
                },
            }
        }
    }
}

} // verus!
