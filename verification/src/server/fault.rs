//! Failures while talking to an upstream or a client.

use crate::server::http::StatusCode;
use crate::server::response::{bare_response, with_plain_text, HttpResponse, ResponseView};
use vstd::prelude::*;

verus! {

/// What kind of failure it is.
#[derive(Debug, Clone, Copy, PartialEq, Eq, Structural)]
pub enum FaultKind {
    InvalidData,
    InvalidInput,
    UnexpectedEof,
    PermissionDenied,
    TimedOut,
    WouldBlock,
    NotFound,
    ConnectionRefused,
    Other,
}

#[derive(Debug, Clone, Copy, PartialEq, Eq)]
pub struct Fault {
    pub kind: FaultKind,
    pub message: &'static str,
}

#[verifier::ext_equal]
pub struct FaultView {
    pub kind: FaultKind,
    pub message: Seq<char>,
}

impl View for Fault {
    type V = FaultView;

    open spec fn view(&self) -> FaultView {
        FaultView { kind: self.kind, message: self.message@ }
    }
}

pub open spec fn fault(kind: FaultKind, message: Seq<char>) -> FaultView {
    FaultView { kind, message }
}

/// Data that does not follow the protocol.
pub fn invalid_data(message: &'static str) -> (f: Fault)
    ensures
        f@ == fault(FaultKind::InvalidData, message@),
{
    Fault { kind: FaultKind::InvalidData, message }
}

/// The end of the data before it was due.
pub fn early_end(message: &'static str) -> (f: Fault)
    ensures
        f@ == fault(FaultKind::UnexpectedEof, message@),
{
    Fault { kind: FaultKind::UnexpectedEof, message }
}

/// A plain-text answer after which the connection closes.
pub open spec fn closing_answer(status: StatusCode, message: Seq<char>) -> ResponseView {
    with_plain_text(
        ResponseView { close_connection: true, ..bare_response(status) },
        message,
    )
}

/// A plain-text answer after which the connection closes.
pub fn error_response(status: StatusCode, message: &str) -> (r: HttpResponse)
    ensures
        r@ == closing_answer(status, message@),
{
    HttpResponse::new(status).set_close_connection(true).with_text(message)
}

/// The bytes of an answer whose body is in memory.
pub open spec fn answer_bytes(r: ResponseView) -> Seq<u8> {
    vstd::utf8::encode_utf8(crate::server::response::response_head(r)) + (match r.body_source {
        crate::server::response::SourceView::Bytes(b) => b,
        _ => Seq::empty(),
    })
}

/// The bytes of an answer whose body is in memory.
pub fn wire_bytes(r: &HttpResponse) -> (b: Vec<u8>)
    ensures
        b@ == answer_bytes(r@),
{
    let head = r.head_text();
    let mut out = crate::bytes::bytes_of(head.as_str());
    match &r.body_source {
        crate::server::response::BodySource::Bytes(body) => {
            crate::bytes::push_bytes(&mut out, body.as_slice());
        },
        _ => {
            assert(out@ + Seq::<u8>::empty() =~= out@);
        },
    }
    out
}

/// The bytes of a plain-text answer after which the connection closes.
pub open spec fn closing_bytes(status: StatusCode, message: Seq<char>) -> Seq<u8> {
    answer_bytes(closing_answer(status, message))
}

/// The bytes of a plain-text answer after which the connection closes.
pub fn error_bytes(status: StatusCode, message: &str) -> (b: Vec<u8>)
    ensures
        b@ == closing_bytes(status, message@),
{
    wire_bytes(&error_response(status, message))
}

/// The answer where a streamed request body failed.
pub open spec fn status_for(kind: FaultKind) -> StatusCode {
    if kind == FaultKind::TimedOut || kind == FaultKind::UnexpectedEof {
        StatusCode::RequestTimeout
    } else {
        StatusCode::BadGateway
    }
}

/// The answer where a streamed request body failed.
pub fn failure_status(kind: FaultKind) -> (s: StatusCode)
    ensures
        s == status_for(kind),
{
    if kind == FaultKind::TimedOut || kind == FaultKind::UnexpectedEof {
        StatusCode::RequestTimeout
    } else {
        StatusCode::BadGateway
    }
}

} // verus!
