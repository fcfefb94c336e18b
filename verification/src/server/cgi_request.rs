//! What a FastCGI responder is sent, and what it complains about.

use crate::bytes::push_bytes;
use crate::server::connect::after_prefix;
use crate::server::fastcgi::lies_below;
use crate::server::fault::{closing_answer, error_response, fault, Fault, FaultKind, FaultView};
use crate::server::http::{HttpRequest, Method, MethodView, StatusCode};
use crate::server::record::{
    begin_bytes, record_bytes, records_bytes, send_begin, send_record, send_records, PARAMS, STDIN,
};
use crate::server::response::{HttpResponse, ResponseView};
use crate::text::{chars_of, push_text, starts_with, string_of};
use vstd::prelude::*;
use vstd::utf8::{decode_utf8, valid_utf8};

verus! {

/// The longest complaint that is logged, in bytes.
pub const MAX_COMPLAINT: usize = 4096;

/// What a responder is sent before the body of a request: the parameters end with an
/// empty record.
pub open spec fn opening_bytes(params: Seq<u8>) -> Seq<u8> {
    begin_bytes() + records_bytes(PARAMS, params) + record_bytes(PARAMS, Seq::empty())
}

/// All that a responder is sent for a request: the body too ends with an empty
/// record.
pub open spec fn request_bytes(params: Seq<u8>, body: Seq<u8>) -> Seq<u8> {
    opening_bytes(params) + records_bytes(STDIN, body) + record_bytes(STDIN, Seq::empty())
}

fn push_empty_record(out: &mut Vec<u8>, kind: u8)
    ensures
        final(out)@ == old(out)@ + record_bytes(kind, Seq::empty()),
{
    let none: Vec<u8> = Vec::new();
    assert(none@ =~= Seq::<u8>::empty());
    match send_record(kind, none.as_slice()) {
        Ok(r) => push_bytes(out, r.as_slice()),
        Err(_) => {},
    }
}

/// What a responder is sent before the body of a request that comes in pieces.
pub fn opening_records(params: &[u8]) -> (r: Vec<u8>)
    ensures
        r@ == opening_bytes(params@),
{
    let mut out = send_begin();
    let p = send_records(PARAMS, params);
    push_bytes(&mut out, p.as_slice());
    push_empty_record(&mut out, PARAMS);
    out
}

/// All that a responder is sent for a request whose body is known.
pub fn request_records(params: &[u8], body: &[u8]) -> (r: Vec<u8>)
    ensures
        r@ == request_bytes(params@, body@),
{
    let mut out = opening_records(params);
    let b = send_records(STDIN, body);
    push_bytes(&mut out, b.as_slice());
    push_empty_record(&mut out, STDIN);
    out
}

/// What a responder is sent behind the body of a request.
pub fn closing_record() -> (r: Vec<u8>)
    ensures
        r@ == record_bytes(STDIN, Seq::empty()),
{
    let mut out: Vec<u8> = Vec::new();
    push_empty_record(&mut out, STDIN);
    assert(out@ =~= record_bytes(STDIN, Seq::empty()));
    out
}

/// The methods that responders serve.
pub open spec fn served_method(m: MethodView) -> bool {
    !(m is Other)
}

/// Whether responders serve a method.
pub fn method_served(m: &Method) -> (b: bool)
    ensures
        b == served_method(m@),
{
    match m {
        Method::Other(_) => false,
        _ => true,
    }
}

/// The answer to a request that no responder is asked about: its method is not
/// served, or the scripts lie outside of the document root. Both directories are
/// absolute and without links.
pub open spec fn cgi_refusal(m: MethodView, root: Seq<char>, scripts: Seq<char>) -> Option<
    ResponseView,
> {
    if !served_method(m) {
        Some(closing_answer(StatusCode::MethodNotAllowed, "method not supported by FastCGI"@))
    } else if !lies_below(root, scripts) {
        Some(
            closing_answer(
                StatusCode::BadGateway,
                "FastCGI document root is outside the vhost root"@,
            ),
        )
    } else {
        None
    }
}

/// The answer to a request that no responder is asked about.
pub fn refuse_request(req: &HttpRequest, root: &str, scripts: &str) -> (r: Option<HttpResponse>)
    ensures
        match r {
            Some(x) => cgi_refusal(req@.method, root@, scripts@) == Some(x@),
            None => cgi_refusal(req@.method, root@, scripts@) is None,
        },
{
    if !method_served(&req.method) {
        return Some(
            error_response(StatusCode::MethodNotAllowed, "method not supported by FastCGI"),
        );
    }
    if !crate::server::fastcgi::is_below(root, scripts) {
        return Some(
            error_response(
                StatusCode::BadGateway,
                "FastCGI document root is outside the vhost root",
            ),
        );
    }
    None
}

/// The failure where the scripts of an HTTP/2 request lie outside of the document
/// root.
pub fn outside_root(root: &str, scripts: &str) -> (r: Option<Fault>)
    ensures
        match r {
            Some(f) => !lies_below(root@, scripts@) && f@ == fault(
                FaultKind::PermissionDenied,
                "FastCGI document root outside vhost root"@,
            ),
            None => lies_below(root@, scripts@),
        },
{
    if crate::server::fastcgi::is_below(root, scripts) {
        None
    } else {
        Some(
            Fault {
                kind: FaultKind::PermissionDenied,
                message: "FastCGI document root outside vhost root",
            },
        )
    }
}

/// A text with what is not UTF-8 replaced.
pub uninterp spec fn lossy_text(b: Seq<u8>) -> Seq<char>;

/// `String::from_utf8_lossy`: a function of the bytes, which is the text itself where
/// they are valid UTF-8. Nothing is said of what else comes out.
#[verifier::external_body]
pub(crate) fn utf8_lossy(b: &[u8]) -> (r: String)
    ensures
        r@ == lossy_text(b@),
        valid_utf8(b@) ==> r@ == decode_utf8(b@),
{
    String::from_utf8_lossy(b).into_owned()
}

/// A control character.
pub open spec fn is_control_char(c: char) -> bool {
    c as u32 <= 31 || 127 <= c as u32 <= 159
}

/// The text with blanks for control characters.
pub open spec fn blanked(s: Seq<char>) -> Seq<char> {
    Seq::new(
        s.len(),
        |i: int|
            if is_control_char(s[i]) {
                ' '
            } else {
                s[i]
            },
    )
}

/// The text with blanks for control characters.
pub fn blank_controls(s: &str) -> (r: String)
    ensures
        r@ == blanked(s@),
{
    let v = chars_of(s);
    let mut out: Vec<char> = Vec::new();
    let mut i: usize = 0;
    while i < v.len()
        invariant
            v@ == s@,
            i <= v@.len(),
            out@.len() == i,
            forall|j: int| 0 <= j < i ==> out@[j] == blanked(s@)[j],
        decreases v@.len() - i,
    {
        let c = v[i];
        if c as u32 <= 31 || (127 <= c as u32 && c as u32 <= 159) {
            out.push(' ');
        } else {
            out.push(c);
        }
        i = i + 1;
    }
    assert(out@ =~= blanked(s@));
    string_of(&out)
}

/// What is logged of a responder's complaint; nothing of one that is too long.
pub open spec fn complaint(data: Seq<u8>) -> Option<Seq<char>> {
    if data.len() > MAX_COMPLAINT {
        None
    } else {
        Some("FastCGI stderr: "@ + blanked(lossy_text(data)))
    }
}

/// What is logged of a responder's complaint.
pub fn stderr_message(data: &[u8]) -> (r: Option<String>)
    ensures
        match r {
            Some(m) => complaint(data@) == Some(m@),
            None => complaint(data@) is None,
        },
{
    if data.len() > MAX_COMPLAINT {
        return None;
    }
    let text = utf8_lossy(data);
    let b = blank_controls(text.as_str());
    let mut out = chars_of("FastCGI stderr: ");
    push_text(&mut out, &chars_of(b.as_str()));
    Some(string_of(&out))
}

/// Where a responder listens.
#[derive(Debug, PartialEq, Eq)]
pub enum Endpoint {
    /// At a socket of that path.
    Unix(String),
    /// At that address.
    Tcp(String),
}

#[verifier::ext_equal]
pub enum EndpointView {
    Unix(Seq<char>),
    Tcp(Seq<char>),
}

impl View for Endpoint {
    type V = EndpointView;

    open spec fn view(&self) -> EndpointView {
        match self {
            Endpoint::Unix(p) => EndpointView::Unix(p@),
            Endpoint::Tcp(a) => EndpointView::Tcp(a@),
        }
    }
}

/// Where a responder listens.
pub open spec fn endpoint_of(s: Seq<char>) -> Result<EndpointView, FaultView> {
    if starts_with(s, "unix:"@) {
        Ok(EndpointView::Unix(s.skip("unix:"@.len() as int)))
    } else if starts_with(s, "tcp://"@) {
        Ok(EndpointView::Tcp(s.skip("tcp://"@.len() as int)))
    } else {
        Err(fault(FaultKind::InvalidInput, "invalid FastCGI endpoint"@))
    }
}

/// Where a responder listens.
pub fn fastcgi_endpoint(s: &str) -> (r: Result<Endpoint, Fault>)
    ensures
        match r {
            Ok(e) => endpoint_of(s@) == Ok::<_, FaultView>(e@),
            Err(f) => endpoint_of(s@) == Err::<EndpointView, _>(f@),
        },
{
    match after_prefix(s, "unix:") {
        Some(p) => Ok(Endpoint::Unix(p)),
        None => match after_prefix(s, "tcp://") {
            Some(a) => Ok(Endpoint::Tcp(a)),
            None => Err(
                Fault { kind: FaultKind::InvalidInput, message: "invalid FastCGI endpoint" },
            ),
        },
    }
}

} // verus!
