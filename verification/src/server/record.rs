//! FastCGI on the wire: records, parameters and response headers.

use crate::bytes::{bytes_of, part_bytes, push_bytes, utf8_text};
use crate::config::types::pairs;
use crate::server::fault::{fault, invalid_data, Fault, FaultKind, FaultView};
use crate::server::http::{header_value, method_text, HttpRequest, RequestView};
use crate::server::response::push_header;
use crate::server::upstream::{header_ok, valid_header};
use crate::text::{
    after, before, chars_of, decimal, decimal_of, find_of, has_char, is_name, parse_uint, part,
    push_text, read_u16, read_u64, same_name, split_crlf, split_crlf_of, string_of, texts, trim,
    trim_of, upper, upper_of, words, words_of,
};
use vstd::prelude::*;
use vstd::utf8::{decode_utf8, encode_utf8, valid_utf8};

verus! {

pub const FCGI_VERSION: u8 = 1;

pub const BEGIN_REQUEST: u8 = 1;

pub const END_REQUEST: u8 = 3;

pub const PARAMS: u8 = 4;

pub const STDIN: u8 = 5;

pub const STDOUT: u8 = 6;

pub const STDERR: u8 = 7;

/// The largest content of a record.
pub const MAX_RECORD: usize = 65535;

/// The padding behind content of that length.
pub open spec fn padding(len: int) -> int {
    (8 - len % 8) % 8
}

pub open spec fn zero_bytes(n: nat) -> Seq<u8> {
    Seq::new(n, |i: int| 0u8)
}

/// A record of the first request on a connection.
pub open spec fn record_bytes(kind: u8, content: Seq<u8>) -> Seq<u8> {
    let n = content.len() as int;
    seq![
        FCGI_VERSION,
        kind,
        0u8,
        1u8,
        (n / 256) as u8,
        (n % 256) as u8,
        padding(n) as u8,
        0u8,
    ] + content + zero_bytes(padding(n) as nat)
}

/// Data as a sequence of records.
pub open spec fn records_bytes(kind: u8, data: Seq<u8>) -> Seq<u8>
    decreases data.len(),
{
    if data.len() == 0 {
        Seq::empty()
    } else {
        let n = if data.len() < MAX_RECORD {
            data.len() as int
        } else {
            MAX_RECORD as int
        };
        record_bytes(kind, data.subrange(0, n)) + records_bytes(
            kind,
            data.subrange(n, data.len() as int),
        )
    }
}

/// What the eight bytes before the content of a record say: its kind, the length of
/// the content and that of the padding.
pub open spec fn record_header(b: Seq<u8>) -> Option<(u8, int, int)> {
    if b[0] != FCGI_VERSION || b[2] != 0 || b[3] != 1 {
        None
    } else {
        Some((b[1], b[4] as int * 256 + b[5] as int, b[6] as int))
    }
}

/// The first record of some bytes: its kind, its content and how long it is; nothing
/// where more bytes are needed.
pub open spec fn first_record(b: Seq<u8>) -> Result<Option<(u8, Seq<u8>, int)>, FaultView> {
    if b.len() < 8 {
        Ok(None)
    } else {
        match record_header(b) {
            None => Err(fault(FaultKind::InvalidData, "malformed FastCGI record"@)),
            Some((kind, length, pad)) => if b.len() < 8 + length + pad {
                Ok(None)
            } else {
                Ok(Some((kind, b.subrange(8, 8 + length), 8 + length + pad)))
            },
        }
    }
}

/// A record that was written is read back, whatever follows it.
pub proof fn law_records_read_back(kind: u8, content: Seq<u8>, more: Seq<u8>)
    requires
        content.len() <= MAX_RECORD,
    ensures
        first_record(record_bytes(kind, content) + more) == Ok::<_, FaultView>(
            Some((kind, content, record_bytes(kind, content).len() as int)),
        ),
        record_bytes(kind, content).len() % 8 == 0,
{
    let n = content.len() as int;
    let r = record_bytes(kind, content);
    let w = r + more;
    assert(w[0] == FCGI_VERSION && w[1] == kind && w[2] == 0 && w[3] == 1);
    assert(w[4] == (n / 256) as u8 && w[5] == (n % 256) as u8 && w[6] == padding(n) as u8);
    assert(w.subrange(8, 8 + n) =~= content);
}

/// A record of the first request on a connection.
pub fn send_record(kind: u8, content: &[u8]) -> (r: Result<Vec<u8>, Fault>)
    ensures
        match r {
            Ok(b) => content@.len() <= MAX_RECORD && b@ == record_bytes(kind, content@),
            Err(e) => content@.len() > MAX_RECORD && e@ == fault(
                FaultKind::InvalidInput,
                "FastCGI record too large"@,
            ),
        },
{
    let n: usize = content.len();
    if n > MAX_RECORD {
        return Err(
            Fault { kind: FaultKind::InvalidInput, message: "FastCGI record too large" },
        );
    }
    let pad: usize = (8 - n % 8) % 8;
    let mut out: Vec<u8> = Vec::new();
    out.push(FCGI_VERSION);
    out.push(kind);
    out.push(0);
    out.push(1);
    out.push((n / 256) as u8);
    out.push((n % 256) as u8);
    out.push(pad as u8);
    out.push(0);
    push_bytes(&mut out, content);
    let ghost start = out@;
    let mut i: usize = 0;
    while i < pad
        invariant
            i <= pad,
            out@ == start + zero_bytes(i as nat),
        decreases pad - i,
    {
        out.push(0);
        i = i + 1;
        assert(out@ =~= start + zero_bytes(i as nat));
    }
    assert(out@ =~= record_bytes(kind, content@));
    Ok(out)
}

/// Data as a sequence of records.
pub fn send_records(kind: u8, data: &[u8]) -> (r: Vec<u8>)
    ensures
        r@ == records_bytes(kind, data@),
{
    let n: usize = data.len();
    let mut out: Vec<u8> = Vec::new();
    let mut at: usize = 0;
    assert(data@.subrange(0, n as int) =~= data@);
    assert(out@ + records_bytes(kind, data@) =~= records_bytes(kind, data@));
    while at < n
        invariant
            n == data@.len(),
            at <= n,
            out@ + records_bytes(kind, data@.subrange(at as int, n as int)) == records_bytes(
                kind,
                data@,
            ),
        decreases n - at,
    {
        let end: usize = if n - at < MAX_RECORD {
            n
        } else {
            at + MAX_RECORD
        };
        let ghost rest = data@.subrange(at as int, n as int);
        let ghost before = out@;
        let piece = part_bytes(data, at, end);
        assert(rest.subrange(0, end - at) =~= piece@);
        assert(rest.subrange(end - at, rest.len() as int) =~= data@.subrange(end as int, n as int));
        match send_record(kind, piece.as_slice()) {
            Ok(b) => {
                push_bytes(&mut out, b.as_slice());
                proof {
                    let tail = records_bytes(kind, data@.subrange(end as int, n as int));
                    assert((before + b@) + tail =~= before + (b@ + tail));
                }
            },
            Err(_) => {},
        }
        at = end;
    }
    assert(data@.subrange(n as int, n as int) =~= Seq::<u8>::empty());
    assert(out@ + Seq::<u8>::empty() =~= out@);
    out
}

/// The record that opens a request to a responder.
pub open spec fn begin_bytes() -> Seq<u8> {
    record_bytes(BEGIN_REQUEST, seq![0u8, 1u8, 0u8, 0u8, 0u8, 0u8, 0u8, 0u8])
}

/// The record that opens a request to a responder.
pub fn send_begin() -> (r: Vec<u8>)
    ensures
        r@ == begin_bytes(),
{
    let mut body: Vec<u8> = Vec::new();
    body.push(0);
    body.push(1);
    body.push(0);
    body.push(0);
    body.push(0);
    body.push(0);
    body.push(0);
    body.push(0);
    assert(body@ =~= seq![0u8, 1u8, 0u8, 0u8, 0u8, 0u8, 0u8, 0u8]);
    match send_record(BEGIN_REQUEST, body.as_slice()) {
        Ok(b) => b,
        Err(_) => Vec::new(),
    }
}

/// What the eight bytes before the content of a record say.
pub fn parse_record_header(b: &[u8]) -> (r: Option<(u8, usize, usize)>)
    requires
        b@.len() >= 8,
    ensures
        match r {
            Some((kind, length, pad)) => record_header(b@) == Some(
                (kind, length as int, pad as int),
            ) && length <= MAX_RECORD && pad <= 255,
            None => record_header(b@) is None,
        },
{
    if b[0] != FCGI_VERSION || b[2] != 0 || b[3] != 1 {
        return None;
    }
    let length: usize = b[4] as usize * 256 + b[5] as usize;
    Some((b[1], length, b[6] as usize))
}

/// Takes the first record off some bytes.
pub fn take_record(wire: &mut Vec<u8>) -> (r: Result<Option<(u8, Vec<u8>)>, Fault>)
    ensures
        match first_record(old(wire)@) {
            Ok(Some((kind, data, total))) => (r matches Ok(Some((k, d))) && k == kind && d@ == data)
                && final(wire)@ == old(wire)@.subrange(total, old(wire)@.len() as int) && 8
                <= total <= old(wire)@.len(),
            Ok(None) => (r matches Ok(None)) && final(wire)@ == old(wire)@,
            Err(e) => (r matches Err(f) && f@ == e) && final(wire)@ == old(wire)@,
        },
{
    if wire.len() < 8 {
        return Ok(None);
    }
    match parse_record_header(wire.as_slice()) {
        None => Err(invalid_data("malformed FastCGI record")),
        Some((kind, length, pad)) => {
            let total: usize = 8 + length + pad;
            if wire.len() < total {
                return Ok(None);
            }
            let data = part_bytes(wire.as_slice(), 8, 8 + length);
            let rest = part_bytes(wire.as_slice(), total, wire.len());
            *wire = rest;
            Ok(Some((kind, data)))
        },
    }
}

/// The length before a name or a value: one byte for short ones, else four with the
/// highest bit set.
pub open spec fn length_bytes(len: nat) -> Seq<u8> {
    let n = len % 0x8000_0000;
    if len < 128 {
        seq![len as u8]
    } else {
        seq![
            (128 + n / 0x100_0000) as u8,
            (n / 0x1_0000 % 256) as u8,
            (n / 256 % 256) as u8,
            (n % 256) as u8,
        ]
    }
}

/// The length that such bytes denote.
pub open spec fn read_length(b: Seq<u8>) -> nat {
    if b[0] < 128 {
        b[0] as nat
    } else {
        ((b[0] - 128) * 0x100_0000 + b[1] * 0x1_0000 + b[2] * 256 + b[3]) as nat
    }
}

/// A length that fits is read back.
pub proof fn law_lengths_read_back(len: nat, more: Seq<u8>)
    requires
        len < 0x8000_0000,
    ensures
        read_length(length_bytes(len) + more) == len,
{
    let b = length_bytes(len) + more;
    if len >= 128 {
        assert(b[0] == (128 + len / 0x100_0000) as u8);
        assert(b[1] == (len / 0x1_0000 % 256) as u8);
        assert(b[2] == (len / 256 % 256) as u8);
        assert(b[3] == (len % 256) as u8);
        assert(len / 0x100_0000 * 0x100_0000 + len / 0x1_0000 % 256 * 0x1_0000 + len / 256 % 256
            * 256 + len % 256 == len);
    } else {
        assert(b[0] == len as u8);
    }
}

/// One parameter on the wire.
pub open spec fn param_bytes(name: Seq<u8>, value: Seq<u8>) -> Seq<u8> {
    length_bytes(name.len()) + length_bytes(value.len()) + name + value
}

/// Parameters on the wire.
pub open spec fn params_bytes(l: Seq<(Seq<char>, Seq<char>)>) -> Seq<u8>
    decreases l.len(),
{
    if l.len() == 0 {
        Seq::empty()
    } else {
        params_bytes(l.drop_last()) + param_bytes(
            encode_utf8(l.last().0),
            encode_utf8(l.last().1),
        )
    }
}

fn encode_len(out: &mut Vec<u8>, len: usize)
    ensures
        final(out)@ == old(out)@ + length_bytes(len as nat),
{
    let ghost start = out@;
    if len < 128 {
        out.push(len as u8);
    } else {
        let n: usize = len % 0x8000_0000;
        out.push((128 + n / 0x100_0000) as u8);
        out.push((n / 0x1_0000 % 256) as u8);
        out.push((n / 256 % 256) as u8);
        out.push((n % 256) as u8);
    }
    assert(out@ =~= start + length_bytes(len as nat));
}

/// Adds one parameter.
pub fn append_param(out: &mut Vec<u8>, name: &[u8], value: &[u8])
    ensures
        final(out)@ == old(out)@ + param_bytes(name@, value@),
{
    let ghost start = out@;
    encode_len(out, name.len());
    encode_len(out, value.len());
    push_bytes(out, name);
    push_bytes(out, value);
    assert(out@ =~= start + param_bytes(name@, value@));
}

/// The name with underscores for hyphens.
pub open spec fn underscored(s: Seq<char>) -> Seq<char> {
    Seq::new(
        s.len(),
        |i: int|
            if s[i] == '-' {
                '_'
            } else {
                s[i]
            },
    )
}

/// The parameter that carries a request header.
pub open spec fn header_param(name: Seq<char>) -> Seq<char> {
    "HTTP_"@ + upper(underscored(name))
}

/// The parameters that carry the request headers; the type and the length of the
/// body have parameters of their own.
pub open spec fn header_params(h: Seq<(Seq<char>, Seq<char>)>) -> Seq<(Seq<char>, Seq<char>)>
    decreases h.len(),
{
    if h.len() == 0 {
        h
    } else {
        let r = header_params(h.drop_last());
        if same_name(h.last().0, "Content-Type"@) || same_name(h.last().0, "Content-Length"@) {
            r
        } else {
            r.push((header_param(h.last().0), h.last().1))
        }
    }
}

pub open spec fn text_or_nothing(o: Option<Seq<char>>) -> Seq<char> {
    match o {
        Some(v) => v,
        None => Seq::empty(),
    }
}

/// What stands behind the first question mark.
pub open spec fn query(uri: Seq<char>) -> Seq<char> {
    if has_char(uri, '?') {
        after(uri, '?')
    } else {
        Seq::empty()
    }
}

/// The parameters of a request that a script of that name serves.
pub open spec fn request_params(
    req: RequestView,
    name: Seq<char>,
    root: Seq<char>,
    script: Seq<char>,
    secure: bool,
    peer: Seq<char>,
    length: nat,
) -> Seq<(Seq<char>, Seq<char>)> {
    seq![
        ("REQUEST_METHOD"@, method_text(req.method)),
        ("QUERY_STRING"@, query(req.uri)),
        ("CONTENT_TYPE"@, text_or_nothing(header_value(req.headers, "Content-Type"@))),
        ("CONTENT_LENGTH"@, decimal(length)),
        ("SCRIPT_FILENAME"@, script),
        ("SCRIPT_NAME"@, name),
        ("REQUEST_URI"@, req.uri),
        ("DOCUMENT_URI"@, name),
        ("DOCUMENT_ROOT"@, root),
        ("SERVER_NAME"@, text_or_nothing(header_value(req.headers, "Host"@))),
        (
            "SERVER_PORT"@,
            if secure {
                "443"@
            } else {
                "80"@
            },
        ),
        ("SERVER_PROTOCOL"@, req.version),
        ("REMOTE_ADDR"@, peer),
        (
            "HTTPS"@,
            if secure {
                "on"@
            } else {
                "off"@
            },
        ),
    ] + header_params(req.headers)
}

fn header_param_of(name: &Vec<char>) -> (r: Vec<char>)
    ensures
        r@ == header_param(name@),
{
    let mut u: Vec<char> = Vec::new();
    let mut i: usize = 0;
    while i < name.len()
        invariant
            i <= name@.len(),
            u@.len() == i,
            forall|j: int|
                0 <= j < i ==> u@[j] == (if name@[j] == '-' {
                    '_'
                } else {
                    name@[j]
                }),
        decreases name@.len() - i,
    {
        if name[i] == '-' {
            u.push('_');
        } else {
            u.push(name[i]);
        }
        i = i + 1;
    }
    assert(u@ =~= underscored(name@));
    let mut r = chars_of("HTTP_");
    push_text(&mut r, &upper_of(&u));
    r
}

fn value_or_nothing(req: &HttpRequest, name: &str) -> (r: String)
    ensures
        r@ == text_or_nothing(header_value(req@.headers, name@)),
{
    match req.get_header(name) {
        Some(v) => v.to_owned(),
        None => {
            let r = String::new();
            assert(r@ =~= Seq::<char>::empty());
            r
        },
    }
}

/// The parameters of a request on the wire; the script has the name of the path.
pub fn build_params(
    req: &HttpRequest,
    document_root: &str,
    script: &str,
    secure: bool,
    peer_ip: &str,
    body_length: usize,
) -> (r: Vec<u8>)
    ensures
        r@ == params_bytes(
            request_params(
                req@,
                before(req@.uri, '?'),
                document_root@,
                script@,
                secure,
                peer_ip@,
                body_length as nat,
            ),
        ),
{
    let uri = chars_of(req.uri.as_str());
    let name = string_of(&part(&uri, 0, find_of(&uri, '?')));
    named_params(req, name.as_str(), document_root, script, secure, peer_ip, body_length)
}

/// The parameters of a request on the wire, where the script has that name.
pub fn named_params(
    req: &HttpRequest,
    name: &str,
    document_root: &str,
    script: &str,
    secure: bool,
    peer_ip: &str,
    body_length: usize,
) -> (r: Vec<u8>)
    ensures
        r@ == params_bytes(
            request_params(
                req@,
                name@,
                document_root@,
                script@,
                secure,
                peer_ip@,
                body_length as nat,
            ),
        ),
{
    let uri = chars_of(req.uri.as_str());
    let k: usize = find_of(&uri, '?');
    let q = if k < uri.len() {
        string_of(&part(&uri, k + 1, uri.len()))
    } else {
        String::new()
    };
    assert(q@ =~= query(req@.uri));
    let length = string_of(&decimal_of(body_length as u64));
    let mut l: Vec<(String, String)> = Vec::new();
    assert(pairs(l@) =~= Seq::<(Seq<char>, Seq<char>)>::empty());
    push_header(&mut l, "REQUEST_METHOD", req.method.to_text().as_str());
    push_header(&mut l, "QUERY_STRING", q.as_str());
    push_header(&mut l, "CONTENT_TYPE", value_or_nothing(req, "Content-Type").as_str());
    push_header(&mut l, "CONTENT_LENGTH", length.as_str());
    push_header(&mut l, "SCRIPT_FILENAME", script);
    push_header(&mut l, "SCRIPT_NAME", name);
    push_header(&mut l, "REQUEST_URI", req.uri.as_str());
    push_header(&mut l, "DOCUMENT_URI", name);
    push_header(&mut l, "DOCUMENT_ROOT", document_root);
    push_header(&mut l, "SERVER_NAME", value_or_nothing(req, "Host").as_str());
    push_header(
        &mut l,
        "SERVER_PORT",
        if secure {
            "443"
        } else {
            "80"
        },
    );
    push_header(&mut l, "SERVER_PROTOCOL", req.version.as_str());
    push_header(&mut l, "REMOTE_ADDR", peer_ip);
    push_header(
        &mut l,
        "HTTPS",
        if secure {
            "on"
        } else {
            "off"
        },
    );
    let ghost fixed = pairs(l@);
    let ghost h = pairs(req.headers@);
    let mut i: usize = 0;
    assert(h.subrange(0, 0) =~= Seq::<(Seq<char>, Seq<char>)>::empty());
    assert(fixed + header_params(h.subrange(0, 0)) =~= fixed);
    while i < req.headers.len()
        invariant
            h == pairs(req.headers@),
            i <= req.headers@.len(),
            pairs(l@) == fixed + header_params(h.subrange(0, i as int)),
        decreases req.headers@.len() - i,
    {
        let ghost t = h.subrange(0, i + 1);
        let ghost prev = header_params(h.subrange(0, i as int));
        assert(t.drop_last() =~= h.subrange(0, i as int));
        assert(t.last() == (req.headers@[i as int].0@, req.headers@[i as int].1@));
        let name = chars_of(req.headers[i].0.as_str());
        if !is_name(&name, "Content-Type") && !is_name(&name, "Content-Length") {
            let key = string_of(&header_param_of(&name));
            push_header(&mut l, key.as_str(), req.headers[i].1.as_str());
            assert(pairs(l@) =~= fixed + prev.push((header_param(t.last().0), t.last().1)));
        }
        i = i + 1;
    }
    assert(h.subrange(0, h.len() as int) =~= h);
    assert(pairs(l@) =~= request_params(
        req@,
        name@,
        document_root@,
        script@,
        secure,
        peer_ip@,
        body_length as nat,
    ));
    let ghost all = pairs(l@);
    let mut out: Vec<u8> = Vec::new();
    let mut j: usize = 0;
    assert(all.subrange(0, 0) =~= Seq::<(Seq<char>, Seq<char>)>::empty());
    while j < l.len()
        invariant
            all == pairs(l@),
            j <= l@.len(),
            out@ == params_bytes(all.subrange(0, j as int)),
        decreases l@.len() - j,
    {
        assert(all.subrange(0, j + 1).drop_last() =~= all.subrange(0, j as int));
        assert(all.subrange(0, j + 1).last() == (l@[j as int].0@, l@[j as int].1@));
        let name = bytes_of(l[j].0.as_str());
        let value = bytes_of(l[j].1.as_str());
        append_param(&mut out, name.as_slice(), value.as_slice());
        j = j + 1;
    }
    assert(all.subrange(0, all.len() as int) =~= all);
    out
}

/// The head of a response as a script gives it.
#[derive(Debug)]
pub struct CgiHead {
    pub status: u16,
    pub headers: Vec<(String, String)>,
    pub content_length: Option<u64>,
}

#[verifier::ext_equal]
pub struct CgiHeadView {
    pub status: u16,
    pub headers: Seq<(Seq<char>, Seq<char>)>,
    pub content_length: Option<u64>,
}

impl View for CgiHead {
    type V = CgiHeadView;

    open spec fn view(&self) -> CgiHeadView {
        CgiHeadView {
            status: self.status,
            headers: pairs(self.headers@),
            content_length: self.content_length,
        }
    }
}

/// A header that would change how the response is framed.
pub open spec fn frames_response(name: Seq<char>) -> bool {
    same_name(name, "transfer-encoding"@) || same_name(name, "connection"@) || same_name(
        name,
        "keep-alive"@,
    ) || same_name(name, "proxy-connection"@) || same_name(name, "upgrade"@)
}

/// What is wrong with a header of a script, if anything.
pub open spec fn header_fault(name: Seq<char>, value: Seq<char>) -> Option<FaultView> {
    if !header_ok(name, value) {
        Some(fault(FaultKind::InvalidData, "invalid FastCGI header"@))
    } else if frames_response(name) {
        Some(fault(FaultKind::InvalidData, "framing-sensitive FastCGI header"@))
    } else {
        None
    }
}

/// The status that a script gives: its first word, from 100 to 599.
pub open spec fn cgi_status(value: Seq<char>) -> Option<u16> {
    let w = words(value);
    if w.len() == 0 {
        None
    } else {
        match parse_uint(w[0], u16::MAX as nat) {
            Some(n) => if 100 <= n <= 599 {
                Some(n as u16)
            } else {
                None
            },
            None => None,
        }
    }
}

/// The head after one more line.
pub open spec fn cgi_line(h: CgiHeadView, line: Seq<char>) -> Result<CgiHeadView, FaultView> {
    let name = trim(before(line, ':'));
    let value = trim(after(line, ':'));
    if !has_char(line, ':') {
        Err(fault(FaultKind::InvalidData, "malformed FastCGI header"@))
    } else if header_fault(name, value) is Some {
        Err(header_fault(name, value).unwrap())
    } else if same_name(name, "Status"@) {
        match cgi_status(value) {
            Some(s) => Ok(CgiHeadView { status: s, ..h }),
            None => Err(fault(FaultKind::InvalidData, "invalid FastCGI status"@)),
        }
    } else if same_name(name, "Content-Length"@) {
        match parse_uint(value, u64::MAX as nat) {
            None => Err(fault(FaultKind::InvalidData, "invalid FastCGI content length"@)),
            Some(n) => if h.content_length matches Some(m) && m != n {
                Err(fault(FaultKind::InvalidData, "conflicting FastCGI content length"@))
            } else {
                Ok(
                    CgiHeadView {
                        content_length: Some(n as u64),
                        headers: h.headers.push((name, value)),
                        ..h
                    },
                )
            },
        }
    } else {
        Ok(CgiHeadView { headers: h.headers.push((name, value)), ..h })
    }
}

/// The head that the lines make up; empty lines do not count.
pub open spec fn cgi_lines(l: Seq<Seq<char>>) -> Result<CgiHeadView, FaultView>
    decreases l.len(),
{
    if l.len() == 0 {
        Ok(CgiHeadView { status: 200, headers: Seq::empty(), content_length: None })
    } else {
        match cgi_lines(l.drop_last()) {
            Err(e) => Err(e),
            Ok(h) => if l.last().len() == 0 {
                Ok(h)
            } else {
                cgi_line(h, l.last())
            },
        }
    }
}

/// The head that some bytes hold.
pub open spec fn cgi_head(raw: Seq<u8>) -> Result<CgiHeadView, FaultView> {
    if !valid_utf8(raw) {
        Err(fault(FaultKind::InvalidData, "invalid FastCGI headers"@))
    } else {
        cgi_lines(split_crlf(decode_utf8(raw)))
    }
}

/// An accepted head of a script holds no header that frames the response.
pub proof fn law_scripts_cannot_frame_responses(l: Seq<Seq<char>>, i: int)
    requires
        cgi_lines(l) is Ok,
        0 <= i < cgi_lines(l)->Ok_0.headers.len(),
    ensures
        header_ok(cgi_lines(l)->Ok_0.headers[i].0, cgi_lines(l)->Ok_0.headers[i].1),
        !frames_response(cgi_lines(l)->Ok_0.headers[i].0),
        100 <= cgi_lines(l)->Ok_0.status <= 599,
    decreases l.len(),
{
    lemma_status_range(l);
    if l.len() > 0 {
        let h = cgi_lines(l.drop_last())->Ok_0;
        if i < h.headers.len() {
            law_scripts_cannot_frame_responses(l.drop_last(), i);
        }
    }
}

proof fn lemma_status_range(l: Seq<Seq<char>>)
    ensures
        cgi_lines(l) matches Ok(h) ==> 100 <= h.status <= 599,
    decreases l.len(),
{
    if l.len() > 0 {
        lemma_status_range(l.drop_last());
    }
}

proof fn lemma_cgi_fails(l: Seq<Seq<char>>, i: int)
    requires
        0 <= i <= l.len(),
        cgi_lines(l.subrange(0, i)) is Err,
    ensures
        cgi_lines(l) == cgi_lines(l.subrange(0, i)),
    decreases l.len(),
{
    if i == l.len() {
        assert(l.subrange(0, i) =~= l);
    } else {
        assert(l.drop_last().subrange(0, i) =~= l.subrange(0, i));
        lemma_cgi_fails(l.drop_last(), i);
    }
}

/// Checks one header of a script.
pub fn validate_fastcgi_header(name: &Vec<char>, value: &Vec<char>) -> (r: Result<(), Fault>)
    ensures
        match r {
            Ok(_) => header_fault(name@, value@) is None,
            Err(e) => header_fault(name@, value@) == Some(e@),
        },
{
    if !valid_header(name, value) {
        return Err(invalid_data("invalid FastCGI header"));
    }
    if is_name(name, "transfer-encoding") || is_name(name, "connection") || is_name(
        name,
        "keep-alive",
    ) || is_name(name, "proxy-connection") || is_name(name, "upgrade") {
        return Err(invalid_data("framing-sensitive FastCGI header"));
    }
    Ok(())
}

/// The status that a script gives.
pub fn parse_fastcgi_status(value: &Vec<char>) -> (r: Option<u16>)
    ensures
        r == cgi_status(value@),
{
    let w = words_of(value);
    if w.len() == 0 {
        return None;
    }
    assert(words(value@)[0] == w@[0]@);
    match read_u16(&w[0]) {
        Some(n) => if 100 <= n && n <= 599 {
            Some(n)
        } else {
            None
        },
        None => None,
    }
}

fn add_cgi_line(h: &mut CgiHead, line: &Vec<char>) -> (r: Result<(), Fault>)
    ensures
        match cgi_line(old(h)@, line@) {
            Ok(v) => r is Ok && final(h)@ == v,
            Err(e) => r matches Err(f) && f@ == e,
        },
{
    let k: usize = find_of(line, ':');
    if k == line.len() {
        return Err(invalid_data("malformed FastCGI header"));
    }
    let name = trim_of(&part(line, 0, k));
    let value = trim_of(&part(line, k + 1, line.len()));
    match validate_fastcgi_header(&name, &value) {
        Ok(_) => {},
        Err(e) => {
            return Err(e);
        },
    }
    if is_name(&name, "Status") {
        return match parse_fastcgi_status(&value) {
            Some(s) => {
                h.status = s;
                Ok(())
            },
            None => Err(invalid_data("invalid FastCGI status")),
        };
    }
    if is_name(&name, "Content-Length") {
        match read_u64(&value) {
            None => {
                return Err(invalid_data("invalid FastCGI content length"));
            },
            Some(n) => {
                match h.content_length {
                    Some(m) => {
                        if m != n {
                            return Err(invalid_data("conflicting FastCGI content length"));
                        }
                    },
                    None => {},
                }
                h.content_length = Some(n);
            },
        }
    }
    let n = string_of(&name);
    let v = string_of(&value);
    push_header(&mut h.headers, n.as_str(), v.as_str());
    Ok(())
}

/// The head that some bytes hold.
pub fn parse_h2_fastcgi_headers(raw: &[u8]) -> (r: Result<CgiHead, Fault>)
    ensures
        match r {
            Ok(h) => cgi_head(raw@) == Ok::<_, FaultView>(h@),
            Err(e) => cgi_head(raw@) == Err::<CgiHeadView, _>(e@),
        },
{
    let text = match utf8_text(raw) {
        Some(t) => t,
        None => {
            return Err(invalid_data("invalid FastCGI headers"));
        },
    };
    let all = split_crlf_of(&chars_of(text.as_str()));
    let ghost l = split_crlf(decode_utf8(raw@));
    let mut h = CgiHead { status: 200, headers: Vec::new(), content_length: None };
    let mut i: usize = 0;
    assert(l.subrange(0, 0) =~= Seq::<Seq<char>>::empty());
    assert(h@.headers =~= Seq::<(Seq<char>, Seq<char>)>::empty());
    while i < all.len()
        invariant
            l == texts(all@),
            valid_utf8(raw@),
            l == split_crlf(decode_utf8(raw@)),
            i <= all@.len(),
            cgi_lines(l.subrange(0, i as int)) == Ok::<_, FaultView>(h@),
        decreases all@.len() - i,
    {
        assert(l.subrange(0, i + 1).drop_last() =~= l.subrange(0, i as int));
        assert(l.subrange(0, i + 1).last() == all@[i as int]@);
        if all[i].len() > 0 {
            match add_cgi_line(&mut h, &all[i]) {
                Ok(_) => {},
                Err(e) => {
                    proof {
                        lemma_cgi_fails(l, i + 1);
                    }
                    return Err(e);
                },
            }
        }
        i = i + 1;
    }
    assert(l.subrange(0, l.len() as int) =~= l);
    Ok(h)
}

} // verus!
