//! The head of an upstream's response.

use crate::bytes::{blank, blank_line, find_bytes, part_bytes, sub_find, utf8_text};
use crate::config::types::pairs;
use crate::server::cgi_reader::{bodiless, response_of, response_with};
use crate::server::fault::{early_end, fault, invalid_data, Fault, FaultKind, FaultView};
use crate::server::http::{list_contains, list_has};
use crate::server::record::CgiHeadView;
use crate::server::response::{push_header, BodySource, HttpResponse, ResponseView, SourceView};
use crate::server::upstream::{header_ok, hop_by_hop, is_hop_by_hop, valid_header};
use crate::text::{
    after, before, chars_of, find_of, has_char, is_name, is_text, parse_uint, part, read_u16,
    read_u64, same_name, split, split_crlf, split_crlf_of, split_of, string_of, texts, trim,
    trim_of,
};
use vstd::prelude::*;
use vstd::utf8::{decode_utf8, valid_utf8};

verus! {

/// The version at the beginning of a status line.
pub open spec fn line_version(line: Seq<char>) -> Seq<char> {
    split(line, ' ')[0]
}

/// The status on a status line.
pub open spec fn line_status(line: Seq<char>) -> Option<u16> {
    let p = split(line, ' ');
    if p.len() < 2 {
        None
    } else {
        match parse_uint(p[1], 65535) {
            Some(n) => if 100 <= n <= 599 {
                Some(n as u16)
            } else {
                None
            },
            None => None,
        }
    }
}

pub open spec fn known_version(v: Seq<char>) -> bool {
    v == "HTTP/1.1"@ || v == "HTTP/1.0"@
}

/// The version and the status of a status line.
pub fn read_status_line(line: &Vec<char>) -> (r: (Vec<char>, Option<u16>))
    ensures
        r.0@ == line_version(line@),
        r.1 == line_status(line@),
{
    let p = split_of(line, ' ');
    let ghost t = split(line@, ' ');
    proof {
        crate::text::lemma_split_nonempty(line@, ' ');
    }
    assert(t[0] == p@[0]@);
    let version = crate::text::copy(&p[0]);
    if p.len() < 2 {
        return (version, None);
    }
    assert(t[1] == p@[1]@);
    match read_u16(&p[1]) {
        Some(n) => if 100 <= n && n <= 599 {
            (version, Some(n))
        } else {
            (version, None)
        },
        None => (version, None),
    }
}

/// The headers of a response, as far as they were read.
#[derive(Debug)]
pub struct UpstreamHeaders {
    pub headers: Vec<(String, String)>,
    pub content_length: Option<u64>,
    pub chunked: bool,
    pub close: bool,
}

#[verifier::ext_equal]
pub struct UpstreamHeadersView {
    pub headers: Seq<(Seq<char>, Seq<char>)>,
    pub content_length: Option<u64>,
    /// The body comes in chunks.
    pub chunked: bool,
    /// The upstream closes the connection.
    pub close: bool,
}

impl View for UpstreamHeaders {
    type V = UpstreamHeadersView;

    open spec fn view(&self) -> UpstreamHeadersView {
        UpstreamHeadersView {
            headers: pairs(self.headers@),
            content_length: self.content_length,
            chunked: self.chunked,
            close: self.close,
        }
    }
}

pub open spec fn no_headers() -> UpstreamHeadersView {
    UpstreamHeadersView {
        headers: Seq::empty(),
        content_length: None,
        chunked: false,
        close: false,
    }
}

/// The headers with one more, whose value is read where it announces a length.
pub open spec fn with_upstream_header(
    h: UpstreamHeadersView,
    name: Seq<char>,
    value: Seq<char>,
) -> Result<UpstreamHeadersView, FaultView> {
    let more = h.headers.push((name, value));
    if same_name(name, "Content-Length"@) {
        match parse_uint(value, u64::MAX as nat) {
            Some(n) => Ok(
                UpstreamHeadersView { headers: more, content_length: Some(n as u64), ..h },
            ),
            None => Err(fault(FaultKind::InvalidData, "invalid upstream content length"@)),
        }
    } else {
        Ok(UpstreamHeadersView { headers: more, ..h })
    }
}

/// The headers after one more line, every one of which must be in order.
pub open spec fn strict_line(h: UpstreamHeadersView, line: Seq<char>) -> Result<
    UpstreamHeadersView,
    FaultView,
> {
    let name = trim(before(line, ':'));
    let value = trim(after(line, ':'));
    if line.len() == 0 {
        Ok(h)
    } else if !has_char(line, ':') {
        Err(fault(FaultKind::InvalidData, "malformed upstream header"@))
    } else if !header_ok(name, value) {
        Err(fault(FaultKind::InvalidData, "invalid upstream header"@))
    } else if same_name(name, "Transfer-Encoding"@) {
        Ok(UpstreamHeadersView { chunked: h.chunked || same_name(value, "chunked"@), ..h })
    } else if is_hop_by_hop(name) {
        Ok(h)
    } else {
        with_upstream_header(h, name, value)
    }
}

/// The headers that lines hold.
pub open spec fn strict_lines(l: Seq<Seq<char>>) -> Result<UpstreamHeadersView, FaultView>
    decreases l.len(),
{
    if l.len() == 0 {
        Ok(no_headers())
    } else {
        match strict_lines(l.drop_last()) {
            Ok(h) => strict_line(h, l.last()),
            Err(e) => Err(e),
        }
    }
}

/// The head of a response that an HTTP/2 stream passes on.
#[verifier::ext_equal]
pub struct UpstreamHeadView {
    pub response: ResponseView,
    pub content_length: Option<u64>,
    /// No body follows.
    pub no_body: bool,
}

/// The head that some bytes begin with.
pub open spec fn upstream_head(raw: Seq<u8>) -> Result<UpstreamHeadView, FaultView> {
    let at = sub_find(raw, blank_line(), 0);
    let head = raw.subrange(0, at + 4);
    let l = split_crlf(decode_utf8(head));
    if at >= raw.len() {
        Err(fault(FaultKind::InvalidData, "missing upstream headers"@))
    } else if !valid_utf8(head) {
        Err(fault(FaultKind::InvalidData, "invalid upstream headers"@))
    } else if !known_version(line_version(l[0])) {
        Err(fault(FaultKind::InvalidData, "invalid upstream status line"@))
    } else {
        match line_status(l[0]) {
            None => Err(fault(FaultKind::InvalidData, "invalid upstream status"@)),
            Some(status) => match strict_lines(l.subrange(1, l.len() as int)) {
                Err(e) => Err(e),
                Ok(h) => if h.chunked {
                    Err(fault(FaultKind::InvalidData, "chunked upstream responses unsupported"@))
                } else {
                    Ok(
                        UpstreamHeadView {
                            response: response_of(
                                CgiHeadView { status, headers: h.headers, content_length: None },
                            ),
                            content_length: h.content_length,
                            no_body: bodiless(status),
                        },
                    )
                },
            },
        }
    }
}

/// The head of a response that an HTTP/2 stream passes on.
#[derive(Debug)]
pub struct UpstreamHead {
    pub response: HttpResponse,
    pub content_length: Option<u64>,
    pub no_body: bool,
}

impl View for UpstreamHead {
    type V = UpstreamHeadView;

    open spec fn view(&self) -> UpstreamHeadView {
        UpstreamHeadView {
            response: self.response@,
            content_length: self.content_length,
            no_body: self.no_body,
        }
    }
}

fn push_upstream_header(h: &mut UpstreamHeaders, name: &Vec<char>, value: &Vec<char>) -> (r: Result<
    (),
    Fault,
>)
    ensures
        match r {
            Ok(_) => with_upstream_header(old(h)@, name@, value@) == Ok::<_, FaultView>(final(h)@),
            Err(e) => with_upstream_header(old(h)@, name@, value@) == Err::<
                UpstreamHeadersView,
                _,
            >(e@),
        },
{
    if is_name(name, "Content-Length") {
        match read_u64(value) {
            Some(n) => {
                h.content_length = Some(n);
            },
            None => {
                return Err(invalid_data("invalid upstream content length"));
            },
        }
    }
    let n = string_of(name);
    let v = string_of(value);
    push_header(&mut h.headers, n.as_str(), v.as_str());
    Ok(())
}

/// The name and the value on a line.
pub fn name_and_value(line: &Vec<char>) -> (r: Option<(Vec<char>, Vec<char>)>)
    ensures
        match r {
            Some((n, v)) => has_char(line@, ':') && n@ == trim(before(line@, ':')) && v@ == trim(
                after(line@, ':'),
            ),
            None => !has_char(line@, ':'),
        },
{
    let k: usize = find_of(line, ':');
    proof {
        crate::text::lemma_find(line@, ':');
    }
    if k == line.len() {
        return None;
    }
    Some((trim_of(&part(line, 0, k)), trim_of(&part(line, k + 1, line.len()))))
}

fn add_strict_line(h: &mut UpstreamHeaders, line: &Vec<char>) -> (r: Result<(), Fault>)
    ensures
        match r {
            Ok(_) => strict_line(old(h)@, line@) == Ok::<_, FaultView>(final(h)@),
            Err(e) => strict_line(old(h)@, line@) == Err::<UpstreamHeadersView, _>(e@),
        },
{
    if line.len() == 0 {
        return Ok(());
    }
    let (name, value) = match name_and_value(line) {
        Some(p) => p,
        None => {
            return Err(invalid_data("malformed upstream header"));
        },
    };
    if !valid_header(&name, &value) {
        return Err(invalid_data("invalid upstream header"));
    }
    if is_name(&name, "Transfer-Encoding") {
        if is_name(&value, "chunked") {
            h.chunked = true;
        }
        return Ok(());
    }
    if hop_by_hop(&name) {
        return Ok(());
    }
    push_upstream_header(h, &name, &value)
}

proof fn lemma_strict_fails(l: Seq<Seq<char>>, n: int)
    requires
        0 <= n <= l.len(),
        strict_lines(l.subrange(0, n)) is Err,
    ensures
        strict_lines(l) == strict_lines(l.subrange(0, n)),
    decreases l.len() - n,
{
    if n == l.len() {
        assert(l.subrange(0, n) =~= l);
    } else {
        assert(l.subrange(0, n + 1).drop_last() =~= l.subrange(0, n));
        lemma_strict_fails(l, n + 1);
    }
}

/// An empty list of headers.
pub fn empty_headers() -> (h: UpstreamHeaders)
    ensures
        h@ == no_headers(),
{
    let h = UpstreamHeaders {
        headers: Vec::new(),
        content_length: None,
        chunked: false,
        close: false,
    };
    assert(h@ =~= no_headers());
    h
}

fn strict_headers(all: &Vec<Vec<char>>) -> (r: Result<UpstreamHeaders, Fault>)
    requires
        all@.len() > 0,
    ensures
        match r {
            Ok(h) => strict_lines(texts(all@).subrange(1, all@.len() as int)) == Ok::<
                _,
                FaultView,
            >(h@),
            Err(e) => strict_lines(texts(all@).subrange(1, all@.len() as int)) == Err::<
                UpstreamHeadersView,
                _,
            >(e@),
        },
{
    let ghost l = texts(all@).subrange(1, all@.len() as int);
    let mut h = empty_headers();
    let mut i: usize = 1;
    assert(l.subrange(0, 0) =~= Seq::<Seq<char>>::empty());
    while i < all.len()
        invariant
            l == texts(all@).subrange(1, all@.len() as int),
            1 <= i <= all@.len(),
            strict_lines(l.subrange(0, i - 1)) == Ok::<_, FaultView>(h@),
        decreases all@.len() - i,
    {
        assert(l.subrange(0, i as int).drop_last() =~= l.subrange(0, i - 1));
        assert(l.subrange(0, i as int).last() == all@[i as int]@);
        match add_strict_line(&mut h, &all[i]) {
            Ok(_) => {},
            Err(e) => {
                proof {
                    lemma_strict_fails(l, i as int);
                }
                return Err(e);
            },
        }
        i = i + 1;
    }
    assert(l.subrange(0, l.len() as int) =~= l);
    Ok(h)
}

/// Reads the head of a response for an HTTP/2 stream.
pub fn parse_upstream_head(raw: &[u8]) -> (r: Result<UpstreamHead, Fault>)
    ensures
        match r {
            Ok(h) => upstream_head(raw@) == Ok::<_, FaultView>(h@),
            Err(e) => upstream_head(raw@) == Err::<UpstreamHeadView, _>(e@),
        },
{
    let needle = blank();
    let total: usize = raw.len();
    let at = match find_bytes(raw, needle.as_slice()) {
        Some(p) => p,
        None => {
            return Err(invalid_data("missing upstream headers"));
        },
    };
    assert(at + 4 <= total);
    let head = part_bytes(raw, 0, at + 4);
    let text = match utf8_text(head.as_slice()) {
        Some(t) => t,
        None => {
            return Err(invalid_data("invalid upstream headers"));
        },
    };
    let all = split_crlf_of(&chars_of(text.as_str()));
    let ghost l = split_crlf(text@);
    assert(l[0] == all@[0]@);
    let (version, status) = read_status_line(&all[0]);
    if !is_text(&version, "HTTP/1.1") && !is_text(&version, "HTTP/1.0") {
        return Err(invalid_data("invalid upstream status line"));
    }
    let status: u16 = match status {
        Some(n) => n,
        None => {
            return Err(invalid_data("invalid upstream status"));
        },
    };
    let h = match strict_headers(&all) {
        Ok(h) => h,
        Err(e) => {
            return Err(e);
        },
    };
    if h.chunked {
        return Err(invalid_data("chunked upstream responses unsupported"));
    }
    let no_body = (100 <= status && status <= 199) || status == 204 || status == 304;
    let content_length = h.content_length;
    Ok(UpstreamHead { response: response_with(status, h.headers), content_length, no_body })
}

/// Why a response is not passed on.
#[derive(Debug, PartialEq, Eq)]
pub enum Refusal {
    /// The client gets an error with that text.
    Answer(&'static str),
    /// The exchange fails.
    Fail(Fault),
}

#[verifier::ext_equal]
pub enum RefusalView {
    Answer(Seq<char>),
    Fail(FaultView),
}

impl View for Refusal {
    type V = RefusalView;

    open spec fn view(&self) -> RefusalView {
        match self {
            Refusal::Answer(s) => RefusalView::Answer(s@),
            Refusal::Fail(f) => RefusalView::Fail(f@),
        }
    }
}

/// The headers after one more line, where headers that cannot be passed on are left
/// out.
pub open spec fn lenient_line(h: UpstreamHeadersView, line: Seq<char>) -> Result<
    UpstreamHeadersView,
    RefusalView,
> {
    let name = trim(before(line, ':'));
    let value = trim(after(line, ':'));
    let k = UpstreamHeadersView {
        close: h.close || (same_name(name, "Connection"@) && list_has(value, "close"@)),
        ..h
    };
    if line.len() == 0 {
        Ok(h)
    } else if !has_char(line, ':') {
        Err(RefusalView::Answer("malformed upstream header"@))
    } else if !header_ok(name, value) || is_hop_by_hop(name) {
        Ok(k)
    } else {
        match with_upstream_header(k, name, value) {
            Ok(r) => Ok(r),
            Err(e) => Err(RefusalView::Fail(e)),
        }
    }
}

/// The headers that lines hold, where those that cannot be passed on are left out.
pub open spec fn lenient_lines(l: Seq<Seq<char>>) -> Result<UpstreamHeadersView, RefusalView>
    decreases l.len(),
{
    if l.len() == 0 {
        Ok(no_headers())
    } else {
        match lenient_lines(l.drop_last()) {
            Ok(h) => lenient_line(h, l.last()),
            Err(e) => Err(e),
        }
    }
}

/// Whatever an upstream sends, a header that is passed on is well formed and does
/// not concern the connection to the upstream.
pub proof fn law_passed_on_headers_are_safe(l: Seq<Seq<char>>, i: int)
    requires
        lenient_lines(l) is Ok,
        0 <= i < (lenient_lines(l)->Ok_0).headers.len(),
    ensures
        ({
            let p = (lenient_lines(l)->Ok_0).headers[i];
            header_ok(p.0, p.1) && !is_hop_by_hop(p.0)
        }),
    decreases l.len(),
{
    if l.len() > 0 {
        let h = lenient_lines(l.drop_last())->Ok_0;
        if i < h.headers.len() {
            law_passed_on_headers_are_safe(l.drop_last(), i);
        }
    }
}

fn add_lenient_line(h: &mut UpstreamHeaders, line: &Vec<char>) -> (r: Result<(), Refusal>)
    ensures
        match r {
            Ok(_) => lenient_line(old(h)@, line@) == Ok::<_, RefusalView>(final(h)@),
            Err(e) => lenient_line(old(h)@, line@) == Err::<UpstreamHeadersView, _>(e@),
        },
{
    if line.len() == 0 {
        return Ok(());
    }
    let (name, value) = match name_and_value(line) {
        Some(p) => p,
        None => {
            return Err(Refusal::Answer("malformed upstream header"));
        },
    };
    if is_name(&name, "Connection") {
        let v = string_of(&value);
        if list_contains(v.as_str(), "close") {
            h.close = true;
        }
    }
    if !valid_header(&name, &value) || hop_by_hop(&name) {
        return Ok(());
    }
    match push_upstream_header(h, &name, &value) {
        Ok(_) => Ok(()),
        Err(e) => Err(Refusal::Fail(e)),
    }
}

proof fn lemma_lenient_fails(l: Seq<Seq<char>>, n: int)
    requires
        0 <= n <= l.len(),
        lenient_lines(l.subrange(0, n)) is Err,
    ensures
        lenient_lines(l) == lenient_lines(l.subrange(0, n)),
    decreases l.len() - n,
{
    if n == l.len() {
        assert(l.subrange(0, n) =~= l);
    } else {
        assert(l.subrange(0, n + 1).drop_last() =~= l.subrange(0, n));
        lemma_lenient_fails(l, n + 1);
    }
}

/// Reads the headers on all lines but the first.
pub fn lenient_headers(all: &Vec<Vec<char>>) -> (r: Result<UpstreamHeaders, Refusal>)
    requires
        all@.len() > 0,
    ensures
        match r {
            Ok(h) => lenient_lines(texts(all@).subrange(1, all@.len() as int)) == Ok::<
                _,
                RefusalView,
            >(h@),
            Err(e) => lenient_lines(texts(all@).subrange(1, all@.len() as int)) == Err::<
                UpstreamHeadersView,
                _,
            >(e@),
        },
{
    let ghost l = texts(all@).subrange(1, all@.len() as int);
    let mut h = empty_headers();
    let mut i: usize = 1;
    assert(l.subrange(0, 0) =~= Seq::<Seq<char>>::empty());
    while i < all.len()
        invariant
            l == texts(all@).subrange(1, all@.len() as int),
            1 <= i <= all@.len(),
            lenient_lines(l.subrange(0, i - 1)) == Ok::<_, RefusalView>(h@),
        decreases all@.len() - i,
    {
        assert(l.subrange(0, i as int).drop_last() =~= l.subrange(0, i - 1));
        assert(l.subrange(0, i as int).last() == all@[i as int]@);
        match add_lenient_line(&mut h, &all[i]) {
            Ok(_) => {},
            Err(e) => {
                proof {
                    lemma_lenient_fails(l, i as int);
                }
                return Err(e);
            },
        }
        i = i + 1;
    }
    assert(l.subrange(0, l.len() as int) =~= l);
    Ok(h)
}

/// A refusal as a failure.
pub open spec fn as_fault(r: RefusalView) -> FaultView {
    match r {
        RefusalView::Answer(s) => fault(FaultKind::InvalidData, s),
        RefusalView::Fail(f) => f,
    }
}

/// The response that some bytes are.
pub open spec fn captured_response(raw: Seq<u8>) -> Result<ResponseView, FaultView> {
    let at = sub_find(raw, blank_line(), 0);
    let head = raw.subrange(0, at);
    let body = raw.subrange(at + 4, raw.len() as int);
    let l = split_crlf(decode_utf8(head));
    if at >= raw.len() {
        Err(fault(FaultKind::InvalidData, "upstream response missing headers"@))
    } else if !valid_utf8(head) {
        Err(fault(FaultKind::InvalidData, "upstream response headers are not UTF-8"@))
    } else {
        match line_status(l[0]) {
            None => Err(fault(FaultKind::InvalidData, "invalid upstream status"@)),
            Some(status) => match lenient_lines(l.subrange(1, l.len() as int)) {
                Err(e) => Err(as_fault(e)),
                Ok(h) => if h.content_length matches Some(n) && n != body.len() {
                    Err(
                        fault(
                            FaultKind::UnexpectedEof,
                            "upstream Content-Length does not match body"@,
                        ),
                    )
                } else {
                    Ok(
                        ResponseView {
                            body_source: SourceView::Bytes(body),
                            ..response_of(
                                CgiHeadView { status, headers: h.headers, content_length: None },
                            )
                        },
                    )
                },
            },
        }
    }
}

/// Reads a whole response.
pub fn parse_captured_response(raw: &[u8]) -> (r: Result<HttpResponse, Fault>)
    ensures
        match r {
            Ok(x) => captured_response(raw@) == Ok::<_, FaultView>(x@),
            Err(e) => captured_response(raw@) == Err::<ResponseView, _>(e@),
        },
{
    let needle = blank();
    let total: usize = raw.len();
    let at = match find_bytes(raw, needle.as_slice()) {
        Some(p) => p,
        None => {
            return Err(invalid_data("upstream response missing headers"));
        },
    };
    let head = part_bytes(raw, 0, at);
    let text = match utf8_text(head.as_slice()) {
        Some(t) => t,
        None => {
            return Err(invalid_data("upstream response headers are not UTF-8"));
        },
    };
    let all = split_crlf_of(&chars_of(text.as_str()));
    let ghost l = split_crlf(text@);
    assert(l[0] == all@[0]@);
    let (_version, status) = read_status_line(&all[0]);
    let status: u16 = match status {
        Some(n) => n,
        None => {
            return Err(invalid_data("invalid upstream status"));
        },
    };
    let h = match lenient_headers(&all) {
        Ok(h) => h,
        Err(Refusal::Answer(s)) => {
            return Err(invalid_data(s));
        },
        Err(Refusal::Fail(e)) => {
            return Err(e);
        },
    };
    let body = part_bytes(raw, at + 4, total);
    match h.content_length {
        Some(n) => {
            if n != body.len() as u64 {
                return Err(early_end("upstream Content-Length does not match body"));
            }
        },
        None => {},
    }
    let mut response = response_with(status, h.headers);
    response.body_source = BodySource::Bytes(body);
    Ok(response)
}

} // verus!
