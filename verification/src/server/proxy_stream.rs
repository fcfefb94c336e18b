//! An upstream's response on its way to the client.

use crate::bytes::{
    blank, blank_line, bytes_of, find_bytes, part_bytes, push_bytes, sub_find, utf8_text,
};
use crate::server::fastcgi::{bad_gateway, compression_fault, Progress, ProgressView, Relay};
use crate::server::fault::{
    early_end, error_bytes, fault, invalid_data, Fault, FaultKind, FaultView,
};
use crate::server::gzip::{
    gzip_encoder, gzip_end, gzip_finish, gzip_write, gzip_written, is_fresh, Gzip,
};
use crate::server::http::StatusCode;
use crate::server::proxy::IO_CHUNK;
use crate::server::proxy_head::{
    known_version, lenient_headers, lenient_lines, line_status, line_version,
    parse_upstream_head, read_status_line, upstream_head, Refusal, RefusalView,
};
use crate::server::cgi_reader::{ReadyResponse, ReadyView};
use crate::server::upstream::{
    compress_head, compressed_head, compresses, header_block, push_header_block, should_compress,
};
use crate::text::{chars_of, copy, is_text, push_str, split_crlf, split_crlf_of, string_of};
use vstd::prelude::*;
use vstd::utf8::{decode_utf8, encode_utf8, valid_utf8};

verus! {

/// How much of a response has come.
#[derive(Debug, Clone, Copy, PartialEq, Eq, Structural)]
pub enum Phase {
    /// The head is not complete.
    Head,
    /// So many bytes of the body are still to come.
    Fixed(u64),
    /// The body goes on until the upstream closes.
    Open,
}

/// A response on its way from an upstream to an HTTP/1.1 client.
pub struct UpstreamRelay {
    buffer: Vec<u8>,
    phase: Phase,
    gzip: Option<Gzip>,
    reusable: bool,
    max_headers: usize,
    head: bool,
    accept_gzip: bool,
    level: u32,
}

#[verifier::ext_equal]
pub struct UpstreamRelayView {
    /// What came before the head was complete.
    pub buffer: Seq<u8>,
    pub phase: Phase,
    pub gzip: Option<Gzip>,
    /// The connection to the upstream can serve another request after this one.
    pub reusable: bool,
    pub max_headers: usize,
    pub head: bool,
    pub accept_gzip: bool,
    pub level: u32,
}

impl View for UpstreamRelay {
    type V = UpstreamRelayView;

    closed spec fn view(&self) -> UpstreamRelayView {
        UpstreamRelayView {
            buffer: self.buffer@,
            phase: self.phase,
            gzip: self.gzip,
            reusable: self.reusable,
            max_headers: self.max_headers,
            head: self.head,
            accept_gzip: self.accept_gzip,
            level: self.level,
        }
    }
}

/// What some bytes lead to: the state, the bytes for the client and whether more is
/// to come.
#[verifier::ext_equal]
pub struct UpstreamRelayed {
    pub state: UpstreamRelayView,
    pub output: Seq<u8>,
    pub progress: ProgressView,
}

/// The client gets an error, and the exchange is over.
pub open spec fn answered(s: UpstreamRelayView, message: Seq<char>) -> UpstreamRelayed {
    UpstreamRelayed { state: s, output: bad_gateway(message), progress: ProgressView::Done }
}

/// The exchange is broken off.
pub open spec fn broken_off(s: UpstreamRelayView, kind: FaultKind, message: Seq<char>) ->
    UpstreamRelayed {
    UpstreamRelayed {
        state: s,
        output: Seq::empty(),
        progress: ProgressView::Failed(fault(kind, message)),
    }
}

/// The head that the client gets.
pub open spec fn relayed_head(
    status_line: Seq<char>,
    headers: Seq<(Seq<char>, Seq<char>)>,
    compress: bool,
) -> Seq<char> {
    let text = status_line + "\r\n"@ + header_block(headers);
    (if compress {
        compressed_head(text)
    } else {
        text
    }) + "Connection: close\r\n\r\n"@
}

/// A piece of the body behind `lead`.
pub open spec fn on_piece(s: UpstreamRelayView, lead: Seq<u8>, data: Seq<u8>) -> UpstreamRelayed {
    match s.phase {
        Phase::Head => UpstreamRelayed { state: s, output: lead, progress: ProgressView::More },
        Phase::Fixed(left) => {
            let take = if data.len() <= left {
                data.len() as int
            } else {
                left as int
            };
            let rest = (left - take) as u64;
            UpstreamRelayed {
                state: UpstreamRelayView { phase: Phase::Fixed(rest), ..s },
                output: lead + (if s.head {
                    Seq::empty()
                } else {
                    data.subrange(0, take)
                }),
                progress: if rest == 0 {
                    ProgressView::Done
                } else {
                    ProgressView::More
                },
            }
        },
        Phase::Open => if s.head {
            UpstreamRelayed { state: s, output: lead, progress: ProgressView::More }
        } else {
            match s.gzip {
                None => UpstreamRelayed {
                    state: s,
                    output: lead + data,
                    progress: ProgressView::More,
                },
                Some(e) => match gzip_written(e, data) {
                    (Some(out), after) => UpstreamRelayed {
                        state: UpstreamRelayView { gzip: Some(after), ..s },
                        output: lead + out,
                        progress: ProgressView::More,
                    },
                    (None, _) => UpstreamRelayed {
                        state: s,
                        output: lead,
                        progress: compression_fault(),
                    },
                },
            }
        },
    }
}

/// What a complete head, which ends at `end`, leads to. `fresh` is the encoder that is
/// made where the response turns out to be compressed.
pub open spec fn on_head(s: UpstreamRelayView, end: int, fresh: Gzip) -> UpstreamRelayed {
    let head = s.buffer.subrange(0, end);
    let l = split_crlf(decode_utf8(head));
    if !valid_utf8(head) {
        broken_off(s, FaultKind::InvalidData, "invalid upstream headers"@)
    } else if !known_version(line_version(l[0])) {
        answered(s, "invalid upstream status line"@)
    } else {
        match line_status(l[0]) {
            None => broken_off(s, FaultKind::InvalidData, "invalid upstream status"@),
            Some(status) => match lenient_lines(l.subrange(1, l.len() as int)) {
                Err(RefusalView::Answer(m)) => answered(s, m),
                Err(RefusalView::Fail(f)) => UpstreamRelayed {
                    state: s,
                    output: Seq::empty(),
                    progress: ProgressView::Failed(f),
                },
                Ok(h) => {
                    let compress = compresses(h.headers, status, s.head, s.accept_gzip);
                    let begun = UpstreamRelayView {
                        buffer: Seq::empty(),
                        phase: if compress {
                            Phase::Open
                        } else {
                            match h.content_length {
                                Some(n) => Phase::Fixed(n),
                                None => Phase::Open,
                            }
                        },
                        gzip: if compress {
                            Some(fresh)
                        } else {
                            None
                        },
                        reusable: line_version(l[0]) == "HTTP/1.1"@ && h.content_length is Some
                            && !h.close && !compress,
                        ..s
                    };
                    on_piece(
                        begun,
                        encode_utf8(relayed_head(l[0], h.headers, compress)),
                        s.buffer.subrange(end, s.buffer.len() as int),
                    )
                },
            },
        }
    }
}

/// What bytes from the upstream lead to; no bytes are its end.
pub open spec fn on_upstream(s: UpstreamRelayView, data: Seq<u8>, fresh: Gzip) -> UpstreamRelayed {
    if s.phase is Head {
        let all = s.buffer + data;
        let held = UpstreamRelayView { buffer: all, ..s };
        let at = sub_find(all, blank_line(), 0);
        if data.len() == 0 {
            answered(s, "upstream closed before headers"@)
        } else if at < all.len() {
            on_head(held, at + 4, fresh)
        } else if all.len() > s.max_headers {
            answered(held, "upstream headers too large"@)
        } else {
            UpstreamRelayed { state: held, output: Seq::empty(), progress: ProgressView::More }
        }
    } else if data.len() > 0 {
        on_piece(s, Seq::empty(), data)
    } else if s.phase is Fixed {
        broken_off(
            s,
            FaultKind::UnexpectedEof,
            "upstream Content-Length does not match body"@,
        )
    } else {
        match s.gzip {
            None => UpstreamRelayed { state: s, output: Seq::empty(), progress: ProgressView::Done },
            Some(e) => match gzip_end(e) {
                Some(rest) => UpstreamRelayed {
                    state: UpstreamRelayView { gzip: None, ..s },
                    output: rest,
                    progress: ProgressView::Done,
                },
                None => UpstreamRelayed {
                    state: UpstreamRelayView { gzip: None, ..s },
                    output: Seq::empty(),
                    progress: compression_fault(),
                },
            },
        }
    }
}

/// A body with an announced length is passed on byte by byte: a response that goes
/// on gave the client all that came, and it ends well only when all has come.
pub proof fn law_announced_bodies_are_passed_on(s: UpstreamRelayView, data: Seq<u8>, fresh: Gzip)
    requires
        s.phase matches Phase::Fixed(left) && left > 0,
        !s.head,
    ensures
        ({
            let r = on_upstream(s, data, fresh);
            let left = s.phase->Fixed_0;
            &&& data.len() == 0 ==> r.progress is Failed
            &&& 0 < data.len() < left ==> r.progress is More && r.output == data && r.state.phase
                == Phase::Fixed((left - data.len()) as u64)
            &&& data.len() >= left ==> r.progress is Done && r.output == data.subrange(
                0,
                left as int,
            )
        }),
{
    if 0 < data.len() < s.phase->Fixed_0 {
        assert(data.subrange(0, data.len() as int) =~= data);
        assert(Seq::<u8>::empty() + data =~= data);
    }
    if data.len() >= s.phase->Fixed_0 && data.len() > 0 {
        let d = data.subrange(0, s.phase->Fixed_0 as int);
        assert(Seq::<u8>::empty() + d =~= d);
        assert(on_upstream(s, data, fresh).output =~= d);
    }
}

/// Only a connection whose response said where it ends is used again.
pub proof fn law_reused_connections_are_in_step(s: UpstreamRelayView, data: Seq<u8>, fresh: Gzip)
    requires
        s.phase is Head,
        !s.reusable,
    ensures
        ({
            let r = on_upstream(s, data, fresh);
            r.state.reusable ==> r.state.phase is Fixed && r.state.gzip is None
        }),
{
}

/// The outcome is the one described.
pub open spec fn relay_is(r: Relay, after: UpstreamRelayView, want: UpstreamRelayed) -> bool {
    &&& r.output@ == want.output
    &&& r.progress@ == want.progress
    &&& !(want.progress is Failed) ==> after == want.state
}

/// Where an encoder came into use, it is a new one of the level that was asked for.
pub open spec fn encoder_is_new(
    s: UpstreamRelayView,
    after: UpstreamRelayView,
    fresh: Gzip,
) -> bool {
    s.gzip is None && after.gzip is Some ==> is_fresh(fresh, s.level)
}

impl UpstreamRelay {
    /// A response of which nothing has come yet.
    pub fn new(max_headers: usize, head: bool, accept_gzip: bool, compression_level: u32) -> (r: Self)
        requires
            compression_level <= 10,
        ensures
            r@ == (UpstreamRelayView {
                buffer: Seq::empty(),
                phase: Phase::Head,
                gzip: None,
                reusable: false,
                max_headers,
                head,
                accept_gzip,
                level: compression_level,
            }),
    {
        let buffer: Vec<u8> = Vec::new();
        assert(buffer@ =~= Seq::<u8>::empty());
        UpstreamRelay {
            buffer,
            phase: Phase::Head,
            gzip: None,
            reusable: false,
            max_headers,
            head,
            accept_gzip,
            level: compression_level,
        }
    }

    /// Whether the connection can serve another request.
    pub fn reusable(&self) -> (b: bool)
        ensures
            b == self@.reusable,
    {
        self.reusable
    }

    /// How many bytes to read next at the most.
    pub fn wanted(&self) -> (n: usize)
        ensures
            n == (match self@.phase {
                Phase::Head => 4096,
                Phase::Fixed(left) => if left <= IO_CHUNK {
                    left as int
                } else {
                    IO_CHUNK as int
                },
                Phase::Open => IO_CHUNK as int,
            }),
    {
        match self.phase {
            Phase::Head => 4096,
            Phase::Fixed(left) => if left <= IO_CHUNK as u64 {
                left as usize
            } else {
                IO_CHUNK
            },
            Phase::Open => IO_CHUNK,
        }
    }

    fn pass_piece(&mut self, lead: Vec<u8>, data: &[u8]) -> (r: Relay)
        ensures
            relay_is(r, final(self)@, on_piece(old(self)@, lead@, data@)),
            final(self)@.level == old(self)@.level,
    {
        let mut out = lead;
        match self.phase {
            Phase::Head => Relay { output: out, progress: Progress::More },
            Phase::Fixed(left) => {
                let n: usize = data.len();
                let take: usize = if n as u64 <= left {
                    n
                } else {
                    left as usize
                };
                let rest: u64 = left - take as u64;
                self.phase = Phase::Fixed(rest);
                if self.head {
                    assert(out@ + Seq::<u8>::empty() =~= out@);
                } else {
                    let piece = part_bytes(data, 0, take);
                    push_bytes(&mut out, piece.as_slice());
                }
                let progress = if rest == 0 {
                    Progress::Done
                } else {
                    Progress::More
                };
                Relay { output: out, progress }
            },
            Phase::Open => {
                if self.head {
                    return Relay { output: out, progress: Progress::More };
                }
                match self.gzip.take() {
                    None => {
                        push_bytes(&mut out, data);
                        Relay { output: out, progress: Progress::More }
                    },
                    Some(g) => {
                        let mut e = g;
                        match gzip_write(&mut e, data) {
                            Some(x) => {
                                push_bytes(&mut out, x.as_slice());
                                self.gzip = Some(e);
                                Relay { output: out, progress: Progress::More }
                            },
                            None => Relay {
                                output: out,
                                progress: Progress::Failed(
                                    Fault {
                                        kind: FaultKind::Other,
                                        message: "response compression failed",
                                    },
                                ),
                            },
                        }
                    },
                }
            },
        }
    }

    fn take_head(&mut self, end: usize) -> (r: Relay)
        requires
            end <= old(self)@.buffer.len(),
            old(self)@.level <= 10,
        ensures
            exists|fresh: Gzip|
                {
                    let w = #[trigger] on_head(old(self)@, end as int, fresh);
                    relay_is(r, final(self)@, w) && encoder_is_new(old(self)@, w.state, fresh)
                },
            final(self)@.level == old(self)@.level,
    {
        let ghost s = self@;
        let ghost any = vstd::pervasive::arbitrary::<Gzip>();
        let none: Vec<u8> = Vec::new();
        assert(none@ =~= Seq::<u8>::empty());
        let raw = part_bytes(self.buffer.as_slice(), 0, end);
        let text = match utf8_text(raw.as_slice()) {
            Some(t) => t,
            None => {
                let r = Relay {
                    output: none,
                    progress: Progress::Failed(invalid_data("invalid upstream headers")),
                };
                assert(relay_is(r, self@, on_head(s, end as int, any)));
                return r;
            },
        };
        let all = split_crlf_of(&chars_of(text.as_str()));
        let ghost l = split_crlf(text@);
        assert(l[0] == all@[0]@);
        let (version, status) = read_status_line(&all[0]);
        let http11 = is_text(&version, "HTTP/1.1");
        if !http11 && !is_text(&version, "HTTP/1.0") {
            let r = Relay {
                output: error_bytes(StatusCode::BadGateway, "invalid upstream status line"),
                progress: Progress::Done,
            };
            assert(relay_is(r, self@, on_head(s, end as int, any)));
            return r;
        }
        let status: u16 = match status {
            Some(n) => n,
            None => {
                let r = Relay {
                    output: none,
                    progress: Progress::Failed(invalid_data("invalid upstream status")),
                };
                assert(relay_is(r, self@, on_head(s, end as int, any)));
                return r;
            },
        };
        let h = match lenient_headers(&all) {
            Ok(h) => h,
            Err(Refusal::Answer(m)) => {
                let r = Relay {
                    output: error_bytes(StatusCode::BadGateway, m),
                    progress: Progress::Done,
                };
                assert(relay_is(r, self@, on_head(s, end as int, any)));
                return r;
            },
            Err(Refusal::Fail(f)) => {
                let r = Relay { output: none, progress: Progress::Failed(f) };
                assert(relay_is(r, self@, on_head(s, end as int, any)));
                return r;
            },
        };
        let compress = should_compress(&h.headers, status, self.head, self.accept_gzip);
        let mut block = copy(&all[0]);
        push_str(&mut block, "\r\n");
        push_header_block(&mut block, &h.headers);
        if compress {
            block = compress_head(&block);
        }
        push_str(&mut block, "Connection: close\r\n\r\n");
        let lead_text = string_of(&block);
        let lead = bytes_of(lead_text.as_str());
        let body = part_bytes(self.buffer.as_slice(), end, self.buffer.len());
        self.buffer = Vec::new();
        assert(self.buffer@ =~= Seq::<u8>::empty());
        self.phase = if compress {
            Phase::Open
        } else {
            match h.content_length {
                Some(n) => Phase::Fixed(n),
                None => Phase::Open,
            }
        };
        self.gzip = if compress {
            Some(gzip_encoder(self.level))
        } else {
            None
        };
        self.reusable = http11 && h.content_length.is_some() && !h.close && !compress;
        let ghost fresh = if compress {
            self@.gzip.unwrap()
        } else {
            any
        };
        let r = self.pass_piece(lead, body.as_slice());
        assert(relay_is(r, self@, on_head(s, end as int, fresh)));
        r
    }

    fn take_end(&mut self) -> (r: Relay)
        requires
            !(old(self)@.phase is Head),
        ensures
            forall|fresh: Gzip|
                relay_is(
                    r,
                    final(self)@,
                    #[trigger] on_upstream(old(self)@, Seq::empty(), fresh),
                ),
            final(self)@.level == old(self)@.level,
    {
        let none: Vec<u8> = Vec::new();
        assert(none@ =~= Seq::<u8>::empty());
        match self.phase {
            Phase::Open => {},
            _ => {
                return Relay {
                    output: none,
                    progress: Progress::Failed(
                        early_end("upstream Content-Length does not match body"),
                    ),
                };
            },
        }
        match self.gzip.take() {
            None => Relay { output: none, progress: Progress::Done },
            Some(g) => match gzip_finish(g) {
                Some(rest) => Relay { output: rest, progress: Progress::Done },
                None => Relay {
                    output: none,
                    progress: Progress::Failed(
                        Fault {
                            kind: FaultKind::Other,
                            message: "response compression failed",
                        },
                    ),
                },
            },
        }
    }

    /// Takes bytes that came from the upstream, none at its end, and says what to
    /// send.
    pub fn stream_upstream_response(&mut self, data: &[u8]) -> (r: Relay)
        requires
            old(self)@.level <= 10,
        ensures
            exists|fresh: Gzip|
                {
                    let w = #[trigger] on_upstream(old(self)@, data@, fresh);
                    relay_is(r, final(self)@, w) && encoder_is_new(old(self)@, w.state, fresh)
                },
            final(self)@.level == old(self)@.level,
    {
        let ghost s = self@;
        let ghost any = vstd::pervasive::arbitrary::<Gzip>();
        match self.phase {
            Phase::Head => {},
            _ => {
                if data.len() > 0 {
                    let none: Vec<u8> = Vec::new();
                    assert(none@ =~= Seq::<u8>::empty());
                    let r = self.pass_piece(none, data);
                    assert(relay_is(r, self@, on_upstream(s, data@, any)));
                    return r;
                }
                assert(data@ =~= Seq::<u8>::empty());
                let r = self.take_end();
                assert(relay_is(r, self@, on_upstream(s, data@, any)));
                return r;
            },
        }
        if data.len() == 0 {
            let r = Relay {
                output: error_bytes(StatusCode::BadGateway, "upstream closed before headers"),
                progress: Progress::Done,
            };
            assert(relay_is(r, self@, on_upstream(s, data@, any)));
            return r;
        }
        push_bytes(&mut self.buffer, data);
        let total: usize = self.buffer.len();
        let needle = blank();
        match find_bytes(self.buffer.as_slice(), needle.as_slice()) {
            Some(at) => {
                assert(at + 4 <= total);
                let ghost held = self@;
                let r = self.take_head(at + 4);
                proof {
                    let fresh = choose|fresh: Gzip|
                        {
                            let w = #[trigger] on_head(held, at + 4, fresh);
                            relay_is(r, self@, w) && encoder_is_new(held, w.state, fresh)
                        };
                    assert(relay_is(r, self@, on_upstream(s, data@, fresh)));
                }
                r
            },
            None => {
                if total > self.max_headers {
                    let r = Relay {
                        output: error_bytes(StatusCode::BadGateway, "upstream headers too large"),
                        progress: Progress::Done,
                    };
                    assert(relay_is(r, self@, on_upstream(s, data@, any)));
                    return r;
                }
                let none: Vec<u8> = Vec::new();
                assert(none@ =~= Seq::<u8>::empty());
                let r = Relay { output: none, progress: Progress::More };
                assert(relay_is(r, self@, on_upstream(s, data@, any)));
                r
            },
        }
    }
}

/// An upstream's response for an HTTP/2 stream whose head has not come yet.
#[derive(Debug)]
pub struct H2ProxyPending {
    buffer: Vec<u8>,
    max_headers: usize,
    is_head: bool,
}

#[verifier::ext_equal]
pub struct ProxyPendingView {
    pub buffer: Seq<u8>,
    pub max_headers: usize,
    pub is_head: bool,
}

impl View for H2ProxyPending {
    type V = ProxyPendingView;

    closed spec fn view(&self) -> ProxyPendingView {
        ProxyPendingView {
            buffer: self.buffer@,
            max_headers: self.max_headers,
            is_head: self.is_head,
        }
    }
}

/// What has come leads to the head and the beginning of the body, to nothing yet, or
/// to a failure.
pub open spec fn proxy_polled(p: ProxyPendingView) -> Result<Option<(ReadyView, Seq<u8>)>, FaultView> {
    let at = sub_find(p.buffer, blank_line(), 0);
    if at < p.buffer.len() {
        if at + 4 > p.max_headers {
            Err(fault(FaultKind::InvalidData, "upstream headers too large"@))
        } else {
            match upstream_head(p.buffer.subrange(0, at + 4)) {
                Err(e) => Err(e),
                Ok(h) => {
                    let none = h.no_body || p.is_head || h.content_length == Some(0u64);
                    Ok(
                        Some(
                            (
                                ReadyView {
                                    response: h.response,
                                    has_body: !none,
                                    length: if none {
                                        Some(0u64)
                                    } else {
                                        h.content_length
                                    },
                                },
                                p.buffer.subrange(at + 4, p.buffer.len() as int),
                            ),
                        ),
                    )
                },
            }
        }
    } else if p.buffer.len() > p.max_headers {
        Err(fault(FaultKind::InvalidData, "upstream headers too large"@))
    } else {
        Ok(None)
    }
}

impl H2ProxyPending {
    pub fn new(max_headers: usize, is_head: bool) -> (r: Self)
        ensures
            r@ == (ProxyPendingView { buffer: Seq::empty(), max_headers, is_head }),
    {
        let buffer: Vec<u8> = Vec::new();
        assert(buffer@ =~= Seq::<u8>::empty());
        H2ProxyPending { buffer, max_headers, is_head }
    }

    /// Takes bytes that came from the upstream.
    pub fn feed(&mut self, data: &[u8])
        ensures
            final(self)@ == (ProxyPendingView { buffer: old(self)@.buffer + data@, ..old(self)@ }),
    {
        push_bytes(&mut self.buffer, data);
    }

    /// The failure where the upstream closes before the head is complete.
    pub fn closed(&self) -> (f: Fault)
        ensures
            f@ == fault(FaultKind::UnexpectedEof, "upstream closed before headers"@),
    {
        early_end("upstream closed before headers")
    }

    /// Looks for the head in what has come.
    pub fn poll(&self, expired: bool) -> (r: Result<Option<(ReadyResponse, Vec<u8>)>, Fault>)
        ensures
            expired ==> (r matches Err(f) && f@ == fault(
                FaultKind::TimedOut,
                "upstream response header timeout"@,
            )),
            !expired ==> match proxy_polled(self@) {
                Ok(Some((v, b))) => r matches Ok(Some((x, y))) && x@ == v && y@ == b,
                Ok(None) => r matches Ok(None),
                Err(e) => r matches Err(f) && f@ == e,
            },
    {
        if expired {
            return Err(
                Fault { kind: FaultKind::TimedOut, message: "upstream response header timeout" },
            );
        }
        let total: usize = self.buffer.len();
        let needle = blank();
        match find_bytes(self.buffer.as_slice(), needle.as_slice()) {
            Some(at) => {
                assert(at + 4 <= total);
                let end: usize = at + 4;
                if end > self.max_headers {
                    return Err(invalid_data("upstream headers too large"));
                }
                let raw = part_bytes(self.buffer.as_slice(), 0, end);
                let h = match parse_upstream_head(raw.as_slice()) {
                    Ok(h) => h,
                    Err(e) => {
                        return Err(e);
                    },
                };
                let none = h.no_body || self.is_head || h.content_length == Some(0u64);
                let length = if none {
                    Some(0u64)
                } else {
                    h.content_length
                };
                let rest = part_bytes(self.buffer.as_slice(), end, total);
                Ok(Some((ReadyResponse { response: h.response, has_body: !none, length }, rest)))
            },
            None => {
                if total > self.max_headers {
                    return Err(invalid_data("upstream headers too large"));
                }
                Ok(None)
            },
        }
    }
}

} // verus!
