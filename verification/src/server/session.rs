//! An HTTP/1.1 connection: what is done with the bytes that come in.

use crate::bytes::{part_bytes, push_bytes};
use crate::config::types::{ServerConfig, ServerView};
use crate::router::vhost::{effective_config, settings_for};
use crate::server::dispatch::{
    body_target, body_target_of, is_last_request, parse_error_answer, request_target,
    request_timeout, sniff, sniffed, status_text, target_of, Sniff, Target,
};
use crate::server::fault::closing_answer;
use crate::server::http::{
    answer_to, keeps_alive, parse_http_request_from_buf_with_limits,
    parse_http_request_head_from_buf_with_limits, request_head, with_body_bytes, HeadView,
    HttpParseError, HttpRequest, HttpRequestHead, RequestView, StatusCode,
};
use crate::server::response::{HttpResponse, ResponseView};
use vstd::prelude::*;

verus! {

/// What came of a read from the client.
#[derive(Debug, PartialEq, Eq)]
pub enum ClientEvent {
    Data(Vec<u8>),
    /// The client closed the connection.
    Closed,
    /// Nothing came in time.
    Timeout,
    /// The connection broke.
    Broken,
}

/// What is done before the protocol is known.
#[derive(Debug, Clone, Copy, PartialEq, Eq, Structural)]
pub enum Opening {
    Read,
    Http2,
    Http1,
    Close,
}

/// What is done with the first bytes of a connection.
pub open spec fn opening_of(b: Seq<u8>, event: ClientEvent, http2: bool, late: bool) -> Opening {
    match event {
        ClientEvent::Closed => Opening::Close,
        ClientEvent::Broken => Opening::Close,
        ClientEvent::Timeout => if !http2 {
            Opening::Close
        } else if late {
            Opening::Http1
        } else {
            Opening::Read
        },
        ClientEvent::Data(_) => if !http2 {
            Opening::Http1
        } else {
            match sniffed(b) {
                Sniff::Http2 => Opening::Http2,
                Sniff::Http1 => Opening::Http1,
                Sniff::More => if late {
                    Opening::Http1
                } else {
                    Opening::Read
                },
            }
        },
    }
}

/// The bytes after an event.
pub open spec fn received(b: Seq<u8>, event: ClientEvent) -> Seq<u8> {
    match event {
        ClientEvent::Data(d) => b + d@,
        _ => b,
    }
}

/// Takes the first bytes of a connection and says what is done. `late` says that the
/// time for the preface is over.
pub fn open_connection(buffer: &mut Vec<u8>, event: &ClientEvent, http2: bool, late: bool) -> (r:
    Opening)
    ensures
        final(buffer)@ == received(old(buffer)@, *event),
        r == opening_of(final(buffer)@, *event, http2, late),
{
    match event {
        ClientEvent::Closed => Opening::Close,
        ClientEvent::Broken => Opening::Close,
        ClientEvent::Timeout => if !http2 {
            Opening::Close
        } else if late {
            Opening::Http1
        } else {
            Opening::Read
        },
        ClientEvent::Data(d) => {
            push_bytes(buffer, d.as_slice());
            if !http2 {
                return Opening::Http1;
            }
            match sniff(buffer.as_slice()) {
                Sniff::Http2 => Opening::Http2,
                Sniff::Http1 => Opening::Http1,
                Sniff::More => if late {
                    Opening::Http1
                } else {
                    Opening::Read
                },
            }
        },
    }
}

/// A connection.
#[derive(Debug)]
pub struct Session {
    buffer: Vec<u8>,
    requests: usize,
}

#[verifier::ext_equal]
pub struct SessionView {
    /// What came in and was not used yet.
    pub buffer: Seq<u8>,
    /// How many requests were served.
    pub requests: usize,
}

impl View for Session {
    type V = SessionView;

    closed spec fn view(&self) -> SessionView {
        SessionView { buffer: self.buffer@, requests: self.requests }
    }
}

/// What is done next.
#[derive(Debug)]
pub enum Action {
    Read,
    /// The body goes to the upstream as it comes in.
    Forward(Target, HttpRequestHead),
    /// The request is served, and the connection closed where it is the last.
    Serve(Target, HttpRequest, bool),
    /// The connection is closed after an answer.
    Answer(HttpResponse),
    Close,
}

#[verifier::ext_equal]
pub enum ActionView {
    Read,
    Forward(Target, HeadView),
    Serve(Target, RequestView, bool),
    Answer(ResponseView),
    Close,
}

impl View for Action {
    type V = ActionView;

    open spec fn view(&self) -> ActionView {
        match self {
            Action::Read => ActionView::Read,
            Action::Forward(t, h) => ActionView::Forward(*t, h@),
            Action::Serve(t, q, last) => ActionView::Serve(*t, q@, *last),
            Action::Answer(r) => ActionView::Answer(r@),
            Action::Close => ActionView::Close,
        }
    }
}

pub open spec fn one_more_request(n: usize) -> usize {
    if n == usize::MAX {
        n
    } else {
        (n + 1) as usize
    }
}

/// What is done with a complete request, and what is left.
pub open spec fn on_request(s: SessionView, h: HeadView, c: ServerView) -> (
    SessionView,
    ActionView,
) {
    let end = h.header_len + h.content_length;
    let q = with_body_bytes(h, s.buffer.subrange(h.header_len as int, end));
    let count = one_more_request(s.requests);
    (
        SessionView {
            buffer: s.buffer.subrange(end, s.buffer.len() as int),
            requests: count,
        },
        ActionView::Serve(
            target_of(q, settings_for(c, q)),
            q,
            count >= c.max_requests_per_connection || !keeps_alive(q.version, q.headers),
        ),
    )
}

/// What is done next.
pub open spec fn next_action(s: SessionView, c: ServerView) -> (SessionView, ActionView) {
    match request_head(s.buffer, c) {
        Err(e) => (
            s,
            if e == HttpParseError::ConnectionClosed {
                ActionView::Close
            } else {
                ActionView::Answer(closing_answer(answer_to(e), status_text(answer_to(e))))
            },
        ),
        Ok(None) => (s, ActionView::Read),
        Ok(Some(h)) => {
            let q = with_body_bytes(h, Seq::empty());
            match body_target_of(q, settings_for(c, q)) {
                Some(t) => (
                    SessionView {
                        buffer: s.buffer.subrange(h.header_len as int, s.buffer.len() as int),
                        ..s
                    },
                    ActionView::Forward(t, h),
                ),
                None => if s.buffer.len() < h.header_len + h.content_length {
                    (s, ActionView::Read)
                } else {
                    on_request(s, h, c)
                },
            }
        },
    }
}

/// A request is served only where it is complete, and what follows it stays for the
/// next one.
pub proof fn law_requests_are_taken_whole(s: SessionView, c: ServerView)
    ensures
        next_action(s, c).1 matches ActionView::Serve(_, q, _) ==> (request_head(s.buffer, c)
            matches Ok(Some(h)) && q.body.len() == h.content_length && s.buffer.len()
            == h.header_len + h.content_length + next_action(s, c).0.buffer.len()),
{
    if next_action(s, c).1 is Serve {
        let h = (request_head(s.buffer, c)->Ok_0)->Some_0;
        assert(s.buffer.len() >= h.header_len + h.content_length);
    }
}

/// What is done after a read.
pub open spec fn after_read(s: SessionView, event: ClientEvent) -> (SessionView, Option<ActionView>) {
    match event {
        ClientEvent::Data(d) => (SessionView { buffer: s.buffer + d@, ..s }, None),
        ClientEvent::Timeout => (
            s,
            Some(
                if s.buffer.len() > 0 {
                    ActionView::Answer(
                        closing_answer(StatusCode::RequestTimeout, "408 Request Timeout"@),
                    )
                } else {
                    ActionView::Close
                },
            ),
        ),
        _ => (s, Some(ActionView::Close)),
    }
}

impl Session {
    /// A connection on which some bytes have come in.
    pub fn new(buffer: Vec<u8>) -> (r: Self)
        ensures
            r@ == (SessionView { buffer: buffer@, requests: 0 }),
    {
        Session { buffer, requests: 0 }
    }

    /// What came in behind a head whose body goes to an upstream.
    pub fn buffered(&mut self) -> (r: &mut Vec<u8>)
        ensures
            r@ == old(self)@.buffer,
            final(self)@ == (SessionView { buffer: final(r)@, ..old(self)@ }),
    {
        &mut self.buffer
    }

    /// What is done next.
    pub fn next(&mut self, config: &ServerConfig) -> (a: Action)
        ensures
            (final(self)@, a@) == next_action(old(self)@, config@),
    {
        let ghost s = self@;
        let n: usize = self.buffer.len();
        match parse_http_request_head_from_buf_with_limits(self.buffer.as_slice(), config) {
            Ok(Some(head)) => {
                let none: Vec<u8> = Vec::new();
                assert(none@ =~= Seq::<u8>::empty());
                let q = head.clone().into_request(none);
                let effective = effective_config(config, &q);
                match body_target(&q, &effective) {
                    Some(t) => {
                        let rest = part_bytes(self.buffer.as_slice(), head.header_len, n);
                        self.buffer = rest;
                        return Action::Forward(t, head);
                    },
                    None => {},
                }
            },
            _ => {},
        }
        match parse_http_request_from_buf_with_limits(&mut self.buffer, config) {
            Ok(Some(q)) => {
                if self.requests < usize::MAX {
                    self.requests = self.requests + 1;
                }
                let last = is_last_request(
                    self.requests,
                    config.max_requests_per_connection,
                    &q,
                );
                let effective = effective_config(config, &q);
                let t = request_target(&q, &effective);
                Action::Serve(t, q, last)
            },
            Ok(None) => Action::Read,
            Err(e) => match parse_error_answer(e) {
                Some(r) => Action::Answer(r),
                None => Action::Close,
            },
        }
    }

    /// Takes what came of a read; says what is done where the connection ends.
    pub fn read(&mut self, event: &ClientEvent) -> (a: Option<Action>)
        ensures
            final(self)@ == after_read(old(self)@, *event).0,
            match a {
                Some(x) => after_read(old(self)@, *event).1 == Some(x@),
                None => after_read(old(self)@, *event).1 is None,
            },
    {
        match event {
            ClientEvent::Data(d) => {
                push_bytes(&mut self.buffer, d.as_slice());
                None
            },
            ClientEvent::Timeout => {
                if self.buffer.len() > 0 {
                    Some(Action::Answer(request_timeout()))
                } else {
                    Some(Action::Close)
                }
            },
            _ => Some(Action::Close),
        }
    }
}

} // verus!
