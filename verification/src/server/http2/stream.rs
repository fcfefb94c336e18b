//! One HTTP/2 stream: its state and the request that arrives on it.

use crate::bytes::push_bytes;
use crate::config::types::{copy_pairs, pairs};
use crate::server::http2::flow::Window;
use crate::server::http2::frame::Http2ErrorCode;
use vstd::prelude::*;

verus! {

#[derive(Debug, Clone, Copy, PartialEq, Eq, Structural)]
pub enum StreamState {
    Idle,
    ReservedLocal,
    ReservedRemote,
    Open,
    HalfClosedLocal,
    HalfClosedRemote,
    Closed,
}

/// The moves that a stream may make.
pub open spec fn may_move(from: StreamState, to: StreamState) -> bool {
    match (from, to) {
        (StreamState::Idle, StreamState::Open) => true,
        (StreamState::Idle, StreamState::HalfClosedRemote) => true,
        (StreamState::Open, StreamState::HalfClosedRemote) => true,
        (StreamState::Open, StreamState::HalfClosedLocal) => true,
        (StreamState::Open, StreamState::Closed) => true,
        (StreamState::HalfClosedRemote, StreamState::Closed) => true,
        (StreamState::HalfClosedLocal, StreamState::Closed) => true,
        (StreamState::Closed, StreamState::Closed) => true,
        _ => false,
    }
}

/// The state after an attempted move.
pub open spec fn moved(from: StreamState, to: StreamState) -> StreamState {
    if may_move(from, to) {
        to
    } else {
        from
    }
}

/// A closed stream stays closed, and no stream becomes idle again.
pub proof fn law_closed_is_final(from: StreamState, to: StreamState)
    ensures
        moved(StreamState::Closed, to) == StreamState::Closed,
        from != StreamState::Idle ==> moved(from, to) != StreamState::Idle,
{
}

#[derive(Debug, PartialEq)]
pub struct Stream {
    pub id: u32,
    pub state: StreamState,
    pub window: Window,
    pub send_window: Window,
    pub request_headers: Vec<(String, String)>,
    pub request_body: Vec<u8>,
    pub received_end_stream: bool,
    pub received_end_headers: bool,
}

#[verifier::ext_equal]
pub struct StreamView {
    pub id: u32,
    pub state: StreamState,
    pub window: Window,
    pub send_window: Window,
    pub request_headers: Seq<(Seq<char>, Seq<char>)>,
    pub request_body: Seq<u8>,
    pub received_end_stream: bool,
    pub received_end_headers: bool,
}

impl View for Stream {
    type V = StreamView;

    open spec fn view(&self) -> StreamView {
        StreamView {
            id: self.id,
            state: self.state,
            window: self.window,
            send_window: self.send_window,
            request_headers: pairs(self.request_headers@),
            request_body: self.request_body@,
            received_end_stream: self.received_end_stream,
            received_end_headers: self.received_end_headers,
        }
    }
}

impl Clone for Stream {
    fn clone(&self) -> (r: Self)
        ensures
            r@ == self@,
    {
        Stream {
            id: self.id,
            state: self.state,
            window: self.window,
            send_window: self.send_window,
            request_headers: copy_pairs(&self.request_headers),
            request_body: crate::bytes::part_bytes_all(self.request_body.as_slice()),
            received_end_stream: self.received_end_stream,
            received_end_headers: self.received_end_headers,
        }
    }
}

/// Streams that a client opens have odd numbers.
pub open spec fn client_stream(id: u32) -> bool {
    id > 0 && id % 2 == 1
}

/// A stream before anything arrived on it.
pub open spec fn new_stream(id: u32, window: u32) -> StreamView {
    StreamView {
        id,
        state: StreamState::Idle,
        window: Window { available: window as i32 },
        send_window: Window { available: 65535 },
        request_headers: Seq::empty(),
        request_body: Seq::empty(),
        received_end_stream: false,
        received_end_headers: false,
    }
}

/// The stream after more of the request body.
pub open spec fn with_data(s: StreamView, data: Seq<u8>, end_stream: bool) -> StreamView {
    StreamView {
        request_body: s.request_body + data,
        received_end_stream: s.received_end_stream || end_stream,
        state: if end_stream {
            moved(s.state, StreamState::HalfClosedRemote)
        } else {
            s.state
        },
        ..s
    }
}

impl Stream {
    /// A stream that a client opens.
    pub fn new(id: u32, initial_window_size: u32) -> (r: Result<Self, Http2ErrorCode>)
        ensures
            match r {
                Ok(s) => client_stream(id) && s@ == new_stream(id, initial_window_size),
                Err(e) => !client_stream(id) && e == Http2ErrorCode::ProtocolError,
            },
    {
        if id == 0 || id % 2 == 0 {
            return Err(Http2ErrorCode::ProtocolError);
        }
        let s = Stream {
            id,
            state: StreamState::Idle,
            window: Window::new(initial_window_size),
            send_window: Window::new(65535),
            request_headers: Vec::new(),
            request_body: Vec::new(),
            received_end_stream: false,
            received_end_headers: false,
        };
        assert(s@ =~= new_stream(id, initial_window_size));
        Ok(s)
    }

    pub fn is_client_initiated(id: u32) -> (b: bool)
        ensures
            b == client_stream(id),
    {
        id > 0 && id % 2 != 0
    }

    /// Moves the stream to another state.
    pub fn transition_to(&mut self, target_state: StreamState) -> (r: Result<(), Http2ErrorCode>)
        ensures
            final(self)@ == (StreamView {
                state: moved(old(self).state, target_state),
                ..old(self)@
            }),
            r == (if may_move(old(self).state, target_state) {
                Ok::<(), Http2ErrorCode>(())
            } else {
                Err::<(), Http2ErrorCode>(Http2ErrorCode::StreamClosed)
            }),
    {
        match (self.state, target_state) {
            (StreamState::Idle, StreamState::Open)
            | (StreamState::Idle, StreamState::HalfClosedRemote)
            | (StreamState::Open, StreamState::HalfClosedRemote)
            | (StreamState::Open, StreamState::HalfClosedLocal)
            | (StreamState::Open, StreamState::Closed)
            | (StreamState::HalfClosedRemote, StreamState::Closed)
            | (StreamState::HalfClosedLocal, StreamState::Closed)
            | (StreamState::Closed, StreamState::Closed) => {
                self.state = target_state;
                Ok(())
            },
            _ => Err(Http2ErrorCode::StreamClosed),
        }
    }

    /// Adds decoded headers to the request.
    pub fn append_request_headers(&mut self, headers: Vec<(String, String)>, end_headers: bool)
        ensures
            final(self)@ == (StreamView {
                request_headers: old(self)@.request_headers + pairs(headers@),
                received_end_headers: old(self)@.received_end_headers || end_headers,
                ..old(self)@
            }),
    {
        let ghost start = pairs(self.request_headers@);
        let ghost more = pairs(headers@);
        let mut i: usize = 0;
        assert(start + more.subrange(0, 0) =~= start);
        while i < headers.len()
            invariant
                more == pairs(headers@),
                i <= headers@.len(),
                pairs(self.request_headers@) == start + more.subrange(0, i as int),
                self@ == (StreamView {
                    request_headers: pairs(self.request_headers@),
                    ..old(self)@
                }),
            decreases headers@.len() - i,
        {
            let ghost prev = pairs(self.request_headers@);
            self.request_headers.push((headers[i].0.clone(), headers[i].1.clone()));
            assert(pairs(self.request_headers@) =~= prev.push(more[i as int]));
            i = i + 1;
            assert(start + more.subrange(0, i as int) =~= (start + more.subrange(0, i - 1)).push(
                more[i - 1],
            ));
        }
        assert(more.subrange(0, more.len() as int) =~= more);
        if end_headers {
            self.received_end_headers = true;
        }
    }

    /// Adds bytes to the request body.
    pub fn append_request_data(&mut self, data: &[u8], end_stream: bool) -> (r: Result<
        (),
        Http2ErrorCode,
    >)
        ensures
            r is Ok,
            final(self)@ == with_data(old(self)@, data@, end_stream),
    {
        push_bytes(&mut self.request_body, data);
        if end_stream {
            self.received_end_stream = true;
            let _ = self.transition_to(StreamState::HalfClosedRemote);
        }
        Ok(())
    }
}

} // verus!
