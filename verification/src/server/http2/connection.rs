//! The server side of an HTTP/2 connection: what each frame changes, what is sent
//! in answer and which requests become complete.

use crate::bytes::{part_bytes, part_bytes_all, push_bytes, same_bytes};
use crate::config::types::{pairs, views, ServerConfig};
use crate::server::http2::consistency::consistent;
use crate::server::http2::flags;
use crate::server::http2::flow::{
    window_gain, window_shift, FlowControl, Window, MAX_WINDOW_SIZE,
};
use crate::server::http2::frame::{
    header_of, payload_of, Frame, FrameHeader, FramePayload, FrameType, FrameView, Http2ErrorCode,
    PayloadView, SettingId, DEFAULT_MAX_FRAME_SIZE, FRAME_HEADER_SIZE, MAX_ALLOWED_FRAME_SIZE,
};
use crate::server::http2::schedule::{
    drop_responses, remove_responses, PendingResponse, PendingView,
};
use crate::server::http2::stream::{
    client_stream, new_stream, with_data, Stream, StreamState, StreamView,
};
use vstd::prelude::*;

verus! {

/// What a client sends first on an HTTP/2 connection: `PRI * HTTP/2.0`, a blank
/// line, `SM` and another blank line.
pub const CLIENT_PREFACE: [u8; 24] = [
    80,
    82,
    73,
    32,
    42,
    32,
    72,
    84,
    84,
    80,
    47,
    50,
    46,
    48,
    13,
    10,
    13,
    10,
    83,
    77,
    13,
    10,
    13,
    10,
];

/// A response whose headers an upstream still owes.
#[derive(Debug, Clone, Copy, PartialEq, Eq, Structural)]
pub struct WaitingResponse {
    pub stream_id: u32,
    pub compress: bool,
    pub compression_level: u32,
}

/// The state of a connection.
#[derive(Debug)]
pub struct Http2Connection {
    pub secure: bool,
    pub max_header_block: usize,
    pub max_request_size: usize,
    pub flow_control: FlowControl,
    pub max_frame_size: u32,
    pub peer_max_frame_size: u32,
    pub peer_connection_window: Window,
    pub peer_initial_stream_window_size: u32,
    pub send_stream_windows: Vec<(u32, Window)>,
    pub max_concurrent_streams: usize,
    pub active_streams: Vec<Stream>,
    pub last_stream_id: u32,
    pub pending_headers_stream_id: Option<u32>,
    pub pending_header_block: Vec<u8>,
    pub pending_responses: Vec<PendingResponse>,
    pub pending_header_responses: Vec<WaitingResponse>,
    pub closed_streams: Vec<u32>,
}

#[verifier::ext_equal]
pub struct ConnView {
    pub secure: bool,
    pub max_header_block: usize,
    pub max_request_size: usize,
    pub flow_control: FlowControl,
    pub max_frame_size: u32,
    pub peer_max_frame_size: u32,
    pub peer_connection_window: Window,
    pub peer_initial: u32,
    pub send_windows: Seq<(u32, Window)>,
    pub max_concurrent_streams: usize,
    pub streams: Seq<StreamView>,
    pub last_stream_id: u32,
    pub pending_headers: Option<u32>,
    pub pending_block: Seq<u8>,
    pub responses: Seq<PendingView>,
    pub waiting: Seq<WaitingResponse>,
    pub closed: Seq<u32>,
}

impl View for Http2Connection {
    type V = ConnView;

    open spec fn view(&self) -> ConnView {
        ConnView {
            secure: self.secure,
            max_header_block: self.max_header_block,
            max_request_size: self.max_request_size,
            flow_control: self.flow_control,
            max_frame_size: self.max_frame_size,
            peer_max_frame_size: self.peer_max_frame_size,
            peer_connection_window: self.peer_connection_window,
            peer_initial: self.peer_initial_stream_window_size,
            send_windows: self.send_stream_windows@,
            max_concurrent_streams: self.max_concurrent_streams,
            streams: views(self.active_streams@),
            last_stream_id: self.last_stream_id,
            pending_headers: self.pending_headers_stream_id,
            pending_block: self.pending_header_block@,
            responses: views(self.pending_responses@),
            waiting: self.pending_header_responses@,
            closed: self.closed_streams@,
        }
    }
}

/// The first position of a number, or the length.
pub open spec fn first_index(s: Seq<u32>, id: u32) -> int
    decreases s.len(),
{
    if s.len() == 0 || s[0] == id {
        0
    } else {
        1 + first_index(s.subrange(1, s.len() as int), id)
    }
}

pub proof fn lemma_first_index(s: Seq<u32>, id: u32)
    ensures
        0 <= first_index(s, id) <= s.len(),
        first_index(s, id) < s.len() ==> s[first_index(s, id)] == id,
        forall|i: int| 0 <= i < first_index(s, id) ==> s[i] != id,
    decreases s.len(),
{
    if s.len() > 0 && s[0] != id {
        let t = s.subrange(1, s.len() as int);
        lemma_first_index(t, id);
        assert forall|i: int| 0 <= i < first_index(s, id) implies s[i] != id by {
            if i > 0 {
                assert(t[i - 1] == s[i]);
            }
        }
    }
}

pub proof fn lemma_first_index_is(s: Seq<u32>, id: u32, k: int)
    requires
        0 <= k <= s.len(),
        forall|i: int| 0 <= i < k ==> s[i] != id,
        k == s.len() || s[k] == id,
    ensures
        first_index(s, id) == k,
{
    lemma_first_index(s, id);
    let f = first_index(s, id);
    if f < k {
        assert(s[f] != id);
    } else if k < f {
        assert(s[k] != id);
    }
}

pub open spec fn window_ids(w: Seq<(u32, Window)>) -> Seq<u32> {
    Seq::new(w.len(), |i: int| w[i].0)
}

pub open spec fn stream_ids(s: Seq<StreamView>) -> Seq<u32> {
    Seq::new(s.len(), |i: int| s[i].id)
}

pub open spec fn window_at(w: Seq<(u32, Window)>, id: u32) -> int {
    first_index(window_ids(w), id)
}

pub open spec fn stream_at(s: Seq<StreamView>, id: u32) -> int {
    first_index(stream_ids(s), id)
}

pub open spec fn drop_window(w: Seq<(u32, Window)>, id: u32) -> Seq<(u32, Window)> {
    let k = window_at(w, id);
    if k < w.len() {
        w.remove(k)
    } else {
        w
    }
}

pub open spec fn drop_stream(s: Seq<StreamView>, id: u32) -> Seq<StreamView> {
    let k = stream_at(s, id);
    if k < s.len() {
        s.remove(k)
    } else {
        s
    }
}

pub open spec fn drop_waiting(w: Seq<WaitingResponse>, id: u32) -> Seq<WaitingResponse>
    decreases w.len(),
{
    if w.len() == 0 {
        w
    } else {
        let r = drop_waiting(w.drop_last(), id);
        if w.last().stream_id == id {
            r
        } else {
            r.push(w.last())
        }
    }
}

/// How many closed streams are remembered.
pub open spec fn closed_limit(max_streams: usize) -> int {
    if 2 * max_streams > usize::MAX {
        usize::MAX as int
    } else if 2 * max_streams < 16 {
        16
    } else {
        2 * max_streams
    }
}

/// The remembered closed streams after one more closed: the newest are kept.
pub open spec fn remember_closed(closed: Seq<u32>, id: u32, max_streams: usize) -> Seq<u32> {
    let all = closed.push(id);
    if closed.contains(id) {
        closed
    } else if all.len() > closed_limit(max_streams) {
        all.subrange(all.len() - closed_limit(max_streams), all.len() as int)
    } else {
        all
    }
}

/// The connection after a stream is done: its send window is gone and it is
/// remembered as closed.
pub open spec fn finish_stream(c: ConnView, id: u32) -> ConnView {
    ConnView {
        send_windows: drop_window(c.send_windows, id),
        closed: remember_closed(c.closed, id, c.max_concurrent_streams),
        ..c
    }
}

pub open spec fn header_for(length: u32, frame_type: FrameType, flags: u8, stream_id: u32) ->
    FrameHeader {
    FrameHeader { length, frame_type, flags, stream_id }
}

pub open spec fn reset_view(id: u32, error_code: Http2ErrorCode) -> FrameView {
    FrameView {
        header: header_for(4, FrameType::RstStream, 0, id),
        payload: PayloadView::RstStream { error_code },
    }
}

pub open spec fn window_view(id: u32, n: u32) -> FrameView {
    FrameView {
        header: header_for(4, FrameType::WindowUpdate, 0, id),
        payload: PayloadView::WindowUpdate { window_size_increment: n },
    }
}

pub open spec fn settings_ack_view() -> FrameView {
    FrameView {
        header: header_for(0, FrameType::Settings, flags::ACK, 0),
        payload: PayloadView::Settings { settings: Seq::empty(), ack: true },
    }
}

pub open spec fn ping_ack_view(opaque_data: Seq<u8>) -> FrameView {
    FrameView {
        header: header_for(8, FrameType::Ping, flags::ACK, 0),
        payload: PayloadView::Ping { opaque_data, ack: true },
    }
}

pub open spec fn goaway_view(last_stream_id: u32, error_code: Http2ErrorCode) -> FrameView {
    FrameView {
        header: header_for(8, FrameType::GoAway, 0, 0),
        payload: PayloadView::GoAway { last_stream_id, error_code, debug_data: Seq::empty() },
    }
}

/// The settings that the server announces.
pub open spec fn server_settings_view(c: ConnView) -> FrameView {
    FrameView {
        header: header_for(18, FrameType::Settings, 0, 0),
        payload: PayloadView::Settings {
            settings: seq![
                (SettingId::MaxConcurrentStreams, c.max_concurrent_streams as u32),
                (SettingId::InitialWindowSize, c.flow_control.initial_stream_window_size),
                (SettingId::MaxFrameSize, c.max_frame_size),
            ],
            ack: false,
        },
    }
}

pub fn reset_frame(stream_id: u32, error_code: Http2ErrorCode) -> (f: Frame)
    ensures
        f@ == reset_view(stream_id, error_code),
{
    Frame {
        header: FrameHeader { length: 4, frame_type: FrameType::RstStream, flags: 0, stream_id },
        payload: FramePayload::RstStream { error_code },
    }
}

fn window_frame(stream_id: u32, n: u32) -> (f: Frame)
    ensures
        f@ == window_view(stream_id, n),
{
    Frame {
        header: FrameHeader { length: 4, frame_type: FrameType::WindowUpdate, flags: 0, stream_id },
        payload: FramePayload::WindowUpdate { window_size_increment: n },
    }
}

/// The frame that ends a connection.
pub fn goaway_frame(last_stream_id: u32, error_code: Http2ErrorCode) -> (f: Frame)
    ensures
        f@ == goaway_view(last_stream_id, error_code),
{
    let debug_data: Vec<u8> = Vec::new();
    assert(debug_data@ =~= Seq::<u8>::empty());
    Frame {
        header: FrameHeader { length: 8, frame_type: FrameType::GoAway, flags: 0, stream_id: 0 },
        payload: FramePayload::GoAway { last_stream_id, error_code, debug_data },
    }
}

/// What one frame leads to: the frames to send, and either the connection's new
/// state with the stream whose request is complete, or the error that ends the
/// connection.
#[verifier::ext_equal]
pub struct Effect {
    pub sent: Seq<FrameView>,
    pub outcome: Result<(ConnView, Option<StreamView>), Http2ErrorCode>,
}

pub open spec fn fails(e: Http2ErrorCode) -> Effect {
    Effect { sent: Seq::empty(), outcome: Err(e) }
}

pub open spec fn continues(c: ConnView) -> Effect {
    Effect { sent: Seq::empty(), outcome: Ok((c, None)) }
}

pub open spec fn windows_shift_ok(w: Seq<(u32, Window)>, delta: int) -> bool {
    forall|i: int|
        0 <= i < w.len() ==> window_shift((#[trigger] w[i]).1.available as int, delta) is Ok
}

pub open spec fn shift_windows(w: Seq<(u32, Window)>, delta: int) -> Seq<(u32, Window)> {
    Seq::new(
        w.len(),
        |i: int| (w[i].0, Window { available: (w[i].1.available + delta) as i32 }),
    )
}

pub open spec fn streams_shift_ok(s: Seq<StreamView>, delta: int) -> bool {
    forall|i: int|
        0 <= i < s.len() ==> window_shift((#[trigger] s[i]).send_window.available as int, delta)
            is Ok
}

pub open spec fn shift_streams(s: Seq<StreamView>, delta: int) -> Seq<StreamView> {
    Seq::new(
        s.len(),
        |i: int|
            StreamView {
                send_window: Window { available: (s[i].send_window.available + delta) as i32 },
                ..s[i]
            },
    )
}

/// The effect of one setting of the peer.
pub open spec fn peer_setting(c: ConnView, id: SettingId, val: u32) -> Result<
    ConnView,
    Http2ErrorCode,
> {
    match id {
        SettingId::MaxFrameSize => if val < DEFAULT_MAX_FRAME_SIZE || val > MAX_ALLOWED_FRAME_SIZE {
            Err(Http2ErrorCode::FrameSizeError)
        } else {
            Ok(ConnView { peer_max_frame_size: val, ..c })
        },
        SettingId::InitialWindowSize => {
            let delta = val - c.peer_initial;
            if val > MAX_WINDOW_SIZE || !streams_shift_ok(c.streams, delta) || !windows_shift_ok(
                c.send_windows,
                delta,
            ) {
                Err(Http2ErrorCode::FlowControlError)
            } else {
                Ok(
                    ConnView {
                        streams: shift_streams(c.streams, delta),
                        send_windows: shift_windows(c.send_windows, delta),
                        peer_initial: val,
                        ..c
                    },
                )
            }
        },
        _ => Ok(c),
    }
}

pub open spec fn peer_settings(c: ConnView, s: Seq<(SettingId, u32)>) -> Result<
    ConnView,
    Http2ErrorCode,
>
    decreases s.len(),
{
    if s.len() == 0 {
        Ok(c)
    } else {
        match peer_settings(c, s.drop_last()) {
            Err(e) => Err(e),
            Ok(d) => peer_setting(d, s.last().0, s.last().1),
        }
    }
}

/// A stream directly after its first header frame.
pub open spec fn opened_stream(c: ConnView, id: u32, end_stream: bool) -> StreamView {
    StreamView {
        state: StreamState::Open,
        send_window: Window { available: c.peer_initial as i32 },
        received_end_stream: end_stream,
        ..new_stream(id, c.flow_control.initial_stream_window_size)
    }
}

/// A stream whose header block is decoded.
pub open spec fn headed_stream(
    s: StreamView,
    headers: Seq<(Seq<char>, Seq<char>)>,
) -> StreamView {
    StreamView {
        request_headers: s.request_headers + headers,
        received_end_headers: true,
        state: if s.received_end_stream {
            crate::server::http2::stream::moved(s.state, StreamState::HalfClosedRemote)
        } else {
            s.state
        },
        ..s
    }
}

/// What the decoder of header blocks gave back.
pub type Decoded = Result<Vec<(String, String)>, Http2ErrorCode>;

/// The headers of a block, or why they could not be read.
pub type DecodedView = Result<Seq<(Seq<char>, Seq<char>)>, Http2ErrorCode>;

pub open spec fn decoded_view(d: Decoded) -> DecodedView {
    match d {
        Ok(h) => Ok(pairs(h@)),
        Err(e) => Err(e),
    }
}

pub open spec fn on_headers(
    c: ConnView,
    id: u32,
    block: Seq<u8>,
    end_stream: bool,
    end_headers: bool,
    decoded: DecodedView,
) -> Effect {
    let d = ConnView { last_stream_id: id, ..c };
    let s = opened_stream(c, id, end_stream);
    let e = ConnView {
        send_windows: c.send_windows.push((id, Window { available: c.peer_initial as i32 })),
        ..d
    };
    if !client_stream(id) || id <= c.last_stream_id {
        fails(Http2ErrorCode::ProtocolError)
    } else if c.send_windows.len() >= c.max_concurrent_streams {
        Effect {
            sent: seq![reset_view(id, Http2ErrorCode::RefusedStream)],
            outcome: Ok(
                (
                    ConnView {
                        closed: remember_closed(c.closed, id, c.max_concurrent_streams),
                        ..d
                    },
                    None,
                ),
            ),
        }
    } else if end_headers {
        match decoded {
            Err(code) => fails(code),
            Ok(headers) => {
                let t = headed_stream(s, headers);
                if end_stream {
                    Effect { sent: Seq::empty(), outcome: Ok((e, Some(t))) }
                } else {
                    continues(ConnView { streams: c.streams.push(t), ..e })
                }
            },
        }
    } else if block.len() > c.max_header_block {
        fails(Http2ErrorCode::EnhanceYourCalm)
    } else {
        continues(
            ConnView {
                streams: c.streams.push(s),
                pending_headers: Some(id),
                pending_block: block,
                ..e
            },
        )
    }
}

pub open spec fn on_continuation(
    c: ConnView,
    id: u32,
    block: Seq<u8>,
    end_headers: bool,
    decoded: DecodedView,
) -> Effect {
    let whole = c.pending_block + block;
    let k = stream_at(c.streams, id);
    if whole.len() > c.max_header_block {
        fails(Http2ErrorCode::EnhanceYourCalm)
    } else if !end_headers {
        continues(ConnView { pending_block: whole, ..c })
    } else {
        let d = ConnView { pending_headers: None, pending_block: Seq::empty(), ..c };
        match decoded {
            Err(code) => fails(code),
            Ok(headers) => if k == c.streams.len() {
                continues(d)
            } else {
                let t = headed_stream(c.streams[k], headers);
                if t.received_end_stream {
                    Effect {
                        sent: Seq::empty(),
                        outcome: Ok((ConnView { streams: c.streams.remove(k), ..d }, Some(t))),
                    }
                } else {
                    continues(ConnView { streams: c.streams.update(k, t), ..d })
                }
            },
        }
    }
}

pub open spec fn on_data(c: ConnView, id: u32, data: Seq<u8>, end_stream: bool) -> Effect {
    let k = stream_at(c.streams, id);
    let n = data.len();
    let sent = if n > 0 {
        seq![window_view(0, n as u32), window_view(id, n as u32)]
    } else {
        Seq::empty()
    };
    if k == c.streams.len() {
        fails(Http2ErrorCode::StreamClosed)
    } else if n > 0 && (n > c.flow_control.connection_window.available || n
        > c.streams[k].window.available) {
        fails(Http2ErrorCode::FlowControlError)
    } else if c.streams[k].request_body.len() + n > c.max_request_size && n > 0 {
        Effect { sent, outcome: Err(Http2ErrorCode::EnhanceYourCalm) }
    } else {
        let t = with_data(c.streams[k], data, end_stream);
        if end_stream {
            Effect {
                sent,
                outcome: Ok((ConnView { streams: c.streams.remove(k), ..c }, Some(t))),
            }
        } else {
            Effect {
                sent,
                outcome: Ok((ConnView { streams: c.streams.update(k, t), ..c }, None)),
            }
        }
    }
}

/// The send windows after a gain, where the window may first have to be made.
pub open spec fn gain_window(w: Seq<(u32, Window)>, id: u32, initial: u32, n: u32) -> Result<
    Seq<(u32, Window)>,
    Http2ErrorCode,
> {
    let k = window_at(w, id);
    let start: i32 = if k < w.len() {
        w[k].1.available
    } else {
        initial as i32
    };
    match window_gain(start as int, n as int) {
        Err(e) => Err(e),
        Ok(a) => {
            let made = (id, Window { available: a as i32 });
            if k < w.len() {
                Ok(w.update(k, made))
            } else {
                Ok(w.push(made))
            }
        },
    }
}

pub open spec fn on_window_update(c: ConnView, id: u32, n: u32) -> Effect {
    let k = stream_at(c.streams, id);
    if id == 0 {
        match window_gain(c.peer_connection_window.available as int, n as int) {
            Err(e) => fails(e),
            Ok(a) => continues(
                ConnView { peer_connection_window: Window { available: a as i32 }, ..c },
            ),
        }
    } else if k < c.streams.len() {
        match window_gain(c.streams[k].send_window.available as int, n as int) {
            Err(e) => fails(e),
            Ok(a) => match gain_window(c.send_windows, id, c.peer_initial, n) {
                Err(e) => fails(e),
                Ok(w) => continues(
                    ConnView {
                        streams: c.streams.update(
                            k,
                            StreamView {
                                send_window: Window { available: a as i32 },
                                ..c.streams[k]
                            },
                        ),
                        send_windows: w,
                        ..c
                    },
                ),
            },
        }
    } else if window_at(c.send_windows, id) < c.send_windows.len() {
        match gain_window(c.send_windows, id, c.peer_initial, n) {
            Err(e) => fails(e),
            Ok(w) => continues(ConnView { send_windows: w, ..c }),
        }
    } else if c.closed.contains(id) {
        continues(c)
    } else {
        fails(Http2ErrorCode::ProtocolError)
    }
}

pub open spec fn on_reset(c: ConnView, id: u32) -> Effect {
    continues(
        finish_stream(
            ConnView {
                streams: drop_stream(c.streams, id),
                responses: drop_responses(c.responses, id),
                waiting: drop_waiting(c.waiting, id),
                ..c
            },
            id,
        ),
    )
}

/// While a header block is open only its continuation may follow, and a
/// continuation may not stand alone.
pub open spec fn in_sequence(c: ConnView, h: FrameHeader) -> bool {
    match c.pending_headers {
        Some(id) => h.stream_id == id && h.frame_type == FrameType::Continuation,
        None => h.frame_type != FrameType::Continuation,
    }
}

/// The effect of a frame.
pub open spec fn on_frame(c: ConnView, f: FrameView, decoded: DecodedView) -> Effect {
    let id = f.header.stream_id;
    if !in_sequence(c, f.header) {
        fails(Http2ErrorCode::ProtocolError)
    } else {
        match f.payload {
            PayloadView::Settings { settings, ack } => if ack {
                continues(c)
            } else {
                match peer_settings(c, settings) {
                    Err(e) => fails(e),
                    Ok(d) => Effect { sent: seq![settings_ack_view()], outcome: Ok((d, None)) },
                }
            },
            PayloadView::Ping { opaque_data, ack } => if ack {
                continues(c)
            } else {
                Effect { sent: seq![ping_ack_view(opaque_data)], outcome: Ok((c, None)) }
            },
            PayloadView::Headers { header_block, end_stream, end_headers } => on_headers(
                c,
                id,
                header_block,
                end_stream,
                end_headers,
                decoded,
            ),
            PayloadView::Continuation { header_block, end_headers } => on_continuation(
                c,
                id,
                header_block,
                end_headers,
                decoded,
            ),
            PayloadView::Data { data, end_stream } => on_data(c, id, data, end_stream),
            PayloadView::WindowUpdate { window_size_increment } => on_window_update(
                c,
                id,
                window_size_increment,
            ),
            PayloadView::RstStream { .. } => on_reset(c, id),
            PayloadView::GoAway { .. } => fails(Http2ErrorCode::NoError),
            _ => continues(c),
        }
    }
}

/// The highest stream that the frame leaves as the last one, also where the frame
/// ends the connection.
pub open spec fn last_after(c: ConnView, f: FrameView) -> u32 {
    match f.payload {
        PayloadView::Headers { .. } => if in_sequence(c, f.header) && client_stream(
            f.header.stream_id,
        ) && f.header.stream_id > c.last_stream_id {
            f.header.stream_id
        } else {
            c.last_stream_id
        },
        _ => c.last_stream_id,
    }
}

/// The header block that the frame completes, if it does.
pub open spec fn completed_block(c: ConnView, f: FrameView) -> Option<Seq<u8>> {
    if !in_sequence(c, f.header) {
        None
    } else {
        match f.payload {
            PayloadView::Headers { header_block, end_headers, .. } => if end_headers
                && client_stream(f.header.stream_id) && f.header.stream_id > c.last_stream_id
                && c.send_windows.len() < c.max_concurrent_streams {
                Some(header_block)
            } else {
                None
            },
            PayloadView::Continuation { header_block, end_headers } => if end_headers && (
            c.pending_block + header_block).len() <= c.max_header_block {
                Some(c.pending_block + header_block)
            } else {
                None
            },
            _ => None,
        }
    }
}

/// Every stream that is being received has a send window, no more streams are
/// tracked than the limit allows, and the peer's frame size is a legal one.
pub open spec fn conn_wf(c: ConnView) -> bool {
    &&& c.send_windows.len() <= c.max_concurrent_streams
    &&& DEFAULT_MAX_FRAME_SIZE <= c.peer_max_frame_size <= MAX_ALLOWED_FRAME_SIZE
    &&& c.peer_initial <= MAX_WINDOW_SIZE
    &&& c.closed.len() <= closed_limit(c.max_concurrent_streams)
    &&& forall|i: int|
        0 <= i < c.streams.len() ==> window_at(c.send_windows, (#[trigger] c.streams[i]).id)
            < c.send_windows.len()
}

pub proof fn lemma_ids_kept(w: Seq<(u32, Window)>, v: Seq<(u32, Window)>, id: u32)
    requires
        window_ids(w) == window_ids(v),
    ensures
        window_at(w, id) == window_at(v, id),
        w.len() == v.len(),
{
    assert(window_ids(w).len() == w.len());
    assert(window_ids(v).len() == v.len());
}

proof fn lemma_window_pushed(w: Seq<(u32, Window)>, x: (u32, Window), id: u32)
    requires
        window_at(w, id) < w.len() || x.0 == id,
    ensures
        window_at(w.push(x), id) < w.push(x).len(),
{
    let s = window_ids(w);
    let t = window_ids(w.push(x));
    lemma_first_index(s, id);
    lemma_first_index(t, id);
    if window_at(w, id) < w.len() {
        let k = first_index(s, id);
        assert(t[k] == s[k]);
    } else {
        assert(t[w.len() as int] == x.0);
    }
}

pub proof fn lemma_window_dropped(w: Seq<(u32, Window)>, gone: u32, id: u32)
    requires
        window_at(w, id) < w.len(),
        gone != id,
    ensures
        window_at(drop_window(w, gone), id) < drop_window(w, gone).len(),
{
    let k = window_at(w, gone);
    let s = window_ids(w);
    lemma_first_index(s, gone);
    lemma_first_index(s, id);
    let v = drop_window(w, gone);
    let t = window_ids(v);
    lemma_first_index(t, id);
    if k < w.len() {
        let j = first_index(s, id);
        if j < k {
            assert(t[j] == s[j]);
        } else {
            assert(t[j - 1] == s[j]);
        }
    } else {
        assert(v =~= w);
    }
}

proof fn lemma_settings_keep_wf(c: ConnView, s: Seq<(SettingId, u32)>)
    requires
        conn_wf(c),
    ensures
        peer_settings(c, s) matches Ok(d) ==> conn_wf(d),
    decreases s.len(),
{
    if s.len() > 0 {
        lemma_settings_keep_wf(c, s.drop_last());
        match peer_settings(c, s.drop_last()) {
            Err(e) => {},
            Ok(d) => {
                let delta = s.last().1 - d.peer_initial;
                let w = shift_windows(d.send_windows, delta);
                assert(window_ids(w) =~= window_ids(d.send_windows));
                match peer_setting(d, s.last().0, s.last().1) {
                    Err(e) => {},
                    Ok(x) => {
                        assert forall|i: int| 0 <= i < x.streams.len() implies window_at(
                            x.send_windows,
                            (#[trigger] x.streams[i]).id,
                        ) < x.send_windows.len() by {
                            assert(x.streams[i].id == d.streams[i].id);
                            if s.last().0 == SettingId::InitialWindowSize {
                                lemma_ids_kept(w, d.send_windows, d.streams[i].id);
                            }
                        }
                    },
                }
            },
        }
    }
}

/// A connection stays well formed: the number of tracked streams never passes the
/// announced limit, whatever frames the client sends and however small its send
/// windows are.
pub proof fn law_frames_keep_connection_well_formed(c: ConnView, f: FrameView, decoded: DecodedView)
    requires
        conn_wf(c),
        distinct_streams(c),
    ensures
        on_frame(c, f, decoded).outcome matches Ok((d, _)) ==> conn_wf(d),
{
    let id = f.header.stream_id;
    match f.payload {
        PayloadView::Settings { settings, ack } => {
            lemma_settings_keep_wf(c, settings);
        },
        PayloadView::Headers { header_block, end_stream, end_headers } => {
            let x = (id, Window { available: c.peer_initial as i32 });
            match on_frame(c, f, decoded).outcome {
                Err(e) => {},
                Ok((d, _)) => {
                    assert forall|i: int| 0 <= i < d.streams.len() implies window_at(
                        d.send_windows,
                        (#[trigger] d.streams[i]).id,
                    ) < d.send_windows.len() by {
                        if i < c.streams.len() {
                            assert(d.streams[i] == c.streams[i]);
                        }
                        lemma_window_pushed(c.send_windows, x, d.streams[i].id);
                    }
                },
            }
        },
        PayloadView::Continuation { header_block, end_headers } => {
            match on_frame(c, f, decoded).outcome {
                Err(e) => {},
                Ok((d, _)) => {
                    let k = stream_at(c.streams, id);
                    lemma_first_index(stream_ids(c.streams), id);
                    assert forall|i: int| 0 <= i < d.streams.len() implies window_at(
                        d.send_windows,
                        (#[trigger] d.streams[i]).id,
                    ) < d.send_windows.len() by {
                        if d.streams.len() < c.streams.len() && i >= k {
                            assert(d.streams[i] == c.streams[i + 1]);
                        } else {
                            assert(d.streams[i].id == c.streams[i].id);
                        }
                    }
                },
            }
        },
        PayloadView::Data { data, end_stream } => {
            match on_frame(c, f, decoded).outcome {
                Err(e) => {},
                Ok((d, _)) => {
                    let k = stream_at(c.streams, id);
                    lemma_first_index(stream_ids(c.streams), id);
                    assert forall|i: int| 0 <= i < d.streams.len() implies window_at(
                        d.send_windows,
                        (#[trigger] d.streams[i]).id,
                    ) < d.send_windows.len() by {
                        if d.streams.len() < c.streams.len() && i >= k {
                            assert(d.streams[i] == c.streams[i + 1]);
                        } else {
                            assert(d.streams[i].id == c.streams[i].id);
                        }
                    }
                },
            }
        },
        PayloadView::WindowUpdate { window_size_increment } => {
            match on_frame(c, f, decoded).outcome {
                Err(e) => {},
                Ok((d, _)) => {
                    let k = stream_at(c.streams, id);
                    lemma_first_index(stream_ids(c.streams), id);
                    lemma_first_index(window_ids(c.send_windows), id);
                    if k < c.streams.len() {
                        assert(stream_ids(c.streams)[k] == c.streams[k].id);
                        assert(c.streams[k].id == id);
                    }
                    assert(window_ids(d.send_windows) =~= window_ids(c.send_windows));
                    assert forall|i: int| 0 <= i < d.streams.len() implies window_at(
                        d.send_windows,
                        (#[trigger] d.streams[i]).id,
                    ) < d.send_windows.len() by {
                        assert(d.streams[i].id == c.streams[i].id);
                        lemma_ids_kept(d.send_windows, c.send_windows, c.streams[i].id);
                    }
                },
            }
        },
        PayloadView::RstStream { .. } => {
            let d = on_reset(c, id).outcome->Ok_0.0;
            let k = stream_at(c.streams, id);
            lemma_first_index(stream_ids(c.streams), id);
            lemma_first_index(window_ids(c.send_windows), id);
            assert forall|i: int| 0 <= i < d.streams.len() implies window_at(
                d.send_windows,
                (#[trigger] d.streams[i]).id,
            ) < d.send_windows.len() by {
                let j = if k < c.streams.len() && i >= k {
                    i + 1
                } else {
                    i
                };
                assert(d.streams[i] == c.streams[j]);
                assert(stream_ids(c.streams)[j] == c.streams[j].id);
                if c.streams[j].id == id {
                    assert(stream_ids(c.streams)[k] == c.streams[k].id);
                    assert(c.streams[k].id == id);
                    assert(j != k);
                    assert(false);
                }
                lemma_window_dropped(c.send_windows, id, c.streams[j].id);
            }
        },
        _ => {},
    }
}

/// No two streams that are being received share a number.
pub open spec fn distinct_streams(c: ConnView) -> bool {
    forall|i: int, j: int|
        0 <= i < c.streams.len() && 0 <= j < c.streams.len() && (#[trigger] c.streams[i]).id == (
        #[trigger] c.streams[j]).id ==> i == j
}

/// Numbers of new streams only grow, and a frame on another stream in the middle of
/// a header block ends the connection.
pub proof fn law_stream_numbers_grow(c: ConnView, f: FrameView, decoded: DecodedView)
    ensures
        on_frame(c, f, decoded).outcome matches Ok((d, _)) ==> d.last_stream_id
            >= c.last_stream_id,
        c.pending_headers matches Some(id) && f.header.stream_id != id ==> on_frame(
            c,
            f,
            decoded,
        ).outcome == Err::<(ConnView, Option<StreamView>), _>(Http2ErrorCode::ProtocolError),
{
    match f.payload {
        PayloadView::Settings { settings, ack } => {
            lemma_settings_keep_last(c, settings);
        },
        _ => {},
    }
}

proof fn lemma_settings_keep_last(c: ConnView, s: Seq<(SettingId, u32)>)
    ensures
        peer_settings(c, s) matches Ok(d) ==> d.last_stream_id == c.last_stream_id,
    decreases s.len(),
{
    if s.len() > 0 {
        lemma_settings_keep_last(c, s.drop_last());
    }
}

/// Received data leaves the receive windows as they were: the server gives back at
/// once what it takes.
pub proof fn law_receive_windows_are_replenished(
    c: ConnView,
    id: u32,
    data: Seq<u8>,
    end_stream: bool,
)
    ensures
        on_data(c, id, data, end_stream).outcome matches Ok((d, _)) ==> d.flow_control
            == c.flow_control,
{
}

/// The outcome of the code is the one described.
pub open spec fn outcome_is(
    r: Result<Option<Stream>, Http2ErrorCode>,
    after: ConnView,
    want: Effect,
) -> bool {
    match want.outcome {
        Err(e) => r matches Err(x) && x == e,
        Ok((d, done)) => after == d && match done {
            Some(s) => r matches Ok(Some(t)) && t@ == s,
            None => r matches Ok(x) && x is None,
        },
    }
}

/// The outcome of the code and what it sends are those described.
pub open spec fn step_is(
    r: Result<Option<Stream>, Http2ErrorCode>,
    sent: Seq<FrameView>,
    after: ConnView,
    want: Effect,
) -> bool {
    sent == want.sent && outcome_is(r, after, want)
}

pub fn find_window(w: &Vec<(u32, Window)>, id: u32) -> (k: usize)
    ensures
        k == window_at(w@, id),
        k <= w@.len(),
{
    let mut k: usize = 0;
    while k < w.len() && w[k].0 != id
        invariant
            k <= w@.len(),
            forall|i: int| 0 <= i < k ==> window_ids(w@)[i] != id,
        decreases w@.len() - k,
    {
        k = k + 1;
    }
    proof {
        lemma_first_index_is(window_ids(w@), id, k as int);
    }
    k
}

fn find_stream(s: &Vec<Stream>, id: u32) -> (k: usize)
    ensures
        k == stream_at(views(s@), id),
        k <= s@.len(),
{
    let ghost ids = stream_ids(views(s@));
    let mut k: usize = 0;
    while k < s.len() && s[k].id != id
        invariant
            ids == stream_ids(views(s@)),
            k <= s@.len(),
            forall|i: int| 0 <= i < k ==> ids[i] != id,
        decreases s@.len() - k,
    {
        assert(ids[k as int] == s@[k as int].id);
        k = k + 1;
    }
    proof {
        if k < s@.len() {
            assert(ids[k as int] == s@[k as int].id);
        }
        lemma_first_index_is(ids, id, k as int);
    }
    k
}

impl Http2Connection {
    /// A fresh connection under the given settings.
    pub fn new(config: &ServerConfig) -> (r: Self)
        ensures
            r@ == (ConnView {
                secure: false,
                max_header_block: config.http2_max_header_block_size,
                max_request_size: config.max_request_size,
                flow_control: FlowControl {
                    connection_window: Window {
                        available: config.http2_initial_window_size as i32,
                    },
                    initial_stream_window_size: config.http2_initial_window_size,
                },
                max_frame_size: config.http2_max_frame_size,
                peer_max_frame_size: DEFAULT_MAX_FRAME_SIZE,
                peer_connection_window: Window { available: 65535 },
                peer_initial: 65535,
                send_windows: Seq::empty(),
                max_concurrent_streams: config.http2_max_concurrent_streams,
                streams: Seq::empty(),
                last_stream_id: 0,
                pending_headers: None,
                pending_block: Seq::empty(),
                responses: Seq::empty(),
                waiting: Seq::empty(),
                closed: Seq::empty(),
            }),
            consistent(r@),
    {
        let r = Http2Connection {
            secure: false,
            max_header_block: config.http2_max_header_block_size,
            max_request_size: config.max_request_size,
            flow_control: FlowControl::new(config.http2_initial_window_size),
            max_frame_size: config.http2_max_frame_size,
            peer_max_frame_size: DEFAULT_MAX_FRAME_SIZE,
            peer_connection_window: Window::new(65535),
            peer_initial_stream_window_size: 65535,
            send_stream_windows: Vec::new(),
            max_concurrent_streams: config.http2_max_concurrent_streams,
            active_streams: Vec::new(),
            last_stream_id: 0,
            pending_headers_stream_id: None,
            pending_header_block: Vec::new(),
            pending_responses: Vec::new(),
            pending_header_responses: Vec::new(),
            closed_streams: Vec::new(),
        };
        assert(r@.streams =~= Seq::<StreamView>::empty());
        assert(r@.responses =~= Seq::<PendingView>::empty());
        r
    }

    /// The same connection, over TLS or not.
    pub fn with_secure(self, secure: bool) -> (r: Self)
        ensures
            r@ == (ConnView { secure, ..self@ }),
    {
        let mut r = self;
        r.secure = secure;
        r
    }

    /// The settings frame that the server opens with.
    pub fn server_settings(&self) -> (f: Frame)
        ensures
            f@ == server_settings_view(self@),
    {
        let mut settings: Vec<(SettingId, u32)> = Vec::new();
        settings.push((SettingId::MaxConcurrentStreams, self.max_concurrent_streams as u32));
        settings.push(
            (SettingId::InitialWindowSize, self.flow_control.initial_stream_window_size()),
        );
        settings.push((SettingId::MaxFrameSize, self.max_frame_size));
        assert(settings@ =~= server_settings_view(self@).payload->settings);
        Frame {
            header: FrameHeader {
                length: 18,
                frame_type: FrameType::Settings,
                flags: 0,
                stream_id: 0,
            },
            payload: FramePayload::Settings { settings, ack: false },
        }
    }

    /// How many streams occupy a place.
    pub fn tracked_stream_count(&self) -> (n: usize)
        ensures
            n == self@.send_windows.len(),
    {
        self.send_stream_windows.len()
    }

    /// Whether one more stream may be opened.
    pub fn can_accept_new_stream(&self) -> (b: bool)
        ensures
            b == (self@.send_windows.len() < self@.max_concurrent_streams),
    {
        self.tracked_stream_count() < self.max_concurrent_streams
    }

    /// Remembers a stream as closed.
    pub fn mark_closed_stream(&mut self, stream_id: u32)
        ensures
            final(self)@ == (ConnView {
                closed: remember_closed(
                    old(self)@.closed,
                    stream_id,
                    old(self)@.max_concurrent_streams,
                ),
                ..old(self)@
            }),
    {
        let mut i: usize = 0;
        while i < self.closed_streams.len()
            invariant
                *self == *old(self),
                i <= self.closed_streams@.len(),
                forall|j: int| 0 <= j < i ==> self.closed_streams@[j] != stream_id,
            decreases self.closed_streams@.len() - i,
        {
            if self.closed_streams[i] == stream_id {
                assert(self@.closed.contains(stream_id));
                return;
            }
            i = i + 1;
        }
        assert(!self@.closed.contains(stream_id));
        let ghost all = self@.closed.push(stream_id);
        let limit: usize = match self.max_concurrent_streams.checked_mul(2) {
            Some(n) => if n < 16 {
                16
            } else {
                n
            },
            None => usize::MAX,
        };
        let mut kept: Vec<u32> = Vec::new();
        let n: usize = self.closed_streams.len();
        let from: usize = if n >= limit {
            n - limit + 1
        } else {
            0
        };
        let mut j: usize = from;
        while j < n
            invariant
                *self == *old(self),
                n == self.closed_streams@.len(),
                from <= j <= n,
                kept@ == self.closed_streams@.subrange(from as int, j as int),
            decreases n - j,
        {
            kept.push(self.closed_streams[j]);
            j = j + 1;
            assert(self.closed_streams@.subrange(from as int, j as int)
                =~= self.closed_streams@.subrange(from as int, j - 1).push(
                self.closed_streams@[j - 1],
            ));
        }
        kept.push(stream_id);
        assert(kept@ =~= all.subrange(from as int, all.len() as int));
        assert(all.subrange(0, all.len() as int) =~= all);
        self.closed_streams = kept;
    }

    /// Gives up the send window of a stream and remembers it as closed.
    pub fn finish(&mut self, stream_id: u32)
        ensures
            final(self)@ == finish_stream(old(self)@, stream_id),
    {
        let k: usize = find_window(&self.send_stream_windows, stream_id);
        if k < self.send_stream_windows.len() {
            self.send_stream_windows.remove(k);
        }
        self.mark_closed_stream(stream_id);
    }

    fn shift_all(&mut self, delta: i64) -> (ok: bool)
        ensures
            ok == (streams_shift_ok(old(self)@.streams, delta as int) && windows_shift_ok(
                old(self)@.send_windows,
                delta as int,
            )),
            ok ==> final(self)@ == (ConnView {
                streams: shift_streams(old(self)@.streams, delta as int),
                send_windows: shift_windows(old(self)@.send_windows, delta as int),
                ..old(self)@
            }),
            final(self)@.last_stream_id == old(self)@.last_stream_id,
    {
        let ghost c = self@;
        let mut streams: Vec<Stream> = Vec::new();
        let mut i: usize = 0;
        while i < self.active_streams.len()
            invariant
                *self == *old(self),
                c == self@,
                i <= self.active_streams@.len(),
                streams@.len() == i,
                forall|j: int|
                    0 <= j < i ==> window_shift(
                        (#[trigger] c.streams[j]).send_window.available as int,
                        delta as int,
                    ) is Ok,
                forall|j: int|
                    0 <= j < i ==> (#[trigger] streams@[j])@ == shift_streams(
                        c.streams,
                        delta as int,
                    )[j],
            decreases self.active_streams@.len() - i,
        {
            let mut s = self.active_streams[i].clone();
            assert(c.streams[i as int] == s@);
            match s.send_window.adjust(delta) {
                Ok(_) => {},
                Err(_) => {
                    return false;
                },
            }
            streams.push(s);
            i = i + 1;
        }
        let mut windows: Vec<(u32, Window)> = Vec::new();
        let mut i: usize = 0;
        while i < self.send_stream_windows.len()
            invariant
                *self == *old(self),
                c == self@,
                i <= self.send_stream_windows@.len(),
                windows@.len() == i,
                forall|j: int|
                    0 <= j < i ==> window_shift(
                        (#[trigger] c.send_windows[j]).1.available as int,
                        delta as int,
                    ) is Ok,
                forall|j: int|
                    0 <= j < i ==> #[trigger] windows@[j] == shift_windows(
                        c.send_windows,
                        delta as int,
                    )[j],
            decreases self.send_stream_windows@.len() - i,
        {
            let mut w = self.send_stream_windows[i].1;
            match w.adjust(delta) {
                Ok(_) => {},
                Err(_) => {
                    return false;
                },
            }
            windows.push((self.send_stream_windows[i].0, w));
            i = i + 1;
        }
        self.active_streams = streams;
        self.send_stream_windows = windows;
        assert(self@.streams =~= shift_streams(c.streams, delta as int));
        assert(self@.send_windows =~= shift_windows(c.send_windows, delta as int));
        true
    }

    fn apply_settings(&mut self, settings: &Vec<(SettingId, u32)>) -> (r: Result<
        (),
        Http2ErrorCode,
    >)
        ensures
            match peer_settings(old(self)@, settings@) {
                Ok(d) => r is Ok && final(self)@ == d,
                Err(e) => r == Err::<(), _>(e),
            },
            final(self)@.last_stream_id == old(self)@.last_stream_id,
    {
        let ghost c = self@;
        let mut i: usize = 0;
        assert(settings@.subrange(0, 0) =~= Seq::<(SettingId, u32)>::empty());
        while i < settings.len()
            invariant
                c == old(self)@,
                i <= settings@.len(),
                peer_settings(c, settings@.subrange(0, i as int)) == Ok::<_, Http2ErrorCode>(self@),
                self@.last_stream_id == c.last_stream_id,
            decreases settings@.len() - i,
        {
            let ghost upto = settings@.subrange(0, i + 1);
            assert(upto.drop_last() =~= settings@.subrange(0, i as int));
            let val: u32 = settings[i].1;
            match settings[i].0 {
                SettingId::MaxFrameSize => {
                    if val < DEFAULT_MAX_FRAME_SIZE || val > MAX_ALLOWED_FRAME_SIZE {
                        proof {
                            lemma_settings_fail(c, settings@, i + 1, Http2ErrorCode::FrameSizeError);
                        }
                        return Err(Http2ErrorCode::FrameSizeError);
                    }
                    self.peer_max_frame_size = val;
                },
                SettingId::InitialWindowSize => {
                    let delta: i64 = val as i64 - self.peer_initial_stream_window_size as i64;
                    if val > MAX_WINDOW_SIZE || !self.shift_all(delta) {
                        proof {
                            lemma_settings_fail(
                                c,
                                settings@,
                                i + 1,
                                Http2ErrorCode::FlowControlError,
                            );
                        }
                        return Err(Http2ErrorCode::FlowControlError);
                    }
                    self.peer_initial_stream_window_size = val;
                },
                _ => {},
            }
            i = i + 1;
        }
        assert(settings@.subrange(0, settings@.len() as int) =~= settings@);
        Ok(())
    }

    /// The header block that the frame completes, to be decoded before the frame is
    /// processed.
    pub fn header_block_to_decode(&self, frame: &Frame) -> (r: Option<Vec<u8>>)
        ensures
            match r {
                Some(b) => completed_block(self@, frame@) == Some(b@),
                None => completed_block(self@, frame@) is None,
            },
    {
        if !self.is_in_sequence(&frame.header) {
            return None;
        }
        match &frame.payload {
            FramePayload::Headers { header_block, end_headers, .. } => {
                if *end_headers && Stream::is_client_initiated(frame.header.stream_id)
                    && frame.header.stream_id > self.last_stream_id
                    && self.can_accept_new_stream() {
                    Some(part_bytes_all(header_block.as_slice()))
                } else {
                    None
                }
            },
            FramePayload::Continuation { header_block, end_headers } => {
                if *end_headers && self.pending_header_block.len() <= self.max_header_block
                    && header_block.len() <= self.max_header_block
                    - self.pending_header_block.len() {
                    let mut whole = part_bytes_all(self.pending_header_block.as_slice());
                    push_bytes(&mut whole, header_block.as_slice());
                    Some(whole)
                } else {
                    None
                }
            },
            _ => None,
        }
    }

    fn is_in_sequence(&self, h: &FrameHeader) -> (b: bool)
        ensures
            b == in_sequence(self@, *h),
    {
        match self.pending_headers_stream_id {
            Some(id) => h.stream_id == id && h.frame_type == FrameType::Continuation,
            None => h.frame_type != FrameType::Continuation,
        }
    }

    fn take_headers(
        &mut self,
        id: u32,
        block: &Vec<u8>,
        end_stream: bool,
        end_headers: bool,
        decoded: Decoded,
        out: &mut Vec<Frame>,
    ) -> (r: Result<Option<Stream>, Http2ErrorCode>)
        requires
            old(out)@.len() == 0,
        ensures
            step_is(
                r,
                views(final(out)@),
                final(self)@,
                on_headers(
                    old(self)@,
                    id,
                    block@,
                    end_stream,
                    end_headers,
                    decoded_view(decoded),
                ),
            ),
            final(self)@.last_stream_id == (if client_stream(id) && id
                > old(self)@.last_stream_id {
                id
            } else {
                old(self)@.last_stream_id
            }),
    {
        assert(views(out@) =~= Seq::<FrameView>::empty());
        if !Stream::is_client_initiated(id) || id <= self.last_stream_id {
            return Err(Http2ErrorCode::ProtocolError);
        }
        let ghost c = self@;
        self.last_stream_id = id;
        if !self.can_accept_new_stream() {
            out.push(reset_frame(id, Http2ErrorCode::RefusedStream));
            assert(views(out@) =~= seq![reset_view(id, Http2ErrorCode::RefusedStream)]);
            self.mark_closed_stream(id);
            return Ok(None);
        }
        let mut st = match Stream::new(id, self.flow_control.initial_stream_window_size()) {
            Ok(s) => s,
            Err(e) => {
                return Err(e);
            },
        };
        st.send_window = Window::new(self.peer_initial_stream_window_size);
        self.send_stream_windows.push((id, Window::new(self.peer_initial_stream_window_size)));
        let _ = st.transition_to(StreamState::Open);
        st.received_end_stream = end_stream;
        assert(st@ =~= opened_stream(c, id, end_stream));
        if end_headers {
            let headers = match decoded {
                Ok(h) => h,
                Err(e) => {
                    return Err(e);
                },
            };
            st.append_request_headers(headers, true);
            if end_stream {
                let _ = st.transition_to(StreamState::HalfClosedRemote);
                return Ok(Some(st));
            }
        } else {
            if block.len() > self.max_header_block {
                return Err(Http2ErrorCode::EnhanceYourCalm);
            }
            self.pending_headers_stream_id = Some(id);
            self.pending_header_block = part_bytes_all(block.as_slice());
        }
        let ghost added = st@;
        self.active_streams.push(st);
        assert(self@.streams =~= c.streams.push(added));
        Ok(None)
    }

    fn take_continuation(
        &mut self,
        id: u32,
        block: &Vec<u8>,
        end_headers: bool,
        decoded: Decoded,
    ) -> (r: Result<Option<Stream>, Http2ErrorCode>)
        ensures
            step_is(
                r,
                Seq::empty(),
                final(self)@,
                on_continuation(
                    old(self)@,
                    id,
                    block@,
                    end_headers,
                    decoded_view(decoded),
                ),
            ),
            final(self)@.last_stream_id == old(self)@.last_stream_id,
    {
        let ghost c = self@;
        if self.pending_header_block.len() > self.max_header_block || block.len()
            > self.max_header_block - self.pending_header_block.len() {
            return Err(Http2ErrorCode::EnhanceYourCalm);
        }
        push_bytes(&mut self.pending_header_block, block.as_slice());
        if !end_headers {
            return Ok(None);
        }
        let headers = match decoded {
            Ok(h) => h,
            Err(e) => {
                return Err(e);
            },
        };
        self.pending_headers_stream_id = None;
        self.pending_header_block = Vec::new();
        assert(self.pending_header_block@ =~= Seq::<u8>::empty());
        let k: usize = find_stream(&self.active_streams, id);
        if k == self.active_streams.len() {
            return Ok(None);
        }
        let mut st = self.active_streams.remove(k);
        assert(views(self.active_streams@) =~= c.streams.remove(k as int));
        st.append_request_headers(headers, true);
        if st.received_end_stream {
            let _ = st.transition_to(StreamState::HalfClosedRemote);
            return Ok(Some(st));
        }
        let ghost t = st@;
        self.active_streams.insert(k, st);
        assert(self@.streams =~= c.streams.update(k as int, t));
        Ok(None)
    }

    fn take_data(&mut self, id: u32, data: &Vec<u8>, end_stream: bool, out: &mut Vec<Frame>) -> (r:
        Result<Option<Stream>, Http2ErrorCode>)
        requires
            old(out)@.len() == 0,
        ensures
            step_is(
                r,
                views(final(out)@),
                final(self)@,
                on_data(old(self)@, id, data@, end_stream),
            ),
            final(self)@.last_stream_id == old(self)@.last_stream_id,
    {
        let ghost c = self@;
        assert(views(out@) =~= Seq::<FrameView>::empty());
        let k: usize = find_stream(&self.active_streams, id);
        if k == self.active_streams.len() {
            return Err(Http2ErrorCode::StreamClosed);
        }
        assert(c.streams[k as int] == self.active_streams@[k as int]@);
        if data.len() > MAX_WINDOW_SIZE as usize {
            return Err(Http2ErrorCode::FlowControlError);
        }
        let n: u32 = data.len() as u32;
        if n > 0 {
            if n as i32 > self.flow_control.connection_window().available() {
                return Err(Http2ErrorCode::FlowControlError);
            }
            if n as i32 > self.active_streams[k].window.available() {
                return Err(Http2ErrorCode::FlowControlError);
            }
            out.push(window_frame(0, n));
            out.push(window_frame(id, n));
            assert(views(out@) =~= seq![window_view(0, n), window_view(id, n)]);
        }
        let mut st = self.active_streams.remove(k);
        assert(views(self.active_streams@) =~= c.streams.remove(k as int));
        let room: usize = if self.max_request_size >= st.request_body.len() {
            self.max_request_size - st.request_body.len()
        } else {
            0
        };
        if data.len() > room {
            return Err(Http2ErrorCode::EnhanceYourCalm);
        }
        let _ = st.append_request_data(data.as_slice(), end_stream);
        if end_stream {
            return Ok(Some(st));
        }
        let ghost t = st@;
        self.active_streams.insert(k, st);
        assert(self@.streams =~= c.streams.update(k as int, t));
        Ok(None)
    }

    fn gain_send_window(&mut self, id: u32, n: u32) -> (r: Result<(), Http2ErrorCode>)
        ensures
            match gain_window(old(self)@.send_windows, id, old(self)@.peer_initial, n) {
                Ok(w) => r is Ok && final(self)@ == (ConnView { send_windows: w, ..old(self)@ }),
                Err(e) => r == Err::<(), _>(e) && final(self)@ == old(self)@,
            },
    {
        let k: usize = find_window(&self.send_stream_windows, id);
        let mut w = if k < self.send_stream_windows.len() {
            self.send_stream_windows[k].1
        } else {
            Window::new(self.peer_initial_stream_window_size)
        };
        match w.update(n) {
            Ok(_) => {},
            Err(e) => {
                return Err(e);
            },
        }
        if k < self.send_stream_windows.len() {
            self.send_stream_windows.set(k, (id, w));
        } else {
            self.send_stream_windows.push((id, w));
        }
        Ok(())
    }

    fn take_window_update(&mut self, id: u32, n: u32) -> (r: Result<
        Option<Stream>,
        Http2ErrorCode,
    >)
        ensures
            step_is(r, Seq::empty(), final(self)@, on_window_update(old(self)@, id, n)),
            final(self)@.last_stream_id == old(self)@.last_stream_id,
    {
        let ghost c = self@;
        if id == 0 {
            return match self.peer_connection_window.update(n) {
                Ok(_) => Ok(None),
                Err(e) => Err(e),
            };
        }
        let k: usize = find_stream(&self.active_streams, id);
        if k < self.active_streams.len() {
            assert(c.streams[k as int] == self.active_streams@[k as int]@);
            let mut w = self.active_streams[k].send_window;
            match w.update(n) {
                Ok(_) => {},
                Err(e) => {
                    return Err(e);
                },
            }
            match self.gain_send_window(id, n) {
                Ok(_) => {},
                Err(e) => {
                    return Err(e);
                },
            }
            let mut st = self.active_streams.remove(k);
            st.send_window = w;
            let ghost t = st@;
            self.active_streams.insert(k, st);
            assert(self@.streams =~= c.streams.update(k as int, t));
            return Ok(None);
        }
        let at: usize = find_window(&self.send_stream_windows, id);
        if at < self.send_stream_windows.len() {
            return match self.gain_send_window(id, n) {
                Ok(_) => Ok(None),
                Err(e) => Err(e),
            };
        }
        let mut i: usize = 0;
        while i < self.closed_streams.len()
            invariant
                self@ == c,
                i <= self.closed_streams@.len(),
                id != 0,
                k == stream_at(c.streams, id),
                k == c.streams.len(),
                at == window_at(c.send_windows, id),
                at == c.send_windows.len(),
                *old(self) == *self,
                forall|j: int| 0 <= j < i ==> self.closed_streams@[j] != id,
            decreases self.closed_streams@.len() - i,
        {
            if self.closed_streams[i] == id {
                assert(c.closed.contains(id));
                return Ok(None);
            }
            i = i + 1;
        }
        assert(!c.closed.contains(id));
        Err(Http2ErrorCode::ProtocolError)
    }

    fn take_reset(&mut self, id: u32)
        ensures
            continues(final(self)@) == on_reset(old(self)@, id),
    {
        let ghost c = self@;
        let k: usize = find_stream(&self.active_streams, id);
        if k < self.active_streams.len() {
            self.active_streams.remove(k);
            assert(views(self.active_streams@) =~= c.streams.remove(k as int));
        }
        remove_responses(&mut self.pending_responses, id);
        let mut kept: Vec<WaitingResponse> = Vec::new();
        let mut i: usize = 0;
        let ghost w = self.pending_header_responses@;
        let ghost mid = self@;
        assert(w.subrange(0, 0) =~= Seq::<WaitingResponse>::empty());
        while i < self.pending_header_responses.len()
            invariant
                self@ == mid,
                w == self.pending_header_responses@,
                i <= w.len(),
                kept@ == drop_waiting(w.subrange(0, i as int), id),
            decreases w.len() - i,
        {
            assert(w.subrange(0, i + 1).drop_last() =~= w.subrange(0, i as int));
            if self.pending_header_responses[i].stream_id != id {
                kept.push(self.pending_header_responses[i]);
            }
            i = i + 1;
        }
        assert(w.subrange(0, w.len() as int) =~= w);
        self.pending_header_responses = kept;
        self.finish(id);
    }

    fn act_on_frame(&mut self, frame: &Frame, decoded: Decoded, out: &mut Vec<Frame>) -> (r:
        Result<Option<Stream>, Http2ErrorCode>)
        requires
            old(out)@.len() == 0,
        ensures
            step_is(
                r,
                views(final(out)@),
                final(self)@,
                on_frame(old(self)@, frame@, decoded_view(decoded)),
            ),
            final(self)@.last_stream_id == last_after(old(self)@, frame@) || r is Ok,
    {
        let ghost c = self@;
        assert(views(out@) =~= Seq::<FrameView>::empty());
        if !self.is_in_sequence(&frame.header) {
            return Err(Http2ErrorCode::ProtocolError);
        }
        let id: u32 = frame.header.stream_id;
        match &frame.payload {
            FramePayload::Settings { settings, ack } => {
                if *ack {
                    return Ok(None);
                }
                match self.apply_settings(settings) {
                    Ok(_) => {},
                    Err(e) => {
                        return Err(e);
                    },
                }
                let none: Vec<(SettingId, u32)> = Vec::new();
                assert(none@ =~= Seq::<(SettingId, u32)>::empty());
                let f = Frame {
                    header: FrameHeader {
                        length: 0,
                        frame_type: FrameType::Settings,
                        flags: flags::ACK,
                        stream_id: 0,
                    },
                    payload: FramePayload::Settings { settings: none, ack: true },
                };
                assert(f@ =~= settings_ack_view());
                out.push(f);
                assert(views(out@) =~= seq![settings_ack_view()]);
                Ok(None)
            },
            FramePayload::Ping { opaque_data, ack } => {
                if !*ack {
                    let f = Frame {
                        header: FrameHeader {
                            length: 8,
                            frame_type: FrameType::Ping,
                            flags: flags::ACK,
                            stream_id: 0,
                        },
                        payload: FramePayload::Ping { opaque_data: *opaque_data, ack: true },
                    };
                    let ghost v = f@;
                    out.push(f);
                    assert(views(out@) =~= seq![v]);
                }
                Ok(None)
            },
            FramePayload::Headers { header_block, end_stream, end_headers } => {
                self.take_headers(id, header_block, *end_stream, *end_headers, decoded, out)
            },
            FramePayload::Continuation { header_block, end_headers } => {
                self.take_continuation(id, header_block, *end_headers, decoded)
            },
            FramePayload::Data { data, end_stream } => self.take_data(id, data, *end_stream, out),
            FramePayload::WindowUpdate { window_size_increment } => {
                self.take_window_update(id, *window_size_increment)
            },
            FramePayload::RstStream { .. } => {
                self.take_reset(id);
                Ok(None)
            },
            FramePayload::GoAway { .. } => Err(Http2ErrorCode::NoError),
            _ => Ok(None),
        }
    }

    /// Takes in one frame: adds to `out` what is to be sent and gives back the stream
    /// whose request is complete, if there is one. `decoded` is what the decoder made of
    /// the header block that the frame completes; it is not looked at where the frame
    /// completes none.
    pub fn process_frame(&mut self, frame: &Frame, decoded: Decoded, out: &mut Vec<Frame>) -> (r:
        Result<Option<Stream>, Http2ErrorCode>)
        ensures
            ({
                let want = on_frame(old(self)@, frame@, decoded_view(decoded));
                views(final(out)@) == views(old(out)@) + want.sent && outcome_is(
                    r,
                    final(self)@,
                    want,
                )
            }),
            final(self)@.last_stream_id == last_after(old(self)@, frame@) || r is Ok,
    {
        let ghost start = views(out@);
        let mut sent: Vec<Frame> = Vec::new();
        let r = self.act_on_frame(frame, decoded, &mut sent);
        let ghost s = views(sent@);
        out.append(&mut sent);
        assert(views(out@) =~= start + s);
        r
    }
}

proof fn lemma_settings_fail(c: ConnView, s: Seq<(SettingId, u32)>, k: int, e: Http2ErrorCode)
    requires
        0 <= k <= s.len(),
        peer_settings(c, s.subrange(0, k)) == Err::<ConnView, _>(e),
    ensures
        peer_settings(c, s) == Err::<ConnView, _>(e),
    decreases s.len(),
{
    if k == s.len() {
        assert(s.subrange(0, k) =~= s);
    } else {
        assert(s.drop_last().subrange(0, k) =~= s.subrange(0, k));
        lemma_settings_fail(c, s.drop_last(), k, e);
    }
}

/// What the received bytes begin with.
pub enum FrameRead {
    /// More bytes are needed.
    NeedMore,
    /// A whole frame, which was taken off.
    Whole(Frame),
    /// Something that ends the connection.
    Broken(Http2ErrorCode),
}

/// What the received bytes begin with, and what is left of them.
pub open spec fn frame_at_front(b: Seq<u8>, max_frame_size: u32) -> (
    Result<Option<FrameView>, Http2ErrorCode>,
    Seq<u8>,
) {
    let h = header_of(b);
    let end = FRAME_HEADER_SIZE + h.length;
    if b.len() < FRAME_HEADER_SIZE {
        (Ok(None), b)
    } else if h.length > max_frame_size {
        (Err(Http2ErrorCode::FrameSizeError), b)
    } else if b.len() < end {
        (Ok(None), b)
    } else {
        match payload_of(h, b.subrange(FRAME_HEADER_SIZE as int, end)) {
            Err(e) => (Err(e), b),
            Ok(payload) => (
                Ok(Some(FrameView { header: h, payload })),
                b.subrange(end, b.len() as int),
            ),
        }
    }
}

/// Takes a frame off the received bytes.
pub fn take_frame(buffer: &mut Vec<u8>, max_frame_size: u32) -> (r: FrameRead)
    ensures
        ({
            let (want, rest) = frame_at_front(old(buffer)@, max_frame_size);
            final(buffer)@ == rest && match want {
                Ok(None) => r is NeedMore,
                Ok(Some(v)) => r matches FrameRead::Whole(f) && f@ == v,
                Err(e) => r matches FrameRead::Broken(x) && x == e,
            }
        }),
{
    let n: usize = buffer.len();
    if n < FRAME_HEADER_SIZE {
        return FrameRead::NeedMore;
    }
    let header = match FrameHeader::parse(buffer.as_slice()) {
        Ok(h) => h,
        Err(e) => {
            return FrameRead::Broken(e);
        },
    };
    if header.length > max_frame_size {
        return FrameRead::Broken(Http2ErrorCode::FrameSizeError);
    }
    if n - FRAME_HEADER_SIZE < header.length as usize {
        return FrameRead::NeedMore;
    }
    let end: usize = FRAME_HEADER_SIZE + header.length as usize;
    let payload = part_bytes(buffer.as_slice(), FRAME_HEADER_SIZE, end);
    match Frame::parse(header, payload.as_slice()) {
        Err(e) => FrameRead::Broken(e),
        Ok(f) => {
            *buffer = part_bytes(buffer.as_slice(), end, n);
            FrameRead::Whole(f)
        },
    }
}

/// Whether the received bytes open an HTTP/2 connection: not yet known, yes (the
/// preface is then taken off), or no.
pub fn take_preface(buffer: &mut Vec<u8>) -> (r: Option<bool>)
    ensures
        if old(buffer)@.len() < 24 {
            r is None && final(buffer)@ == old(buffer)@
        } else if old(buffer)@.subrange(0, 24) == CLIENT_PREFACE@ {
            r == Some(true) && final(buffer)@ == old(buffer)@.subrange(
                24,
                old(buffer)@.len() as int,
            )
        } else {
            r == Some(false) && final(buffer)@ == old(buffer)@
        },
{
    let n: usize = buffer.len();
    if n < 24 {
        return None;
    }
    let preface: [u8; 24] = CLIENT_PREFACE;
    if same_bytes(part_bytes(buffer.as_slice(), 0, 24).as_slice(), preface.as_slice()) {
        *buffer = part_bytes(buffer.as_slice(), 24, n);
        Some(true)
    } else {
        Some(false)
    }
}

} // verus!
