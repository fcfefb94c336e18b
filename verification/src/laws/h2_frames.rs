//! What the frames of an HTTP/2 client do to a connection.

use crate::laws::h2_requests::law_streams_carry_their_requests;
use crate::server::http2::connection::{
    drop_waiting, first_index, lemma_first_index, lemma_first_index_is, on_frame, peer_setting,
    peer_settings, stream_at, stream_ids, window_at, window_ids, ConnView, DecodedView,
    WaitingResponse,
};
use crate::server::http2::flow::Window;
use crate::server::http2::frame::{FrameType, FrameView, Http2ErrorCode, PayloadView, SettingId};
use crate::server::http2::policy::stream_headers;
use crate::server::http2::request::h2_request;
use crate::server::http2::schedule::{drop_responses, PendingView};
use crate::server::http2::stream::{StreamState, StreamView};
use crate::server::response::ResponseView;
use crate::text::{law_decimal_reads_back, parse_uint};
use vstd::prelude::*;

verus! {

/// A frame of that kind on that stream.
pub open spec fn is_frame(f: FrameView, kind: FrameType, id: u32) -> bool {
    f.header.frame_type == kind && f.header.stream_id == id
}

/// A frame that may come now and opens a new stream of a client, for which there is room.
pub open spec fn opens(c: ConnView, f: FrameView, id: u32) -> bool {
    &&& is_frame(f, FrameType::Headers, id)
    &&& c.pending_headers is None
    &&& id % 2 == 1
    &&& id > c.last_stream_id
    &&& c.send_windows.len() < c.max_concurrent_streams
}

/// No stream of that number is being received.
pub open spec fn unknown(c: ConnView, id: u32) -> bool {
    forall|i: int| 0 <= i < c.streams.len() ==> (#[trigger] c.streams[i]).id != id
}

proof fn lemma_stream_at(s: Seq<StreamView>, id: u32, k: int)
    requires
        0 <= k <= s.len(),
        forall|i: int| 0 <= i < k ==> (#[trigger] s[i]).id != id,
        k < s.len() ==> s[k].id == id,
    ensures
        stream_at(s, id) == k,
{
    let t = stream_ids(s);
    assert forall|i: int| 0 <= i < k implies t[i] != id by {
        assert(t[i] == s[i].id);
    }
    lemma_first_index_is(t, id, k);
}

proof fn lemma_window_at(w: Seq<(u32, Window)>, id: u32, k: int)
    requires
        0 <= k <= w.len(),
        forall|i: int| 0 <= i < k ==> (#[trigger] w[i]).0 != id,
        k < w.len() ==> w[k].0 == id,
    ensures
        window_at(w, id) == k,
{
    let t = window_ids(w);
    assert forall|i: int| 0 <= i < k implies t[i] != id by {
        assert(t[i] == w[i].0);
    }
    lemma_first_index_is(t, id, k);
}

/// A header frame opens a stream with the headers that were read from it. A stream that the
/// frame also ends is complete and has no body; any other is kept until it ends.
pub proof fn law_header_frames_open_streams(
    c: ConnView,
    f: FrameView,
    id: u32,
    block: Seq<u8>,
    end_stream: bool,
    h: Seq<(Seq<char>, Seq<char>)>,
)
    requires
        opens(c, f, id),
        f.payload == (PayloadView::Headers { header_block: block, end_stream, end_headers: true }),
    ensures
        ({
            let e = on_frame(c, f, Ok(h));
            &&& e.sent.len() == 0
            &&& e.outcome matches Ok((d, done)) && d.last_stream_id == id && d.send_windows
                == c.send_windows.push((id, Window { available: c.peer_initial as i32 }))
                && d.responses == c.responses && d.waiting == c.waiting && d.closed == c.closed
                && d.peer_connection_window == c.peer_connection_window && if end_stream {
                &&& done matches Some(s) && s.id == id && s.request_headers == h
                    && s.request_body.len() == 0 && s.state == StreamState::HalfClosedRemote
                &&& d.streams == c.streams
            } else {
                &&& done is None
                &&& d.streams.len() == c.streams.len() + 1
                &&& d.streams.drop_last() == c.streams
                &&& d.streams.last().id == id
                &&& d.streams.last().request_headers == h
                &&& d.streams.last().request_body.len() == 0
                &&& d.streams.last().window.available
                    == c.flow_control.initial_stream_window_size as i32
                &&& d.streams.last().send_window.available == c.peer_initial as i32
                &&& d.streams.last().state == StreamState::Open
            }
        }),
{
    assert(Seq::<(Seq<char>, Seq<char>)>::empty() + h =~= h);
    match on_frame(c, f, Ok(h)).outcome {
        Ok((d, _)) => {
            assert(!end_stream ==> d.streams.drop_last() =~= c.streams);
        },
        Err(_) => {},
    }
}

/// A block of headers may come in pieces: it has the effect that it has in one piece.
pub proof fn law_split_blocks_are_joined(
    c: ConnView,
    f: FrameView,
    g: FrameView,
    whole: FrameView,
    id: u32,
    a: Seq<u8>,
    b: Seq<u8>,
    end_stream: bool,
    decoded: DecodedView,
    unread: DecodedView,
)
    requires
        opens(c, f, id),
        opens(c, whole, id),
        unknown(c, id),
        is_frame(g, FrameType::Continuation, id),
        f.payload == (PayloadView::Headers {
            header_block: a,
            end_stream,
            end_headers: false,
        }),
        g.payload == (PayloadView::Continuation { header_block: b, end_headers: true }),
        whole.payload == (PayloadView::Headers {
            header_block: a + b,
            end_stream,
            end_headers: true,
        }),
        (a + b).len() <= c.max_header_block,
        c.pending_block.len() == 0,
    ensures
        on_frame(c, f, unread).outcome matches Ok((d, None)) && d.pending_block == a
            && on_frame(d, g, decoded).outcome == on_frame(c, whole, decoded).outcome,
{
    match on_frame(c, f, unread).outcome {
        Ok((d, None)) => {
            lemma_stream_at(d.streams, id, c.streams.len() as int);
            let x = on_frame(d, g, decoded).outcome;
            let y = on_frame(c, whole, decoded).outcome;
            match (x, y) {
                (Ok((p, _)), Ok((q, _))) => {
                    let k = c.streams.len() as int;
                    assert(d.streams.remove(k) =~= c.streams);
                    assert(p.streams =~= q.streams);
                    assert(c.pending_block =~= Seq::<u8>::empty());
                    assert(p =~= q);
                },
                _ => {},
            }
        },
        _ => {},
    }
}

/// More streams than were announced are refused one by one, and the others go on.
pub proof fn law_surplus_streams_are_refused(
    c: ConnView,
    f: FrameView,
    id: u32,
    block: Seq<u8>,
    end_stream: bool,
    end_headers: bool,
    decoded: DecodedView,
)
    requires
        is_frame(f, FrameType::Headers, id),
        f.payload == (PayloadView::Headers { header_block: block, end_stream, end_headers }),
        c.pending_headers is None,
        id % 2 == 1,
        id > c.last_stream_id,
        c.send_windows.len() >= c.max_concurrent_streams,
    ensures
        ({
            let e = on_frame(c, f, decoded);
            &&& e.sent.len() == 1
            &&& e.sent[0].header.stream_id == id
            &&& e.sent[0].payload == (PayloadView::RstStream {
                error_code: Http2ErrorCode::RefusedStream,
            })
            &&& e.outcome matches Ok((d, None)) && d.streams == c.streams && d.send_windows
                == c.send_windows && d.last_stream_id == id
        }),
{
}

/// Data is added to the body of its stream, and room for as much is given back on the
/// stream and on the connection. The stream is complete where the data ends it. No other
/// stream is touched.
pub proof fn law_data_is_collected(
    c: ConnView,
    f: FrameView,
    id: u32,
    k: int,
    data: Seq<u8>,
    end_stream: bool,
    decoded: DecodedView,
)
    requires
        is_frame(f, FrameType::Data, id),
        f.payload == (PayloadView::Data { data, end_stream }),
        c.pending_headers is None,
        0 <= k < c.streams.len(),
        c.streams[k].id == id,
        forall|i: int| 0 <= i < k ==> (#[trigger] c.streams[i]).id != id,
        data.len() <= u32::MAX,
        data.len() <= c.flow_control.connection_window.available,
        data.len() <= c.streams[k].window.available,
        c.streams[k].request_body.len() + data.len() <= c.max_request_size,
    ensures
        ({
            let e = on_frame(c, f, decoded);
            &&& data.len() > 0 ==> e.sent.len() == 2 && e.sent[0].header.stream_id == 0
                && e.sent[1].header.stream_id == id && e.sent[0].payload
                == (PayloadView::WindowUpdate { window_size_increment: data.len() as u32 })
                && e.sent[1].payload == (PayloadView::WindowUpdate {
                window_size_increment: data.len() as u32,
            })
            &&& data.len() == 0 ==> e.sent.len() == 0
            &&& e.outcome matches Ok((d, done)) && d == (ConnView { streams: d.streams, ..c }) && if end_stream {
                &&& done matches Some(s) && s.request_body == c.streams[k].request_body + data
                    && s.request_headers == c.streams[k].request_headers && s.id == id
                &&& d.streams == c.streams.remove(k)
            } else {
                &&& done is None
                &&& d.streams[k].request_body == c.streams[k].request_body + data
                &&& d.streams[k].request_headers == c.streams[k].request_headers
                &&& d.streams == c.streams.update(k, d.streams[k])
            }
        }),
{
    lemma_stream_at(c.streams, id, k);
}

/// What a client sends on a stream in a header frame and one of data is the request that is
/// served: its headers and its body.
pub proof fn law_requests_with_bodies_arrive(
    c: ConnView,
    f: FrameView,
    g: FrameView,
    id: u32,
    block: Seq<u8>,
    h: Seq<(Seq<char>, Seq<char>)>,
    data: Seq<u8>,
    unread: DecodedView,
)
    requires
        opens(c, f, id),
        unknown(c, id),
        f.payload == (PayloadView::Headers {
            header_block: block,
            end_stream: false,
            end_headers: true,
        }),
        is_frame(g, FrameType::Data, id),
        g.payload == (PayloadView::Data { data, end_stream: true }),
        data.len() <= u32::MAX,
        data.len() <= c.flow_control.connection_window.available,
        data.len() <= c.flow_control.initial_stream_window_size as i32,
        data.len() <= c.max_request_size,
    ensures
        on_frame(c, f, Ok(h)).outcome matches Ok((d, None)) && (on_frame(
            d,
            g,
            unread,
        ).outcome matches Ok((e, Some(s))) && s.request_headers == h && s.request_body == data
            && e.streams == c.streams && (h2_request(s) matches Ok(q) ==> q.body == data)),
{
    law_header_frames_open_streams(c, f, id, block, false, h);
    match on_frame(c, f, Ok(h)).outcome {
        Ok((d, None)) => {
            let k = c.streams.len() as int;
            assert forall|i: int| 0 <= i < k implies (#[trigger] d.streams[i]).id != id by {
                assert(d.streams.drop_last()[i] == d.streams[i]);
                assert(c.streams[i].id != id);
            }
            law_data_is_collected(d, g, id, k, data, true, unread);
            assert(d.streams.remove(k) =~= c.streams);
            match on_frame(d, g, unread).outcome {
                Ok((e, Some(s))) => {
                    assert(d.streams[k].request_body + data =~= data);
                    if h2_request(s) is Ok {
                        law_streams_carry_their_requests(s);
                    }
                },
                _ => {},
            }
        },
        _ => {},
    }
}

/// Data for a stream that is not being received, and data beyond a window, ends the
/// connection.
pub proof fn law_unexpected_data_is_refused(
    c: ConnView,
    f: FrameView,
    id: u32,
    data: Seq<u8>,
    end_stream: bool,
    decoded: DecodedView,
)
    requires
        is_frame(f, FrameType::Data, id),
        f.payload == (PayloadView::Data { data, end_stream }),
        c.pending_headers is None,
    ensures
        unknown(c, id) ==> on_frame(c, f, decoded).outcome == Err::<
            (ConnView, Option<StreamView>),
            _,
        >(Http2ErrorCode::StreamClosed),
        !unknown(c, id) && data.len() > 0 && data.len() > c.flow_control.connection_window.available
            ==> on_frame(c, f, decoded).outcome == Err::<(ConnView, Option<StreamView>), _>(
            Http2ErrorCode::FlowControlError,
        ),
{
    let t = stream_ids(c.streams);
    lemma_first_index(t, id);
    let k = first_index(t, id);
    if k < t.len() {
        assert(c.streams[k].id == id);
    } else if !unknown(c, id) {
        let i = choose|i: int| 0 <= i < c.streams.len() && (#[trigger] c.streams[i]).id == id;
        assert(t[i] == id);
    }
}

/// A ping is answered with the same data, and changes nothing.
pub proof fn law_pings_are_echoed(
    c: ConnView,
    f: FrameView,
    opaque_data: Seq<u8>,
    ack: bool,
    decoded: DecodedView,
)
    requires
        f.payload == (PayloadView::Ping { opaque_data, ack }),
        f.header.frame_type == FrameType::Ping,
        c.pending_headers is None,
    ensures
        ({
            let e = on_frame(c, f, decoded);
            &&& e.outcome == Ok::<_, Http2ErrorCode>((c, None::<StreamView>))
            &&& ack ==> e.sent.len() == 0
            &&& !ack ==> e.sent.len() == 1 && e.sent[0].payload == (PayloadView::Ping {
                opaque_data,
                ack: true,
            }) && e.sent[0].header.stream_id == 0
        }),
{
}

/// Settings are acknowledged. The size of frames is taken over, and a new size of windows
/// moves every window for sending by the difference.
pub proof fn law_settings_are_applied(
    c: ConnView,
    f: FrameView,
    id: SettingId,
    value: u32,
    decoded: DecodedView,
)
    requires
        f.payload == (PayloadView::Settings { settings: seq![(id, value)], ack: false }),
        f.header.frame_type == FrameType::Settings,
        c.pending_headers is None,
    ensures
        ({
            let e = on_frame(c, f, decoded);
            &&& e.outcome is Ok ==> e.sent.len() == 1 && e.sent[0].payload
                == (PayloadView::Settings { settings: Seq::empty(), ack: true })
            &&& id is MaxFrameSize ==> (e.outcome is Ok <==> 16384 <= value <= 16777215)
            &&& id is MaxFrameSize ==> (e.outcome matches Ok((d, done)) ==> done is None && d
                == (ConnView { peer_max_frame_size: value, ..c }))
            &&& id is InitialWindowSize && value > 0x7fff_ffff ==> e.outcome is Err
            &&& id is InitialWindowSize ==> (e.outcome matches Ok((d, done)) ==> done is None
                && d.peer_initial == value && d.send_windows.len() == c.send_windows.len() && (
            forall|i: int|
                0 <= i < c.send_windows.len() ==> (#[trigger] d.send_windows[i]).0
                    == c.send_windows[i].0 && d.send_windows[i].1.available
                    == c.send_windows[i].1.available + value - c.peer_initial)
                && d.peer_connection_window == c.peer_connection_window)
        }),
{
    let s = seq![(id, value)];
    assert(s.drop_last() =~= Seq::<(SettingId, u32)>::empty());
    assert(s.last() == (id, value));
    assert(peer_settings(c, s.drop_last()) == Ok::<_, Http2ErrorCode>(c));
    assert(peer_settings(c, s) == peer_setting(c, id, value));
    let e = on_frame(c, f, decoded);
    if id is InitialWindowSize {
        match e.outcome {
            Ok((d, done)) => {
                assert forall|i: int| 0 <= i < c.send_windows.len() implies (
                #[trigger] d.send_windows[i]).0 == c.send_windows[i].0
                    && d.send_windows[i].1.available == c.send_windows[i].1.available + value
                    - c.peer_initial by {
                    assert(crate::server::http2::flow::window_shift(
                        c.send_windows[i].1.available as int,
                        value - c.peer_initial,
                    ) is Ok);
                }
            },
            Err(_) => {},
        }
    }
}

/// Room that the client gives is added to the window it is for, the connection's or that of
/// the stream, and to no other; none at all, or more than a window can hold, is an error.
pub proof fn law_room_is_added(c: ConnView, f: FrameView, id: u32, k: int, n: u32, decoded: DecodedView)
    requires
        is_frame(f, FrameType::WindowUpdate, id),
        f.payload == (PayloadView::WindowUpdate { window_size_increment: n }),
        c.pending_headers is None,
        unknown(c, id),
        id > 0 ==> 0 <= k < c.send_windows.len() && c.send_windows[k].0 == id && forall|i: int|
            0 <= i < k ==> (#[trigger] c.send_windows[i]).0 != id,
    ensures
        ({
            let e = on_frame(c, f, decoded);
            let before = if id == 0 {
                c.peer_connection_window.available
            } else {
                c.send_windows[k].1.available
            };
            &&& e.sent.len() == 0
            &&& e.outcome is Ok <==> n > 0 && before + n <= 0x7fff_ffff
            &&& e.outcome matches Ok((d, done)) ==> done is None && if id == 0 {
                d == (ConnView {
                    peer_connection_window: Window { available: (before + n) as i32 },
                    ..c
                })
            } else {
                d == (ConnView {
                    send_windows: c.send_windows.update(
                        k,
                        (id, Window { available: (before + n) as i32 }),
                    ),
                    ..c
                })
            }
        }),
{
    lemma_stream_at(c.streams, id, c.streams.len() as int);
    if id > 0 {
        lemma_window_at(c.send_windows, id, k);
    }
}

proof fn lemma_waiting(w: Seq<WaitingResponse>, id: u32, x: WaitingResponse)
    ensures
        drop_waiting(w, id).contains(x) <==> w.contains(x) && x.stream_id != id,
    decreases w.len(),
{
    if w.len() > 0 {
        let t = w.drop_last();
        let r = drop_waiting(t, id);
        let d = drop_waiting(w, id);
        lemma_waiting(t, id, x);
        if w.contains(x) && x.stream_id != id {
            let i = choose|i: int| 0 <= i < w.len() && w[i] == x;
            if i < t.len() {
                assert(t[i] == x);
                let j = choose|j: int| 0 <= j < r.len() && r[j] == x;
                assert(d[j] == x);
            } else {
                assert(d[r.len() as int] == x);
            }
        }
        if d.contains(x) {
            let j = choose|j: int| 0 <= j < d.len() && d[j] == x;
            if j < r.len() {
                assert(r[j] == x);
                let i = choose|i: int| 0 <= i < t.len() && t[i] == x;
                assert(w[i] == x);
            } else {
                assert(w[w.len() - 1] == x);
            }
        }
    }
}

proof fn lemma_responses(w: Seq<PendingView>, id: u32, x: PendingView)
    ensures
        drop_responses(w, id).contains(x) <==> w.contains(x) && x.stream_id != id,
    decreases w.len(),
{
    if w.len() > 0 {
        let t = w.drop_last();
        let r = drop_responses(t, id);
        let d = drop_responses(w, id);
        lemma_responses(t, id, x);
        if w.contains(x) && x.stream_id != id {
            let i = choose|i: int| 0 <= i < w.len() && w[i] == x;
            if i < t.len() {
                assert(t[i] == x);
                let j = choose|j: int| 0 <= j < r.len() && r[j] == x;
                assert(d[j] == x);
            } else {
                assert(d[r.len() as int] == x);
            }
        }
        if d.contains(x) {
            let j = choose|j: int| 0 <= j < d.len() && d[j] == x;
            if j < r.len() {
                assert(r[j] == x);
                let i = choose|i: int| 0 <= i < t.len() && t[i] == x;
                assert(w[i] == x);
            } else {
                assert(w[w.len() - 1] == x);
            }
        }
    }
}

/// A reset takes its stream out of everything that is being received, sent or waited for,
/// and nothing else.
pub proof fn law_resets_end_their_stream(
    c: ConnView,
    f: FrameView,
    id: u32,
    k: int,
    error_code: Http2ErrorCode,
    decoded: DecodedView,
    response: PendingView,
    waiting: WaitingResponse,
)
    requires
        is_frame(f, FrameType::RstStream, id),
        f.payload == (PayloadView::RstStream { error_code }),
        c.pending_headers is None,
        0 <= k <= c.streams.len(),
        forall|i: int| 0 <= i < k ==> (#[trigger] c.streams[i]).id != id,
        k < c.streams.len() ==> c.streams[k].id == id,
    ensures
        ({
            let e = on_frame(c, f, decoded);
            &&& e.sent.len() == 0
            &&& e.outcome matches Ok((d, None)) && d.streams == (if k < c.streams.len() {
                c.streams.remove(k)
            } else {
                c.streams
            }) && (d.responses.contains(response) <==> c.responses.contains(response)
                && response.stream_id != id) && (d.waiting.contains(waiting)
                <==> c.waiting.contains(waiting) && waiting.stream_id != id)
                && d.last_stream_id == c.last_stream_id && d.peer_connection_window
                == c.peer_connection_window
        }),
{
    lemma_stream_at(c.streams, id, k);
    lemma_waiting(c.waiting, id, waiting);
    lemma_responses(c.responses, id, response);
}

/// The headers of a response begin with its status, which reads back as its number, and go
/// on with those of the response.
pub proof fn law_stream_headers_carry_the_response(r: ResponseView)
    ensures
        ({
            let h = stream_headers(r);
            &&& h.len() == r.headers.len() + 1
            &&& h[0].0 == ":status"@
            &&& parse_uint(h[0].1, 999) == Some(r.status.number() as nat)
            &&& h.subrange(1, h.len() as int) == r.headers
        }),
{
    law_decimal_reads_back(r.status.number() as nat, 999);
    assert(stream_headers(r).subrange(1, stream_headers(r).len() as int) =~= r.headers);
}

} // verus!
