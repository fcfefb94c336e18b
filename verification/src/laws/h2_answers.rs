//! What the server writes to an HTTP/2 client, and how it takes frames off its bytes.

use crate::server::http2::connection::{
    frame_at_front, goaway_view, last_after, server_settings_view, ConnView,
};
use crate::server::http2::frame::{
    frame_bytes, frame_consistent, law_error_numbers_round_trip, law_frames_round_trip,
    law_headers_round_trip, payload_bytes, FrameView, Http2ErrorCode, PayloadView, SettingId,
    FRAME_HEADER_SIZE,
};
use crate::server::http2::policy::{sent_response, headers_without};
use crate::server::http2::schedule::{pending_body_of, BodyView};
use crate::server::http2::stream::client_stream;
use crate::server::response::{ResponseView, SourceView};
use crate::server::upstream::forbids_transform;
use crate::text::same_name;
use vstd::prelude::*;

verus! {

/// A frame is taken off the bytes once all of it has come, exactly as it was written, and
/// what follows it stays. A frame that is longer than allowed is refused.
pub proof fn law_frames_are_taken_off_the_front(f: FrameView, rest: Seq<u8>, k: int, max: u32)
    requires
        frame_consistent(f),
        0 <= k < frame_bytes(f).len(),
    ensures
        f.header.length <= max ==> frame_at_front(frame_bytes(f) + rest, max) == (
            Ok::<_, Http2ErrorCode>(Some(f)),
            rest,
        ),
        f.header.length <= max ==> frame_at_front(frame_bytes(f).subrange(0, k), max) == (
            Ok::<_, Http2ErrorCode>(None::<FrameView>),
            frame_bytes(f).subrange(0, k),
        ),
        f.header.length > max ==> frame_at_front(frame_bytes(f) + rest, max).0 == Err::<
            Option<FrameView>,
            _,
        >(Http2ErrorCode::FrameSizeError),
{
    law_frames_round_trip(f);
    law_headers_round_trip(f.header);
    let w = frame_bytes(f);
    let b = w + rest;
    let n = w.len() as int;
    assert(n == FRAME_HEADER_SIZE + f.header.length);
    assert(b[0] == w[0] && b[1] == w[1] && b[2] == w[2] && b[3] == w[3] && b[4] == w[4] && b[5]
        == w[5] && b[6] == w[6] && b[7] == w[7] && b[8] == w[8]);
    assert(b.subrange(FRAME_HEADER_SIZE as int, n) =~= payload_bytes(f.payload));
    assert(b.subrange(n, b.len() as int) =~= rest);
    let s = w.subrange(0, k);
    if k >= FRAME_HEADER_SIZE {
        assert(s[0] == w[0] && s[1] == w[1] && s[2] == w[2] && s[3] == w[3] && s[4] == w[4] && s[5]
            == w[5] && s[6] == w[6] && s[7] == w[7] && s[8] == w[8]);
    }
}

/// A connection that ends tells the client the last stream that was taken up, and why it
/// ends.
pub proof fn law_farewells_name_the_last_stream(id: u32, e: Http2ErrorCode, rest: Seq<u8>)
    requires
        id <= 0x7fff_ffff,
    ensures
        ({
            let (f, left) = frame_at_front(frame_bytes(goaway_view(id, e)) + rest, 16384);
            &&& left == rest
            &&& f matches Ok(Some(g)) && g.header.stream_id == 0 && (
            g.payload matches PayloadView::GoAway { last_stream_id, error_code, .. }
                && last_stream_id == id && error_code == e)
        }),
{
    let f = goaway_view(id, e);
    law_error_numbers_round_trip(e);
    assert(payload_bytes(f.payload).len() == 8);
    assert(frame_consistent(f));
    law_frames_are_taken_off_the_front(f, rest, 0, 16384);
}

/// The server announces how many streams it takes at once, the room that a stream begins
/// with and the longest frame that it takes.
pub proof fn law_settings_are_announced(c: ConnView, rest: Seq<u8>)
    ensures
        ({
            let (f, left) = frame_at_front(frame_bytes(server_settings_view(c)) + rest, 16384);
            &&& left == rest
            &&& f matches Ok(Some(g)) && (g.payload matches PayloadView::Settings { settings, ack }
                && !ack && settings.len() == 3 && settings.contains(
                (SettingId::MaxConcurrentStreams, c.max_concurrent_streams as u32),
            ) && settings.contains(
                (SettingId::InitialWindowSize, c.flow_control.initial_stream_window_size),
            ) && settings.contains((SettingId::MaxFrameSize, c.max_frame_size)))
        }),
{
    let f = server_settings_view(c);
    let s = f.payload->settings;
    lemma_three_settings(s);
    assert(frame_consistent(f)) by {
        assert(0u8 & 1u8 == 0u8) by (bit_vector);
    }
    law_frames_are_taken_off_the_front(f, rest, 0, 16384);
    assert(s[0] == (SettingId::MaxConcurrentStreams, c.max_concurrent_streams as u32));
    assert(s[1] == (SettingId::InitialWindowSize, c.flow_control.initial_stream_window_size));
    assert(s[2] == (SettingId::MaxFrameSize, c.max_frame_size));
}

proof fn lemma_three_settings(s: Seq<(SettingId, u32)>)
    requires
        s.len() == 3,
    ensures
        payload_bytes(PayloadView::Settings { settings: s, ack: false }).len() == 18,
{
    let a = s.drop_last();
    let b = a.drop_last();
    assert(b.drop_last().len() == 0);
    reveal_with_fuel(crate::server::http2::frame::settings_bytes, 4);
}

/// The last stream is the newest that the client opened; it never goes back.
pub proof fn law_the_last_stream_is_the_newest(c: ConnView, f: FrameView)
    ensures
        last_after(c, f) >= c.last_stream_id,
        f.payload is Headers && f.header.frame_type is Headers && c.pending_headers is None
            && client_stream(f.header.stream_id) && f.header.stream_id > c.last_stream_id
            ==> last_after(c, f) == f.header.stream_id,
        !(f.payload is Headers) ==> last_after(c, f) == c.last_stream_id,
{
}

/// All of a body waits to be sent, and nothing waits where there is none.
pub proof fn law_bodies_wait_in_full(data: Seq<u8>, size: u64, start: u64, level: u32)
    ensures
        data.len() > 0 ==> pending_body_of(SourceView::Bytes(data)) == Some(
            BodyView::Bytes { data, offset: 0 },
        ),
        data.len() == 0 ==> pending_body_of(SourceView::Bytes(data)) is None,
        size > 0 ==> pending_body_of(SourceView::File(size)) == Some(BodyView::File { left: size }),
        size > 0 ==> pending_body_of(SourceView::FileRange(start, size)) == Some(
            BodyView::File { left: size },
        ),
        size > 0 ==> (pending_body_of(SourceView::GzipFile(size, level)) is Some),
        pending_body_of(SourceView::File(0)) is None,
        pending_body_of(SourceView::FileRange(start, 0)) is None,
        pending_body_of(SourceView::GzipFile(0, level)) is None,
{
}

proof fn lemma_without_keeps(h: Seq<(Seq<char>, Seq<char>)>, name: Seq<char>, p: (Seq<char>, Seq<char>))
    requires
        h.contains(p),
        !same_name(p.0, name),
    ensures
        headers_without(h, name).contains(p),
    decreases h.len(),
{
    let l = h.drop_last();
    let i = choose|i: int| 0 <= i < h.len() && h[i] == p;
    let w = headers_without(l, name);
    if i < l.len() {
        assert(l[i] == p);
        lemma_without_keeps(l, name, p);
        let j = choose|j: int| 0 <= j < w.len() && w[j] == p;
        assert(w.push(h.last())[j] == p);
    } else {
        assert(w.push(h.last())[w.len() as int] == p);
    }
}

/// A response of an upstream goes on as it came, unless its body is compressed for the
/// client. That happens only for a client that takes it, to a body that may be changed. The
/// response has the same status then, says that it is compressed, and keeps its other
/// headers; how long it is, is no longer known.
pub proof fn law_upstream_responses_go_on(
    r: ResponseView,
    has_body: bool,
    length: Option<u64>,
    accepts: bool,
    p: (Seq<char>, Seq<char>),
)
    ensures
        ({
            let (s, compressed, n) = sent_response(r, has_body, length, accepts);
            &&& !compressed ==> s == r && n == length
            &&& !accepts || !has_body || forbids_transform(r.headers) || r.status.number() == 204
                || r.status.number() == 304 ==> !compressed
            &&& compressed ==> n is None && s.status == r.status && s.body_source == r.body_source
                && s.headers.contains(("Content-Encoding"@, "gzip"@))
            &&& compressed && r.headers.contains(p) && !same_name(p.0, "Content-Length"@)
                && !same_name(p.0, "Content-Encoding"@) ==> s.headers.contains(p)
        }),
{
    let a = headers_without(r.headers, "Content-Length"@);
    let b = headers_without(a, "Content-Encoding"@);
    let g = ("Content-Encoding"@, "gzip"@);
    let h = b.push(g);
    let v = ("Vary"@, "Accept-Encoding"@);
    assert(h[b.len() as int] == g);
    assert(h.push(v)[b.len() as int] == g);
    if r.headers.contains(p) && !same_name(p.0, "Content-Length"@) && !same_name(
        p.0,
        "Content-Encoding"@,
    ) {
        lemma_without_keeps(r.headers, "Content-Length"@, p);
        lemma_without_keeps(a, "Content-Encoding"@, p);
        let j = choose|j: int| 0 <= j < b.len() && b[j] == p;
        assert(h[j] == p);
        assert(h.push(v)[j] == p);
    }
}

} // verus!
