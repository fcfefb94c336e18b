//! Sending response bodies: every waiting response gets its turn, within the
//! windows of its stream and of the connection.

use crate::bytes::{part_bytes, part_bytes_all};
use crate::config::types::views;
use crate::server::http2::connection::{
    drop_window, find_window, finish_stream, header_for, lemma_first_index, lemma_first_index_is,
    lemma_ids_kept, reset_frame, reset_view, window_at, window_ids, ConnView, Http2Connection,
};
use crate::server::http2::flags;
use crate::server::http2::flow::Window;
use crate::server::http2::frame::{
    Frame, FrameHeader, FramePayload, FrameType, FrameView, Http2ErrorCode, PayloadView,
};
use crate::server::http2::hpack::{block_bytes, encode_headers};
use crate::server::http2::policy::{h2_response_headers, stream_headers};
use crate::server::response::{BodySource, HttpResponse, ResponseView, SourceView};
use vstd::prelude::*;

verus! {

/// A response body that is still to be sent.
#[derive(Debug, PartialEq, Eq)]
pub enum PendingBody {
    /// Bytes in memory, sent up to `offset`.
    Bytes { data: Vec<u8>, offset: usize },
    /// The rest of an open file.
    File { left: u64 },
    /// A stream of bytes, of known length or not.
    Reader { remaining: Option<u64> },
}

#[verifier::ext_equal]
pub enum BodyView {
    Bytes { data: Seq<u8>, offset: usize },
    File { left: u64 },
    Reader { remaining: Option<u64> },
}

impl View for PendingBody {
    type V = BodyView;

    open spec fn view(&self) -> BodyView {
        match self {
            PendingBody::Bytes { data, offset } => BodyView::Bytes {
                data: data@,
                offset: *offset,
            },
            PendingBody::File { left } => BodyView::File { left: *left },
            PendingBody::Reader { remaining } => BodyView::Reader { remaining: *remaining },
        }
    }
}

/// A response whose headers are sent and whose body is not.
#[derive(Debug, PartialEq, Eq)]
pub struct PendingResponse {
    pub stream_id: u32,
    pub body: PendingBody,
}

#[verifier::ext_equal]
pub struct PendingView {
    pub stream_id: u32,
    pub body: BodyView,
}

impl View for PendingResponse {
    type V = PendingView;

    open spec fn view(&self) -> PendingView {
        PendingView { stream_id: self.stream_id, body: self.body@ }
    }
}

/// The responses of other streams.
pub open spec fn drop_responses(r: Seq<PendingView>, id: u32) -> Seq<PendingView>
    decreases r.len(),
{
    if r.len() == 0 {
        r
    } else {
        let s = drop_responses(r.drop_last(), id);
        if r.last().stream_id == id {
            s
        } else {
            s.push(r.last())
        }
    }
}

/// Removes the responses of a stream.
pub fn remove_responses(r: &mut Vec<PendingResponse>, id: u32)
    ensures
        views(final(r)@) == drop_responses(views(old(r)@), id),
{
    let ghost all = views(r@);
    let mut kept: Vec<PendingResponse> = Vec::new();
    let ghost mut done: int = 0;
    assert(views(kept@) =~= drop_responses(all.subrange(0, 0), id));
    while r.len() > 0
        invariant
            0 <= done <= all.len(),
            views(r@) == all.subrange(done, all.len() as int),
            views(kept@) == drop_responses(all.subrange(0, done), id),
        decreases r@.len(),
    {
        let ghost before = r@;
        let p = r.remove(0);
        let ghost v = p@;
        proof {
            assert(views(before).len() == before.len());
            assert(all.subrange(0, done + 1).drop_last() =~= all.subrange(0, done));
            assert(views(before)[0] == v);
            assert(all[done] == v);
            assert(views(r@) =~= all.subrange(done + 1, all.len() as int)) by {
                assert forall|i: int| 0 <= i < r@.len() implies r@[i]@ == all[done + 1 + i] by {
                    assert(r@[i] == before[i + 1]);
                    assert(views(before)[i + 1] == all[done + 1 + i]);
                }
            }
        }
        if p.stream_id != id {
            let ghost k = views(kept@);
            kept.push(p);
            assert(views(kept@) =~= k.push(v));
        }
        proof {
            done = done + 1;
        }
    }
    assert(views(r@).len() == 0);
    assert(all.subrange(0, all.len() as int) =~= all);
    *r = kept;
}

/// What a read of a body's source gave.
#[derive(Debug, PartialEq, Eq)]
pub enum ReadEvent {
    /// Bytes; none at the end.
    Bytes(Vec<u8>),
    /// Nothing yet.
    WouldBlock,
    /// The read failed.
    Failed,
}

#[verifier::ext_equal]
pub enum ReadView {
    Bytes(Seq<u8>),
    WouldBlock,
    Failed,
}

impl View for ReadEvent {
    type V = ReadView;

    open spec fn view(&self) -> ReadView {
        match self {
            ReadEvent::Bytes(b) => ReadView::Bytes(b@),
            ReadEvent::WouldBlock => ReadView::WouldBlock,
            ReadEvent::Failed => ReadView::Failed,
        }
    }
}

/// What a body has to offer.
#[derive(Debug, PartialEq, Eq)]
pub enum BodyRead {
    /// Bytes, and whether they are the last.
    Data(Vec<u8>, bool),
    Pending,
    Done,
}

#[verifier::ext_equal]
pub enum ChunkView {
    Data(Seq<u8>, bool),
    Pending,
    Done,
}

impl View for BodyRead {
    type V = ChunkView;

    open spec fn view(&self) -> ChunkView {
        match self {
            BodyRead::Data(b, done) => ChunkView::Data(b@, *done),
            BodyRead::Pending => ChunkView::Pending,
            BodyRead::Done => ChunkView::Done,
        }
    }
}

pub open spec fn smaller(a: int, b: int) -> int {
    if a <= b {
        a
    } else {
        b
    }
}

/// How many bytes to read from the source of the body for a chunk of at most `max`.
pub open spec fn wanted(b: BodyView, max: int) -> int {
    match b {
        BodyView::Bytes { .. } => 0,
        BodyView::File { left } => smaller(left as int, max),
        BodyView::Reader { remaining } => match remaining {
            Some(left) => smaller(left as int, max),
            None => max,
        },
    }
}

/// The next chunk of a body and the body behind it.
pub open spec fn chunk(b: BodyView, max: int, e: ReadView) -> Result<
    (ChunkView, BodyView),
    Http2ErrorCode,
> {
    match b {
        BodyView::Bytes { data, offset } => {
            let end = smaller(offset + max, data.len() as int);
            Ok(
                (
                    ChunkView::Data(data.subrange(offset as int, end), end == data.len()),
                    BodyView::Bytes { data, offset: end as usize },
                ),
            )
        },
        BodyView::File { left } => match e {
            ReadView::Bytes(x) => if x.len() == 0 {
                Err(Http2ErrorCode::InternalError)
            } else {
                Ok(
                    (
                        ChunkView::Data(x, left == x.len()),
                        BodyView::File { left: (left - x.len()) as u64 },
                    ),
                )
            },
            _ => Err(Http2ErrorCode::InternalError),
        },
        BodyView::Reader { remaining } => if wanted(b, max) == 0 {
            Ok((ChunkView::Done, b))
        } else {
            match e {
                ReadView::Bytes(x) => if x.len() == 0 {
                    match remaining {
                        Some(left) => if left != 0 {
                            Err(Http2ErrorCode::InternalError)
                        } else {
                            Ok((ChunkView::Done, b))
                        },
                        None => Ok((ChunkView::Done, b)),
                    }
                } else {
                    match remaining {
                        Some(left) => Ok(
                            (
                                ChunkView::Data(x, left == x.len()),
                                BodyView::Reader { remaining: Some((left - x.len()) as u64) },
                            ),
                        ),
                        None => Ok((ChunkView::Data(x, false), b)),
                    }
                },
                ReadView::WouldBlock => Ok((ChunkView::Pending, b)),
                ReadView::Failed => Err(Http2ErrorCode::InternalError),
            }
        },
    }
}

/// The offset lies within the bytes.
pub open spec fn body_wf(b: BodyView) -> bool {
    b matches BodyView::Bytes { data, offset } ==> offset <= data.len()
}

/// The source gave no more than was asked for.
pub open spec fn event_fits(b: BodyView, max: int, e: ReadView) -> bool {
    !(b is Bytes) ==> (e matches ReadView::Bytes(x) ==> x.len() <= wanted(b, max))
}

/// Chunks of a file of known length add up: a chunk never exceeds what is left, and
/// it is the last one exactly when nothing is left.
pub proof fn law_file_chunks_add_up(left: u64, max: int, e: ReadView)
    requires
        max >= 0,
        event_fits(BodyView::File { left }, max, e),
    ensures
        chunk(BodyView::File { left }, max, e) matches Ok((ChunkView::Data(x, done), rest)) ==> (
        rest matches BodyView::File { left: l } && l + x.len() == left && (done <==> l == 0)),
{
}

impl PendingBody {
    /// How many bytes to read from the source for a chunk of at most `max`.
    pub fn bytes_wanted(&self, max: usize) -> (n: usize)
        ensures
            n == wanted(self@, max as int),
    {
        match self {
            PendingBody::Bytes { .. } => 0,
            PendingBody::File { left } => if *left <= max as u64 {
                *left as usize
            } else {
                max
            },
            PendingBody::Reader { remaining } => match remaining {
                Some(left) => if *left <= max as u64 {
                    *left as usize
                } else {
                    max
                },
                None => max,
            },
        }
    }

    /// The next chunk, given what the source gave.
    pub fn read_chunk(&mut self, max: usize, event: ReadEvent) -> (r: Result<
        BodyRead,
        Http2ErrorCode,
    >)
        requires
            body_wf(old(self)@),
            event_fits(old(self)@, max as int, event@),
        ensures
            match chunk(old(self)@, max as int, event@) {
                Ok((c, b)) => final(self)@ == b && (r matches Ok(x) && x@ == c),
                Err(e) => final(self)@ == old(self)@ && (r matches Err(x) && x == e),
            },
            body_wf(final(self)@),
    {
        let want: usize = self.bytes_wanted(max);
        match self {
            PendingBody::Bytes { data, offset } => {
                let n: usize = data.len();
                let end: usize = if max <= n - *offset {
                    *offset + max
                } else {
                    n
                };
                let part = part_bytes(data.as_slice(), *offset, end);
                *offset = end;
                Ok(BodyRead::Data(part, end == n))
            },
            PendingBody::File { left } => match event {
                ReadEvent::Bytes(x) => {
                    if x.len() == 0 {
                        return Err(Http2ErrorCode::InternalError);
                    }
                    *left = *left - x.len() as u64;
                    let done = *left == 0;
                    Ok(BodyRead::Data(x, done))
                },
                _ => Err(Http2ErrorCode::InternalError),
            },
            PendingBody::Reader { remaining } => {
                if want == 0 {
                    return Ok(BodyRead::Done);
                }
                match event {
                    ReadEvent::WouldBlock => Ok(BodyRead::Pending),
                    ReadEvent::Failed => Err(Http2ErrorCode::InternalError),
                    ReadEvent::Bytes(x) => {
                        let n: usize = x.len();
                        match *remaining {
                            Some(left) => {
                                if n == 0 {
                                    if left != 0 {
                                        return Err(Http2ErrorCode::InternalError);
                                    }
                                    return Ok(BodyRead::Done);
                                }
                                let rest: u64 = left - n as u64;
                                *remaining = Some(rest);
                                Ok(BodyRead::Data(x, rest == 0))
                            },
                            None => {
                                if n == 0 {
                                    return Ok(BodyRead::Done);
                                }
                                Ok(BodyRead::Data(x, false))
                            },
                        }
                    },
                }
            },
        }
    }
}

pub open spec fn data_view(id: u32, data: Seq<u8>, end_stream: bool) -> FrameView {
    FrameView {
        header: header_for(
            data.len() as u32,
            FrameType::Data,
            if end_stream {
                flags::END_STREAM
            } else {
                0
            },
            id,
        ),
        payload: PayloadView::Data { data, end_stream },
    }
}

fn data_frame(stream_id: u32, data: Vec<u8>, end_stream: bool) -> (f: Frame)
    ensures
        f@ == data_view(stream_id, data@, end_stream),
{
    Frame {
        header: FrameHeader {
            length: data.len() as u32,
            frame_type: FrameType::Data,
            flags: if end_stream {
                flags::END_STREAM
            } else {
                0
            },
            stream_id,
        },
        payload: FramePayload::Data { data, end_stream },
    }
}

/// The number of turns of a round, and the share of the connection window that each
/// turn may use; none where nothing can be sent.
pub open spec fn round(c: ConnView) -> Option<(nat, int)> {
    let n = c.responses.len();
    let window = c.peer_connection_window.available;
    if n == 0 || window <= 0 {
        None
    } else if window as int / n as int >= 1 {
        Some((n, window as int / n as int))
    } else {
        Some((n, 1))
    }
}

/// How much the response whose turn it is may send; none where it has to wait or
/// its stream is gone.
pub open spec fn turn_amount(c: ConnView, quota: int) -> Option<int> {
    let k = window_at(c.send_windows, c.responses[0].stream_id);
    let window = c.send_windows[k].1.available;
    if c.responses.len() == 0 || k >= c.send_windows.len() || window <= 0
        || c.peer_connection_window.available <= 0 {
        None
    } else {
        Some(
            smaller(
                smaller(quota, c.peer_max_frame_size as int),
                smaller(c.peer_connection_window.available as int, window as int),
            ),
        )
    }
}

/// The responses after the first one moved to the back.
pub open spec fn rotated(c: ConnView, body: BodyView) -> ConnView {
    ConnView {
        responses: c.responses.subrange(1, c.responses.len() as int).push(
            PendingView { stream_id: c.responses[0].stream_id, body },
        ),
        ..c
    }
}

/// The connection without its first response.
pub open spec fn popped(c: ConnView) -> ConnView {
    ConnView { responses: c.responses.subrange(1, c.responses.len() as int), ..c }
}

/// The connection after `n` bytes went out on the stream.
pub open spec fn charged(c: ConnView, id: u32, n: int) -> ConnView {
    let k = window_at(c.send_windows, id);
    ConnView {
        peer_connection_window: Window {
            available: (c.peer_connection_window.available - n) as i32,
        },
        send_windows: c.send_windows.update(
            k,
            (id, Window { available: (c.send_windows[k].1.available - n) as i32 }),
        ),
        ..c
    }
}

/// One turn: the response at the front sends a chunk and goes to the back, or
/// waits, or is finished.
pub open spec fn turn(c: ConnView, quota: int, e: ReadView) -> (ConnView, Option<FrameView>) {
    let p = c.responses[0];
    let id = p.stream_id;
    if c.responses.len() == 0 {
        (c, None)
    } else if window_at(c.send_windows, id) >= c.send_windows.len() {
        (popped(c), None)
    } else {
        match turn_amount(c, quota) {
            None => (rotated(c, p.body), None),
            Some(amount) => match chunk(p.body, amount, e) {
                Err(code) => (finish_stream(popped(c), id), Some(reset_view(id, code))),
                Ok((ChunkView::Pending, b)) => (rotated(c, b), None),
                Ok((ChunkView::Done, b)) => (
                    finish_stream(popped(c), id),
                    Some(data_view(id, Seq::empty(), true)),
                ),
                Ok((ChunkView::Data(x, done), b)) => if x.len() == 0 && !done {
                    (rotated(c, b), None)
                } else if x.len() == 0 {
                    (
                        finish_stream(popped(c), id),
                        Some(data_view(id, Seq::empty(), true)),
                    )
                } else if done {
                    (
                        finish_stream(popped(charged(c, id, x.len() as int)), id),
                        Some(data_view(id, x, true)),
                    )
                } else {
                    (
                        rotated(charged(c, id, x.len() as int), b),
                        Some(data_view(id, x, false)),
                    )
                },
            },
        }
    }
}

/// Bodies in the queue are well formed.
pub open spec fn responses_wf(c: ConnView) -> bool {
    forall|i: int| 0 <= i < c.responses.len() ==> body_wf((#[trigger] c.responses[i]).body)
}

pub proof fn lemma_chunk_fits(b: BodyView, max: int, e: ReadView)
    requires
        0 <= max,
        body_wf(b),
        event_fits(b, max, e),
    ensures
        chunk(b, max, e) matches Ok((ChunkView::Data(x, _), _)) ==> x.len() <= max,
        chunk(b, max, e) matches Ok((_, r)) ==> body_wf(r),
{
}

/// Sending is fair: after a turn every other response has moved up one place in the
/// same order, and the one that had its turn is last or finished.
pub proof fn law_turns_are_fair(c: ConnView, quota: int, e: ReadView)
    requires
        c.responses.len() > 0,
    ensures
        ({
            let d = turn(c, quota, e).0;
            let n = c.responses.len();
            &&& d.responses.len() == n || d.responses.len() == n - 1
            &&& forall|i: int| 1 <= i < n ==> d.responses[i - 1] == c.responses[i]
            &&& d.responses.len() == n ==> d.responses[n - 1].stream_id
                == c.responses[0].stream_id
        }),
{
}

/// The source gave no more than the turn asks for.
pub open spec fn event_fits_turn(c: ConnView, quota: int, e: ReadView) -> bool {
    c.responses.len() > 0 ==> (turn_amount(c, quota) matches Some(amount) ==> event_fits(
        c.responses[0].body,
        amount,
        e,
    ))
}

/// A turn can be taken: the body at the front is well formed, and its source gave no more
/// than was asked for.
pub open spec fn can_turn(c: ConnView, quota: int, e: ReadView) -> bool {
    c.responses.len() > 0 ==> body_wf(c.responses[0].body) && event_fits_turn(c, quota, e)
}

/// The bytes of the body that a frame carries.
pub open spec fn data_len(f: Option<FrameView>) -> int {
    match f {
        Some(x) => match x.payload {
            PayloadView::Data { data, .. } => data.len() as int,
            _ => 0,
        },
        None => 0,
    }
}

/// Flow control is kept: a data frame is on the stream whose turn it is and fits the
/// share of the turn, the frame size of the peer and both windows. What it carries is
/// taken off the window of the connection, which does not become negative.
pub proof fn law_sending_respects_windows(c: ConnView, quota: int, e: ReadView)
    requires
        c.responses.len() > 0,
        quota >= 0,
        responses_wf(c),
        event_fits_turn(c, quota, e),
    ensures
        ({
            let id = c.responses[0].stream_id;
            let n = data_len(turn(c, quota, e).1);
            &&& turn(c, quota, e).1 matches Some(f) ==> f.header.stream_id == id
            &&& n > 0 ==> {
                let k = window_at(c.send_windows, id);
                &&& n <= quota
                &&& n <= c.peer_max_frame_size
                &&& n <= c.peer_connection_window.available
                &&& k < c.send_windows.len()
                &&& n <= c.send_windows[k].1.available
            }
            &&& turn(c, quota, e).0.peer_connection_window.available
                == c.peer_connection_window.available - n
            &&& c.peer_connection_window.available >= 0 ==> turn(
                c,
                quota,
                e,
            ).0.peer_connection_window.available >= 0
        }),
{
    match turn_amount(c, quota) {
        Some(amount) => {
            lemma_chunk_fits(c.responses[0].body, amount, e);
        },
        None => {},
    }
}

/// Turns one after the other: the connection after them, and what each sends.
pub open spec fn turns(c: ConnView, quota: int, e: Seq<ReadView>) -> (
    ConnView,
    Seq<Option<FrameView>>,
)
    decreases e.len(),
{
    if e.len() == 0 {
        (c, Seq::empty())
    } else {
        let (d, sent) = turns(c, quota, e.drop_last());
        let (after, f) = turn(d, quota, e.last());
        (after, sent.push(f))
    }
}

/// At every turn the source gave no more than was asked for.
pub open spec fn events_fit(c: ConnView, quota: int, e: Seq<ReadView>) -> bool
    decreases e.len(),
{
    e.len() == 0 || (events_fit(c, quota, e.drop_last()) && event_fits_turn(
        turns(c, quota, e.drop_last()).0,
        quota,
        e.last(),
    ))
}

/// The bytes of bodies that some frames carry.
pub open spec fn data_sum(f: Seq<Option<FrameView>>) -> int
    decreases f.len(),
{
    if f.len() == 0 {
        0
    } else {
        data_sum(f.drop_last()) + data_len(f.last())
    }
}

/// No stream has two responses in the queue.
pub open spec fn distinct_responses(r: Seq<PendingView>) -> bool {
    forall|i: int, j: int|
        0 <= i < r.len() && 0 <= j < r.len() && (#[trigger] r[i]).stream_id == (
        #[trigger] r[j]).stream_id ==> i == j
}

/// The send window of a stream, if it has one.
pub open spec fn stream_window(w: Seq<(u32, Window)>, id: u32) -> Option<i32> {
    let k = window_at(w, id);
    if k < w.len() {
        Some(w[k].1.available)
    } else {
        None
    }
}

proof fn lemma_other_window_after_drop(w: Seq<(u32, Window)>, gone: u32, id: u32)
    requires
        gone != id,
    ensures
        stream_window(drop_window(w, gone), id) == stream_window(w, id),
{
    let s = window_ids(w);
    lemma_first_index(s, gone);
    lemma_first_index(s, id);
    let k = window_at(w, gone);
    let j = window_at(w, id);
    if k < w.len() {
        let v = w.remove(k);
        let t = window_ids(v);
        let at = if j < k {
            j
        } else {
            j - 1
        };
        assert forall|i: int| 0 <= i < at implies t[i] != id by {
            if i < k {
                assert(t[i] == s[i]);
            } else {
                assert(t[i] == s[i + 1]);
            }
        }
        if j < w.len() {
            assert(s[k] == gone);
            assert(j != k);
            assert(v[at] == w[j]);
            assert(t[at] == s[j]);
        }
        lemma_first_index_is(t, id, at);
    }
}

proof fn lemma_other_window_after_update(
    w: Seq<(u32, Window)>,
    id: u32,
    x: Window,
    other: u32,
)
    requires
        window_at(w, id) < w.len(),
        other != id,
    ensures
        stream_window(w.update(window_at(w, id), (id, x)), other) == stream_window(w, other),
{
    let k = window_at(w, id);
    let v = w.update(k, (id, x));
    lemma_first_index(window_ids(w), id);
    lemma_first_index(window_ids(w), other);
    assert(window_ids(w)[k] == id);
    assert(window_ids(v) =~= window_ids(w));
    lemma_ids_kept(v, w, other);
    if window_at(w, other) < w.len() {
        assert(window_ids(w)[window_at(w, other)] == other);
    }
}

proof fn lemma_turn_leaves_other_windows(c: ConnView, quota: int, e: ReadView, other: u32)
    requires
        c.responses.len() > 0,
        other != c.responses[0].stream_id,
    ensures
        stream_window(turn(c, quota, e).0.send_windows, other) == stream_window(
            c.send_windows,
            other,
        ),
{
    let id = c.responses[0].stream_id;
    lemma_other_window_after_drop(c.send_windows, id, other);
    let k = window_at(c.send_windows, id);
    if k < c.send_windows.len() {
        match turn_amount(c, quota) {
            Some(amount) => match chunk(c.responses[0].body, amount, e) {
                Ok((ChunkView::Data(x, done), b)) => {
                    let n = x.len() as int;
                    let rest = Window { available: (c.send_windows[k].1.available - n) as i32 };
                    lemma_other_window_after_update(c.send_windows, id, rest, other);
                    lemma_other_window_after_drop(charged(c, id, n).send_windows, id, other);
                },
                _ => {},
            },
            None => {},
        }
    }
}

proof fn lemma_turns_rotate(c: ConnView, quota: int, e: Seq<ReadView>)
    requires
        quota >= 0,
        responses_wf(c),
        distinct_responses(c.responses),
        c.peer_connection_window.available >= 0,
        e.len() <= c.responses.len(),
        events_fit(c, quota, e),
    ensures
        ({
            let (d, sent) = turns(c, quota, e);
            let n = c.responses.len();
            let k = e.len();
            &&& forall|i: int|
                k <= i < n ==> stream_window(
                    d.send_windows,
                    (#[trigger] c.responses[i]).stream_id,
                ) == stream_window(c.send_windows, c.responses[i].stream_id)
            &&& forall|i: int|
                0 <= i < k && data_len(#[trigger] sent[i]) > 0 ==> (stream_window(
                    c.send_windows,
                    c.responses[i].stream_id,
                ) matches Some(w) && data_len(sent[i]) <= w)
            &&& responses_wf(d)
            &&& sent.len() == k
            &&& n - k <= d.responses.len() <= n
            &&& forall|i: int| 0 <= i < n - k ==> #[trigger] d.responses[i] == c.responses[i + k]
            &&& forall|i: int|
                0 <= i < k ==> ((#[trigger] sent[i]) matches Some(f) ==> f.header.stream_id
                    == c.responses[i].stream_id)
            &&& data_sum(sent) == c.peer_connection_window.available
                - d.peer_connection_window.available
            &&& d.peer_connection_window.available >= 0
        }),
    decreases e.len(),
{
    let n = c.responses.len();
    if e.len() > 0 {
        let q = e.drop_last();
        lemma_turns_rotate(c, quota, q);
        let (m, before) = turns(c, quota, q);
        let (d, f) = turn(m, quota, e.last());
        let k = q.len() as int;
        assert(m.responses[0] == c.responses[k]);
        law_sending_respects_windows(m, quota, e.last());
        law_turns_are_fair(m, quota, e.last());
        match turn_amount(m, quota) {
            Some(amount) => {
                lemma_chunk_fits(m.responses[0].body, amount, e.last());
            },
            None => {},
        }
        assert forall|i: int| 0 <= i < d.responses.len() implies body_wf(
            (#[trigger] d.responses[i]).body,
        ) by {
            if i + 1 < m.responses.len() {
                assert(d.responses[(i + 1) - 1] == m.responses[i + 1]);
            }
        }
        assert forall|i: int| 0 <= i < n - k - 1 implies #[trigger] d.responses[i] == c.responses[i
            + k + 1] by {
            assert(d.responses[(i + 1) - 1] == m.responses[i + 1]);
        }
        let sent = turns(c, quota, e).1;
        assert(sent.drop_last() =~= before);
        assert forall|i: int| k + 1 <= i < n implies stream_window(
            d.send_windows,
            (#[trigger] c.responses[i]).stream_id,
        ) == stream_window(c.send_windows, c.responses[i].stream_id) by {
            assert(c.responses[i].stream_id != c.responses[k].stream_id);
            lemma_turn_leaves_other_windows(m, quota, e.last(), c.responses[i].stream_id);
        }
        assert forall|i: int| 0 <= i < k + 1 && data_len(#[trigger] sent[i]) > 0 implies (
        stream_window(c.send_windows, c.responses[i].stream_id) matches Some(w) && data_len(
            sent[i],
        ) <= w) by {
            if i < k {
                assert(sent[i] == before[i]);
            }
        }
        assert forall|i: int| 0 <= i < k + 1 implies ((#[trigger] sent[i]) matches Some(x)
            ==> x.header.stream_id == c.responses[i].stream_id) by {
            if i < k {
                assert(sent[i] == before[i]);
            }
        }
    }
}

/// A round sends no more than the window of the connection had room for, and every
/// stream gets its turn once: each sends at most one frame, within the window that it had
/// before the round.
pub proof fn law_rounds_respect_the_connection_window(c: ConnView, e: Seq<ReadView>)
    requires
        responses_wf(c),
        distinct_responses(c.responses),
        round(c) matches Some((n, quota)) && e.len() <= n && events_fit(c, quota, e),
    ensures
        ({
            let sent = turns(c, round(c).unwrap().1, e).1;
            &&& data_sum(sent) <= c.peer_connection_window.available
            &&& forall|i: int|
                0 <= i < sent.len() && data_len(#[trigger] sent[i]) > 0 ==> (stream_window(
                    c.send_windows,
                    c.responses[i].stream_id,
                ) matches Some(w) && data_len(sent[i]) <= w)
            &&& forall|i: int|
                0 <= i < sent.len() ==> ((#[trigger] sent[i]) matches Some(f) ==> f.header.stream_id
                    == c.responses[i].stream_id)
            &&& forall|i: int, j: int|
                0 <= i < j < sent.len() && (#[trigger] sent[i]) is Some && (#[trigger] sent[j])
                    is Some ==> sent[i].unwrap().header.stream_id
                    != sent[j].unwrap().header.stream_id
        }),
{
    let quota = round(c).unwrap().1;
    lemma_turns_rotate(c, quota, e);
    let sent = turns(c, quota, e).1;
    assert forall|i: int, j: int|
        0 <= i < j < sent.len() && (#[trigger] sent[i]) is Some && (#[trigger] sent[j])
            is Some implies sent[i].unwrap().header.stream_id
        != sent[j].unwrap().header.stream_id by {
        assert(c.responses[i].stream_id != c.responses[j].stream_id);
    }
}

impl Http2Connection {
    /// The turns of a round and the share of each.
    pub fn begin_round(&self) -> (r: Option<(usize, usize)>)
        ensures
            match r {
                Some((n, quota)) => round(self@) == Some((n as nat, quota as int)) && quota >= 1,
                None => round(self@) is None,
            },
    {
        let n: usize = self.pending_responses.len();
        let window: i32 = self.peer_connection_window.available();
        if n == 0 || window <= 0 {
            return None;
        }
        let wide: usize = window as usize;
        let share: usize = wide / n;
        if share >= 1 {
            Some((n, share))
        } else {
            Some((n, 1))
        }
    }

    /// The stream whose turn it is, and how much it may send.
    pub fn turn_request(&self, quota: usize) -> (r: Option<(u32, usize)>)
        ensures
            match r {
                Some((id, amount)) => self@.responses.len() > 0 && id
                    == self@.responses[0].stream_id && turn_amount(self@, quota as int) == Some(
                    amount as int,
                ),
                None => self@.responses.len() == 0 || turn_amount(self@, quota as int) is None,
            },
    {
        if self.pending_responses.len() == 0 {
            return None;
        }
        assert(self@.responses[0] == self.pending_responses@[0]@);
        let id: u32 = self.pending_responses[0].stream_id;
        let k: usize = find_window(&self.send_stream_windows, id);
        if k >= self.send_stream_windows.len() {
            return None;
        }
        let window: i32 = self.send_stream_windows[k].1.available();
        let whole: i32 = self.peer_connection_window.available();
        if window <= 0 || whole <= 0 {
            return None;
        }
        let limit: u32 = if window <= whole {
            window as u32
        } else {
            whole as u32
        };
        let size: u32 = if limit <= self.peer_max_frame_size {
            limit
        } else {
            self.peer_max_frame_size
        };
        let amount: usize = if quota <= size as usize {
            quota
        } else {
            size as usize
        };
        Some((id, amount))
    }

    /// Whether a turn can be taken with what the source of the body at the front gave.
    pub fn turn_fits(&self, quota: usize, event: &ReadEvent) -> (b: bool)
        ensures
            b == can_turn(self@, quota as int, event@),
    {
        if self.pending_responses.len() == 0 {
            return true;
        }
        assert(self@.responses[0] == self.pending_responses@[0]@);
        let body = &self.pending_responses[0].body;
        match body {
            PendingBody::Bytes { data, offset } => *offset <= data.len(),
            _ => match (self.turn_request(quota), event) {
                (Some((_, amount)), ReadEvent::Bytes(x)) => x.len() <= body.bytes_wanted(amount),
                _ => true,
            },
        }
    }

    /// Takes one turn with what the source of the body at the front gave, and gives
    /// back the frame to send.
    pub fn take_turn(&mut self, quota: usize, event: ReadEvent) -> (r: Option<Frame>)
        requires
            can_turn(old(self)@, quota as int, event@),
        ensures
            final(self)@ == turn(old(self)@, quota as int, event@).0,
            match turn(old(self)@, quota as int, event@).1 {
                Some(v) => r matches Some(f) && f@ == v,
                None => r is None,
            },
            responses_wf(old(self)@) ==> responses_wf(final(self)@),
    {
        let ghost c = self@;
        if self.pending_responses.len() == 0 {
            return None;
        }
        assert(c.responses[0] == self.pending_responses@[0]@);
        let ask = self.turn_request(quota);
        let mut p = self.pending_responses.remove(0);
        assert(views(self.pending_responses@) =~= c.responses.subrange(
            1,
            c.responses.len() as int,
        ));
        assert(self@ =~= popped(c));
        let id: u32 = p.stream_id;
        let k: usize = find_window(&self.send_stream_windows, id);
        if k >= self.send_stream_windows.len() {
            return None;
        }
        let amount: usize = match ask {
            Some((_, a)) => a,
            None => {
                self.put_back(p, Ghost(c));
                return None;
            },
        };
        proof {
            lemma_chunk_fits(p.body@, amount as int, event@);
        }
        let read = match p.body.read_chunk(amount, event) {
            Ok(x) => x,
            Err(code) => {
                self.finish(id);
                return Some(reset_frame(id, code));
            },
        };
        let (data, done) = match read {
            BodyRead::Data(d, done) => (d, done),
            BodyRead::Pending => {
                self.put_back(p, Ghost(c));
                return None;
            },
            BodyRead::Done => (Vec::new(), true),
        };
        let n: usize = data.len();
        if n == 0 && !done {
            self.put_back(p, Ghost(c));
            return None;
        }
        if n == 0 {
            assert(data@ =~= Seq::<u8>::empty());
            self.finish(id);
            return Some(data_frame(id, data, true));
        }
        let _ = self.peer_connection_window.consume(n as u32);
        let mut w = self.send_stream_windows[k].1;
        let _ = w.consume(n as u32);
        self.send_stream_windows.set(k, (id, w));
        let ghost paid = charged(c, id, n as int);
        assert(self@ =~= popped(paid));
        if done {
            self.finish(id);
        } else {
            self.put_back(p, Ghost(paid));
        }
        Some(data_frame(id, data, done))
    }

    fn put_back(&mut self, p: PendingResponse, Ghost(c): Ghost<ConnView>)
        requires
            c.responses.len() > 0,
            old(self)@ == popped(c),
            p.stream_id == c.responses[0].stream_id,
            body_wf(p.body@),
        ensures
            final(self)@ == rotated(c, p.body@),
            responses_wf(c) ==> responses_wf(final(self)@),
    {
        let ghost v = p@;
        let ghost prev = views(self.pending_responses@);
        self.pending_responses.push(p);
        assert(views(self.pending_responses@) =~= prev.push(v));
        assert(self@ =~= rotated(c, p.body@));
    }
}

pub open spec fn continuation_view(id: u32, block: Seq<u8>, end_headers: bool) -> FrameView {
    FrameView {
        header: header_for(
            block.len() as u32,
            FrameType::Continuation,
            if end_headers {
                flags::END_HEADERS
            } else {
                0
            },
            id,
        ),
        payload: PayloadView::Continuation { header_block: block, end_headers },
    }
}

/// The continuation frames of the rest of a header block.
pub open spec fn continuation_views(id: u32, block: Seq<u8>, max: int) -> Seq<FrameView>
    decreases block.len(),
{
    if block.len() == 0 || max <= 0 {
        Seq::empty()
    } else {
        let n = smaller(block.len() as int, max);
        seq![continuation_view(id, block.subrange(0, n), n == block.len())]
            + continuation_views(id, block.subrange(n, block.len() as int), max)
    }
}

/// The flags of the first frame of a response.
pub open spec fn head_flags(end_headers: bool, end_stream: bool) -> u8 {
    if end_headers && end_stream {
        5
    } else if end_headers {
        flags::END_HEADERS
    } else if end_stream {
        flags::END_STREAM
    } else {
        0
    }
}

/// The frames of a response head: a header frame and as many continuations as the
/// frame size of the peer makes necessary.
pub open spec fn head_views(id: u32, block: Seq<u8>, has_body: bool, max: int) -> Seq<FrameView> {
    let n = smaller(block.len() as int, max);
    let all = n == block.len();
    seq![
        FrameView {
            header: header_for(n as u32, FrameType::Headers, head_flags(all, !has_body), id),
            payload: PayloadView::Headers {
                header_block: block.subrange(0, n),
                end_stream: !has_body,
                end_headers: all,
            },
        },
    ] + continuation_views(id, block.subrange(n, block.len() as int), max)
}

/// The header block that a sequence of frames carries.
pub open spec fn carried(f: Seq<FrameView>) -> Seq<u8>
    decreases f.len(),
{
    if f.len() == 0 {
        Seq::empty()
    } else {
        let first = match f[0].payload {
            PayloadView::Headers { header_block, .. } => header_block,
            PayloadView::Continuation { header_block, .. } => header_block,
            _ => Seq::empty(),
        };
        first + carried(f.subrange(1, f.len() as int))
    }
}

proof fn lemma_continuations_carry(id: u32, block: Seq<u8>, max: int)
    requires
        max > 0,
    ensures
        carried(continuation_views(id, block, max)) == block,
        forall|i: int|
            0 <= i < continuation_views(id, block, max).len() ==> ((
            #[trigger] continuation_views(id, block, max)[i]).payload matches
                PayloadView::Continuation { header_block, end_headers } && header_block.len() <= max
                && (end_headers <==> i == continuation_views(id, block, max).len() - 1)),
        block.len() > 0 ==> continuation_views(id, block, max).len() > 0,
    decreases block.len(),
{
    let f = continuation_views(id, block, max);
    if block.len() > 0 {
        let n = smaller(block.len() as int, max);
        let rest = block.subrange(n, block.len() as int);
        lemma_continuations_carry(id, rest, max);
        let g = continuation_views(id, rest, max);
        assert(f.subrange(1, f.len() as int) =~= g);
        assert(block.subrange(0, n) + rest =~= block);
        assert forall|i: int| 0 <= i < f.len() implies ((#[trigger] f[i]).payload matches
            PayloadView::Continuation { header_block, end_headers } && header_block.len() <= max
            && (end_headers <==> i == f.len() - 1)) by {
            if i > 0 {
                assert(f[i] == g[i - 1]);
            } else if rest.len() == 0 {
                assert(g.len() == 0);
            }
        }
    } else {
        assert(f =~= Seq::<FrameView>::empty());
        assert(carried(f) =~= block);
    }
}

/// The frames of a response head carry the whole header block in order, and none is
/// larger than the peer takes.
pub proof fn law_head_frames_carry_the_block(id: u32, block: Seq<u8>, has_body: bool, max: int)
    requires
        0 < max <= u32::MAX,
    ensures
        carried(head_views(id, block, has_body, max)) == block,
        forall|i: int|
            0 <= i < head_views(id, block, has_body, max).len() ==> {
                let f = #[trigger] head_views(id, block, has_body, max)[i];
                f.header.length <= max && f.header.length == carried(seq![f]).len()
                    && f.header.stream_id == id
            },
{
    let n = smaller(block.len() as int, max);
    let rest = block.subrange(n, block.len() as int);
    lemma_continuations_carry(id, rest, max);
    let f = head_views(id, block, has_body, max);
    let g = continuation_views(id, rest, max);
    assert(f.subrange(1, f.len() as int) =~= g);
    assert(block.subrange(0, n) + rest =~= block);
    assert forall|i: int| 0 <= i < f.len() implies (#[trigger] f[i]).header.length <= max
        && f[i].header.length == carried(seq![f[i]]).len() && f[i].header.stream_id == id by {
        let one = seq![f[i]];
        assert(one.subrange(1, 1) =~= Seq::<FrameView>::empty());
        assert(carried(Seq::<FrameView>::empty()) =~= Seq::<u8>::empty());
        lemma_continuations_fit(id, rest, max);
        if i > 0 {
            assert(f[i] == g[i - 1]);
        } else {
            assert(carried(one) =~= block.subrange(0, n));
        }
    }
}

proof fn lemma_continuations_fit(id: u32, block: Seq<u8>, max: int)
    requires
        0 < max <= u32::MAX,
    ensures
        forall|i: int|
            0 <= i < continuation_views(id, block, max).len() ==> {
                let f = #[trigger] continuation_views(id, block, max)[i];
                f.header.length <= max && f.header.length == carried(seq![f]).len()
                    && f.header.stream_id == id
            },
    decreases block.len(),
{
    let f = continuation_views(id, block, max);
    if block.len() > 0 {
        let n = smaller(block.len() as int, max);
        let rest = block.subrange(n, block.len() as int);
        lemma_continuations_fit(id, rest, max);
        let g = continuation_views(id, rest, max);
        assert forall|i: int| 0 <= i < f.len() implies (#[trigger] f[i]).header.length <= max
            && f[i].header.length == carried(seq![f[i]]).len() && f[i].header.stream_id == id by {
            if i > 0 {
                assert(f[i] == g[i - 1]);
            } else {
                let one = seq![f[0]];
                assert(one.subrange(1, 1) =~= Seq::<FrameView>::empty());
                assert(carried(Seq::<FrameView>::empty()) =~= Seq::<u8>::empty());
                assert(carried(one) =~= block.subrange(0, n));
            }
        }
    }
}

fn head_frames(id: u32, block: &[u8], has_body: bool, max: usize) -> (r: Vec<Frame>)
    requires
        max > 0,
    ensures
        views(r@) == head_views(id, block@, has_body, max as int),
{
    let n: usize = block.len();
    let first: usize = if n <= max {
        n
    } else {
        max
    };
    let all = first == n;
    let mut out: Vec<Frame> = Vec::new();
    out.push(
        Frame {
            header: FrameHeader {
                length: first as u32,
                frame_type: FrameType::Headers,
                flags: if all && !has_body {
                    5
                } else if all {
                    flags::END_HEADERS
                } else if !has_body {
                    flags::END_STREAM
                } else {
                    0
                },
                stream_id: id,
            },
            payload: FramePayload::Headers {
                header_block: part_bytes(block, 0, first),
                end_stream: !has_body,
                end_headers: all,
            },
        },
    );
    let ghost want = head_views(id, block@, has_body, max as int);
    let mut at: usize = first;
    assert(views(out@) + continuation_views(id, block@.subrange(at as int, n as int), max as int)
        =~= want);
    while at < n
        invariant
            max > 0,
            n == block@.len(),
            at <= n,
            views(out@) + continuation_views(
                id,
                block@.subrange(at as int, n as int),
                max as int,
            ) == want,
        decreases n - at,
    {
        let end: usize = if max <= n - at {
            at + max
        } else {
            n
        };
        let ghost rest = block@.subrange(at as int, n as int);
        let ghost before = views(out@);
        let last = end == n;
        let f = Frame {
            header: FrameHeader {
                length: (end - at) as u32,
                frame_type: FrameType::Continuation,
                flags: if last {
                    flags::END_HEADERS
                } else {
                    0
                },
                stream_id: id,
            },
            payload: FramePayload::Continuation {
                header_block: part_bytes(block, at, end),
                end_headers: last,
            },
        };
        proof {
            assert(rest.subrange(0, end - at) =~= block@.subrange(at as int, end as int));
            assert(rest.subrange(end - at, rest.len() as int) =~= block@.subrange(
                end as int,
                n as int,
            ));
        }
        let ghost v = f@;
        out.push(f);
        proof {
            assert(v =~= continuation_view(id, rest.subrange(0, end - at), last));
            assert(views(out@) =~= before.push(v));
            let tail = continuation_views(id, block@.subrange(end as int, n as int), max as int);
            assert(before.push(v) + tail =~= before + (seq![v] + tail));
        }
        at = end;
    }
    assert(block@.subrange(at as int, n as int) =~= Seq::<u8>::empty());
    assert(views(out@) =~= want);
    out
}

/// The body that is sent with a response: the one that is given, else its own.
pub open spec fn body_to_queue(r: ResponseView, given: Option<BodyView>) -> Option<BodyView> {
    match given {
        Some(b) => Some(b),
        None => pending_body_of(r.body_source),
    }
}

/// The connection after a response head went out.
pub open spec fn queued(c: ConnView, id: u32, body: Option<BodyView>) -> ConnView {
    match body {
        None => finish_stream(c, id),
        Some(b) => ConnView {
            responses: c.responses.push(PendingView { stream_id: id, body: b }),
            ..c
        },
    }
}

pub open spec fn opt_body(b: Option<PendingBody>) -> Option<BodyView> {
    match b {
        Some(x) => Some(x@),
        None => None,
    }
}

impl Http2Connection {
    fn queue_block(&mut self, stream_id: u32, block: &[u8], body: Option<PendingBody>) -> (r: Vec<
        Frame,
    >)
        requires
            old(self)@.peer_max_frame_size > 0,
        ensures
            views(r@) == head_views(
                stream_id,
                block@,
                body is Some,
                old(self)@.peer_max_frame_size as int,
            ),
            final(self)@ == queued(old(self)@, stream_id, opt_body(body)),
            responses_wf(old(self)@) && (body matches Some(b) ==> body_wf(b@)) ==> responses_wf(
                final(self)@,
            ),
    {
        let out = head_frames(stream_id, block, body.is_some(), self.peer_max_frame_size as usize);
        match body {
            None => {
                self.finish(stream_id);
            },
            Some(b) => {
                let ghost prev = views(self.pending_responses@);
                let p = PendingResponse { stream_id, body: b };
                let ghost v = p@;
                self.pending_responses.push(p);
                assert(views(self.pending_responses@) =~= prev.push(v));
            },
        }
        out
    }

    /// Sends the head of a response and queues its body: the one that is given, else
    /// that of the response.
    pub fn queue_h2_stream_response(
        &mut self,
        stream_id: u32,
        resp: &HttpResponse,
        dynamic_body: Option<PendingBody>,
    ) -> (r: Vec<Frame>)
        requires
            old(self)@.peer_max_frame_size > 0,
        ensures
            views(r@) == head_views(
                stream_id,
                block_bytes(stream_headers(resp@)),
                body_to_queue(resp@, opt_body(dynamic_body)) is Some,
                old(self)@.peer_max_frame_size as int,
            ),
            final(self)@ == queued(
                old(self)@,
                stream_id,
                body_to_queue(resp@, opt_body(dynamic_body)),
            ),
            responses_wf(old(self)@) && (dynamic_body matches Some(b) ==> body_wf(b@))
                ==> responses_wf(final(self)@),
    {
        let block = encode_headers(&h2_response_headers(resp));
        let body = match dynamic_body {
            Some(b) => Some(b),
            None => pending_body(resp),
        };
        self.queue_block(stream_id, block.as_slice(), body)
    }

    /// Sends the head of a response and queues its body.
    pub fn queue_h2_response(&mut self, stream_id: u32, resp: &HttpResponse) -> (r: Vec<Frame>)
        requires
            old(self)@.peer_max_frame_size > 0,
        ensures
            views(r@) == head_views(
                stream_id,
                block_bytes(stream_headers(resp@)),
                pending_body_of(resp@.body_source) is Some,
                old(self)@.peer_max_frame_size as int,
            ),
            final(self)@ == queued(old(self)@, stream_id, pending_body_of(resp@.body_source)),
            responses_wf(old(self)@) ==> responses_wf(final(self)@),
    {
        self.queue_h2_stream_response(stream_id, resp, None)
    }

    /// Gives up a stream whose upstream failed before its headers were complete.
    pub fn fail_waiting(&mut self, stream_id: u32) -> (f: Frame)
        ensures
            f@ == reset_view(stream_id, Http2ErrorCode::InternalError),
            final(self)@ == finish_stream(old(self)@, stream_id),
    {
        self.finish(stream_id);
        reset_frame(stream_id, Http2ErrorCode::InternalError)
    }
}

/// The body of a response as it waits to be sent; none where it is empty.
pub open spec fn pending_body_of(b: SourceView) -> Option<BodyView> {
    match b {
        SourceView::Bytes(data) => if data.len() == 0 {
            None
        } else {
            Some(BodyView::Bytes { data, offset: 0 })
        },
        SourceView::File(size) => if size == 0 {
            None
        } else {
            Some(BodyView::File { left: size })
        },
        SourceView::FileRange(_, length) => if length == 0 {
            None
        } else {
            Some(BodyView::File { left: length })
        },
        SourceView::GzipFile(size, _) => if size == 0 {
            None
        } else {
            Some(BodyView::Reader { remaining: None })
        },
    }
}

/// The body of a response as it waits to be sent.
pub fn pending_body(resp: &HttpResponse) -> (r: Option<PendingBody>)
    ensures
        opt_body(r) == pending_body_of(resp@.body_source),
        r matches Some(b) ==> body_wf(b@),
{
    match &resp.body_source {
        BodySource::Bytes(data) => if data.len() == 0 {
            None
        } else {
            Some(PendingBody::Bytes { data: part_bytes_all(data.as_slice()), offset: 0 })
        },
        BodySource::File(size) => if *size == 0 {
            None
        } else {
            Some(PendingBody::File { left: *size })
        },
        BodySource::FileRange(_, length) => if *length == 0 {
            None
        } else {
            Some(PendingBody::File { left: *length })
        },
        BodySource::GzipFile(size, _) => if *size == 0 {
            None
        } else {
            Some(PendingBody::Reader { remaining: None })
        },
    }
}

} // verus!
