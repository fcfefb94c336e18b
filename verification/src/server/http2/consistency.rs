//! What holds of a connection from its first frame to its last.

use crate::server::http2::connection::{
    conn_wf, distinct_streams, drop_waiting, finish_stream,
    law_frames_keep_connection_well_formed, lemma_first_index, lemma_ids_kept,
    lemma_window_dropped, on_frame, peer_settings, stream_at, stream_ids, window_at, window_ids,
    ConnView, DecodedView, WaitingResponse,
};
use crate::server::http2::frame::{FrameView, PayloadView, SettingId};
use crate::server::http2::schedule::{
    body_wf, charged, chunk, distinct_responses, drop_responses, event_fits_turn,
    lemma_chunk_fits, popped, queued, responses_wf, rotated, turn, turn_amount, BodyView,
    ChunkView, PendingView, ReadView,
};
use crate::server::http2::stream::StreamView;
use vstd::prelude::*;

verus! {

/// A stream that was opened and is not being received any more.
pub open spec fn settled(c: ConnView, id: u32) -> bool {
    id <= c.last_stream_id && forall|i: int|
        0 <= i < c.streams.len() ==> (#[trigger] c.streams[i]).id != id
}

/// A settled stream that has no response yet and waits for none.
pub open spec fn unanswered(c: ConnView, id: u32) -> bool {
    &&& settled(c, id)
    &&& forall|i: int|
        0 <= i < c.responses.len() ==> (#[trigger] c.responses[i]).stream_id != id
    &&& forall|i: int| 0 <= i < c.waiting.len() ==> (#[trigger] c.waiting[i]).stream_id != id
}

/// No stream waits twice.
pub open spec fn distinct_waiting(w: Seq<WaitingResponse>) -> bool {
    forall|i: int, j: int|
        0 <= i < w.len() && 0 <= j < w.len() && (#[trigger] w[i]).stream_id == (
        #[trigger] w[j]).stream_id ==> i == j
}

/// Every stream has at most one answer: a response in the queue, or one that it waits
/// for.
pub open spec fn distinct_answers(c: ConnView) -> bool {
    &&& distinct_responses(c.responses)
    &&& distinct_waiting(c.waiting)
    &&& forall|i: int, j: int|
        0 <= i < c.responses.len() && 0 <= j < c.waiting.len() ==> (#[trigger] c.responses[i])
            .stream_id != (#[trigger] c.waiting[j]).stream_id
}

/// The state of a connection is consistent: streams are told apart by their numbers,
/// none is beyond the last one opened, and a response waits or is sent only on a
/// stream whose request is complete, one on each.
pub open spec fn consistent(c: ConnView) -> bool {
    &&& conn_wf(c)
    &&& distinct_streams(c)
    &&& responses_wf(c)
    &&& distinct_answers(c)
    &&& forall|i: int|
        0 <= i < c.streams.len() ==> (#[trigger] c.streams[i]).id <= c.last_stream_id
    &&& forall|i: int|
        0 <= i < c.responses.len() ==> settled(c, (#[trigger] c.responses[i]).stream_id)
    &&& forall|i: int|
        0 <= i < c.waiting.len() ==> settled(c, (#[trigger] c.waiting[i]).stream_id)
}

/// The streams of `d` are streams of `c` or newer ones.
spec fn follows(c: ConnView, d: ConnView) -> bool {
    &&& d.last_stream_id >= c.last_stream_id
    &&& forall|i: int|
        0 <= i < d.streams.len() ==> (#[trigger] d.streams[i]).id > c.last_stream_id
            || has_stream(c, d.streams[i].id)
}

spec fn has_stream(c: ConnView, id: u32) -> bool {
    exists|j: int| 0 <= j < c.streams.len() && (#[trigger] c.streams[j]).id == id
}

proof fn lemma_stays_settled(c: ConnView, d: ConnView, id: u32)
    requires
        settled(c, id),
        follows(c, d),
    ensures
        settled(d, id),
{
    assert forall|i: int| 0 <= i < d.streams.len() implies (#[trigger] d.streams[i]).id != id by {
        if d.streams[i].id <= c.last_stream_id {
            assert(has_stream(c, d.streams[i].id));
        }
    }
}

proof fn lemma_dropped_responses(r: Seq<PendingView>, id: u32)
    ensures
        distinct_responses(r) ==> distinct_responses(drop_responses(r, id)),
        forall|i: int|
            0 <= i < drop_responses(r, id).len() ==> r.contains(
                #[trigger] drop_responses(r, id)[i],
            ),
    decreases r.len(),
{
    if r.len() > 0 {
        let q = r.drop_last();
        lemma_dropped_responses(q, id);
        let d = drop_responses(r, id);
        assert forall|i: int| 0 <= i < d.len() implies r.contains(#[trigger] d[i]) by {
            if i < drop_responses(q, id).len() {
                assert(d[i] == drop_responses(q, id)[i]);
                let j = choose|j: int| 0 <= j < q.len() && q[j] == d[i];
                assert(r[j] == d[i]);
            } else {
                assert(r[r.len() - 1] == d[i]);
            }
        }
        if distinct_responses(r) {
            assert forall|i: int, j: int|
                0 <= i < q.len() && 0 <= j < q.len() && (#[trigger] q[i]).stream_id == (
                #[trigger] q[j]).stream_id implies i == j by {
                assert(r[i] == q[i] && r[j] == q[j]);
            }
            let s = drop_responses(q, id);
            assert forall|i: int| 0 <= i < s.len() implies (#[trigger] s[i]).stream_id
                != r.last().stream_id by {
                let j = choose|j: int| 0 <= j < q.len() && q[j] == s[i];
                assert(r[j] == s[i]);
                assert(r[r.len() - 1] == r.last());
            }
        }
    }
}

proof fn lemma_dropped_waiting(w: Seq<WaitingResponse>, id: u32)
    ensures
        distinct_waiting(w) ==> distinct_waiting(drop_waiting(w, id)),
        forall|i: int|
            0 <= i < drop_waiting(w, id).len() ==> w.contains(#[trigger] drop_waiting(w, id)[i]),
    decreases w.len(),
{
    if w.len() > 0 {
        let q = w.drop_last();
        lemma_dropped_waiting(q, id);
        let d = drop_waiting(w, id);
        assert forall|i: int| 0 <= i < d.len() implies w.contains(#[trigger] d[i]) by {
            if i < drop_waiting(q, id).len() {
                assert(d[i] == drop_waiting(q, id)[i]);
                let j = choose|j: int| 0 <= j < q.len() && q[j] == d[i];
                assert(w[j] == d[i]);
            } else {
                assert(w[w.len() - 1] == d[i]);
            }
        }
        if distinct_waiting(w) {
            assert forall|i: int, j: int|
                0 <= i < q.len() && 0 <= j < q.len() && (#[trigger] q[i]).stream_id == (
                #[trigger] q[j]).stream_id implies i == j by {
                assert(w[i] == q[i] && w[j] == q[j]);
            }
            let s = drop_waiting(q, id);
            assert forall|i: int| 0 <= i < s.len() implies (#[trigger] s[i]).stream_id
                != w.last().stream_id by {
                let j = choose|j: int| 0 <= j < q.len() && q[j] == s[i];
                assert(w[j] == s[i]);
                assert(w[w.len() - 1] == w.last());
            }
        }
    }
}

proof fn lemma_settings_keep_numbers(c: ConnView, s: Seq<(SettingId, u32)>)
    ensures
        peer_settings(c, s) matches Ok(d) ==> {
            &&& d.last_stream_id == c.last_stream_id
            &&& d.responses == c.responses
            &&& d.waiting == c.waiting
            &&& d.streams.len() == c.streams.len()
            &&& forall|i: int|
                0 <= i < c.streams.len() ==> (#[trigger] d.streams[i]).id == c.streams[i].id
        },
    decreases s.len(),
{
    if s.len() > 0 {
        lemma_settings_keep_numbers(c, s.drop_last());
        match peer_settings(c, s.drop_last()) {
            Err(_) => {},
            Ok(e) => {
                match peer_settings(c, s) {
                    Err(_) => {},
                    Ok(d) => {
                        assert(d.streams.len() == e.streams.len());
                        assert forall|i: int| 0 <= i < c.streams.len() implies (
                        #[trigger] d.streams[i]).id == c.streams[i].id by {
                            assert(d.streams[i].id == e.streams[i].id);
                        }
                    },
                }
            },
        }
    }
}

/// What responses and waiting streams `d` has are those of `c`, on streams that stay
/// settled.
proof fn lemma_answers_stay(c: ConnView, d: ConnView)
    requires
        consistent(c),
        follows(c, d),
        forall|i: int|
            0 <= i < d.responses.len() ==> c.responses.contains(#[trigger] d.responses[i]),
        forall|i: int| 0 <= i < d.waiting.len() ==> c.waiting.contains(#[trigger] d.waiting[i]),
        distinct_responses(d.responses),
        distinct_waiting(d.waiting),
    ensures
        responses_wf(d),
        distinct_answers(d),
        forall|i: int|
            0 <= i < d.responses.len() ==> settled(d, (#[trigger] d.responses[i]).stream_id),
        forall|i: int|
            0 <= i < d.waiting.len() ==> settled(d, (#[trigger] d.waiting[i]).stream_id),
{
    assert forall|i: int| 0 <= i < d.responses.len() implies body_wf(
        (#[trigger] d.responses[i]).body,
    ) && settled(d, d.responses[i].stream_id) by {
        let j = choose|j: int| 0 <= j < c.responses.len() && c.responses[j] == d.responses[i];
        assert(c.responses.contains(d.responses[i]));
        assert(settled(c, c.responses[j].stream_id));
        lemma_stays_settled(c, d, d.responses[i].stream_id);
    }
    assert forall|i: int| 0 <= i < d.waiting.len() implies settled(
        d,
        (#[trigger] d.waiting[i]).stream_id,
    ) by {
        let j = choose|j: int| 0 <= j < c.waiting.len() && c.waiting[j] == d.waiting[i];
        assert(c.waiting.contains(d.waiting[i]));
        assert(settled(c, c.waiting[j].stream_id));
        lemma_stays_settled(c, d, d.waiting[i].stream_id);
    }
    assert forall|i: int, j: int|
        0 <= i < d.responses.len() && 0 <= j < d.waiting.len() implies (
    #[trigger] d.responses[i]).stream_id != (#[trigger] d.waiting[j]).stream_id by {
        assert(c.responses.contains(d.responses[i]));
        assert(c.waiting.contains(d.waiting[j]));
    }
}

/// One stream less: the others keep their order.
proof fn lemma_stream_removed(c: ConnView, d: ConnView, k: int)
    requires
        consistent(c),
        0 <= k < c.streams.len(),
        d.streams == c.streams.remove(k),
        d.last_stream_id == c.last_stream_id,
    ensures
        follows(c, d),
        distinct_streams(d),
        settled(d, c.streams[k].id),
        forall|i: int|
            0 <= i < d.streams.len() ==> (#[trigger] d.streams[i]).id <= d.last_stream_id,
{
    assert forall|i: int| 0 <= i < d.streams.len() implies has_stream(
        c,
        (#[trigger] d.streams[i]).id,
    ) && d.streams[i].id != c.streams[k].id && d.streams[i].id <= d.last_stream_id by {
        let j = if i < k {
            i
        } else {
            i + 1
        };
        assert(d.streams[i] == c.streams[j]);
    }
    assert forall|i: int, j: int|
        0 <= i < d.streams.len() && 0 <= j < d.streams.len() && (#[trigger] d.streams[i]).id == (
        #[trigger] d.streams[j]).id implies i == j by {
        let a = if i < k {
            i
        } else {
            i + 1
        };
        let b = if j < k {
            j
        } else {
            j + 1
        };
        assert(d.streams[i] == c.streams[a]);
        assert(d.streams[j] == c.streams[b]);
    }
}

/// The same streams, whatever else changed of them.
proof fn lemma_streams_same(c: ConnView, d: ConnView)
    requires
        consistent(c),
        d.streams.len() == c.streams.len(),
        forall|i: int|
            0 <= i < c.streams.len() ==> (#[trigger] d.streams[i]).id == c.streams[i].id,
        d.last_stream_id >= c.last_stream_id,
    ensures
        follows(c, d),
        distinct_streams(d),
        forall|i: int|
            0 <= i < d.streams.len() ==> (#[trigger] d.streams[i]).id <= d.last_stream_id,
{
    assert forall|i: int| 0 <= i < d.streams.len() implies has_stream(
        c,
        (#[trigger] d.streams[i]).id,
    ) by {
        assert(c.streams[i].id == d.streams[i].id);
    }
    assert forall|i: int, j: int|
        0 <= i < d.streams.len() && 0 <= j < d.streams.len() && (#[trigger] d.streams[i]).id == (
        #[trigger] d.streams[j]).id implies i == j by {
        assert(c.streams[i].id == c.streams[j].id);
    }
}

/// A new stream beyond all others.
proof fn lemma_stream_added(c: ConnView, d: ConnView, s: StreamView)
    requires
        consistent(c),
        d.streams == c.streams.push(s),
        s.id > c.last_stream_id,
        d.last_stream_id == s.id,
    ensures
        follows(c, d),
        distinct_streams(d),
        forall|i: int|
            0 <= i < d.streams.len() ==> (#[trigger] d.streams[i]).id <= d.last_stream_id,
{
    let n = c.streams.len() as int;
    assert forall|i: int| 0 <= i < n implies has_stream(c, (#[trigger] d.streams[i]).id)
        && d.streams[i].id <= c.last_stream_id by {
        assert(c.streams[i].id == d.streams[i].id);
    }
    assert forall|i: int, j: int|
        0 <= i < d.streams.len() && 0 <= j < d.streams.len() && (#[trigger] d.streams[i]).id == (
        #[trigger] d.streams[j]).id implies i == j by {
        if i < n && j < n {
            assert(c.streams[i].id == c.streams[j].id);
        }
    }
}

/// Whatever frame the client sends, a connection that it does not end stays
/// consistent, and a stream whose request the frame completed has no answer yet: its
/// response can be queued or awaited.
#[verifier::rlimit(40)]
#[verifier::spinoff_prover]
pub proof fn law_frames_keep_the_connection_consistent(
    c: ConnView,
    f: FrameView,
    decoded: DecodedView,
)
    requires
        consistent(c),
    ensures
        on_frame(c, f, decoded).outcome matches Ok((d, done)) ==> consistent(d) && (
        done matches Some(s) ==> unanswered(d, s.id)),
{
    law_frames_keep_connection_well_formed(c, f, decoded);
    let id = f.header.stream_id;
    let k = stream_at(c.streams, id);
    lemma_first_index(stream_ids(c.streams), id);
    match on_frame(c, f, decoded).outcome {
        Err(_) => {},
        Ok((d, done)) => {
            if k < c.streams.len() {
                assert(stream_ids(c.streams)[k] == c.streams[k].id);
            }
            match f.payload {
                PayloadView::Settings { settings, .. } => {
                    lemma_settings_keep_numbers(c, settings);
                    lemma_streams_same(c, d);
                },
                PayloadView::Headers { .. } => {
                    if d.streams.len() > c.streams.len() {
                        lemma_stream_added(c, d, d.streams.last());
                    } else {
                        lemma_streams_same(c, d);
                    }
                },
                PayloadView::RstStream { .. } => {
                    lemma_dropped_responses(c.responses, id);
                    lemma_dropped_waiting(c.waiting, id);
                    if k < c.streams.len() {
                        lemma_stream_removed(c, d, k);
                    } else {
                        lemma_streams_same(c, d);
                    }
                },
                _ => {
                    if d.streams.len() < c.streams.len() {
                        lemma_stream_removed(c, d, k);
                    } else {
                        lemma_streams_same(c, d);
                    }
                },
            }
            lemma_answers_stay(c, d);
        },
    }
}

/// Ending a settled stream keeps a connection consistent.
pub proof fn law_ending_streams_keeps_the_connection_consistent(c: ConnView, id: u32)
    requires
        consistent(c),
        settled(c, id),
    ensures
        consistent(finish_stream(c, id)),
{
    let d = finish_stream(c, id);
    lemma_first_index(window_ids(c.send_windows), id);
    assert forall|i: int| 0 <= i < d.streams.len() implies window_at(
        d.send_windows,
        (#[trigger] d.streams[i]).id,
    ) < d.send_windows.len() by {
        lemma_window_dropped(c.send_windows, id, c.streams[i].id);
    }
    lemma_streams_same(c, d);
    lemma_answers_stay(c, d);
}

/// Queueing a response on a stream without one keeps a connection consistent.
pub proof fn law_queueing_keeps_the_connection_consistent(
    c: ConnView,
    id: u32,
    body: Option<BodyView>,
)
    requires
        consistent(c),
        unanswered(c, id),
        body matches Some(b) ==> body_wf(b),
    ensures
        consistent(queued(c, id, body)),
{
    match body {
        None => {
            law_ending_streams_keeps_the_connection_consistent(c, id);
        },
        Some(b) => {
            let d = queued(c, id, body);
            assert forall|i: int| 0 <= i < d.responses.len() implies settled(
                d,
                (#[trigger] d.responses[i]).stream_id,
            ) by {
                if i < c.responses.len() {
                    assert(settled(c, c.responses[i].stream_id));
                }
            }
            assert forall|i: int| 0 <= i < d.waiting.len() implies settled(
                d,
                (#[trigger] d.waiting[i]).stream_id,
            ) by {
                assert(settled(c, c.waiting[i].stream_id));
            }
        },
    }
}

proof fn lemma_popped(c: ConnView)
    requires
        consistent(c),
        c.responses.len() > 0,
    ensures
        consistent(popped(c)),
        unanswered(popped(c), c.responses[0].stream_id),
{
    let d = popped(c);
    assert(settled(c, c.responses[0].stream_id));
    lemma_streams_same(c, d);
    assert forall|i: int| 0 <= i < d.responses.len() implies c.responses.contains(
        #[trigger] d.responses[i],
    ) by {
        assert(c.responses[i + 1] == d.responses[i]);
    }
    assert forall|i: int| 0 <= i < d.waiting.len() implies c.waiting.contains(
        #[trigger] d.waiting[i],
    ) by {
        assert(c.waiting[i] == d.waiting[i]);
    }
    lemma_answers_stay(c, d);
}

proof fn lemma_charged(c: ConnView, id: u32, n: int)
    requires
        consistent(c),
        window_at(c.send_windows, id) < c.send_windows.len(),
    ensures
        consistent(charged(c, id, n)),
        charged(c, id, n).responses == c.responses,
{
    let d = charged(c, id, n);
    lemma_first_index(window_ids(c.send_windows), id);
    assert(window_ids(d.send_windows) =~= window_ids(c.send_windows));
    lemma_streams_same(c, d);
    assert forall|i: int| 0 <= i < d.streams.len() implies window_at(
        d.send_windows,
        (#[trigger] d.streams[i]).id,
    ) < d.send_windows.len() by {
        lemma_ids_kept(d.send_windows, c.send_windows, c.streams[i].id);
    }
    assert forall|i: int| 0 <= i < d.responses.len() implies c.responses.contains(
        #[trigger] d.responses[i],
    ) by {
        assert(c.responses[i] == d.responses[i]);
    }
    assert forall|i: int| 0 <= i < d.waiting.len() implies c.waiting.contains(
        #[trigger] d.waiting[i],
    ) by {
        assert(c.waiting[i] == d.waiting[i]);
    }
    lemma_answers_stay(c, d);
}

proof fn lemma_rotated(c: ConnView, body: BodyView)
    requires
        consistent(c),
        c.responses.len() > 0,
        body_wf(body),
    ensures
        consistent(rotated(c, body)),
{
    lemma_popped(c);
    law_queueing_keeps_the_connection_consistent(
        popped(c),
        c.responses[0].stream_id,
        Some(body),
    );
    assert(queued(popped(c), c.responses[0].stream_id, Some(body)) == rotated(c, body));
}

/// A turn of sending keeps a connection consistent.
pub proof fn law_turns_keep_the_connection_consistent(c: ConnView, quota: int, e: ReadView)
    requires
        consistent(c),
        quota >= 0,
        event_fits_turn(c, quota, e),
    ensures
        consistent(turn(c, quota, e).0),
{
    if c.responses.len() > 0 {
        let p = c.responses[0];
        let id = p.stream_id;
        lemma_popped(c);
        law_ending_streams_keeps_the_connection_consistent(popped(c), id);
        if window_at(c.send_windows, id) < c.send_windows.len() {
            match turn_amount(c, quota) {
                None => {
                    lemma_rotated(c, p.body);
                },
                Some(amount) => {
                    lemma_chunk_fits(p.body, amount, e);
                    match chunk(p.body, amount, e) {
                        Err(_) => {},
                        Ok((ChunkView::Data(x, _), b)) => {
                            let n = x.len() as int;
                            lemma_charged(c, id, n);
                            lemma_popped(charged(c, id, n));
                            law_ending_streams_keeps_the_connection_consistent(
                                popped(charged(c, id, n)),
                                id,
                            );
                            lemma_rotated(c, b);
                            lemma_rotated(charged(c, id, n), b);
                        },
                        Ok((_, b)) => {
                            lemma_rotated(c, b);
                        },
                    }
                },
            }
        }
    }
}

/// Waiting for an upstream on a stream without an answer keeps a connection consistent,
/// and so does taking the first waiting stream, which has no answer after that.
pub proof fn law_waiting_keeps_the_connection_consistent(c: ConnView, w: WaitingResponse)
    requires
        consistent(c),
    ensures
        unanswered(c, w.stream_id) ==> consistent(
            (ConnView { waiting: c.waiting.push(w), ..c }),
        ),
        c.waiting.len() > 0 ==> ({
            let d = ConnView { waiting: c.waiting.subrange(1, c.waiting.len() as int), ..c };
            consistent(d) && unanswered(d, c.waiting[0].stream_id)
        }),
{
    let n = c.waiting.len() as int;
    if unanswered(c, w.stream_id) {
        let d = ConnView { waiting: c.waiting.push(w), ..c };
        lemma_streams_same(c, d);
        assert forall|i: int| 0 <= i < d.responses.len() implies settled(
            d,
            (#[trigger] d.responses[i]).stream_id,
        ) by {
            assert(settled(c, c.responses[i].stream_id));
        }
        assert forall|i: int| 0 <= i < d.waiting.len() implies settled(
            d,
            (#[trigger] d.waiting[i]).stream_id,
        ) by {
            if i < n {
                assert(settled(c, c.waiting[i].stream_id));
            }
        }
    }
    if n > 0 {
        assert(settled(c, c.waiting[0].stream_id));
        let d = ConnView { waiting: c.waiting.subrange(1, n), ..c };
        lemma_streams_same(c, d);
        assert forall|i: int| 0 <= i < d.waiting.len() implies c.waiting.contains(
            #[trigger] d.waiting[i],
        ) by {
            assert(c.waiting[i + 1] == d.waiting[i]);
        }
        lemma_answers_stay(c, d);
    }
}

} // verus!
