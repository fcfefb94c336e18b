//! Bodies reach the client whole and in order.

use crate::bytes::{blank_line, sub_find};
use crate::laws::heads::line_of;
use crate::laws::replies::{
    law_heads_carry_the_response, law_script_heads_read_back, lemma_reply_bytes, passes,
    reply_bytes, script_sets,
};
use crate::laws::texts::{one_line, unspaced};
use crate::server::fastcgi::{client_head, on_end, on_stdout, StreamingView};
use crate::server::gzip::Gzip;
use crate::server::http2::connection::{window_at, ConnView};
use crate::server::http2::frame::PayloadView;
use crate::server::http2::schedule::{turn, turn_amount, BodyView, PendingView, ReadView};
use crate::server::proxy_head::captured_response;
use crate::server::record::CgiHeadView;
use crate::server::response::{bare_response, has_header, ResponseView, SourceView};
use crate::server::send::{first_bytes, on_file, sender_for, SenderView};
use crate::server::gzip::Feed;
use crate::text::decimal;
use flate2::read::GzEncoder;
use vstd::prelude::*;
use vstd::utf8::encode_utf8;

verus! {

/// A turn of a response in memory sends the next bytes of its body, as many as it may, in
/// one frame of its stream. The frame ends the stream exactly where nothing is left; else
/// the rest waits behind the other responses. What was sent is taken off both windows.
pub proof fn law_turns_send_the_next_bytes(
    c: ConnView,
    quota: int,
    e: ReadView,
    data: Seq<u8>,
    offset: usize,
)
    requires
        c.responses.len() > 0,
        c.responses[0].body == (BodyView::Bytes { data, offset }),
        offset < data.len() <= usize::MAX,
        turn_amount(c, quota) matches Some(amount) && amount > 0,
        0 <= window_at(c.send_windows, c.responses[0].stream_id) < c.send_windows.len(),
    ensures
        ({
            let id = c.responses[0].stream_id;
            let k = window_at(c.send_windows, id);
            let amount = turn_amount(c, quota).unwrap();
            let n = if amount < data.len() - offset {
                amount
            } else {
                data.len() - offset
            };
            let rest = c.responses.subrange(1, c.responses.len() as int);
            let (d, sent) = turn(c, quota, e);
            &&& sent matches Some(f) && f.header.stream_id == id && f.payload
                == (PayloadView::Data {
                data: data.subrange(offset as int, offset + n),
                end_stream: offset + n == data.len(),
            })
            &&& d.responses == (if offset + n == data.len() {
                rest
            } else {
                rest.push(
                    PendingView {
                        stream_id: id,
                        body: BodyView::Bytes { data, offset: (offset + n) as usize },
                    },
                )
            })
            &&& d.peer_connection_window.available == c.peer_connection_window.available - n
            &&& offset + n < data.len() ==> d.send_windows[k].1.available
                == c.send_windows[k].1.available - n
        }),
{
    let id = c.responses[0].stream_id;
    let k = window_at(c.send_windows, id);
    let amount = turn_amount(c, quota).unwrap();
    assert(amount <= c.peer_connection_window.available);
    assert(amount <= c.send_windows[k].1.available);
}

/// A script's response reaches the client with its status, its headers and the part of the
/// body that came with them; what comes later is passed on as it is, and the end adds
/// nothing where the announced length has come.
pub proof fn law_script_output_reaches_the_client(
    s: StreamingView,
    status: u16,
    reason: Seq<char>,
    h: Seq<(Seq<char>, Seq<char>)>,
    n: u64,
    body: Seq<u8>,
    later: Seq<u8>,
    end: Seq<u8>,
    fresh: Gzip,
)
    requires
        !s.sent,
        s.stdout.len() == 0,
        !s.head,
        !s.accept_gzip,
        100 <= status <= 599,
        unspaced(reason),
        reason.len() > 0,
        crate::config::scan::header_value_ok(reason),
        script_sets(h, n),
        has_header(h, "Content-Length"@) ==> body.len() + later.len() == n,
        body.len() + later.len() <= u64::MAX,
        reply_bytes(
            line_of(("Status"@, decimal(status as nat) + seq![' '] + reason)),
            h,
            body,
        ).len() <= s.max_headers,
        end.len() == 8,
    ensures
        ({
            let first = line_of(("Status"@, decimal(status as nat) + seq![' '] + reason));
            let r = on_stdout(s, reply_bytes(first, h, body), fresh);
            let head = CgiHeadView {
                status,
                headers: h,
                content_length: if has_header(h, "Content-Length"@) {
                    Some(n)
                } else {
                    None
                },
            };
            let q = on_stdout(r.state, later, fresh);
            let z = on_end(q.state, end);
            &&& r.output == encode_utf8(client_head(head, false)) + body
            &&& r.progress is More
            &&& q.output == later
            &&& q.progress is More
            &&& z.output.len() == 0
            &&& z.progress is Done
        }),
{
    let p = ("Status"@, decimal(status as nat) + seq![' '] + reason);
    let first = line_of(p);
    let none = Seq::<u8>::empty();
    let w = reply_bytes(first, h, body);
    let v = reply_bytes(first, h, none);
    reveal_strlit("Status");
    crate::laws::texts::lemma_decimal_is_digits(status as nat);
    assert(crate::server::upstream::header_ok(p.0, p.1)) by {
        let x = p.1;
        let d = decimal(status as nat);
        assert forall|i: int| 0 <= i < x.len() implies #[trigger] x[i] != '\r' && x[i] != '\n'
            && x[i] != '\0' by {
            if i < d.len() {
                assert(x[i] == d[i]);
                assert(crate::text::is_digit(d[i]));
            } else if i > d.len() {
                assert(x[i] == reason[i - d.len() - 1]);
            }
        }
    }
    crate::laws::heads::lemma_header_line(p);
    law_script_heads_read_back(status, reason, h, n);
    lemma_reply_bytes(first, h, body);
    lemma_reply_bytes(first, h, none);
    assert(w =~= v + body);
    let at = sub_find(w, blank_line(), 0);
    assert(w.subrange(at + 4, w.len() as int) == body);
    assert(w.len() == v.len() + body.len());
    assert(w.subrange(0, at + 4) =~= v);
    assert(s.stdout + w =~= w);
    let r = on_stdout(s, w, fresh);
    assert(none + later =~= later);
}

/// A whole file is passed on as it is read.
pub proof fn law_files_are_passed_on(s: SenderView, data: Seq<u8>)
    requires
        s.phase is Whole,
        s.gzip is None,
    ensures
        data.len() > 0 ==> on_file(s, data).output == data && on_file(s, data).state == s && on_file(
            s,
            data,
        ).progress is More,
        data.len() == 0 ==> on_file(s, data).output.len() == 0 && on_file(s, data).progress is Done
            && on_file(s, data).state.phase is Nothing,
{
}

/// An answer in memory is sent whole behind its head: a client that reads it gets its
/// status, its headers and its body.
pub proof fn law_answers_in_memory_are_sent_whole(r: ResponseView, body: Seq<u8>)
    requires
        r.body_source == SourceView::Bytes(body),
        body.len() <= u64::MAX,
        passes(r.headers, body.len() as u64),
        one_line(r.status.phrase()),
    ensures
        captured_response(first_bytes(r)) matches Ok(q) && q.status == r.status && q.headers
            == bare_response(r.status).headers + r.headers && q.body_source == SourceView::Bytes(
            body,
        ),
{
    law_heads_carry_the_response(r, body.len() as u64, body);
}

/// What follows the head is the file, the part of it that was announced, or nothing. A part
/// is sent in full, and what the file has beyond it is not sent.
pub proof fn law_senders_send_what_was_announced(
    r: ResponseView,
    data: Seq<u8>,
    fresh: GzEncoder<Feed>,
)
    ensures
        ({
            let s = sender_for(r, fresh);
            let f = on_file(s, data);
            &&& r.body_source is Bytes ==> f.output.len() == 0 && f.progress is Done
            &&& r.body_source is File && data.len() > 0 ==> f.output == data && f.progress is More
                && f.state == s
            &&& r.body_source is File && data.len() == 0 ==> f.progress is Done
            &&& r.body_source matches SourceView::FileRange(_, n) ==> {
                &&& n == 0 ==> f.output.len() == 0 && f.progress is Done
                &&& 0 < n <= data.len() ==> f.output == data.subrange(0, n as int)
                    && f.progress is Done
                &&& 0 < data.len() < n ==> f.output == data && f.progress is More
                &&& n > 0 && data.len() == 0 ==> f.progress is Failed
            }
        }),
{
    assert(data.subrange(0, data.len() as int) =~= data);
}

} // verus!
