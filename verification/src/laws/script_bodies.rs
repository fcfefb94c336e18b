//! How the output of a responder is put together from its records.

use crate::bytes::{blank_line, lemma_sub_find, sub_find};
use crate::server::cgi_reader::{
    advanced, on_head_bytes, polled, read_piece, AwaitingView, PieceView, ReaderView,
};
use crate::server::fault::FaultView;
use crate::server::record::{law_records_read_back, record_bytes, END_REQUEST, MAX_RECORD, STDOUT};
use vstd::prelude::*;

verus! {

/// Output that has come in a record is read as it was written, a part at a time where it is
/// too long, and what follows the record stays.
pub proof fn law_records_are_read_as_output(
    r: ReaderView,
    data: Seq<u8>,
    rest: Seq<u8>,
    max: int,
)
    requires
        r.wire == record_bytes(STDOUT, data) + rest,
        r.ready.len() == 0,
        !r.done,
        0 < data.len() <= MAX_RECORD,
        r.body_bytes + data.len() <= u64::MAX,
        r.content_length matches Some(n) ==> r.body_bytes + data.len() <= n,
        max > 0,
    ensures
        match read_piece(r, max) {
            Ok((n, PieceView::Bytes(b))) => {
                &&& b + n.ready == data
                &&& b.len() == (if data.len() <= max {
                    data.len() as int
                } else {
                    max
                })
                &&& n.wire == rest
                &&& !n.done
                &&& n.body_bytes == r.body_bytes + data.len()
                &&& n.content_length == r.content_length
            },
            _ => false,
        },
{
    law_records_read_back(STDOUT, data, rest);
    let total = record_bytes(STDOUT, data).len() as int;
    assert(r.wire.subrange(total, r.wire.len() as int) =~= rest);
    assert(r.ready + data =~= data);
    let n = ReaderView {
        wire: rest,
        ready: data,
        body_bytes: (r.body_bytes + data.len()) as u64,
        ..r
    };
    assert(advanced(n) == Ok::<_, FaultView>(n));
    let k = if data.len() <= max {
        data.len() as int
    } else {
        max
    };
    assert(data.subrange(0, k) + data.subrange(k, data.len() as int) =~= data);
}

/// What waits to be read is read before any further record, in its order.
pub proof fn law_waiting_output_is_read_first(r: ReaderView, max: int)
    requires
        r.ready.len() > 0,
        max > 0,
    ensures
        match read_piece(r, max) {
            Ok((n, PieceView::Bytes(b))) => b + n.ready == r.ready && 0 < b.len() <= max && n.wire
                == r.wire,
            _ => false,
        },
{
    let k = if r.ready.len() <= max {
        r.ready.len() as int
    } else {
        max
    };
    assert(r.ready.subrange(0, k) + r.ready.subrange(k, r.ready.len() as int) =~= r.ready);
}

/// The output ends with the record that says so, where as much has come as was announced;
/// else the responder failed. Until that record has come there is more to wait for.
pub proof fn law_output_ends_when_the_responder_says(r: ReaderView, end: Seq<u8>, rest: Seq<u8>, max: int)
    requires
        r.ready.len() == 0,
        !r.done,
        end.len() == 8,
    ensures
        r.wire == record_bytes(END_REQUEST, end) + rest ==> (if r.content_length is Some
            && r.content_length != Some(r.body_bytes) {
            read_piece(r, max) is Err
        } else {
            read_piece(r, max) matches Ok((n, PieceView::End)) && n.done && n.wire == rest
        }),
        r.wire.len() < 8 ==> read_piece(r, max) == Ok::<_, FaultView>((r, PieceView::NeedMore)),
{
    if r.wire == record_bytes(END_REQUEST, end) + rest {
        law_records_read_back(END_REQUEST, end, rest);
        let total = record_bytes(END_REQUEST, end).len() as int;
        assert(r.wire.subrange(total, r.wire.len() as int) =~= rest);
        let n = ReaderView { wire: rest, done: true, ..r };
        assert(advanced(n) == Ok::<_, FaultView>(n));
    }
}

/// Nothing of what a responder says before its body is lost: it is kept until the head is
/// complete, and what comes behind the head is the beginning of the body.
pub proof fn law_heads_are_put_together(p: AwaitingView, data: Seq<u8>)
    ensures
        match on_head_bytes(p, data) {
            Ok((n, None)) => n.header_bytes == p.header_bytes + data && n.reader == p.reader,
            Ok((n, Some(_))) => exists|head: Seq<u8>, body: Seq<u8>|
                {
                    &&& p.header_bytes + data == #[trigger] (head + body)
                    &&& n.reader.ready == p.reader.ready + body
                    &&& n.reader.body_bytes == body.len() as u64
                    &&& head.len() >= 4
                    &&& head.subrange(head.len() - 4, head.len() as int) == seq![13u8, 10, 13, 10]
                },
            Err(_) => true,
        },
        (p.header_bytes + data).len() > p.max_headers ==> on_head_bytes(p, data) is Err,
{
    let all = p.header_bytes + data;
    let end = sub_find(all, blank_line(), 0);
    lemma_sub_find(all, blank_line(), 0);
    if on_head_bytes(p, data) matches Ok((n, Some(_))) {
        let head = all.subrange(0, end + 4);
        let body = all.subrange(end + 4, all.len() as int);
        assert(all =~= head + body);
        assert(head.subrange(head.len() - 4, head.len() as int) =~= all.subrange(end, end + 4));
    }
}

/// A responder that ends before its head is complete failed.
pub proof fn law_responders_say_a_head(p: AwaitingView, end: Seq<u8>, rest: Seq<u8>)
    requires
        end.len() <= MAX_RECORD,
        p.reader.wire == record_bytes(END_REQUEST, end) + rest,
    ensures
        polled(p) is Err,
{
    law_records_read_back(END_REQUEST, end, rest);
}

} // verus!
