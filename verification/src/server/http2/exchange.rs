//! Frames and header blocks together: what is received and what is answered.

use crate::config::types::{pairs, views};
use crate::server::http2::connection::{
    completed_block, decoded_view, in_sequence, last_after, on_frame, outcome_is, ConnView,
    DecodedView, Effect, Http2Connection,
};
use crate::server::http2::frame::{Frame, FrameView, Http2ErrorCode, PayloadView};
use crate::server::http2::hpack::{
    block_bytes, block_headers, law_headers_read_back, lowered, short, table_cost, HpackDecoder,
    TableView, TABLE_LIMIT,
};
use crate::server::http2::stream::{client_stream, Stream};
use crate::text::lower;
use vstd::prelude::*;

verus! {

/// What a table makes of the block that a frame completes; no headers where it
/// completes none.
pub open spec fn headers_of_frame(c: ConnView, t: TableView, f: FrameView) -> DecodedView {
    match completed_block(c, f) {
        Some(b) => match block_headers(b, t) {
            Ok((h, _)) => Ok(h),
            Err(e) => Err(e),
        },
        None => Ok(Seq::empty()),
    }
}

/// The table after a frame.
pub open spec fn table_after(c: ConnView, t: TableView, f: FrameView) -> TableView {
    match completed_block(c, f) {
        Some(b) => match block_headers(b, t) {
            Ok((_, u)) => u,
            Err(_) => t,
        },
        None => t,
    }
}

/// The effect of a frame whose header block is read with the table.
pub open spec fn received(c: ConnView, t: TableView, f: FrameView) -> Effect {
    on_frame(c, f, headers_of_frame(c, t, f))
}

/// A block that cannot be read ends the connection, and the table stays as it was.
pub proof fn law_unreadable_blocks_end_the_connection(c: ConnView, t: TableView, f: FrameView)
    requires
        completed_block(c, f) matches Some(b) && block_headers(b, t) is Err,
    ensures
        received(c, t, f).outcome is Err,
        table_after(c, t, f) == t,
{
}

/// A request without a body, sent in one frame, has the headers that were written,
/// with their names in lower case.
pub proof fn law_requests_have_the_headers_that_were_sent(
    c: ConnView,
    t: TableView,
    f: FrameView,
    h: Seq<(Seq<char>, Seq<char>)>,
)
    requires
        f.payload == (PayloadView::Headers {
            header_block: block_bytes(h),
            end_stream: true,
            end_headers: true,
        }),
        in_sequence(c, f.header),
        client_stream(f.header.stream_id),
        f.header.stream_id > c.last_stream_id,
        c.send_windows.len() < c.max_concurrent_streams,
        forall|i: int| 0 <= i < h.len() ==> short(lower((#[trigger] h[i]).0)) && short(h[i].1),
        table_cost(lowered(h)) <= t.max_list,
    ensures
        received(c, t, f).outcome matches Ok((_, Some(s))) && s.request_headers == lowered(h)
            && s.id == f.header.stream_id && s.request_body.len() == 0,
        table_after(c, t, f) == t,
{
    law_headers_read_back(h, t);
    assert(Seq::<(Seq<char>, Seq<char>)>::empty() + lowered(h) =~= lowered(h));
}

impl Http2Connection {
    /// The decoder of a connection: the headers of a block count for no more than a block
    /// may have bytes.
    pub fn header_decoder(&self) -> (d: HpackDecoder)
        ensures
            d@ == (TableView {
                entries: Seq::empty(),
                limit: TABLE_LIMIT,
                max_table: TABLE_LIMIT,
                max_list: self@.max_header_block,
            }),
    {
        HpackDecoder::new(TABLE_LIMIT, self.max_header_block)
    }

    /// Takes in one frame, and reads the header block that it completes: adds to
    /// `out` what is to be sent and gives back the stream whose request is complete,
    /// if there is one.
    pub fn receive_frame(
        &mut self,
        decoder: &mut HpackDecoder,
        frame: &Frame,
        out: &mut Vec<Frame>,
    ) -> (r: Result<Option<Stream>, Http2ErrorCode>)
        ensures
            ({
                let want = received(old(self)@, old(decoder)@, frame@);
                &&& views(final(out)@) == views(old(out)@) + want.sent
                &&& outcome_is(r, final(self)@, want)
            }),
            final(decoder)@ == table_after(old(self)@, old(decoder)@, frame@),
            final(self)@.last_stream_id == last_after(old(self)@, frame@) || r is Ok,
    {
        let ghost c = self@;
        let ghost t = decoder@;
        let decoded = match self.header_block_to_decode(frame) {
            Some(block) => decoder.decode_header_block(block.as_slice()),
            None => {
                let none: Vec<(String, String)> = Vec::new();
                assert(pairs(none@) =~= Seq::<(Seq<char>, Seq<char>)>::empty());
                Ok(none)
            },
        };
        assert(decoded_view(decoded) == headers_of_frame(c, t, frame@));
        self.process_frame(frame, decoded, out)
    }
}

} // verus!
