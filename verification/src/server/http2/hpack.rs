//! Header blocks: how lists of headers are written on HTTP/2 connections.

use crate::bytes::{bytes_of, part_bytes, push_bytes, utf8_text};
use crate::config::types::{copy_pairs, pairs};
use crate::server::http2::connection::Decoded;
use crate::server::http2::frame::Http2ErrorCode;
use crate::server::http2::huffman::{huffman_decode, huffman_text};
use crate::text::{chars_of, lower, lower_of, string_of};
use vstd::prelude::*;
use vstd::utf8::{decode_utf8, encode_utf8, valid_utf8};

verus! {

/// The headers that both sides know.
pub const STATIC_TABLE: [(&'static str, &'static str); 61] = [
    (":authority", ""),
    (":method", "GET"),
    (":method", "POST"),
    (":path", "/"),
    (":path", "/index.html"),
    (":scheme", "http"),
    (":scheme", "https"),
    (":status", "200"),
    (":status", "204"),
    (":status", "206"),
    (":status", "304"),
    (":status", "400"),
    (":status", "404"),
    (":status", "500"),
    ("accept-charset", ""),
    ("accept-encoding", "gzip, deflate"),
    ("accept-language", ""),
    ("accept-ranges", ""),
    ("accept", ""),
    ("access-control-allow-origin", ""),
    ("age", ""),
    ("allow", ""),
    ("authorization", ""),
    ("cache-control", ""),
    ("content-disposition", ""),
    ("content-encoding", ""),
    ("content-language", ""),
    ("content-length", ""),
    ("content-location", ""),
    ("content-range", ""),
    ("content-type", ""),
    ("cookie", ""),
    ("date", ""),
    ("etag", ""),
    ("expect", ""),
    ("expires", ""),
    ("from", ""),
    ("host", ""),
    ("if-match", ""),
    ("if-modified-since", ""),
    ("if-none-match", ""),
    ("if-range", ""),
    ("if-unmodified-since", ""),
    ("last-modified", ""),
    ("link", ""),
    ("location", ""),
    ("max-forwards", ""),
    ("proxy-authenticate", ""),
    ("proxy-authorization", ""),
    ("range", ""),
    ("referer", ""),
    ("refresh", ""),
    ("retry-after", ""),
    ("server", ""),
    ("set-cookie", ""),
    ("strict-transport-security", ""),
    ("transfer-encoding", ""),
    ("user-agent", ""),
    ("vary", ""),
    ("via", ""),
    ("www-authenticate", ""),
];

/// How much a table of headers may hold.
pub const TABLE_LIMIT: usize = 4096;

/// What a header counts for in a table besides its bytes.
pub const ENTRY_COST: usize = 32;

/// The rest of a number whose first byte was full: seven bits in each byte, the lowest
/// first. `unit` is what the next seven bits count for.
pub open spec fn number_rest(b: Seq<u8>, at: int, sum: int, unit: int) -> Option<(int, int)>
    decreases b.len() - at,
{
    if at < 0 || at >= b.len() || unit > 2097152 {
        None
    } else if b[at] < 128 {
        Some((sum + b[at] * unit, at + 1))
    } else {
        number_rest(b, at + 1, sum + (b[at] - 128) * unit, unit * 128)
    }
}

/// A number and the place behind it; `full` is the largest number of its first byte.
pub open spec fn number_at(b: Seq<u8>, at: int, full: int) -> Option<(int, int)> {
    if at < 0 || at >= b.len() {
        None
    } else if b[at] as int % (full + 1) < full {
        Some((b[at] as int % (full + 1), at + 1))
    } else {
        number_rest(b, at + 1, full, 1)
    }
}

/// A number and the place behind it.
fn read_number(b: &[u8], at: usize, full: u8) -> (r: Option<(usize, usize)>)
    requires
        at < b@.len(),
        full == 127 || full == 63 || full == 31 || full == 15,
    ensures
        match r {
            Some((n, next)) => number_at(b@, at as int, full as int) == Some(
                (n as int, next as int),
            ) && at < next <= b@.len(),
            None => number_at(b@, at as int, full as int) is None,
        },
{
    let first: u8 = b[at] % (full + 1);
    if first < full {
        return Some((first as usize, at + 1));
    }
    let mut sum: usize = full as usize;
    let mut unit: usize = 1;
    let mut i: usize = at + 1;
    while i < b.len() && unit <= 2097152
        invariant
            at < i <= b@.len(),
            1 <= unit <= 268435456,
            sum < 256 * unit,
            number_at(b@, at as int, full as int) == number_rest(
                b@,
                i as int,
                sum as int,
                unit as int,
            ),
        decreases b@.len() - i,
    {
        let x: usize = b[i] as usize;
        if x < 128 {
            assert(x * unit <= 127 * unit) by (nonlinear_arith)
                requires
                    x < 128,
            ;
            return Some((sum + x * unit, i + 1));
        }
        assert((x - 128) * unit <= 127 * unit) by (nonlinear_arith)
            requires
                128 <= x < 256,
        ;
        assert((x - 128) * unit >= 0) by (nonlinear_arith)
            requires
                128 <= x,
        ;
        sum = sum + (x - 128) * unit;
        unit = unit * 128;
        i = i + 1;
    }
    None
}

/// A text and the place behind it, as bytes.
pub open spec fn literal_at(b: Seq<u8>, at: int) -> Option<(Seq<u8>, int)> {
    match number_at(b, at, 127) {
        None => None,
        Some((n, next)) => if next + n > b.len() {
            None
        } else if b[at] >= 128 {
            match huffman_text(b.subrange(next, next + n)) {
                Some(t) => Some((t, next + n)),
                None => None,
            }
        } else {
            Some((b.subrange(next, next + n), next + n))
        },
    }
}

/// A text and the place behind it.
pub open spec fn text_at(b: Seq<u8>, at: int) -> Option<(Seq<char>, int)> {
    match literal_at(b, at) {
        Some((t, next)) => if valid_utf8(t) {
            Some((decode_utf8(t), next))
        } else {
            None
        },
        None => None,
    }
}

/// A text and the place behind it.
fn read_text(b: &[u8], at: usize) -> (r: Option<(String, usize)>)
    ensures
        match r {
            Some((s, next)) => text_at(b@, at as int) == Some((s@, next as int)) && at < next
                <= b@.len(),
            None => text_at(b@, at as int) is None,
        },
{
    if at >= b.len() {
        return None;
    }
    let (n, next) = match read_number(b, at, 127) {
        Some(x) => x,
        None => {
            return None;
        },
    };
    if n > b.len() - next {
        return None;
    }
    let raw = part_bytes(b, next, next + n);
    let plain = if b[at] >= 128 {
        match huffman_decode(raw.as_slice()) {
            Some(t) => t,
            None => {
                return None;
            },
        }
    } else {
        raw
    };
    match utf8_text(plain.as_slice()) {
        Some(s) => Some((s, next + n)),
        None => None,
    }
}

/// The headers that were sent before, the newest last, and how much they may count for.
#[verifier::ext_equal]
pub struct TableView {
    pub entries: Seq<(Seq<char>, Seq<char>)>,
    pub limit: usize,
    /// The most that the peer may set the limit to.
    pub max_table: usize,
    /// How much the headers of one block may count for.
    pub max_list: usize,
}

/// What a header counts for in a table.
pub open spec fn entry_cost(e: (Seq<char>, Seq<char>)) -> int {
    encode_utf8(e.0).len() + encode_utf8(e.1).len() + ENTRY_COST
}

/// The newest headers that fit.
pub open spec fn newest(e: Seq<(Seq<char>, Seq<char>)>, room: int) -> Seq<(Seq<char>, Seq<char>)>
    decreases e.len(),
{
    if e.len() == 0 || entry_cost(e.last()) > room {
        Seq::empty()
    } else {
        newest(e.drop_last(), room - entry_cost(e.last())).push(e.last())
    }
}

/// What the headers of a table count for.
pub open spec fn table_cost(e: Seq<(Seq<char>, Seq<char>)>) -> int
    decreases e.len(),
{
    if e.len() == 0 {
        0
    } else {
        table_cost(e.drop_last()) + entry_cost(e.last())
    }
}

/// A table never holds more than it may.
pub proof fn law_tables_stay_within_their_limit(e: Seq<(Seq<char>, Seq<char>)>, room: int)
    requires
        room >= 0,
    ensures
        table_cost(newest(e, room)) <= room,
        newest(e, room).len() <= e.len(),
        newest(e, room) == e.subrange(e.len() - newest(e, room).len(), e.len() as int),
    decreases e.len(),
{
    let n = newest(e, room);
    if n.len() > 0 {
        let rest = newest(e.drop_last(), room - entry_cost(e.last()));
        law_tables_stay_within_their_limit(e.drop_last(), room - entry_cost(e.last()));
        assert(n.drop_last() =~= rest);
        assert(n =~= e.subrange(e.len() - n.len(), e.len() as int));
    } else {
        assert(n =~= e.subrange(e.len() as int, e.len() as int));
    }
}

/// The header of a number: first those that both sides know, then those that were sent,
/// the newest first.
pub open spec fn entry_at(e: Seq<(Seq<char>, Seq<char>)>, k: int) -> Option<
    (Seq<char>, Seq<char>),
> {
    if 1 <= k <= 61 {
        Some((STATIC_TABLE@[k - 1].0@, STATIC_TABLE@[k - 1].1@))
    } else if 62 <= k < 62 + e.len() {
        Some(e[e.len() - 1 - (k - 62)])
    } else {
        None
    }
}

/// What one part of a header block says.
#[verifier::ext_equal]
pub struct FieldView {
    pub header: Option<(Seq<char>, Seq<char>)>,
    pub table: TableView,
    pub next: int,
}

/// The name of a header: that of a number, or one that is written out.
pub open spec fn name_at(b: Seq<u8>, at: int, full: int, t: TableView) -> Option<(Seq<char>, int)> {
    match number_at(b, at, full) {
        None => None,
        Some((k, next)) => if k == 0 {
            text_at(b, next)
        } else {
            match entry_at(t.entries, k) {
                Some(e) => Some((e.0, next)),
                None => None,
            }
        },
    }
}

/// A header that is written out, with or without its name.
pub open spec fn written_at(b: Seq<u8>, at: int, full: int, t: TableView) -> Option<
    ((Seq<char>, Seq<char>), int),
> {
    match name_at(b, at, full, t) {
        None => None,
        Some((name, middle)) => match text_at(b, middle) {
            Some((value, next)) => Some(((name, value), next)),
            None => None,
        },
    }
}

/// One part of a header block. A new limit may only stand at the beginning.
#[verifier::opaque]
pub open spec fn field_at(b: Seq<u8>, at: int, t: TableView, begun: bool) -> Option<FieldView> {
    if at < 0 || at >= b.len() {
        None
    } else if b[at] >= 128 {
        match number_at(b, at, 127) {
            None => None,
            Some((k, next)) => match entry_at(t.entries, k) {
                Some(e) => Some(FieldView { header: Some(e), table: t, next }),
                None => None,
            },
        }
    } else if b[at] >= 64 {
        match written_at(b, at, 63, t) {
            None => None,
            Some((e, next)) => Some(
                FieldView {
                    header: Some(e),
                    table: TableView {
                        entries: newest(t.entries.push(e), t.limit as int),
                        ..t
                    },
                    next,
                },
            ),
        }
    } else if b[at] >= 32 {
        match number_at(b, at, 31) {
            None => None,
            Some((n, next)) => if begun || n > t.max_table {
                None
            } else {
                Some(
                    FieldView {
                        header: None,
                        table: TableView { entries: newest(t.entries, n), limit: n as usize, ..t },
                        next,
                    },
                )
            },
        }
    } else {
        match written_at(b, at, 15, t) {
            None => None,
            Some((e, next)) => Some(FieldView { header: Some(e), table: t, next }),
        }
    }
}

/// The headers of a block from some place on, behind those that were read, and the
/// table after it. A block whose headers count for more than they may is refused as soon
/// as that shows.
pub open spec fn block_from(
    b: Seq<u8>,
    at: int,
    t: TableView,
    read: Seq<(Seq<char>, Seq<char>)>,
) -> Result<(Seq<(Seq<char>, Seq<char>)>, TableView), Http2ErrorCode>
    decreases b.len() - at,
{
    if at >= b.len() {
        Ok((read, t))
    } else {
        match field_at(b, at, t, read.len() > 0) {
            None => Err(Http2ErrorCode::CompressionError),
            Some(f) => if f.next <= at || f.next > b.len() {
                Err(Http2ErrorCode::CompressionError)
            } else {
                match f.header {
                    Some(e) => if table_cost(read.push(e)) > t.max_list {
                        Err(Http2ErrorCode::EnhanceYourCalm)
                    } else {
                        block_from(b, f.next, f.table, read.push(e))
                    },
                    None => block_from(b, f.next, f.table, read),
                }
            },
        }
    }
}

/// The headers of a block, and the table after it.
pub open spec fn block_headers(b: Seq<u8>, t: TableView) -> Result<
    (Seq<(Seq<char>, Seq<char>)>, TableView),
    Http2ErrorCode,
> {
    block_from(b, 0, t, Seq::empty())
}

proof fn lemma_lists_are_bounded(
    b: Seq<u8>,
    at: int,
    t: TableView,
    read: Seq<(Seq<char>, Seq<char>)>,
)
    requires
        table_cost(read) <= t.max_list,
    ensures
        block_from(b, at, t, read) matches Ok((h, u)) ==> table_cost(h) <= t.max_list
            && u.max_list == t.max_list && u.max_table == t.max_table,
    decreases b.len() - at,
{
    if at < b.len() {
        match field_at(b, at, t, read.len() > 0) {
            None => {},
            Some(f) => if at < f.next && f.next <= b.len() {
                assert(f.table.max_list == t.max_list && f.table.max_table == t.max_table) by {
                    reveal(field_at);
                }
                match f.header {
                    Some(e) => if table_cost(read.push(e)) <= t.max_list {
                        lemma_lists_are_bounded(b, f.next, f.table, read.push(e));
                    },
                    None => {
                        lemma_lists_are_bounded(b, f.next, f.table, read);
                    },
                }
            },
        }
    }
}

/// However short a block is, the headers that are read from it count for no more than
/// they may, and the limits stay.
pub proof fn law_header_lists_are_bounded(b: Seq<u8>, t: TableView)
    ensures
        block_headers(b, t) matches Ok((h, u)) ==> table_cost(h) <= t.max_list && u.max_list
            == t.max_list && u.max_table == t.max_table,
{
    lemma_lists_are_bounded(b, 0, t, Seq::empty());
}

/// Reads header blocks.
#[derive(Debug)]
pub struct HpackDecoder {
    entries: Vec<(String, String)>,
    limit: usize,
    max_table: usize,
    max_list: usize,
}

impl View for HpackDecoder {
    type V = TableView;

    closed spec fn view(&self) -> TableView {
        TableView {
            entries: pairs(self.entries@),
            limit: self.limit,
            max_table: self.max_table,
            max_list: self.max_list,
        }
    }
}

fn cost_within(e: &(String, String), room: usize) -> (r: Option<usize>)
    ensures
        match r {
            Some(n) => n == entry_cost((e.0@, e.1@)) && n <= room,
            None => entry_cost((e.0@, e.1@)) > room,
        },
{
    let a: usize = bytes_of(e.0.as_str()).len();
    let b: usize = bytes_of(e.1.as_str()).len();
    if room < ENTRY_COST || a > room - ENTRY_COST || b > room - ENTRY_COST - a {
        None
    } else {
        Some(a + b + ENTRY_COST)
    }
}

fn keep_newest(entries: &mut Vec<(String, String)>, room: usize)
    ensures
        pairs(final(entries)@) == newest(pairs(old(entries)@), room as int),
{
    let ghost e = pairs(entries@);
    let total: usize = entries.len();
    let mut n: usize = total;
    let mut left: usize = room;
    assert(e.subrange(0, n as int) =~= e);
    assert(newest(e, room as int) + e.subrange(n as int, n as int) =~= newest(e, room as int));
    loop
        invariant
            e == pairs(entries@),
            total == entries@.len(),
            n <= total,
            newest(e, room as int) == newest(e.subrange(0, n as int), left as int) + e.subrange(
                n as int,
                total as int,
            ),
        ensures
            e == pairs(entries@),
            n <= total == entries@.len(),
            newest(e, room as int) == e.subrange(n as int, total as int),
        decreases n,
    {
        let ghost first = e.subrange(0, n as int);
        if n == 0 {
            assert(newest(e, room as int) =~= e.subrange(n as int, total as int));
            break;
        }
        assert(first.last() == (entries@[n - 1].0@, entries@[n - 1].1@));
        assert(first.drop_last() =~= e.subrange(0, n - 1));
        match cost_within(&entries[n - 1], left) {
            Some(c) => {
                assert(newest(first.drop_last(), left - c).push(first.last()) + e.subrange(
                    n as int,
                    total as int,
                ) =~= newest(first.drop_last(), left - c) + e.subrange(n - 1, total as int));
                left = left - c;
                n = n - 1;
            },
            None => {
                assert(newest(e, room as int) =~= e.subrange(n as int, total as int));
                break;
            },
        }
    }
    let kept = entries.split_off(n);
    *entries = kept;
    assert(pairs(entries@) =~= e.subrange(n as int, total as int));
}

impl HpackDecoder {
    /// Nothing was sent yet. The first limit is that of the table, the second that of the
    /// headers of one block.
    pub fn new(max_table: usize, max_list: usize) -> (r: Self)
        ensures
            r@ == (TableView { entries: Seq::empty(), limit: max_table, max_table, max_list }),
    {
        let r = HpackDecoder { entries: Vec::new(), limit: max_table, max_table, max_list };
        assert(r@.entries =~= Seq::<(Seq<char>, Seq<char>)>::empty());
        r
    }

    fn entry(&self, k: usize) -> (r: Option<(String, String)>)
        ensures
            match r {
                Some(e) => entry_at(self@.entries, k as int) == Some((e.0@, e.1@)),
                None => entry_at(self@.entries, k as int) is None,
            },
    {
        let n: usize = self.entries.len();
        assert(self@.entries.len() == n);
        if 1 <= k && k <= 61 {
            let known = STATIC_TABLE;
            let (name, value) = known[k - 1];
            Some((name.to_owned(), value.to_owned()))
        } else if k >= 62 && k - 62 < n {
            let e = &self.entries[n - 1 - (k - 62)];
            Some((e.0.clone(), e.1.clone()))
        } else {
            None
        }
    }

    fn written(&self, b: &[u8], at: usize, full: u8) -> (r: Option<((String, String), usize)>)
        requires
            at < b@.len(),
            full == 63 || full == 15,
        ensures
            match r {
                Some((e, next)) => written_at(b@, at as int, full as int, self@) == Some(
                    ((e.0@, e.1@), next as int),
                ) && at < next <= b@.len(),
                None => written_at(b@, at as int, full as int, self@) is None,
            },
    {
        let (k, next) = match read_number(b, at, full) {
            Some(x) => x,
            None => {
                return None;
            },
        };
        let (name, middle) = if k == 0 {
            match read_text(b, next) {
                Some(x) => x,
                None => {
                    return None;
                },
            }
        } else {
            match self.entry(k) {
                Some(e) => (e.0, next),
                None => {
                    return None;
                },
            }
        };
        match read_text(b, middle) {
            Some((value, end)) => Some(((name, value), end)),
            None => None,
        }
    }

    fn field(&mut self, b: &[u8], at: usize, begun: bool) -> (r: Option<
        (Option<(String, String)>, usize),
    >)
        requires
            at < b@.len(),
        ensures
            match r {
                Some((h, next)) => field_at(b@, at as int, old(self)@, begun) == Some(
                    FieldView {
                        header: match h {
                            Some(e) => Some((e.0@, e.1@)),
                            None => None,
                        },
                        table: final(self)@,
                        next: next as int,
                    },
                ) && at < next <= b@.len(),
                None => field_at(b@, at as int, old(self)@, begun) is None,
            },
            final(self)@.max_list == old(self)@.max_list,
    {
        proof {
            reveal(field_at);
        }
        let x: u8 = b[at];
        if x >= 128 {
            let (k, next) = match read_number(b, at, 127) {
                Some(p) => p,
                None => {
                    return None;
                },
            };
            return match self.entry(k) {
                Some(e) => Some((Some(e), next)),
                None => None,
            };
        }
        if x >= 64 {
            return match self.written(b, at, 63) {
                Some((e, next)) => {
                    let ghost before = self@.entries;
                    self.entries.push((e.0.clone(), e.1.clone()));
                    assert(pairs(self.entries@) =~= before.push((e.0@, e.1@)));
                    keep_newest(&mut self.entries, self.limit);
                    Some((Some(e), next))
                },
                None => None,
            };
        }
        if x >= 32 {
            return match read_number(b, at, 31) {
                Some((n, next)) => if begun || n > self.max_table {
                    None
                } else {
                    keep_newest(&mut self.entries, n);
                    self.limit = n;
                    Some((None, next))
                },
                None => None,
            };
        }
        match self.written(b, at, 15) {
            Some((e, next)) => Some((Some(e), next)),
            None => None,
        }
    }

    /// The headers of a block. A block that is not in order, or whose headers count for
    /// more than they may, changes nothing.
    pub fn decode_header_block(&mut self, block: &[u8]) -> (r: Decoded)
        ensures
            match block_headers(block@, old(self)@) {
                Ok((h, t)) => final(self)@ == t && (r matches Ok(x) && pairs(x@) == h),
                Err(e) => final(self)@ == old(self)@ && (r matches Err(x) && x == e),
            },
    {
        let saved = HpackDecoder {
            entries: copy_pairs(&self.entries),
            limit: self.limit,
            max_table: self.max_table,
            max_list: self.max_list,
        };
        assert(saved@ == self@);
        let mut read: Vec<(String, String)> = Vec::new();
        let mut left: usize = self.max_list;
        let mut at: usize = 0;
        assert(pairs(read@) =~= Seq::<(Seq<char>, Seq<char>)>::empty());
        while at < block.len()
            invariant
                at <= block@.len(),
                saved@ == old(self)@,
                self@.max_list == old(self)@.max_list,
                table_cost(pairs(read@)) + left == self@.max_list,
                block_headers(block@, old(self)@) == block_from(
                    block@,
                    at as int,
                    self@,
                    pairs(read@),
                ),
            decreases block@.len() - at,
        {
            let ghost before = pairs(read@);
            assert(before.len() == read@.len());
            match self.field(block, at, read.len() > 0) {
                Some((h, next)) => {
                    match h {
                        Some(e) => {
                            let ghost all = before.push((e.0@, e.1@));
                            assert(all.drop_last() =~= before);
                            match cost_within(&e, left) {
                                Some(n) => {
                                    left = left - n;
                                },
                                None => {
                                    *self = saved;
                                    return Err(Http2ErrorCode::EnhanceYourCalm);
                                },
                            }
                            read.push(e);
                            assert(pairs(read@) =~= all);
                        },
                        None => {},
                    }
                    at = next;
                },
                None => {
                    *self = saved;
                    return Err(Http2ErrorCode::CompressionError);
                },
            }
        }
        Ok(read)
    }
}

/// The bytes of the rest of a number.
pub open spec fn rest_bytes(n: int) -> Seq<u8>
    decreases n,
{
    if n < 128 {
        seq![n as u8]
    } else {
        seq![(n % 128 + 128) as u8] + rest_bytes(n / 128)
    }
}

/// The bytes of a number whose first byte holds at most 127.
pub open spec fn number_bytes(n: int) -> Seq<u8> {
    if n < 127 {
        seq![n as u8]
    } else {
        seq![127u8] + rest_bytes(n - 127)
    }
}

/// The bytes of a text.
pub open spec fn text_bytes(s: Seq<char>) -> Seq<u8> {
    number_bytes(encode_utf8(s).len() as int) + encode_utf8(s)
}

/// The bytes of a header that is written out and is not to be remembered.
pub open spec fn field_bytes(e: (Seq<char>, Seq<char>)) -> Seq<u8> {
    seq![0u8] + text_bytes(lower(e.0)) + text_bytes(e.1)
}

/// The block of a list of headers.
pub open spec fn block_bytes(h: Seq<(Seq<char>, Seq<char>)>) -> Seq<u8>
    decreases h.len(),
{
    if h.len() == 0 {
        Seq::empty()
    } else {
        block_bytes(h.drop_last()) + field_bytes(h.last())
    }
}

/// The headers with their names in lower case.
pub open spec fn lowered(h: Seq<(Seq<char>, Seq<char>)>) -> Seq<(Seq<char>, Seq<char>)> {
    Seq::new(h.len(), |i: int| (lower(h[i].0), h[i].1))
}

fn push_number(out: &mut Vec<u8>, n: usize)
    ensures
        final(out)@ == old(out)@ + number_bytes(n as int),
{
    let ghost start = out@;
    if n < 127 {
        out.push(n as u8);
        assert(out@ =~= start + seq![n as u8]);
        return;
    }
    out.push(127);
    let mut left: usize = n - 127;
    assert(out@ + rest_bytes(left as int) =~= start + number_bytes(n as int));
    while left >= 128
        invariant
            out@ + rest_bytes(left as int) == start + number_bytes(n as int),
        decreases left,
    {
        let ghost before = out@;
        let x: u8 = (left % 128 + 128) as u8;
        out.push(x);
        assert(before + (seq![x] + rest_bytes(left as int / 128)) =~= out@ + rest_bytes(
            left as int / 128,
        ));
        left = left / 128;
    }
    let ghost before = out@;
    out.push(left as u8);
    assert(out@ =~= before + seq![left as u8]);
}

fn push_text_bytes(out: &mut Vec<u8>, s: &str)
    ensures
        final(out)@ == old(out)@ + text_bytes(s@),
{
    let ghost start = out@;
    let b = bytes_of(s);
    push_number(out, b.len());
    push_bytes(out, b.as_slice());
    assert(out@ =~= start + text_bytes(s@));
}

/// The block of a list of headers; names are written in lower case.
pub fn encode_headers(headers: &Vec<(String, String)>) -> (r: Vec<u8>)
    ensures
        r@ == block_bytes(pairs(headers@)),
{
    let ghost h = pairs(headers@);
    let mut out: Vec<u8> = Vec::new();
    let mut i: usize = 0;
    assert(h.subrange(0, 0) =~= Seq::<(Seq<char>, Seq<char>)>::empty());
    while i < headers.len()
        invariant
            h == pairs(headers@),
            i <= headers@.len(),
            out@ == block_bytes(h.subrange(0, i as int)),
        decreases headers@.len() - i,
    {
        let ghost before = out@;
        let ghost e = (headers@[i as int].0@, headers@[i as int].1@);
        assert(h.subrange(0, i + 1).drop_last() =~= h.subrange(0, i as int));
        assert(h.subrange(0, i + 1).last() == e);
        let name = string_of(&lower_of(&chars_of(headers[i].0.as_str())));
        out.push(0);
        push_text_bytes(&mut out, name.as_str());
        push_text_bytes(&mut out, headers[i].1.as_str());
        assert(out@ =~= before + field_bytes(e));
        i = i + 1;
    }
    assert(h.subrange(0, h.len() as int) =~= h);
    out
}

/// How long a text may be that is read back.
pub open spec fn short(s: Seq<char>) -> bool {
    encode_utf8(s).len() < 0x1000_0000
}

proof fn lemma_rest_reads_back(pre: Seq<u8>, n: int, post: Seq<u8>, sum: int, unit: int)
    requires
        0 <= n,
        unit == 1 || unit == 128 || unit == 16384 || unit == 2097152,
        n * unit < 0x1000_0000,
    ensures
        number_rest(pre + rest_bytes(n) + post, pre.len() as int, sum, unit) == Some(
            (sum + n * unit, (pre.len() + rest_bytes(n).len()) as int),
        ),
    decreases n,
{
    let b = pre + rest_bytes(n) + post;
    let at = pre.len() as int;
    if n < 128 {
        assert(b[at] == n as u8);
    } else {
        let x = (n % 128 + 128) as u8;
        assert(b[at] == x);
        assert(pre.push(x) + rest_bytes(n / 128) + post =~= b);
        assert(unit <= 16384) by (nonlinear_arith)
            requires
                n >= 128,
                n * unit < 0x1000_0000,
                unit == 1 || unit == 128 || unit == 16384 || unit == 2097152,
        ;
        assert((n / 128) * (unit * 128) <= n * unit) by (nonlinear_arith)
            requires
                n >= 0,
                unit > 0,
        ;
        assert((x - 128) * unit + (n / 128) * (unit * 128) == n * unit) by (nonlinear_arith)
            requires
                x == n % 128 + 128,
        ;
        lemma_rest_reads_back(pre.push(x), n / 128, post, sum + (x - 128) * unit, unit * 128);
        assert(rest_bytes(n).len() == 1 + rest_bytes(n / 128).len());
    }
}

proof fn lemma_text_reads_back(pre: Seq<u8>, s: Seq<char>, post: Seq<u8>)
    requires
        short(s),
    ensures
        text_at(pre + text_bytes(s) + post, pre.len() as int) == Some(
            (s, (pre.len() + text_bytes(s).len()) as int),
        ),
{
    broadcast use {vstd::utf8::encode_utf8_valid_utf8, vstd::utf8::encode_utf8_decode_utf8};

    let t = encode_utf8(s);
    let n = t.len() as int;
    let b = pre + text_bytes(s) + post;
    let at = pre.len() as int;
    let next = at + number_bytes(n).len();
    assert(b[at] == number_bytes(n)[0]);
    if n >= 127 {
        assert(pre.push(127u8) + rest_bytes(n - 127) + (t + post) =~= b);
        lemma_rest_reads_back(pre.push(127u8), n - 127, t + post, 127, 1);
        assert(127u8 as int % 128 == 127);
    }
    assert(number_at(b, at, 127) == Some((n, next)));
    assert(b.subrange(next, next + n) =~= t);
}

proof fn lemma_field_reads_back(
    pre: Seq<u8>,
    e: (Seq<char>, Seq<char>),
    post: Seq<u8>,
    t: TableView,
    begun: bool,
)
    requires
        short(lower(e.0)),
        short(e.1),
    ensures
        field_at(pre + field_bytes(e) + post, pre.len() as int, t, begun) == Some(
            FieldView {
                header: Some((lower(e.0), e.1)),
                table: t,
                next: (pre.len() + field_bytes(e).len()) as int,
            },
        ),
{
    reveal(field_at);
    let b = pre + field_bytes(e) + post;
    let name = text_bytes(lower(e.0));
    let value = text_bytes(e.1);
    let at = pre.len() as int;
    assert(b[at] == 0);
    assert(number_at(b, at, 15) == Some((0int, at + 1)));
    assert(pre.push(0u8) + name + (value + post) =~= b);
    lemma_text_reads_back(pre.push(0u8), lower(e.0), value + post);
    assert((pre.push(0u8) + name) + value + post =~= b);
    lemma_text_reads_back(pre.push(0u8) + name, e.1, post);
}

proof fn lemma_block_reads_back(
    h: Seq<(Seq<char>, Seq<char>)>,
    n: int,
    t: TableView,
)
    requires
        0 <= n <= h.len(),
        forall|i: int| 0 <= i < h.len() ==> short(lower((#[trigger] h[i]).0)) && short(h[i].1),
        table_cost(lowered(h)) <= t.max_list,
    ensures
        block_headers(block_bytes(h), t) == block_from(
            block_bytes(h),
            block_bytes(h.subrange(0, n)).len() as int,
            t,
            lowered(h.subrange(0, n)),
        ),
    decreases n,
{
    let b = block_bytes(h);
    if n == 0 {
        assert(h.subrange(0, 0) =~= Seq::<(Seq<char>, Seq<char>)>::empty());
        assert(lowered(h.subrange(0, 0)) =~= Seq::<(Seq<char>, Seq<char>)>::empty());
    } else {
        lemma_block_reads_back(h, n - 1, t);
        let pre = block_bytes(h.subrange(0, n - 1));
        let e = h[n - 1];
        assert(h.subrange(0, n).drop_last() =~= h.subrange(0, n - 1));
        assert(h.subrange(0, n).last() == e);
        lemma_block_prefix(h, n);
        let post = b.subrange(block_bytes(h.subrange(0, n)).len() as int, b.len() as int);
        assert(pre + field_bytes(e) + post =~= b);
        let read = lowered(h.subrange(0, n - 1));
        lemma_field_reads_back(pre, e, post, t, read.len() > 0);
        assert(read.push((lower(e.0), e.1)) =~= lowered(h.subrange(0, n)));
        assert(lowered(h).subrange(0, n) =~= lowered(h.subrange(0, n)));
        lemma_cost_grows(lowered(h), n);
        assert(field_bytes(e).len() > 0);
    }
}

proof fn lemma_cost_grows(e: Seq<(Seq<char>, Seq<char>)>, n: int)
    requires
        0 <= n <= e.len(),
    ensures
        table_cost(e.subrange(0, n)) <= table_cost(e),
    decreases e.len(),
{
    if n == e.len() {
        assert(e.subrange(0, n) =~= e);
    } else {
        lemma_cost_grows(e.drop_last(), n);
        assert(e.drop_last().subrange(0, n) =~= e.subrange(0, n));
    }
}

proof fn lemma_block_prefix(h: Seq<(Seq<char>, Seq<char>)>, n: int)
    requires
        0 <= n <= h.len(),
    ensures
        block_bytes(h.subrange(0, n)).len() <= block_bytes(h).len(),
        block_bytes(h).subrange(0, block_bytes(h.subrange(0, n)).len() as int) == block_bytes(
            h.subrange(0, n),
        ),
    decreases h.len() - n,
{
    let p = block_bytes(h.subrange(0, n));
    if n == h.len() {
        assert(h.subrange(0, n) =~= h);
        assert(p.subrange(0, p.len() as int) =~= p);
    } else {
        assert(h.subrange(0, n + 1).drop_last() =~= h.subrange(0, n));
        let q = block_bytes(h.subrange(0, n + 1));
        lemma_block_prefix(h, n + 1);
        assert(block_bytes(h).subrange(0, p.len() as int) =~= q.subrange(0, p.len() as int));
        assert(q.subrange(0, p.len() as int) =~= p);
    }
}

/// What is written is read back, with the names in lower case, and changes no table, where
/// it counts for no more than it may.
pub proof fn law_headers_read_back(h: Seq<(Seq<char>, Seq<char>)>, t: TableView)
    requires
        table_cost(lowered(h)) <= t.max_list,
        forall|i: int| 0 <= i < h.len() ==> short(lower((#[trigger] h[i]).0)) && short(h[i].1),
    ensures
        block_headers(block_bytes(h), t) == Ok::<_, Http2ErrorCode>((lowered(h), t)),
{
    lemma_block_reads_back(h, h.len() as int, t);
    assert(h.subrange(0, h.len() as int) =~= h);
}

} // verus!
