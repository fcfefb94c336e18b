//! Texts as bytes.

use crate::bytes::{blank_line, sub_at, sub_find};
use crate::laws::texts::{lemma_crlf_more, lemma_one_line, one_line};
use crate::server::http::breaks_paired;
use crate::server::upstream::joined_lines;
use crate::text::split_crlf;
use vstd::prelude::*;
use vstd::utf8::{
    decode_utf8, encode_scalar, encode_utf8, encode_utf8_decode_utf8, encode_utf8_valid_utf8,
    valid_utf8,
};

verus! {

/// Texts are encoded piece by piece.
pub proof fn lemma_encode_joins(a: Seq<char>, b: Seq<char>)
    ensures
        encode_utf8(a + b) == encode_utf8(a) + encode_utf8(b),
    decreases a.len(),
{
    if a.len() == 0 {
        assert(a + b =~= b);
        assert(encode_utf8(a) + encode_utf8(b) =~= encode_utf8(b));
    } else {
        lemma_encode_joins(a.drop_first(), b);
        assert((a + b).drop_first() =~= a.drop_first() + b);
        let x = encode_scalar(a[0] as u32);
        assert(x + (encode_utf8(a.drop_first()) + encode_utf8(b)) =~= (x + encode_utf8(
            a.drop_first(),
        )) + encode_utf8(b));
    }
}

pub proof fn lemma_scalar_bytes(c: u32)
    ensures
        encode_scalar(c).len() > 0,
        c < 128 ==> encode_scalar(c) == seq![c as u8],
        c >= 128 ==> forall|i: int|
            0 <= i < encode_scalar(c).len() ==> #[trigger] encode_scalar(c)[i] >= 128,
{
    assert(c < 128 ==> (c & 0x7F) as u8 == c as u8) by (bit_vector);
    assert((0xC0u8 | ((c >> 6) & 0x1F) as u8) >= 128) by (bit_vector);
    assert((0xE0u8 | ((c >> 12) & 0x0F) as u8) >= 128) by (bit_vector);
    assert((0xF0u8 | ((c >> 18) & 0x7) as u8) >= 128) by (bit_vector);
    assert((0x80u8 | (c & 0x3F) as u8) >= 128) by (bit_vector);
    assert((0x80u8 | ((c >> 6) & 0x3F) as u8) >= 128) by (bit_vector);
    assert((0x80u8 | ((c >> 12) & 0x3F) as u8) >= 128) by (bit_vector);
    if c < 128 {
        assert(encode_scalar(c) =~= seq![c as u8]);
    }
}

proof fn lemma_no_break(c: char)
    requires
        c != '\r',
        c != '\n',
    ensures
        c as u32 != 13,
        c as u32 != 10,
{
    assert(c as u32 == '\r' as u32 ==> c == '\r');
    assert(c as u32 == '\n' as u32 ==> c == '\n');
}

/// One line of text has no line break among its bytes.
pub proof fn lemma_line_bytes(w: Seq<char>)
    requires
        one_line(w),
    ensures
        encode_utf8(w).len() >= w.len(),
        forall|i: int|
            0 <= i < encode_utf8(w).len() ==> #[trigger] encode_utf8(w)[i] != 13 && encode_utf8(
                w,
            )[i] != 10,
    decreases w.len(),
{
    if w.len() > 0 {
        let t = w.drop_first();
        assert forall|i: int| 0 <= i < t.len() implies #[trigger] t[i] != '\r' && t[i]
            != '\n' by {
            assert(t[i] == w[i + 1]);
        }
        lemma_line_bytes(t);
        lemma_scalar_bytes(w[0] as u32);
        let x = encode_scalar(w[0] as u32);
        let b = encode_utf8(w);
        assert(w[0] != '\r' && w[0] != '\n');
        lemma_no_break(w[0]);
        assert forall|i: int| 0 <= i < b.len() implies #[trigger] b[i] != 13 && b[i] != 10 by {
            if i < x.len() {
                assert(b[i] == x[i]);
            } else {
                assert(b[i] == encode_utf8(t)[i - x.len()]);
            }
        }
    }
}

pub proof fn lemma_crlf_bytes()
    ensures
        encode_utf8("\r\n"@) == seq![13u8, 10u8],
        "\r\n"@ == seq!['\r', '\n'],
{
    reveal_strlit("\r\n");
    assert("\r\n"@ =~= seq!['\r', '\n']);
    let s = "\r\n"@;
    lemma_scalar_bytes(13);
    lemma_scalar_bytes(10);
    assert(s.drop_first().drop_first() =~= Seq::<char>::empty());
    assert(encode_utf8(s.drop_first().drop_first()) =~= Seq::<u8>::empty());
    assert(encode_utf8(s.drop_first()) =~= seq![10u8]);
    assert(encode_utf8(s) =~= seq![13u8, 10u8]);
}

/// Lines that are neither empty nor broken.
pub open spec fn whole_lines(l: Seq<Seq<char>>) -> bool {
    forall|i: int| 0 <= i < l.len() ==> (#[trigger] l[i]).len() > 0 && one_line(l[i])
}

proof fn lemma_joined_bytes(l: Seq<Seq<char>>)
    requires
        whole_lines(l),
        l.len() > 0,
    ensures
        ({
            let b = encode_utf8(joined_lines(l));
            &&& b.len() > 0
            &&& b[0] != 13
            &&& b.last() != 13
            &&& b.last() != 10
            &&& forall|i: int|
                0 <= i < b.len() && #[trigger] b[i] == 13 ==> i + 2 < b.len() && b[i + 1] == 10
                    && b[i + 2] != 13
            &&& forall|i: int| 0 <= i < b.len() && #[trigger] b[i] == 10 ==> i > 0 && b[i - 1] == 13
        }),
        split_crlf(joined_lines(l)) == l,
    decreases l.len(),
{
    let w = l.last();
    assert(l[l.len() - 1].len() > 0);
    lemma_line_bytes(w);
    let x = encode_utf8(w);
    assert(x.last() == x[x.len() - 1]);
    if l.len() == 1 {
        lemma_one_line(w);
        assert(joined_lines(l) == w);
        assert(seq![w] =~= l);
    } else {
        let t = l.drop_last();
        assert forall|i: int| 0 <= i < t.len() implies (#[trigger] t[i]).len() > 0 && one_line(
            t[i],
        ) by {
            assert(t[i] == l[i]);
        }
        lemma_joined_bytes(t);
        lemma_crlf_bytes();
        let j = joined_lines(t);
        lemma_encode_joins(j + "\r\n"@, w);
        lemma_encode_joins(j, "\r\n"@);
        let a = encode_utf8(j);
        let b = encode_utf8(joined_lines(l));
        assert(b == a + seq![13u8, 10u8] + x);
        assert(a.last() == a[a.len() - 1]);
        assert forall|i: int| 0 <= i < b.len() && #[trigger] b[i] == 13 implies i + 2 < b.len()
            && b[i + 1] == 10 && b[i + 2] != 13 by {
            if i < a.len() {
                assert(b[i] == a[i]);
                assert(b[i + 1] == a[i + 1] && b[i + 2] == a[i + 2]);
            } else if i >= a.len() + 2 {
                assert(b[i] == x[i - a.len() - 2]);
            } else {
                assert(b[a.len() as int + 2] == x[0]);
            }
        }
        assert forall|i: int| 0 <= i < b.len() && #[trigger] b[i] == 10 implies i > 0 && b[i - 1]
            == 13 by {
            if i < a.len() {
                assert(b[i] == a[i]);
                assert(b[i - 1] == a[i - 1]);
            } else if i >= a.len() + 2 {
                assert(b[i] == x[i - a.len() - 2]);
            }
        }
        lemma_crlf_more(j, w);
        assert(joined_lines(l) == j + "\r\n"@ + w);
        assert(t.push(w) =~= l);
    }
}

proof fn lemma_blank_not_before(b: Seq<u8>, w: Seq<u8>, from: int)
    requires
        0 <= from <= b.len(),
        w.len() >= b.len() + 4,
        w.subrange(0, b.len() as int) == b,
        w.subrange(b.len() as int, b.len() as int + 4) == blank_line(),
        forall|i: int|
            0 <= i < b.len() && #[trigger] b[i] == 13 ==> i + 2 < b.len() && b[i + 1] == 10 && b[i
                + 2] != 13,
    ensures
        sub_find(w, blank_line(), from) == b.len(),
    decreases b.len() - from,
{
    let n = blank_line();
    if from < b.len() {
        assert(w.subrange(0, b.len() as int)[from] == w[from]);
        if sub_at(w, n, from) {
            let s = w.subrange(from, from + 4);
            assert(s[0] == w[from] && s[2] == w[from + 2]);
            assert(b[from] == 13);
            assert(w.subrange(0, b.len() as int)[from + 2] == w[from + 2]);
        }
        lemma_blank_not_before(b, w, from + 1);
    } else {
        assert(sub_at(w, n, from));
    }
}

/// A block of lines ends at the first blank line behind it and is read back line by line,
/// whatever follows.
pub proof fn law_blocks_read_back(l: Seq<Seq<char>>, more: Seq<u8>)
    requires
        whole_lines(l),
        l.len() > 0,
    ensures
        ({
            let b = encode_utf8(joined_lines(l));
            let w = b + blank_line() + more;
            &&& sub_find(w, blank_line(), 0) == b.len()
            &&& w.subrange(0, b.len() as int) == b
            &&& breaks_paired(b)
            &&& valid_utf8(b)
            &&& split_crlf(decode_utf8(b)) == l
        }),
{
    let b = encode_utf8(joined_lines(l));
    let w = b + blank_line() + more;
    lemma_joined_bytes(l);
    assert(w.subrange(0, b.len() as int) =~= b);
    assert(w.subrange(b.len() as int, b.len() as int + 4) =~= blank_line());
    lemma_blank_not_before(b, w, 0);
    encode_utf8_valid_utf8(joined_lines(l));
    encode_utf8_decode_utf8(joined_lines(l));
}

} // verus!
