//! Byte sequences: searching, cutting and the passage between bytes and text.

use vstd::prelude::*;
use vstd::utf8::{decode_utf8, encode_utf8, valid_utf8};

verus! {

/// `n` occurs in `h` at position `i`.
pub open spec fn sub_at(h: Seq<u8>, n: Seq<u8>, i: int) -> bool {
    0 <= i && i + n.len() <= h.len() && h.subrange(i, i + n.len()) == n
}

/// The first occurrence of `n` at or after `from`, or the length of `h`.
pub open spec fn sub_find(h: Seq<u8>, n: Seq<u8>, from: int) -> int
    decreases h.len() - from,
{
    if from < 0 || from >= h.len() {
        h.len() as int
    } else if sub_at(h, n, from) {
        from
    } else {
        sub_find(h, n, from + 1)
    }
}

/// The blank line that ends a block of headers.
pub open spec fn blank_line() -> Seq<u8> {
    seq![13u8, 10u8, 13u8, 10u8]
}

/// The bytes of a blank line.
pub fn blank() -> (r: Vec<u8>)
    ensures
        r@ == blank_line(),
        r@.len() == 4,
{
    let mut b: Vec<u8> = Vec::new();
    b.push(13);
    b.push(10);
    b.push(13);
    b.push(10);
    assert(b@ =~= blank_line());
    b
}

pub proof fn lemma_sub_find(h: Seq<u8>, n: Seq<u8>, from: int)
    requires
        0 <= from,
        n.len() > 0,
    ensures
        0 <= sub_find(h, n, from) <= h.len(),
        sub_find(h, n, from) < h.len() ==> sub_at(h, n, sub_find(h, n, from)) && from <= sub_find(
            h,
            n,
            from,
        ),
        forall|j: int| from <= j < sub_find(h, n, from) ==> !#[trigger] sub_at(h, n, j),
    decreases h.len() - from,
{
    if from < h.len() && !sub_at(h, n, from) {
        lemma_sub_find(h, n, from + 1);
    }
}

/// What is found in a beginning is found in the whole, at the same place.
pub proof fn lemma_sub_find_extends(h: Seq<u8>, more: Seq<u8>, n: Seq<u8>, from: int)
    requires
        0 <= from,
        n.len() > 0,
        sub_find(h, n, from) < h.len(),
    ensures
        sub_find(h + more, n, from) == sub_find(h, n, from),
    decreases h.len() - from,
{
    let w = h + more;
    lemma_sub_find(h, n, from);
    if from < h.len() {
        if sub_at(h, n, from) {
            assert(w.subrange(from, from + n.len()) =~= h.subrange(from, from + n.len()));
        } else {
            lemma_sub_find_extends(h, more, n, from + 1);
            lemma_sub_find(h, n, from + 1);
            let k = sub_find(h, n, from + 1);
            assert(!sub_at(w, n, from)) by {
                if sub_at(w, n, from) {
                    assert(k + n.len() <= h.len());
                    assert(w.subrange(from, from + n.len()) =~= h.subrange(from, from + n.len()));
                }
            }
        }
    }
}

/// The first occurrence of a sequence.
pub fn find_bytes(h: &[u8], n: &[u8]) -> (r: Option<usize>)
    requires
        n@.len() > 0,
    ensures
        match r {
            Some(i) => i == sub_find(h@, n@, 0) && i + n@.len() <= h@.len(),
            None => sub_find(h@, n@, 0) == h@.len(),
        },
{
    let mut i: usize = 0;
    let total: usize = h.len();
    while i < h.len()
        invariant
            n@.len() > 0,
            total == h@.len(),
            i <= h@.len(),
            sub_find(h@, n@, 0) == sub_find(h@, n@, i as int),
        decreases h@.len() - i,
    {
        if h.len() - i >= n.len() {
            let mut j: usize = 0;
            while j < n.len() && h[i + j] == n[j]
                invariant
                    total == h@.len(),
                    i + n@.len() <= h@.len(),
                    j <= n@.len(),
                    forall|k: int| 0 <= k < j ==> h@[i + k] == n@[k],
                decreases n@.len() - j,
            {
                j = j + 1;
            }
            if j == n.len() {
                assert(h@.subrange(i as int, i + n@.len()) =~= n@);
                return Some(i);
            }
            assert(!sub_at(h@, n@, i as int)) by {
                assert(h@.subrange(i as int, i + n@.len())[j as int] == h@[i + j]);
            }
        }
        i = i + 1;
    }
    None
}

pub fn part_bytes(v: &[u8], from: usize, to: usize) -> (r: Vec<u8>)
    requires
        from <= to <= v@.len(),
    ensures
        r@ == v@.subrange(from as int, to as int),
{
    let mut r: Vec<u8> = Vec::new();
    let mut i: usize = from;
    while i < to
        invariant
            from <= i <= to <= v@.len(),
            r@ == v@.subrange(from as int, i as int),
        decreases to - i,
    {
        r.push(v[i]);
        i = i + 1;
        assert(v@.subrange(from as int, i as int) =~= v@.subrange(from as int, i - 1).push(
            v@[i - 1],
        ));
    }
    r
}

pub fn push_bytes(out: &mut Vec<u8>, v: &[u8])
    ensures
        final(out)@ == old(out)@ + v@,
{
    let ghost start = out@;
    let mut i: usize = 0;
    while i < v.len()
        invariant
            i <= v@.len(),
            out@ == start + v@.subrange(0, i as int),
        decreases v@.len() - i,
    {
        out.push(v[i]);
        i = i + 1;
        assert(start + v@.subrange(0, i as int) =~= (start + v@.subrange(0, i - 1)).push(
            v@[i - 1],
        ));
    }
    assert(v@.subrange(0, v@.len() as int) =~= v@);
}

pub fn same_bytes(a: &[u8], b: &[u8]) -> (r: bool)
    ensures
        r == (a@ == b@),
{
    if a.len() != b.len() {
        return false;
    }
    let mut i: usize = 0;
    while i < a.len()
        invariant
            a@.len() == b@.len(),
            i <= a@.len(),
            forall|j: int| 0 <= j < i ==> a@[j] == b@[j],
        decreases a@.len() - i,
    {
        if a[i] != b[i] {
            return false;
        }
        i = i + 1;
    }
    assert(a@ =~= b@);
    true
}

/// `std::str::from_utf8`: the text that the bytes encode, where they are valid
/// UTF-8.
#[verifier::external_body]
pub(crate) fn utf8_text(v: &[u8]) -> (r: Option<String>)
    ensures
        match r {
            Some(s) => valid_utf8(v@) && s@ == decode_utf8(v@),
            None => !valid_utf8(v@),
        },
{
    std::str::from_utf8(v).ok().map(str::to_owned)
}

/// The UTF-8 form of a string.
pub fn bytes_of(s: &str) -> (r: Vec<u8>)
    ensures
        r@ == encode_utf8(s@),
{
    let b = s.as_bytes();
    part_bytes_all(b)
}

pub fn part_bytes_all(b: &[u8]) -> (r: Vec<u8>)
    ensures
        r@ == b@,
{
    let r = part_bytes(b, 0, b.len());
    assert(b@.subrange(0, b@.len() as int) =~= b@);
    r
}

} // verus!
