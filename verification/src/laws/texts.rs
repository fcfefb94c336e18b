//! How texts that are put together come apart again.

use crate::text::{
    after, before, decimal, has_char, is_digit, is_space, lemma_decimal, lemma_find, lemma_find_is,
    lemma_split_extends, split, split_crlf, trim, trim_start, word_scan, words,
};
use vstd::prelude::*;

verus! {

/// No white space at all.
pub open spec fn unspaced(s: Seq<char>) -> bool {
    forall|i: int| 0 <= i < s.len() ==> !is_space(#[trigger] s[i])
}

/// No carriage return and no line feed.
pub open spec fn one_line(s: Seq<char>) -> bool {
    forall|i: int| 0 <= i < s.len() ==> #[trigger] s[i] != '\r' && s[i] != '\n'
}

pub proof fn lemma_trim_is(s: Seq<char>)
    requires
        s.len() > 0 ==> !is_space(s[0]) && !is_space(s.last()),
    ensures
        trim(s) == s,
{
}

pub proof fn lemma_trim_unspaced(s: Seq<char>)
    requires
        unspaced(s),
    ensures
        trim(s) == s,
{
    if s.len() > 0 {
        assert(!is_space(s[0]) && !is_space(s[s.len() - 1]));
    }
}

pub proof fn lemma_trim_blank_before(s: Seq<char>)
    requires
        s.len() > 0 ==> !is_space(s[0]) && !is_space(s.last()),
    ensures
        trim(seq![' '] + s) == s,
{
    let t = seq![' '] + s;
    assert(t.subrange(1, t.len() as int) =~= s);
    assert(is_space(t[0]));
    assert(trim_start(t) == trim_start(s));
}

/// A text ends up in front of the first separator, and the rest behind it.
pub proof fn lemma_cut(a: Seq<char>, c: char, b: Seq<char>)
    requires
        !has_char(a, c),
    ensures
        before(a + seq![c] + b, c) == a,
        after(a + seq![c] + b, c) == b,
        has_char(a + seq![c] + b, c),
{
    let s = a + seq![c] + b;
    assert(s[a.len() as int] == c);
    assert forall|i: int| 0 <= i < a.len() implies s[i] != c by {
        assert(s[i] == a[i]);
    }
    lemma_find_is(s, c, a.len() as int);
    assert(before(s, c) =~= a);
    assert(after(s, c) =~= b);
}

pub proof fn lemma_uncut(a: Seq<char>, c: char)
    requires
        !has_char(a, c),
    ensures
        before(a, c) == a,
        split(a, c) == seq![a],
{
    lemma_find(a, c);
    assert(before(a, c) =~= a);
    let e = Seq::<char>::empty();
    lemma_split_extends(e, a, c);
    assert(e + a =~= a);
    assert(split(e, c) =~= seq![e]);
    assert(split(a, c) =~= seq![a]);
}

/// One more piece behind a separator.
pub proof fn lemma_split_more(a: Seq<char>, c: char, b: Seq<char>)
    requires
        !has_char(b, c),
    ensures
        split(a + seq![c] + b, c) == split(a, c).push(b),
{
    let t = a.push(c);
    assert(t.drop_last() =~= a);
    assert(split(t, c) == split(a, c).push(Seq::<char>::empty()));
    lemma_split_extends(t, b, c);
    assert(t + b =~= a + seq![c] + b);
    assert(split(t, c).drop_last() =~= split(a, c));
    assert(Seq::<char>::empty() + b =~= b);
}

pub proof fn lemma_crlf_nonempty(s: Seq<char>)
    ensures
        split_crlf(s).len() > 0,
    decreases s.len(),
{
    if s.len() > 0 {
        lemma_crlf_nonempty(s.drop_last());
    }
}

pub proof fn lemma_crlf_extends(a: Seq<char>, x: Seq<char>)
    requires
        one_line(x),
    ensures
        split_crlf(a + x) == split_crlf(a).drop_last().push(split_crlf(a).last() + x),
        split_crlf(a).len() > 0,
    decreases x.len(),
{
    lemma_crlf_nonempty(a);
    let r = split_crlf(a);
    if x.len() == 0 {
        assert(a + x =~= a);
        assert(r.last() + x =~= r.last());
        assert(r.drop_last().push(r.last()) =~= r);
    } else {
        let y = x.drop_last();
        assert(one_line(y)) by {
            assert forall|i: int| 0 <= i < y.len() implies #[trigger] y[i] != '\r' && y[i]
                != '\n' by {
                assert(y[i] == x[i]);
            }
        }
        lemma_crlf_extends(a, y);
        assert((a + x).drop_last() =~= a + y);
        assert((a + x).last() == x.last());
        assert(x[x.len() - 1] != '\n');
        let m = split_crlf(a + y);
        assert(m.drop_last() =~= r.drop_last());
        assert((r.last() + y).push(x.last()) =~= r.last() + x);
    }
}

/// One more line behind a line break.
pub proof fn lemma_crlf_more(a: Seq<char>, x: Seq<char>)
    requires
        one_line(x),
    ensures
        split_crlf(a + seq!['\r', '\n'] + x) == split_crlf(a).push(x),
{
    lemma_crlf_nonempty(a);
    let r = split_crlf(a);
    let t = a.push('\r');
    assert(t.drop_last() =~= a);
    assert(split_crlf(t) == r.drop_last().push(r.last().push('\r')));
    let u = t.push('\n');
    assert(u.drop_last() =~= t);
    let m = split_crlf(t);
    assert(m.last() == r.last().push('\r'));
    assert(m.last().drop_last() =~= r.last());
    assert(m.drop_last() =~= r.drop_last());
    assert(r.drop_last().push(r.last()) =~= r);
    assert(split_crlf(u) == r.push(Seq::<char>::empty()));
    lemma_crlf_extends(u, x);
    assert(u + x =~= a + seq!['\r', '\n'] + x);
    assert(split_crlf(u).drop_last() =~= r);
    assert(Seq::<char>::empty() + x =~= x);
}

pub proof fn lemma_one_line(x: Seq<char>)
    requires
        one_line(x),
    ensures
        split_crlf(x) == seq![x],
{
    let e = Seq::<char>::empty();
    lemma_crlf_extends(e, x);
    assert(split_crlf(e) =~= seq![e]);
    assert(e + x =~= x);
    assert(split_crlf(x) =~= seq![x]);
}

pub proof fn lemma_decimal_is_digits(n: nat)
    ensures
        decimal(n).len() > 0,
        forall|i: int| 0 <= i < decimal(n).len() ==> is_digit(#[trigger] decimal(n)[i]),
        unspaced(decimal(n)),
        one_line(decimal(n)),
{
    lemma_decimal(n);
}

/// Different numbers are written differently.
pub proof fn law_decimals_differ(a: nat, b: nat)
    requires
        decimal(a) == decimal(b),
    ensures
        a == b,
{
    lemma_decimal(a);
    lemma_decimal(b);
}

pub proof fn lemma_word_grows(a: Seq<char>, w: Seq<char>)
    requires
        unspaced(w),
    ensures
        word_scan(a + w) == (word_scan(a).0, word_scan(a).1 + w),
    decreases w.len(),
{
    if w.len() == 0 {
        assert(a + w =~= a);
        assert(word_scan(a).1 + w =~= word_scan(a).1);
    } else {
        let y = w.drop_last();
        assert forall|i: int| 0 <= i < y.len() implies !is_space(#[trigger] y[i]) by {
            assert(y[i] == w[i]);
        }
        lemma_word_grows(a, y);
        assert((a + w).drop_last() =~= a + y);
        assert(!is_space(w[w.len() - 1]));
        assert((word_scan(a).1 + y).push(w.last()) =~= word_scan(a).1 + w);
    }
}

/// A word behind a blank is one more word.
pub proof fn lemma_words_more(a: Seq<char>, w: Seq<char>)
    requires
        unspaced(w),
        w.len() > 0,
    ensures
        words(a + seq![' '] + w) == words(a).push(w),
{
    let t = a.push(' ');
    assert(t.drop_last() =~= a);
    assert(is_space(' '));
    assert(word_scan(t).1 =~= Seq::<char>::empty());
    assert(word_scan(t).0 == words(a));
    lemma_word_grows(t, w);
    assert(t + w =~= a + seq![' '] + w);
    assert(word_scan(t).1 + w =~= w);
}

pub proof fn lemma_one_word(w: Seq<char>)
    requires
        unspaced(w),
        w.len() > 0,
    ensures
        words(w) == seq![w],
{
    let e = Seq::<char>::empty();
    lemma_word_grows(e, w);
    assert(e + w =~= w);
    assert(word_scan(e).1 + w =~= w);
    assert(words(w) =~= seq![w]);
}

} // verus!
