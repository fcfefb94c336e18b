//! How the lines of a rule file are read.

use crate::config::native::native_rule;
use crate::config::scan::{
    bare_at, bare_find, has_bare, quote_scan, strip_comment, token_scan, tokens, QuoteState,
    TokenState,
};
use crate::config::types::{DirView, ServerView};
use crate::config::veysrule::{rule_line, rules, setting, LineEffect, Rules};
use crate::laws::texts::{
    lemma_cut, lemma_one_word, lemma_trim_blank_before, lemma_trim_is, lemma_words_more, unspaced,
};
use crate::text::{
    chomp, has_char, is_space, lines, split, trim, trim_end, trim_start, word_scan, words,
};
use vstd::prelude::*;

verus! {

/// A word of a rule line that stands for itself: no white space, quote, comment mark,
/// equals sign or zero character.
pub open spec fn plain_word(w: Seq<char>) -> bool {
    w.len() > 0 && forall|i: int|
        0 <= i < w.len() ==> !is_space(#[trigger] w[i]) && w[i] != '"' && w[i] != '#' && w[i] != '='
            && w[i] != '\0'
}

pub open spec fn plain_words(ws: Seq<Seq<char>>) -> bool {
    forall|i: int| 0 <= i < ws.len() ==> plain_word(#[trigger] ws[i])
}

/// The words with a blank between each two.
pub open spec fn spaced(ws: Seq<Seq<char>>) -> Seq<char>
    decreases ws.len(),
{
    if ws.len() == 0 {
        Seq::empty()
    } else if ws.len() == 1 {
        ws[0]
    } else {
        spaced(ws.drop_last()) + seq![' '] + ws.last()
    }
}

/// Neither a quote nor a comment mark.
pub open spec fn unmarked(s: Seq<char>) -> bool {
    forall|i: int| 0 <= i < s.len() ==> #[trigger] s[i] != '"' && s[i] != '#'
}

proof fn lemma_unmarked_part(s: Seq<char>, i: int)
    requires
        unmarked(s),
        0 <= i <= s.len(),
    ensures
        unmarked(s.subrange(0, i)),
{
}

proof fn lemma_never_quoted(s: Seq<char>)
    requires
        unmarked(s),
    ensures
        quote_scan(s) == (QuoteState { quoted: false, escaped: false }),
    decreases s.len(),
{
    if s.len() > 0 {
        assert(s.drop_last() =~= s.subrange(0, s.len() - 1));
        lemma_unmarked_part(s, s.len() - 1);
        lemma_never_quoted(s.drop_last());
        assert(s[s.len() - 1] != '"');
    }
}

proof fn lemma_bare_find_none(s: Seq<char>, c: char, from: int)
    requires
        0 <= from,
        !has_char(s, c),
    ensures
        bare_find(s, c, from) == s.len(),
    decreases s.len() - from,
{
    if from < s.len() {
        assert(s[from] != c);
        lemma_bare_find_none(s, c, from + 1);
    }
}

proof fn lemma_no_comment(s: Seq<char>)
    requires
        unmarked(s),
    ensures
        strip_comment(s) == s,
{
    assert(!has_char(s, '#'));
    lemma_bare_find_none(s, '#', 0);
    assert(strip_comment(s) =~= s);
}

proof fn lemma_scan_is_words(s: Seq<char>)
    requires
        unmarked(s),
    ensures
        token_scan(s) == (TokenState {
            done: word_scan(s).0,
            cur: word_scan(s).1,
            quote: QuoteState { quoted: false, escaped: false },
        }),
    decreases s.len(),
{
    if s.len() > 0 {
        assert(s.drop_last() =~= s.subrange(0, s.len() - 1));
        lemma_unmarked_part(s, s.len() - 1);
        lemma_scan_is_words(s.drop_last());
        assert(s[s.len() - 1] != '"');
    }
}

/// A line without quotes and comments is read word by word.
pub proof fn law_plain_lines_are_their_words(s: Seq<char>)
    requires
        unmarked(s),
    ensures
        tokens(s) == Ok::<_, Seq<char>>(words(s)),
{
    lemma_no_comment(s);
    lemma_scan_is_words(s);
}

pub proof fn lemma_spaced(ws: Seq<Seq<char>>)
    requires
        plain_words(ws),
        ws.len() > 0,
    ensures
        words(spaced(ws)) == ws,
        spaced(ws).len() > 0,
        spaced(ws)[0] == ws[0][0],
        spaced(ws).last() == ws.last().last(),
        forall|i: int|
            0 <= i < spaced(ws).len() ==> #[trigger] spaced(ws)[i] != '"' && spaced(ws)[i] != '#'
                && spaced(ws)[i] != '=' && (spaced(ws)[i] == ' ' || !is_space(spaced(ws)[i])),
    decreases ws.len(),
{
    assert(plain_word(ws[ws.len() - 1]));
    let w = ws.last();
    assert(unspaced(w));
    if ws.len() == 1 {
        lemma_one_word(w);
        assert(words(spaced(ws)) =~= ws);
    } else {
        let t = ws.drop_last();
        assert forall|i: int| 0 <= i < t.len() implies plain_word(#[trigger] t[i]) by {
            assert(t[i] == ws[i]);
        }
        lemma_spaced(t);
        lemma_words_more(spaced(t), w);
        assert(t.push(w) =~= ws);
        let s = spaced(ws);
        assert forall|i: int| 0 <= i < s.len() implies #[trigger] s[i] != '"' && s[i] != '#' && s[i]
            != '=' && (s[i] == ' ' || !is_space(s[i])) by {
            if i < spaced(t).len() {
                assert(s[i] == spaced(t)[i]);
            } else if i > spaced(t).len() {
                assert(s[i] == w[i - spaced(t).len() - 1]);
            }
        }
    }
}

/// What a rule line of plain words does is up to its words.
pub proof fn lemma_native_words(ws: Seq<Seq<char>>, is_root: bool, s: ServerView, d: DirView)
    requires
        plain_words(ws),
        ws.len() > 0,
    ensures
        rule_line(spaced(ws), is_root, s, d) == (match native_rule(ws, d) {
            Ok(e) => LineEffect { server: s, dir: e, complaint: None },
            Err(m) => LineEffect { server: s, dir: d, complaint: Some(m) },
        }),
{
    reveal(rule_line);
    let line = spaced(ws);
    lemma_spaced(ws);
    assert(plain_word(ws[0]) && plain_word(ws[ws.len() - 1]));
    assert(unmarked(line));
    lemma_no_comment(line);
    assert(!is_space(ws.last()[ws.last().len() - 1]));
    lemma_trim_is(line);
    assert(!has_bare(line, '='));
    law_plain_lines_are_their_words(line);
}

/// The lines of a rule file take effect one after the other.
pub proof fn lemma_one_more_line(l: Seq<Seq<char>>, line: Seq<char>, is_root: bool)
    ensures
        ({
            let r = rules(l, is_root);
            let e = rule_line(line, is_root, r.server, r.dir);
            rules(l.push(line), is_root) == (Rules {
                server: e.server,
                dir: e.dir,
                complaints: match e.complaint {
                    Some(m) => r.complaints.push(((l.len() + 1) as usize, m)),
                    None => r.complaints,
                },
            })
        }),
{
    assert(l.push(line).drop_last() =~= l);
}

/// The lines, each with its end.
pub open spec fn ended(l: Seq<Seq<char>>) -> Seq<char>
    decreases l.len(),
{
    if l.len() == 0 {
        Seq::empty()
    } else {
        ended(l.drop_last()) + l.last() + seq!['\n']
    }
}

proof fn lemma_ended_split(l: Seq<Seq<char>>)
    requires
        forall|i: int| 0 <= i < l.len() ==> !has_char(#[trigger] l[i], '\n'),
    ensures
        split(ended(l), '\n') == l.push(Seq::empty()),
    decreases l.len(),
{
    let e = Seq::<char>::empty();
    if l.len() == 0 {
        assert(split(ended(l), '\n') =~= seq![e]);
        assert(l.push(e) =~= seq![e]);
    } else {
        let t = l.drop_last();
        assert forall|i: int| 0 <= i < t.len() implies !has_char(#[trigger] t[i], '\n') by {
            assert(t[i] == l[i]);
        }
        lemma_ended_split(t);
        let a = ended(t);
        let w = l.last();
        assert(!has_char(l[l.len() - 1], '\n'));
        crate::text::lemma_split_extends(a, w, '\n');
        assert(split(a, '\n').drop_last() =~= t);
        assert(e + w =~= w);
        assert(split(a + w, '\n') == t.push(w));
        assert(t.push(w) =~= l);
        let s = ended(l);
        assert(s.drop_last() =~= a + w);
        assert(s.last() == '\n');
    }
}

/// A file is read line by line.
pub proof fn law_files_are_read_by_lines(l: Seq<Seq<char>>)
    requires
        forall|i: int|
            0 <= i < l.len() ==> !has_char(#[trigger] l[i], '\n') && !has_char(l[i], '\r'),
    ensures
        lines(ended(l)) == l,
{
    lemma_ended_split(l);
    let p = split(ended(l), '\n');
    assert(p.last().len() == 0);
    assert forall|i: int| 0 <= i < l.len() implies chomp(p[i]) == l[i] by {
        assert(!has_char(l[i], '\r'));
        if l[i].len() > 0 {
            assert(l[i][l[i].len() - 1] != '\r');
        }
    }
    assert(lines(ended(l)) =~= l);
}

/// What a comment mark begins is not read, nor is an empty line.
pub proof fn law_comments_have_no_effect(
    l: Seq<Seq<char>>,
    ws: Seq<Seq<char>>,
    text: Seq<char>,
    is_root: bool,
)
    requires
        plain_words(ws),
        ws.len() > 0,
    ensures
        rules(l.push(spaced(ws) + seq!['#'] + text), is_root) == rules(l.push(spaced(ws)), is_root),
        rules(l.push(seq!['#'] + text), is_root) == rules(l, is_root),
        rules(l.push(Seq::empty()), is_root) == rules(l, is_root),
{
    let a = spaced(ws);
    lemma_spaced(ws);
    let s = a + seq!['#'] + text;
    let e = Seq::<char>::empty();
    lemma_bare_find_at(s, a);
    lemma_bare_find_at(seq!['#'] + text, e);
    assert(strip_comment(s) =~= a);
    assert(e + seq!['#'] + text =~= seq!['#'] + text);
    assert(strip_comment(seq!['#'] + text) =~= e);
    assert(unmarked(a));
    lemma_no_comment(a);
    lemma_no_comment(e);
    let r = rules(l, is_root);
    reveal(rule_line);
    lemma_one_more_line(l, s, is_root);
    lemma_one_more_line(l, a, is_root);
    lemma_one_more_line(l, seq!['#'] + text, is_root);
    lemma_one_more_line(l, e, is_root);
    assert(trim(e).len() == 0);
}

proof fn lemma_bare_find_from(s: Seq<char>, a: Seq<char>, from: int)
    requires
        unmarked(a),
        a.len() < s.len(),
        s.subrange(0, a.len() as int) == a,
        s[a.len() as int] == '#',
        0 <= from <= a.len(),
    ensures
        bare_find(s, '#', from) == a.len(),
    decreases a.len() - from,
{
    if from < a.len() {
        assert(s[from] == s.subrange(0, a.len() as int)[from]);
        assert(a[from] != '#');
        lemma_bare_find_from(s, a, from + 1);
    } else {
        lemma_never_quoted(a);
        assert(bare_at(s, '#', from));
    }
}

proof fn lemma_bare_find_at(s: Seq<char>, a: Seq<char>)
    requires
        unmarked(a),
        a.len() < s.len(),
        s.subrange(0, a.len() as int) =~= a,
        s[a.len() as int] == '#',
    ensures
        bare_find(s, '#', 0) == a.len(),
{
    lemma_bare_find_from(s, a, 0);
}

/// A value behind an equals sign sets what stands before it.
pub proof fn lemma_setting_line(
    k: Seq<char>,
    v: Seq<char>,
    is_root: bool,
    s: ServerView,
    d: DirView,
)
    requires
        plain_word(k),
        unmarked(v),
        v.len() > 0,
        !is_space(v[0]),
        !is_space(v.last()),
    ensures
        rule_line(k + " = "@ + v, is_root, s, d) == setting(k, v, is_root, s, d),
{
    reveal(rule_line);
    reveal_strlit(" = ");
    assert(" = "@ =~= seq![' ', '=', ' ']);
    let line = k + " = "@ + v;
    assert forall|i: int| 0 <= i < line.len() implies #[trigger] line[i] != '"' && line[i] != '#' by {
        if i < k.len() {
            assert(line[i] == k[i]);
        } else if i >= k.len() + 3 {
            assert(line[i] == v[i - k.len() - 3]);
        }
    }
    lemma_no_comment(line);
    assert(line[0] == k[0]);
    assert(line.last() == v.last());
    lemma_trim_is(line);
    let p = k.len() + 1;
    lemma_unmarked_part(line, p as int);
    lemma_never_quoted(line.subrange(0, p as int));
    assert(bare_at(line, '=', p as int));
    let a = k + seq![' '];
    let b = seq![' '] + v;
    assert(line =~= a + seq!['='] + b);
    assert forall|i: int| 0 <= i < a.len() implies a[i] != '=' by {
        if i < k.len() {
            assert(a[i] == k[i]);
        }
    }
    lemma_cut(a, '=', b);
    lemma_trim_blank_before(v);
    assert(a.drop_last() =~= k);
    assert(is_space(' '));
    assert(!is_space(k[0]) && !is_space(k[k.len() - 1]));
    assert(trim_start(a) == a);
    assert(trim_end(a) == trim_end(k));
    assert(trim(a) == k);
}

} // verus!
