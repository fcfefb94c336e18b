//! What the directives of a rule file do.

use crate::config::ip::cidr;
use crate::config::native::{distinct, native_rule};
use crate::config::scan::{pattern_ok, status};
use crate::config::types::{DirView, RedirectView, RewriteView};
use crate::config::veysrule::{rules, Rules};
use crate::laws::rule_lines::{
    ended, law_files_are_read_by_lines, lemma_native_words, lemma_one_more_line, lemma_spaced,
    plain_word, plain_words, spaced,
};
use crate::laws::texts::lemma_decimal_is_digits;
use crate::text::{
    contains_text, decimal, has_char, is_space, is_upper, law_decimal_reads_back, lines, lower,
};
use vstd::prelude::*;
use vstd::utf8::encode_utf8;

verus! {

proof fn lemma_keywords()
    ensures
        "header"@.len() == 6 && "header"@[0] == 'h' && plain_word("header"@),
        "add_header"@.len() == 10 && "add_header"@[0] == 'a' && plain_word("add_header"@),
        "remove_header"@.len() == 13 && "remove_header"@[0] == 'r' && plain_word("remove_header"@),
        "redirect"@.len() == 8 && "redirect"@[0] == 'r' && plain_word("redirect"@),
        "rewrite"@.len() == 7 && "rewrite"@[0] == 'r' && plain_word("rewrite"@),
        "allow"@.len() == 5 && "allow"@[0] == 'a' && plain_word("allow"@),
        "deny"@.len() == 4 && "deny"@[0] == 'd' && plain_word("deny"@),
        "methods"@.len() == 7 && "methods"@[0] == 'm' && plain_word("methods"@),
        "index"@.len() == 5 && "index"@[0] == 'i' && plain_word("index"@),
        "autoindex"@.len() == 9 && "autoindex"@[0] == 'a' && plain_word("autoindex"@),
        "cache"@.len() == 5 && "cache"@[0] == 'c' && plain_word("cache"@),
        "expires"@.len() == 7 && "expires"@[0] == 'e' && plain_word("expires"@),
        "mime"@.len() == 4 && "mime"@[0] == 'm' && plain_word("mime"@),
        "error_page"@.len() == 10 && "error_page"@[0] == 'e' && plain_word("error_page"@),
        "on"@.len() == 2 && plain_word("on"@),
        "off"@.len() == 3 && plain_word("off"@),
        "ip"@.len() == 2 && plain_word("ip"@),
{
    reveal_strlit("header");
    reveal_strlit("add_header");
    reveal_strlit("remove_header");
    reveal_strlit("redirect");
    reveal_strlit("rewrite");
    reveal_strlit("allow");
    reveal_strlit("deny");
    reveal_strlit("methods");
    reveal_strlit("index");
    reveal_strlit("autoindex");
    reveal_strlit("cache");
    reveal_strlit("expires");
    reveal_strlit("mime");
    reveal_strlit("error_page");
    reveal_strlit("on");
    reveal_strlit("off");
    reveal_strlit("ip");
}

/// What a line does is up to its words: it changes the rules of the directory, or it is
/// complained about.
proof fn lemma_line(l: Seq<Seq<char>>, ws: Seq<Seq<char>>, is_root: bool)
    requires
        plain_words(ws),
        ws.len() > 0,
    ensures
        ({
            let r = rules(l, is_root);
            let n = rules(l.push(spaced(ws)), is_root);
            &&& n.server == r.server
            &&& match native_rule(ws, r.dir) {
                Ok(e) => n.dir == e && n.complaints == r.complaints,
                Err(m) => n.dir == r.dir && n.complaints == r.complaints.push(
                    ((l.len() + 1) as usize, m),
                ),
            }
        }),
{
    let r = rules(l, is_root);
    lemma_native_words(ws, is_root, r.server, r.dir);
    lemma_one_more_line(l, spaced(ws), is_root);
}

/// A line was taken: the rules of the directory are these, and nothing else is new.
pub open spec fn taken(before: Rules, after: Rules, dir: DirView) -> bool {
    after.server == before.server && after.dir == dir && after.complaints == before.complaints
}

/// A line was refused: it changed nothing and is complained about.
pub open spec fn refused(before: Rules, after: Rules) -> bool {
    after.server == before.server && after.dir == before.dir && after.complaints.len()
        == before.complaints.len() + 1
}

proof fn lemma_plain_number(n: nat)
    ensures
        plain_word(decimal(n)),
{
    lemma_decimal_is_digits(n);
}

/// `redirect S T C` redirects from S to T with the status C, where that is a redirect.
pub proof fn law_redirect_lines(
    l: Seq<Seq<char>>,
    source: Seq<char>,
    target: Seq<char>,
    code: u16,
    is_root: bool,
)
    requires
        plain_word(source),
        plain_word(target),
    ensures
        ({
            let r = rules(l, is_root);
            let n = rules(
                l.push(spaced(seq!["redirect"@, source, target, decimal(code as nat)])),
                is_root,
            );
            &&& 300 <= code <= 399 ==> taken(
                r,
                n,
                DirView {
                    redirect: Some(RedirectView { source, target, status: code }),
                    ..r.dir
                },
            )
            &&& !(300 <= code <= 399) ==> refused(r, n)
        }),
{
    let ws = seq!["redirect"@, source, target, decimal(code as nat)];
    lemma_keywords();
    lemma_plain_number(code as nat);
    law_decimal_reads_back(code as nat, u16::MAX as nat);
    lemma_line(l, ws, is_root);
}

/// `rewrite P R` and `rewrite P R C` add a rewrite from P to R, behind the others.
pub proof fn law_rewrite_lines(
    l: Seq<Seq<char>>,
    pattern: Seq<char>,
    replacement: Seq<char>,
    code: u16,
    is_root: bool,
)
    requires
        plain_word(pattern),
        plain_word(replacement),
        pattern_ok(pattern),
        encode_utf8(pattern).len() <= 4096,
        encode_utf8(replacement).len() <= 4096,
        100 <= code <= 599,
        rules(l, is_root).dir.rewrites.len() < 128,
    ensures
        ({
            let r = rules(l, is_root);
            &&& taken(
                r,
                rules(l.push(spaced(seq!["rewrite"@, pattern, replacement])), is_root),
                DirView {
                    rewrites: r.dir.rewrites.push(
                        RewriteView { pattern, replacement, status: None },
                    ),
                    ..r.dir
                },
            )
            &&& taken(
                r,
                rules(
                    l.push(spaced(seq!["rewrite"@, pattern, replacement, decimal(code as nat)])),
                    is_root,
                ),
                DirView {
                    rewrites: r.dir.rewrites.push(
                        RewriteView { pattern, replacement, status: Some(code) },
                    ),
                    ..r.dir
                },
            )
        }),
{
    lemma_keywords();
    lemma_plain_number(code as nat);
    law_decimal_reads_back(code as nat, u16::MAX as nat);
    lemma_line(l, seq!["rewrite"@, pattern, replacement], is_root);
    lemma_line(l, seq!["rewrite"@, pattern, replacement, decimal(code as nat)], is_root);
}

/// `header N V` sets a header, `add_header N V` adds one and `remove_header N` removes one,
/// where N is the name of a header.
pub proof fn law_header_lines(
    l: Seq<Seq<char>>,
    name: Seq<char>,
    value: Seq<char>,
    is_root: bool,
)
    requires
        plain_word(name),
        plain_word(value),
    ensures
        ({
            let r = rules(l, is_root);
            let set = rules(l.push(spaced(seq!["header"@, name, value])), is_root);
            let add = rules(l.push(spaced(seq!["add_header"@, name, value])), is_root);
            let cut = rules(l.push(spaced(seq!["remove_header"@, name])), is_root);
            if crate::config::scan::header_name_ok(name) {
                &&& taken(r, set, DirView { headers: r.dir.headers.push((name, value)), ..r.dir })
                &&& taken(
                    r,
                    add,
                    DirView { add_headers: r.dir.add_headers.push((name, value)), ..r.dir },
                )
                &&& taken(
                    r,
                    cut,
                    DirView { remove_headers: r.dir.remove_headers.push(name), ..r.dir },
                )
            } else {
                refused(r, set) && refused(r, add) && refused(r, cut)
            }
        }),
{
    lemma_keywords();
    lemma_line(l, seq!["header"@, name, value], is_root);
    lemma_line(l, seq!["add_header"@, name, value], is_root);
    lemma_line(l, seq!["remove_header"@, name], is_root);
}

/// `allow ip N` and `deny ip N` add the network N to those that are let in and to those that
/// are turned away.
pub proof fn law_access_lines(l: Seq<Seq<char>>, network: Seq<char>, is_root: bool)
    requires
        plain_word(network),
    ensures
        ({
            let r = rules(l, is_root);
            let allow = rules(l.push(spaced(seq!["allow"@, "ip"@, network])), is_root);
            let deny = rules(l.push(spaced(seq!["deny"@, "ip"@, network])), is_root);
            match cidr(network) {
                Ok(n) => taken(
                    r,
                    allow,
                    DirView { allow_networks: r.dir.allow_networks.push(n), ..r.dir },
                ) && taken(
                    r,
                    deny,
                    DirView { deny_networks: r.dir.deny_networks.push(n), ..r.dir },
                ),
                Err(_) => refused(r, allow) && refused(r, deny),
            }
        }),
{
    lemma_keywords();
    lemma_line(l, seq!["allow"@, "ip"@, network], is_root);
    lemma_line(l, seq!["deny"@, "ip"@, network], is_root);
}

proof fn lemma_distinct(s: Seq<Seq<char>>)
    ensures
        forall|x: Seq<char>| distinct(s).contains(x) <==> s.contains(x),
        forall|i: int, j: int|
            0 <= i < j < distinct(s).len() ==> #[trigger] distinct(s)[i] != #[trigger] distinct(s)[j],
    decreases s.len(),
{
    if s.len() > 0 {
        let t = s.drop_last();
        let r = distinct(t);
        let d = distinct(s);
        lemma_distinct(t);
        assert forall|x: Seq<char>| d.contains(x) <==> s.contains(x) by {
            if s.contains(x) {
                let i = choose|i: int| 0 <= i < s.len() && s[i] == x;
                if i < t.len() {
                    assert(t[i] == x);
                    assert(t.contains(x));
                    assert(r.contains(x));
                    let j = choose|j: int| 0 <= j < r.len() && r[j] == x;
                    assert(d[j] == x);
                } else if !r.contains(x) {
                    assert(d[r.len() as int] == x);
                }
            }
            if d.contains(x) {
                let j = choose|j: int| 0 <= j < d.len() && d[j] == x;
                if j < r.len() {
                    assert(r[j] == x);
                    assert(t.contains(x));
                    let i = choose|i: int| 0 <= i < t.len() && t[i] == x;
                    assert(s[i] == x);
                } else {
                    assert(s[s.len() - 1] == x);
                }
            }
        }
        assert forall|i: int, j: int| 0 <= i < j < d.len() implies #[trigger] d[i]
            != #[trigger] d[j] by {
            if j < r.len() {
                assert(r[i] != r[j]);
            } else {
                assert(r[i] == d[i]);
            }
        }
    }
}

/// `methods M ...` admits the methods that it names, each once.
pub proof fn law_method_lines(l: Seq<Seq<char>>, m: Seq<Seq<char>>, is_root: bool)
    requires
        m.len() > 0,
        plain_words(m),
        forall|i: int, j: int|
            0 <= i < m.len() && 0 <= j < m[i].len() ==> is_upper(#[trigger] m[i][j]),
    ensures
        ({
            let r = rules(l, is_root);
            let n = rules(l.push(spaced(seq!["methods"@] + m)), is_root);
            &&& n.dir.methods is Some
            &&& forall|x: Seq<char>| n.dir.methods.unwrap().contains(x) <==> m.contains(x)
            &&& taken(r, n, DirView { methods: n.dir.methods, ..r.dir })
        }),
{
    let ws = seq!["methods"@] + m;
    lemma_keywords();
    assert forall|i: int| 0 <= i < ws.len() implies plain_word(#[trigger] ws[i]) by {
        if i > 0 {
            assert(ws[i] == m[i - 1]);
        }
    }
    lemma_line(l, ws, is_root);
    assert forall|i: int| 1 <= i < ws.len() implies crate::config::native::method_ok(
        #[trigger] ws[i],
    ) by {
        assert(ws[i] == m[i - 1]);
    }
    assert(crate::config::native::arguments(ws) =~= m);
    lemma_distinct(m);
}

/// `index F ...` names the index files, in the order in which they are looked for.
pub proof fn law_index_lines(l: Seq<Seq<char>>, f: Seq<Seq<char>>, is_root: bool)
    requires
        f.len() > 0,
        plain_words(f),
        forall|i: int|
            0 <= i < f.len() ==> !has_char(#[trigger] f[i], '/') && f[i] != "."@ && f[i] != ".."@,
    ensures
        ({
            let r = rules(l, is_root);
            taken(
                r,
                rules(l.push(spaced(seq!["index"@] + f)), is_root),
                DirView { index_files: Some(f), ..r.dir },
            )
        }),
{
    let ws = seq!["index"@] + f;
    lemma_keywords();
    assert forall|i: int| 0 <= i < ws.len() implies plain_word(#[trigger] ws[i]) by {
        if i > 0 {
            assert(ws[i] == f[i - 1]);
        }
    }
    lemma_line(l, ws, is_root);
    assert forall|i: int| 1 <= i < ws.len() implies crate::config::native::simple_name(
        #[trigger] ws[i],
    ) by {
        assert(ws[i] == f[i - 1]);
        assert(plain_word(f[i - 1]));
    }
    assert(crate::config::native::arguments(ws) =~= f);
}

/// `autoindex` and `cache` are switched on by `on` and off by `off`.
pub proof fn law_switch_lines(l: Seq<Seq<char>>, word: Seq<char>, is_root: bool)
    requires
        plain_word(word),
    ensures
        ({
            let r = rules(l, is_root);
            let a = rules(l.push(spaced(seq!["autoindex"@, word])), is_root);
            let c = rules(l.push(spaced(seq!["cache"@, word])), is_root);
            if word == "on"@ || word == "off"@ {
                &&& taken(r, a, DirView { autoindex: Some(word == "on"@), ..r.dir })
                &&& taken(r, c, DirView { cache: Some(word == "on"@), ..r.dir })
            } else {
                refused(r, a) && refused(r, c)
            }
        }),
{
    lemma_keywords();
    lemma_line(l, seq!["autoindex"@, word], is_root);
    lemma_line(l, seq!["cache"@, word], is_root);
}

/// `expires` takes a number of seconds, minutes, hours, days or weeks.
pub proof fn law_expiry_lines(l: Seq<Seq<char>>, n: u64, unit: char, is_root: bool)
    requires
        plain_word(seq![unit]),
    ensures
        ({
            let r = rules(l, is_root);
            let a = rules(l.push(spaced(seq!["expires"@, decimal(n as nat).push(unit)])), is_root);
            let factor = if unit == 's' {
                1int
            } else if unit == 'm' {
                60
            } else if unit == 'h' {
                60 * 60int
            } else if unit == 'd' {
                24 * 60 * 60int
            } else if unit == 'w' {
                7 * 24 * 60 * 60int
            } else {
                0
            };
            if factor > 0 && n * factor <= u64::MAX {
                taken(r, a, DirView { expires: Some((n * factor) as u64), ..r.dir })
            } else {
                refused(r, a)
            }
        }),
{
    let w = decimal(n as nat).push(unit);
    let ws = seq!["expires"@, w];
    lemma_keywords();
    lemma_plain_number(n as nat);
    assert(plain_word(w)) by {
        assert(plain_word(seq![unit]));
        assert(seq![unit][0] == unit);
        assert forall|i: int| 0 <= i < w.len() implies !is_space(#[trigger] w[i]) && w[i] != '"'
            && w[i] != '#' && w[i] != '=' && w[i] != '\0' by {
            if i < decimal(n as nat).len() {
                assert(w[i] == decimal(n as nat)[i]);
            }
        }
    }
    law_decimal_reads_back(n as nat, u64::MAX as nat);
    assert(w.drop_last() =~= decimal(n as nat));
    lemma_line(l, ws, is_root);
}

/// `mime .E T` gives files with the extension E, in small letters, the type T.
pub proof fn law_mime_lines(l: Seq<Seq<char>>, ext: Seq<char>, kind: Seq<char>, is_root: bool)
    requires
        plain_word(ext),
        plain_word(kind),
        has_char(kind, '/'),
    ensures
        ({
            let r = rules(l, is_root);
            taken(
                r,
                rules(l.push(spaced(seq!["mime"@, seq!['.'] + ext, kind])), is_root),
                DirView {
                    mime_types: r.dir.mime_types.push((seq!['.'] + lower(ext), kind)),
                    ..r.dir
                },
            )
        }),
{
    let w = seq!['.'] + ext;
    lemma_keywords();
    assert(plain_word(w)) by {
        assert forall|i: int| 0 <= i < w.len() implies !is_space(#[trigger] w[i]) && w[i] != '"'
            && w[i] != '#' && w[i] != '=' && w[i] != '\0' by {
            if i > 0 {
                assert(w[i] == ext[i - 1]);
            }
        }
    }
    assert(lower(w) =~= seq!['.'] + lower(ext));
    lemma_line(l, seq!["mime"@, w, kind], is_root);
}

/// `error_page C P` gives the status C the page P, which is absolute and never leads up.
pub proof fn law_error_page_lines(
    l: Seq<Seq<char>>,
    code: u16,
    path: Seq<char>,
    is_root: bool,
)
    requires
        plain_word(path),
    ensures
        ({
            let r = rules(l, is_root);
            let n = rules(
                l.push(spaced(seq!["error_page"@, decimal(code as nat), path])),
                is_root,
            );
            if 100 <= code <= 599 && path[0] == '/' && !contains_text(path, ".."@) {
                taken(r, n, DirView { error_pages: r.dir.error_pages.push((code, path)), ..r.dir })
            } else {
                refused(r, n)
            }
        }),
{
    lemma_keywords();
    lemma_plain_number(code as nat);
    law_decimal_reads_back(code as nat, u16::MAX as nat);
    lemma_line(l, seq!["error_page"@, decimal(code as nat), path], is_root);
}

/// A file of one line has the rules of that line.
pub proof fn lemma_one_line_file(ws: Seq<Seq<char>>, is_root: bool)
    requires
        plain_words(ws),
        ws.len() > 0,
    ensures
        rules(lines(ended(seq![spaced(ws)])), is_root) == rules(
            Seq::<Seq<char>>::empty().push(spaced(ws)),
            is_root,
        ),
{
    let l = seq![spaced(ws)];
    lemma_spaced(ws);
    assert forall|i: int| 0 <= i < l.len() implies !has_char(#[trigger] l[i], '\n') && !has_char(
        l[i],
        '\r',
    ) by {
        assert(is_space('\n') && is_space('\r'));
    }
    law_files_are_read_by_lines(l);
    assert(l =~= Seq::<Seq<char>>::empty().push(spaced(ws)));
}

} // verus!
