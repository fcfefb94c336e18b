//! Pages and reports that the server writes itself.

use crate::cli::{checks, passed, DoctorFacts};
use crate::router::render::{
    entry_line, html_char, html_text, json_char, json_text, listing, shown, url_text, with_lines,
    MAX_LISTING_BYTES,
};
use vstd::prelude::*;
use vstd::utf8::encode_utf8;

verus! {

/// Text stands in a page piece by piece: a character of markup as its name, and any other
/// as itself.
pub proof fn law_pages_show_the_text(a: Seq<char>, b: Seq<char>, c: char)
    ensures
        html_text(a + b) == html_text(a) + html_text(b),
        html_text(seq!['&']) == "&amp;"@,
        html_text(seq!['<']) == "&lt;"@,
        html_text(seq!['>']) == "&gt;"@,
        html_text(seq!['"']) == "&quot;"@,
        c != '&' && c != '<' && c != '>' && c != '"' ==> html_text(seq![c]) == seq![c],
    decreases b.len(),
{
    lemma_one_html('&');
    lemma_one_html('<');
    lemma_one_html('>');
    lemma_one_html('"');
    lemma_one_html(c);
    if b.len() == 0 {
        assert(a + b =~= a);
        assert(html_text(a) + html_text(b) =~= html_text(a));
    } else {
        let t = b.drop_last();
        law_pages_show_the_text(a, t, c);
        assert((a + b).drop_last() =~= a + t);
        assert((a + b).last() == b.last());
        assert(html_text(a) + html_text(t) + html_char(b.last()) =~= html_text(a) + (html_text(t)
            + html_char(b.last())));
    }
}

proof fn lemma_one_html(c: char)
    ensures
        html_text(seq![c]) == html_char(c),
{
    let s = seq![c];
    assert(s.drop_last() =~= Seq::<char>::empty());
    assert(html_text(s.drop_last()) =~= Seq::<char>::empty());
    assert(html_text(s) =~= html_char(c));
}

/// Text stands in a JSON string piece by piece: a quote and a backslash behind a backslash,
/// line breaks and tabulators as their letters, and what is no control character as itself.
pub proof fn law_json_shows_the_text(a: Seq<char>, b: Seq<char>, c: char)
    ensures
        json_text(a + b) == json_text(a) + json_text(b),
        json_text(seq!['"']) == seq!['\\', '"'],
        json_text(seq!['\\']) == seq!['\\', '\\'],
        json_text(seq!['\n']) == seq!['\\', 'n'],
        json_text(seq!['\r']) == seq!['\\', 'r'],
        json_text(seq!['\t']) == seq!['\\', 't'],
        c != '"' && c != '\\' && 0x20 <= (c as u32) && (c as u32) < 0x7f ==> json_text(seq![c])
            == seq![c],
    decreases b.len(),
{
    reveal_strlit("\\\"");
    reveal_strlit("\\\\");
    reveal_strlit("\\n");
    reveal_strlit("\\r");
    reveal_strlit("\\t");
    lemma_one_json('"');
    lemma_one_json('\\');
    lemma_one_json('\n');
    lemma_one_json('\r');
    lemma_one_json('\t');
    lemma_one_json(c);
    assert("\\\""@ =~= seq!['\\', '"']);
    assert("\\\\"@ =~= seq!['\\', '\\']);
    assert("\\n"@ =~= seq!['\\', 'n']);
    assert("\\r"@ =~= seq!['\\', 'r']);
    assert("\\t"@ =~= seq!['\\', 't']);
    if b.len() == 0 {
        assert(a + b =~= a);
        assert(json_text(a) + json_text(b) =~= json_text(a));
    } else {
        let t = b.drop_last();
        law_json_shows_the_text(a, t, c);
        assert((a + b).drop_last() =~= a + t);
        assert((a + b).last() == b.last());
        assert(json_text(a) + json_text(t) + json_char(b.last()) =~= json_text(a) + (json_text(t)
            + json_char(b.last())));
    }
}

proof fn lemma_one_json(c: char)
    ensures
        json_text(seq![c]) == json_char(c),
{
    let s = seq![c];
    assert(s.drop_last() =~= Seq::<char>::empty());
    assert(json_text(s.drop_last()) =~= Seq::<char>::empty());
    assert(json_text(s) =~= json_char(c));
}

/// The lines of entries, one behind the other.
pub open spec fn lines_of_entries(e: Seq<(Seq<char>, bool)>, i: int) -> Seq<u8>
    decreases e.len() - i,
{
    if i < 0 || i >= e.len() {
        Seq::empty()
    } else {
        let mark = if e[i].1 {
            "/"@
        } else {
            Seq::empty()
        };
        encode_utf8(
            "<li><a href=\""@ + url_text(e[i].0) + mark + "\">"@ + html_text(e[i].0) + mark
                + "</a></li>"@,
        ) + lines_of_entries(e, i + 1)
    }
}

proof fn lemma_lines_fit(page: Seq<u8>, e: Seq<(Seq<char>, bool)>, i: int)
    requires
        0 <= i <= e.len(),
        page.len() + lines_of_entries(e, i).len() <= MAX_LISTING_BYTES,
    ensures
        with_lines(page, e, i) == page + lines_of_entries(e, i),
    decreases e.len() - i,
{
    if i < e.len() {
        let line = encode_utf8(entry_line(e[i].0, e[i].1));
        assert(lines_of_entries(e, i) == line + lines_of_entries(e, i + 1));
        lemma_lines_fit(page + line, e, i + 1);
        assert(page + line + lines_of_entries(e, i + 1) =~= page + (line + lines_of_entries(
            e,
            i + 1,
        )));
    } else {
        assert(page + lines_of_entries(e, i) =~= page);
    }
}

/// A listing that fits links every entry that is shown under its name, and marks those that
/// are directories.
pub proof fn law_listings_link_their_entries(e: Seq<(Seq<char>, bool)>, deny_hidden: bool)
    requires
        encode_utf8("<!doctype html><meta charset=\"utf-8\"><title>Index</title><ul>"@).len()
            + lines_of_entries(shown(e, deny_hidden), 0).len() <= MAX_LISTING_BYTES,
    ensures
        listing(e, deny_hidden) == encode_utf8(
            "<!doctype html><meta charset=\"utf-8\"><title>Index</title><ul>"@,
        ) + lines_of_entries(shown(e, deny_hidden), 0) + encode_utf8("</ul>"@),
{
    lemma_lines_fit(
        encode_utf8("<!doctype html><meta charset=\"utf-8\"><title>Index</title><ul>"@),
        shown(e, deny_hidden),
        0,
    );
}

/// A deployment is healthy exactly where nothing that is looked at is amiss.
pub proof fn law_every_check_counts(f: DoctorFacts)
    ensures
        passed(checks(f)) == 8 <==> f.configuration && f.root && f.readable && f.workers && f.port
            && f.unit && f.tls && f.upstreams,
        passed(checks(f)) <= 8,
{
    reveal_with_fuel(passed, 9);
    let c = checks(f);
    let c7 = c.drop_last();
    let c6 = c7.drop_last();
    let c5 = c6.drop_last();
    let c4 = c5.drop_last();
    let c3 = c4.drop_last();
    let c2 = c3.drop_last();
    let c1 = c2.drop_last();
    assert(c1.drop_last().len() == 0);
    assert(c.last().1 == f.upstreams && c7.last().1 == f.tls && c6.last().1 == f.unit
        && c5.last().1 == f.port && c4.last().1 == f.workers && c3.last().1 == f.readable
        && c2.last().1 == f.root && c1.last().1 == f.configuration);
}

} // verus!
