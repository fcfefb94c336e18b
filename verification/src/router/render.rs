//! Text that is put into pages and logs.

use crate::bytes::{bytes_of, push_bytes};
use crate::server::response::{hexadecimal, hexadecimal_of};
use crate::text::{chars_of, is_text, push_str, push_text, string_of};
use vstd::prelude::*;
use vstd::utf8::encode_utf8;

verus! {

/// The largest directory listing, in bytes.
pub const MAX_LISTING_BYTES: usize = 1048576;

/// One character of a page.
pub open spec fn html_char(c: char) -> Seq<char> {
    if c == '&' {
        "&amp;"@
    } else if c == '<' {
        "&lt;"@
    } else if c == '>' {
        "&gt;"@
    } else if c == '"' {
        "&quot;"@
    } else {
        seq![c]
    }
}

/// A text as it stands in a page.
pub open spec fn html_text(s: Seq<char>) -> Seq<char>
    decreases s.len(),
{
    if s.len() == 0 {
        s
    } else {
        html_text(s.drop_last()) + html_char(s.last())
    }
}

/// An escaped text holds no character that could open or close markup.
pub proof fn law_escaped_text_is_inert(s: Seq<char>, i: int)
    requires
        0 <= i < html_text(s).len(),
    ensures
        html_text(s)[i] != '<',
        html_text(s)[i] != '>',
        html_text(s)[i] != '"',
    decreases s.len(),
{
    let head = html_text(s.drop_last());
    if i < head.len() {
        law_escaped_text_is_inert(s.drop_last(), i);
    } else {
        reveal_strlit("&amp;");
        reveal_strlit("&lt;");
        reveal_strlit("&gt;");
        reveal_strlit("&quot;");
        assert(html_text(s)[i] == html_char(s.last())[i - head.len()]);
    }
}

/// A text as it stands in a page.
pub fn html_escape(value: &Vec<char>) -> (r: Vec<char>)
    ensures
        r@ == html_text(value@),
{
    let mut r: Vec<char> = Vec::new();
    let mut i: usize = 0;
    assert(value@.subrange(0, 0) =~= Seq::<char>::empty());
    while i < value.len()
        invariant
            i <= value@.len(),
            r@ == html_text(value@.subrange(0, i as int)),
        decreases value@.len() - i,
    {
        assert(value@.subrange(0, i + 1).drop_last() =~= value@.subrange(0, i as int));
        let c = value[i];
        if c == '&' {
            push_str(&mut r, "&amp;");
        } else if c == '<' {
            push_str(&mut r, "&lt;");
        } else if c == '>' {
            push_str(&mut r, "&gt;");
        } else if c == '"' {
            push_str(&mut r, "&quot;");
        } else {
            let ghost before = r@;
            r.push(c);
            assert(r@ =~= before + seq![c]);
        }
        i = i + 1;
    }
    assert(value@.subrange(0, value@.len() as int) =~= value@);
    r
}

pub open spec fn hex_upper(n: int) -> char {
    if n < 10 {
        (n + 48) as char
    } else {
        (n + 55) as char
    }
}

/// One byte of a link.
pub open spec fn url_byte(b: u8) -> Seq<char> {
    if (48 <= b <= 57) || (65 <= b <= 90) || (97 <= b <= 122) || b == 45 || b == 95 || b == 46 || b
        == 126 {
        seq![b as char]
    } else {
        seq!['%', hex_upper(b as int / 16), hex_upper(b as int % 16)]
    }
}

pub open spec fn url_bytes(b: Seq<u8>) -> Seq<char>
    decreases b.len(),
{
    if b.len() == 0 {
        Seq::empty()
    } else {
        url_bytes(b.drop_last()) + url_byte(b.last())
    }
}

/// A name as it stands in a link.
pub open spec fn url_text(s: Seq<char>) -> Seq<char> {
    url_bytes(encode_utf8(s))
}

fn hex_upper_of(n: u8) -> (c: char)
    requires
        n < 16,
    ensures
        c == hex_upper(n as int),
{
    if n < 10 {
        (n + 48) as char
    } else {
        (n + 55) as char
    }
}

/// A name as it stands in a link.
pub fn url_encode_path(value: &str) -> (r: Vec<char>)
    ensures
        r@ == url_text(value@),
{
    let v = bytes_of(value);
    let mut r: Vec<char> = Vec::new();
    let mut i: usize = 0;
    assert(v@.subrange(0, 0) =~= Seq::<u8>::empty());
    while i < v.len()
        invariant
            i <= v@.len(),
            r@ == url_bytes(v@.subrange(0, i as int)),
        decreases v@.len() - i,
    {
        assert(v@.subrange(0, i + 1).drop_last() =~= v@.subrange(0, i as int));
        let b: u8 = v[i];
        let ghost before = r@;
        if (48 <= b && b <= 57) || (65 <= b && b <= 90) || (97 <= b && b <= 122) || b == 45 || b
            == 95 || b == 46 || b == 126 {
            r.push(b as char);
        } else {
            r.push('%');
            r.push(hex_upper_of(b / 16));
            r.push(hex_upper_of(b % 16));
        }
        assert(r@ =~= before + url_byte(b));
        i = i + 1;
    }
    assert(v@.subrange(0, v@.len() as int) =~= v@);
    r
}

pub open spec fn is_control(c: char) -> bool {
    c as u32 <= 0x1f || 0x7f <= c as u32 <= 0x9f
}

/// A code as four hexadecimal digits.
pub open spec fn four_hex(n: nat) -> Seq<char> {
    let h = hexadecimal(n);
    if h.len() == 1 {
        "000"@ + h
    } else if h.len() == 2 {
        "00"@ + h
    } else if h.len() == 3 {
        "0"@ + h
    } else {
        h
    }
}

/// One character of a JSON string.
pub open spec fn json_char(c: char) -> Seq<char> {
    if c == '"' {
        "\\\""@
    } else if c == '\\' {
        "\\\\"@
    } else if c == '\n' {
        "\\n"@
    } else if c == '\r' {
        "\\r"@
    } else if c == '\t' {
        "\\t"@
    } else if is_control(c) {
        "\\u"@ + four_hex(c as u32 as nat)
    } else {
        seq![c]
    }
}

/// A text as it stands in a JSON string.
pub open spec fn json_text(s: Seq<char>) -> Seq<char>
    decreases s.len(),
{
    if s.len() == 0 {
        s
    } else {
        json_text(s.drop_last()) + json_char(s.last())
    }
}

/// A text as it stands in a JSON string.
pub fn json_escape(value: &str) -> (r: Vec<char>)
    ensures
        r@ == json_text(value@),
{
    let v = chars_of(value);
    let mut r: Vec<char> = Vec::new();
    let mut i: usize = 0;
    assert(v@.subrange(0, 0) =~= Seq::<char>::empty());
    while i < v.len()
        invariant
            v@ == value@,
            i <= v@.len(),
            r@ == json_text(v@.subrange(0, i as int)),
        decreases v@.len() - i,
    {
        assert(v@.subrange(0, i + 1).drop_last() =~= v@.subrange(0, i as int));
        let c = v[i];
        let n: u32 = c as u32;
        let ghost before = r@;
        if c == '"' {
            push_str(&mut r, "\\\"");
        } else if c == '\\' {
            push_str(&mut r, "\\\\");
        } else if c == '\n' {
            push_str(&mut r, "\\n");
        } else if c == '\r' {
            push_str(&mut r, "\\r");
        } else if c == '\t' {
            push_str(&mut r, "\\t");
        } else if n <= 0x1f || (0x7f <= n && n <= 0x9f) {
            let h = hexadecimal_of(n as u64);
            push_str(&mut r, "\\u");
            if h.len() == 1 {
                push_str(&mut r, "000");
            } else if h.len() == 2 {
                push_str(&mut r, "00");
            } else if h.len() == 3 {
                push_str(&mut r, "0");
            }
            push_text(&mut r, &h);
            assert(r@ =~= before + json_char(c));
        } else {
            r.push(c);
            assert(r@ =~= before + seq![c]);
        }
        i = i + 1;
    }
    assert(v@.subrange(0, v@.len() as int) =~= v@);
    r
}

/// The order of texts by their characters.
pub open spec fn text_before(a: Seq<char>, b: Seq<char>) -> bool
    decreases a.len(),
{
    if b.len() == 0 {
        false
    } else if a.len() == 0 {
        true
    } else if a[0] != b[0] {
        (a[0] as u32) < (b[0] as u32)
    } else {
        text_before(a.subrange(1, a.len() as int), b.subrange(1, b.len() as int))
    }
}

fn is_before(a: &Vec<char>, b: &Vec<char>) -> (r: bool)
    ensures
        r == text_before(a@, b@),
{
    let mut i: usize = 0;
    assert(a@.subrange(0, a@.len() as int) =~= a@);
    assert(b@.subrange(0, b@.len() as int) =~= b@);
    while i < a.len() && i < b.len()
        invariant
            i <= a@.len(),
            i <= b@.len(),
            text_before(a@.subrange(i as int, a@.len() as int), b@.subrange(i as int, b@.len() as int))
                == text_before(a@, b@),
        decreases a@.len() - i,
    {
        let ghost x = a@.subrange(i as int, a@.len() as int);
        let ghost y = b@.subrange(i as int, b@.len() as int);
        assert(x.subrange(1, x.len() as int) =~= a@.subrange(i + 1, a@.len() as int));
        assert(y.subrange(1, y.len() as int) =~= b@.subrange(i + 1, b@.len() as int));
        assert(x[0] == a@[i as int] && y[0] == b@[i as int]);
        if a[i] != b[i] {
            return (a[i] as u32) < (b[i] as u32);
        }
        i = i + 1;
    }
    i < b.len()
}

/// The names and kinds of a list of directory entries.
pub open spec fn entries(v: Seq<(Vec<char>, bool)>) -> Seq<(Seq<char>, bool)> {
    Seq::new(v.len(), |i: int| (v[i].0@, v[i].1))
}

/// How many entries from the front stay before a new one.
pub open spec fn place(e: Seq<(Seq<char>, bool)>, name: Seq<char>) -> int
    decreases e.len(),
{
    if e.len() == 0 {
        0
    } else if text_before(name, e.last().0) {
        place(e.drop_last(), name)
    } else {
        e.len() as int
    }
}

/// The entries that are shown, in order: a later entry goes behind those that do
/// not come after it.
pub open spec fn shown(e: Seq<(Seq<char>, bool)>, deny_hidden: bool) -> Seq<(Seq<char>, bool)>
    decreases e.len(),
{
    if e.len() == 0 {
        e
    } else {
        let r = shown(e.drop_last(), deny_hidden);
        let n = e.last().0;
        if n == ".veysrule"@ || (deny_hidden && n.len() > 0 && n[0] == '.') {
            r
        } else {
            r.insert(place(r, n), e.last())
        }
    }
}

proof fn lemma_place(e: Seq<(Seq<char>, bool)>, name: Seq<char>)
    ensures
        0 <= place(e, name) <= e.len(),
    decreases e.len(),
{
    if e.len() > 0 {
        lemma_place(e.drop_last(), name);
    }
}

/// Rule files are never listed, nor hidden files where those are denied.
pub proof fn law_listings_hide_rule_files(e: Seq<(Seq<char>, bool)>, deny_hidden: bool, i: int)
    requires
        0 <= i < shown(e, deny_hidden).len(),
    ensures
        shown(e, deny_hidden)[i].0 != ".veysrule"@,
        deny_hidden && shown(e, deny_hidden)[i].0.len() > 0 ==> shown(e, deny_hidden)[i].0[0]
            != '.',
    decreases e.len(),
{
    if e.len() > 0 {
        let r = shown(e.drop_last(), deny_hidden);
        let n = e.last().0;
        lemma_place(r, n);
        let k = place(r, n);
        if n == ".veysrule"@ || (deny_hidden && n.len() > 0 && n[0] == '.') {
            law_listings_hide_rule_files(e.drop_last(), deny_hidden, i);
        } else if i < k {
            law_listings_hide_rule_files(e.drop_last(), deny_hidden, i);
        } else if i > k {
            law_listings_hide_rule_files(e.drop_last(), deny_hidden, i - 1);
        }
    }
}

proof fn lemma_codes_differ(a: char, b: char)
    ensures
        a as u32 == b as u32 ==> a == b,
{
}

proof fn lemma_order(a: Seq<char>, b: Seq<char>, c: Seq<char>)
    ensures
        !(text_before(a, b) && text_before(b, a)),
        !text_before(b, a) && !text_before(c, b) ==> !text_before(c, a),
    decreases a.len() + b.len() + c.len(),
{
    if a.len() > 0 && b.len() > 0 && c.len() > 0 {
        lemma_codes_differ(a[0], b[0]);
        lemma_codes_differ(a[0], c[0]);
        lemma_codes_differ(b[0], c[0]);
        lemma_order(
            a.subrange(1, a.len() as int),
            b.subrange(1, b.len() as int),
            c.subrange(1, c.len() as int),
        );
    } else if a.len() > 0 && b.len() > 0 {
        lemma_order(a.subrange(1, a.len() as int), b.subrange(1, b.len() as int), c);
    }
}

/// No entry comes before an earlier one.
pub open spec fn in_order(e: Seq<(Seq<char>, bool)>) -> bool {
    forall|i: int, j: int| 0 <= i < j < e.len() ==> !text_before((#[trigger] e[j]).0, (#[trigger] e[i]).0)
}

proof fn lemma_place_splits(e: Seq<(Seq<char>, bool)>, name: Seq<char>)
    requires
        in_order(e),
    ensures
        0 <= place(e, name) <= e.len(),
        forall|i: int| 0 <= i < place(e, name) ==> !text_before(name, (#[trigger] e[i]).0),
        forall|i: int| place(e, name) <= i < e.len() ==> text_before(name, (#[trigger] e[i]).0),
    decreases e.len(),
{
    if e.len() > 0 {
        let t = e.drop_last();
        assert(forall|i: int| 0 <= i < t.len() ==> t[i] == e[i]);
        if text_before(name, e.last().0) {
            lemma_place_splits(t, name);
            let k = place(t, name);
            assert forall|i: int| 0 <= i < k implies !text_before(name, (#[trigger] e[i]).0) by {
                assert(t[i] == e[i]);
            }
            assert forall|i: int| k <= i < e.len() implies text_before(
                name,
                (#[trigger] e[i]).0,
            ) by {
                if i < t.len() {
                    assert(t[i] == e[i]);
                }
            }
        } else {
            assert forall|i: int| 0 <= i < e.len() implies !text_before(
                name,
                (#[trigger] e[i]).0,
            ) by {
                if i < t.len() {
                    lemma_order(e[i].0, e[e.len() - 1].0, name);
                }
            }
        }
    }
}

/// A listing is in the order of the names.
pub proof fn law_listings_are_in_order(e: Seq<(Seq<char>, bool)>, deny_hidden: bool)
    ensures
        in_order(shown(e, deny_hidden)),
    decreases e.len(),
{
    if e.len() > 0 {
        law_listings_are_in_order(e.drop_last(), deny_hidden);
        let r = shown(e.drop_last(), deny_hidden);
        let n = e.last().0;
        if !(n == ".veysrule"@ || (deny_hidden && n.len() > 0 && n[0] == '.')) {
            lemma_place_splits(r, n);
            let k = place(r, n);
            let s = r.insert(k, e.last());
            assert forall|i: int, j: int| 0 <= i < j < s.len() implies !text_before(
                (#[trigger] s[j]).0,
                (#[trigger] s[i]).0,
            ) by {
                let a = if i < k {
                    r[i]
                } else {
                    r[i - 1]
                };
                let b = if j < k {
                    r[j]
                } else {
                    r[j - 1]
                };
                if i == k {
                    assert(text_before(n, b.0));
                    lemma_order(n, b.0, n);
                } else if j == k {
                    assert(!text_before(n, a.0));
                }
            }
        }
    }
}

/// The line of one entry.
pub open spec fn entry_line(name: Seq<char>, is_dir: bool) -> Seq<char> {
    let suffix = if is_dir {
        "/"@
    } else {
        Seq::empty()
    };
    "<li><a href=\""@ + url_text(name) + suffix + "\">"@ + html_text(name) + suffix + "</a></li>"@
}

/// The page with the lines of the entries from `i` on, as far as it has room.
pub open spec fn with_lines(page: Seq<u8>, e: Seq<(Seq<char>, bool)>, i: int) -> Seq<u8>
    decreases e.len() - i,
{
    if i < 0 || i >= e.len() {
        page
    } else {
        let line = encode_utf8(entry_line(e[i].0, e[i].1));
        if page.len() + line.len() > MAX_LISTING_BYTES {
            page
        } else {
            with_lines(page + line, e, i + 1)
        }
    }
}

/// The listing of a directory.
pub open spec fn listing(e: Seq<(Seq<char>, bool)>, deny_hidden: bool) -> Seq<u8> {
    with_lines(
        encode_utf8("<!doctype html><meta charset=\"utf-8\"><title>Index</title><ul>"@),
        shown(e, deny_hidden),
        0,
    ) + encode_utf8("</ul>"@)
}

fn shown_entries(list: &Vec<(String, bool)>, deny_hidden: bool) -> (r: Vec<(Vec<char>, bool)>)
    ensures
        entries(r@) == shown(listed(list@), deny_hidden),
{
    let ghost e = listed(list@);
    let mut r: Vec<(Vec<char>, bool)> = Vec::new();
    let mut i: usize = 0;
    assert(e.subrange(0, 0) =~= Seq::<(Seq<char>, bool)>::empty());
    assert(entries(r@) =~= Seq::<(Seq<char>, bool)>::empty());
    while i < list.len()
        invariant
            e == listed(list@),
            i <= list@.len(),
            entries(r@) == shown(e.subrange(0, i as int), deny_hidden),
        decreases list@.len() - i,
    {
        let ghost t = e.subrange(0, i + 1);
        assert(t.drop_last() =~= e.subrange(0, i as int));
        assert(t.last() == (list@[i as int].0@, list@[i as int].1));
        let name = chars_of(list[i].0.as_str());
        if !(is_text(&name, ".veysrule") || (deny_hidden && name.len() > 0 && name[0] == '.')) {
            let ghost before = entries(r@);
            let ghost n = name@;
            let mut k: usize = r.len();
            assert(before.subrange(0, k as int) =~= before);
            while k > 0 && is_before(&name, &r[k - 1].0)
                invariant
                    k <= r@.len(),
                    before == entries(r@),
                    n == name@,
                    place(before.subrange(0, k as int), n) == place(before, n),
                decreases k,
            {
                assert(before.subrange(0, k as int).drop_last() =~= before.subrange(0, k - 1));
                assert(before.subrange(0, k as int).last() == (r@[k - 1].0@, r@[k - 1].1));
                k = k - 1;
            }
            assert(place(before, n) == k) by {
                if k > 0 {
                    assert(before.subrange(0, k as int).last() == (r@[k - 1].0@, r@[k - 1].1));
                }
            }
            r.insert(k, (name, list[i].1));
            assert(entries(r@) =~= before.insert(k as int, t.last()));
        }
        i = i + 1;
    }
    assert(e.subrange(0, e.len() as int) =~= e);
    r
}

/// The names and kinds of a list of directory entries.
pub open spec fn listed(v: Seq<(String, bool)>) -> Seq<(Seq<char>, bool)> {
    Seq::new(v.len(), |i: int| (v[i].0@, v[i].1))
}

fn line_of(name: &Vec<char>, is_dir: bool) -> (r: Vec<char>)
    ensures
        r@ == entry_line(name@, is_dir),
{
    let suffix = if is_dir {
        "/"
    } else {
        ""
    };
    let ghost want = if is_dir {
        "/"@
    } else {
        Seq::empty()
    };
    proof {
        reveal_strlit("");
        assert(suffix@ =~= want);
    }
    let text = string_of(name);
    let mut out: Vec<char> = chars_of("<li><a href=\"");
    push_text(&mut out, &url_encode_path(text.as_str()));
    push_str(&mut out, suffix);
    push_str(&mut out, "\">");
    push_text(&mut out, &html_escape(name));
    push_str(&mut out, suffix);
    push_str(&mut out, "</a></li>");
    out
}

/// The listing of a directory, given its entries.
pub fn render_directory_listing(list: &Vec<(String, bool)>, deny_hidden: bool) -> (r: Vec<u8>)
    ensures
        r@ == listing(listed(list@), deny_hidden),
{
    let shown_list = shown_entries(list, deny_hidden);
    let ghost e = entries(shown_list@);
    let mut page = bytes_of("<!doctype html><meta charset=\"utf-8\"><title>Index</title><ul>");
    let ghost start = page@;
    let mut i: usize = 0;
    let mut room = true;
    while i < shown_list.len() && room
        invariant
            e == entries(shown_list@),
            i <= shown_list@.len(),
            room ==> with_lines(page@, e, i as int) == with_lines(start, e, 0),
            !room ==> page@ == with_lines(start, e, 0),
        decreases
            shown_list@.len() - i,
            (if room {
                1int
            } else {
                0
            }),
    {
        assert(e[i as int] == (shown_list@[i as int].0@, shown_list@[i as int].1));
        let line = string_of(&line_of(&shown_list[i].0, shown_list[i].1));
        let b = bytes_of(line.as_str());
        if page.len() > MAX_LISTING_BYTES || b.len() > MAX_LISTING_BYTES - page.len() {
            room = false;
        } else {
            push_bytes(&mut page, b.as_slice());
            i = i + 1;
        }
    }
    let end = bytes_of("</ul>");
    push_bytes(&mut page, end.as_slice());
    page
}

} // verus!
