//! Request paths: percent decoding, normalisation below the document root and what
//! the names of a path say.

use crate::bytes::{bytes_of, utf8_text};
use crate::text::{
    before, chars_of, copy, find_of, has_char, is_name, is_text, lemma_split_extends, part,
    push_text, same_name, split, split_of, string_of, texts,
};
use vstd::prelude::*;
use vstd::utf8::{decode_utf8, encode_utf8, valid_utf8};

verus! {

pub open spec fn hex_digit(b: u8) -> Option<u8> {
    if 48 <= b <= 57 {
        Some((b - 48) as u8)
    } else if 65 <= b <= 70 {
        Some((b - 55) as u8)
    } else if 97 <= b <= 102 {
        Some((b - 87) as u8)
    } else {
        None
    }
}

/// The byte that two hexadecimal digits denote; a plus sign may stand for the first.
pub open spec fn hex_pair(a: u8, b: u8) -> Option<u8> {
    match (hex_digit(a), hex_digit(b)) {
        (Some(x), Some(y)) => Some((x * 16 + y) as u8),
        (None, Some(y)) => if a == 43 {
            Some(y)
        } else {
            None
        },
        _ => None,
    }
}

/// The bytes with every percent escape replaced by what it denotes.
pub open spec fn unescape(b: Seq<u8>) -> Option<Seq<u8>>
    decreases b.len(),
{
    if b.len() == 0 {
        Some(b)
    } else if b[0] == 37 {
        if b.len() < 3 {
            None
        } else {
            match (hex_pair(b[1], b[2]), unescape(b.subrange(3, b.len() as int))) {
                (Some(v), Some(r)) => Some(seq![v] + r),
                _ => None,
            }
        }
    } else {
        match unescape(b.subrange(1, b.len() as int)) {
            Some(r) => Some(seq![b[0]] + r),
            None => None,
        }
    }
}

/// One round of percent decoding.
pub open spec fn decoded_once(s: Seq<char>) -> Option<Seq<char>> {
    match unescape(encode_utf8(s)) {
        Some(b) => if valid_utf8(b) {
            Some(decode_utf8(b))
        } else {
            None
        },
        None => None,
    }
}

/// At most `n` rounds of percent decoding; it ends where nothing is left to decode.
pub open spec fn decoded(s: Seq<char>, n: nat) -> Option<Seq<char>>
    decreases n,
{
    if n == 0 || !has_char(s, '%') {
        Some(s)
    } else {
        match decoded_once(s) {
            None => None,
            Some(t) => if t == s {
                Some(s)
            } else {
                decoded(t, (n - 1) as nat)
            },
        }
    }
}

/// A path without escapes is decoded to itself.
pub proof fn law_plain_paths_decode_to_themselves(s: Seq<char>)
    requires
        !has_char(s, '%'),
    ensures
        decoded(s, 4) == Some(s),
{
}

/// What stands before a query and a fragment.
pub open spec fn clean_path(s: Seq<char>) -> Seq<char> {
    before(before(s, '?'), '#')
}

/// The names of a list that stand for themselves: neither empty nor the current
/// directory.
pub open spec fn named(p: Seq<Seq<char>>) -> Seq<Seq<char>>
    decreases p.len(),
{
    if p.len() == 0 {
        p
    } else {
        let r = named(p.drop_last());
        if p.last().len() == 0 || p.last() == "."@ {
            r
        } else {
            r.push(p.last())
        }
    }
}

/// The names of a path.
pub open spec fn components(s: Seq<char>) -> Seq<Seq<char>> {
    named(split(s, '/'))
}

/// The names with every step to the parent carried out; none where a step leaves
/// the root.
pub open spec fn reduced(p: Seq<Seq<char>>) -> Option<Seq<Seq<char>>>
    decreases p.len(),
{
    if p.len() == 0 {
        Some(p)
    } else {
        match reduced(p.drop_last()) {
            None => None,
            Some(r) => if p.last() != ".."@ {
                Some(r.push(p.last()))
            } else if r.len() > 0 {
                Some(r.drop_last())
            } else {
                None
            },
        }
    }
}

/// The names with a slash between each two.
pub open spec fn joined_path(p: Seq<Seq<char>>) -> Seq<char>
    decreases p.len(),
{
    if p.len() == 0 {
        Seq::empty()
    } else if p.len() == 1 {
        p[0]
    } else {
        joined_path(p.drop_last()).push('/') + p.last()
    }
}

/// The path below the root that a text denotes.
pub open spec fn normal_path(s: Seq<char>) -> Option<Seq<char>> {
    match reduced(components(s)) {
        Some(p) => Some(joined_path(p)),
        None => None,
    }
}

/// A name that may stand in a path below the root.
pub open spec fn plain_name(n: Seq<char>) -> bool {
    n.len() > 0 && n != "."@ && n != ".."@ && !has_char(n, '/')
}

proof fn lemma_pieces_plain(s: Seq<char>, i: int)
    requires
        0 <= i < split(s, '/').len(),
    ensures
        !has_char(split(s, '/')[i], '/'),
    decreases s.len(),
{
    if s.len() > 0 {
        let r = split(s.drop_last(), '/');
        crate::text::lemma_split_nonempty(s.drop_last(), '/');
        if s.last() == '/' {
            if i < r.len() {
                lemma_pieces_plain(s.drop_last(), i);
            }
        } else if i < r.len() - 1 {
            lemma_pieces_plain(s.drop_last(), i);
        } else {
            lemma_pieces_plain(s.drop_last(), r.len() - 1);
            let piece = r.last().push(s.last());
            assert(split(s, '/')[i] == piece);
            if has_char(piece, '/') {
                let k = choose|k: int| 0 <= k < piece.len() && piece[k] == '/';
                assert(r.last()[k] == '/');
            }
        }
    }
}

proof fn lemma_named_plain(p: Seq<Seq<char>>)
    requires
        forall|i: int| 0 <= i < p.len() ==> !has_char(#[trigger] p[i], '/'),
    ensures
        forall|i: int|
            0 <= i < named(p).len() ==> (#[trigger] named(p)[i]).len() > 0 && named(p)[i] != "."@
                && !has_char(named(p)[i], '/'),
    decreases p.len(),
{
    if p.len() > 0 {
        lemma_named_plain(p.drop_last());
        assert(!has_char(p[p.len() - 1], '/'));
        let r = named(p.drop_last());
        assert forall|i: int| 0 <= i < named(p).len() implies (#[trigger] named(p)[i]).len() > 0
            && named(p)[i] != "."@ && !has_char(named(p)[i], '/') by {
            if i < r.len() {
                assert(named(p)[i] == r[i]);
            }
        }
    }
}

/// A name of a path is neither empty nor the current directory, and holds no slash.
pub proof fn lemma_components_plain(s: Seq<char>, i: int)
    requires
        0 <= i < components(s).len(),
    ensures
        components(s)[i].len() > 0,
        components(s)[i] != "."@,
        !has_char(components(s)[i], '/'),
{
    let p = split(s, '/');
    assert forall|j: int| 0 <= j < p.len() implies !has_char(#[trigger] p[j], '/') by {
        lemma_pieces_plain(s, j);
    }
    lemma_named_plain(p);
    assert(components(s)[i] == named(p)[i]);
}

proof fn lemma_reduced_plain(p: Seq<Seq<char>>)
    requires
        forall|i: int|
            0 <= i < p.len() ==> (#[trigger] p[i]).len() > 0 && p[i] != "."@ && !has_char(
                p[i],
                '/',
            ),
    ensures
        reduced(p) matches Some(r) ==> forall|i: int|
            0 <= i < r.len() ==> plain_name(#[trigger] r[i]),
    decreases p.len(),
{
    if p.len() > 0 {
        lemma_reduced_plain(p.drop_last());
        assert(p[p.len() - 1].len() > 0);
    }
}

proof fn lemma_split_joined(p: Seq<Seq<char>>)
    requires
        p.len() > 0,
        forall|i: int| 0 <= i < p.len() ==> plain_name(#[trigger] p[i]),
    ensures
        split(joined_path(p), '/') == p,
    decreases p.len(),
{
    let none = Seq::<char>::empty();
    if p.len() == 1 {
        assert(plain_name(p[0]));
        lemma_split_extends(none, p[0], '/');
        assert(none + p[0] =~= p[0]);
        assert(split(none, '/') =~= seq![none]);
        assert(split(p[0], '/') =~= p);
    } else {
        let q = p.drop_last();
        assert(forall|i: int| 0 <= i < q.len() ==> q[i] == p[i]);
        lemma_split_joined(q);
        let a = joined_path(q).push('/');
        assert(a.drop_last() =~= joined_path(q));
        assert(split(a, '/') =~= q.push(none));
        assert(plain_name(p[p.len() - 1]));
        lemma_split_extends(a, p.last(), '/');
        assert(none + p.last() =~= p.last());
        assert(q.push(none).drop_last() =~= q);
        assert(q.push(p.last()) =~= p);
    }
}

proof fn lemma_named_keeps(p: Seq<Seq<char>>)
    requires
        forall|i: int| 0 <= i < p.len() ==> plain_name(#[trigger] p[i]),
    ensures
        named(p) == p,
    decreases p.len(),
{
    if p.len() > 0 {
        assert(forall|i: int| 0 <= i < p.drop_last().len() ==> p.drop_last()[i] == p[i]);
        lemma_named_keeps(p.drop_last());
        assert(plain_name(p[p.len() - 1]));
        assert(p.drop_last().push(p.last()) =~= p);
    }
}

/// A normalised path stays below the root: its names are those that are left when
/// every step to a parent is carried out, and none of them leads elsewhere.
pub proof fn law_normal_paths_stay_below_root(s: Seq<char>)
    ensures
        normal_path(s) matches Some(n) ==> components(n) == reduced(components(s)).unwrap() && (
        forall|i: int|
            0 <= i < components(n).len() ==> plain_name(#[trigger] components(n)[i])) && (n.len()
            > 0 ==> n[0] != '/'),
{
    assert forall|i: int| 0 <= i < split(s, '/').len() implies !has_char(
        #[trigger] split(s, '/')[i],
        '/',
    ) by {
        lemma_pieces_plain(s, i);
    }
    lemma_named_plain(split(s, '/'));
    lemma_reduced_plain(components(s));
    match reduced(components(s)) {
        Some(p) => {
            let n = joined_path(p);
            if p.len() == 0 {
                assert(split(n, '/') =~= seq![Seq::<char>::empty()]);
                let l = split(n, '/');
                assert(l.drop_last() =~= Seq::<Seq<char>>::empty());
                reveal_with_fuel(named, 2);
                assert(named(l) =~= p);
            } else {
                lemma_split_joined(p);
                lemma_named_keeps(p);
                lemma_first_char(p);
            }
        },
        None => {},
    }
}

proof fn lemma_first_char(p: Seq<Seq<char>>)
    requires
        p.len() > 0,
        forall|i: int| 0 <= i < p.len() ==> plain_name(#[trigger] p[i]),
    ensures
        joined_path(p).len() > 0,
        joined_path(p)[0] != '/',
    decreases p.len(),
{
    assert(plain_name(p[0]));
    if p.len() > 1 {
        assert(forall|i: int| 0 <= i < p.drop_last().len() ==> p.drop_last()[i] == p[i]);
        lemma_first_char(p.drop_last());
    } else {
        assert(p[0][0] != '/');
    }
}

/// Normalising twice is normalising once.
pub proof fn law_normal_paths_are_fixed(s: Seq<char>)
    ensures
        normal_path(s) matches Some(n) ==> normal_path(n) == Some(n),
{
    law_normal_paths_stay_below_root(s);
    match reduced(components(s)) {
        Some(p) => {
            lemma_reduced_keeps(p);
        },
        None => {},
    }
}

proof fn lemma_reduced_keeps(p: Seq<Seq<char>>)
    ensures
        (forall|i: int| 0 <= i < p.len() ==> plain_name(#[trigger] p[i])) ==> reduced(p) == Some(
            p,
        ),
    decreases p.len(),
{
    if p.len() > 0 {
        lemma_reduced_keeps(p.drop_last());
        assert(forall|i: int| 0 <= i < p.drop_last().len() ==> p.drop_last()[i] == p[i]);
        assert(p.drop_last().push(p.last()) =~= p);
        if forall|i: int| 0 <= i < p.len() ==> plain_name(#[trigger] p[i]) {
            assert(plain_name(p[p.len() - 1]));
        }
    }
}

/// Some name of the path begins with a dot.
pub open spec fn hidden(s: Seq<char>) -> bool {
    exists|i: int| 0 <= i < components(s).len() && hidden_name(#[trigger] components(s)[i])
}

pub open spec fn hidden_name(n: Seq<char>) -> bool {
    n.len() > 0 && n[0] == '.' && n != ".."@
}

/// Some name of the path is that of a rule file.
pub open spec fn protected(s: Seq<char>) -> bool {
    exists|i: int| 0 <= i < components(s).len() && #[trigger] components(s)[i] == ".veysrule"@
}

/// The position behind the last dot of a name, or none at all.
pub open spec fn last_dot(n: Seq<char>) -> int
    decreases n.len(),
{
    if n.len() == 0 {
        0
    } else if n.last() == '.' {
        n.len() as int
    } else {
        last_dot(n.drop_last())
    }
}

/// The extension of a path: what stands behind the last dot of its last name, where
/// that dot does not begin the name.
pub open spec fn extension(s: Seq<char>) -> Option<Seq<char>> {
    let c = components(s);
    let n = c.last();
    if c.len() == 0 || n == ".."@ || last_dot(n) <= 1 {
        None
    } else {
        Some(n.subrange(last_dot(n), n.len() as int))
    }
}

/// The media type that goes with an extension.
pub open spec fn mime_of_extension(e: Seq<char>) -> Seq<char> {
    if same_name(e, "html"@) || same_name(e, "htm"@) {
        "text/html; charset=utf-8"@
    } else if same_name(e, "css"@) {
        "text/css; charset=utf-8"@
    } else if same_name(e, "js"@) {
        "application/javascript"@
    } else if same_name(e, "json"@) {
        "application/json"@
    } else if same_name(e, "txt"@) {
        "text/plain; charset=utf-8"@
    } else if same_name(e, "xml"@) {
        "application/xml"@
    } else if same_name(e, "svg"@) {
        "image/svg+xml"@
    } else if same_name(e, "png"@) {
        "image/png"@
    } else if same_name(e, "jpg"@) || same_name(e, "jpeg"@) {
        "image/jpeg"@
    } else if same_name(e, "gif"@) {
        "image/gif"@
    } else if same_name(e, "webp"@) {
        "image/webp"@
    } else if same_name(e, "ico"@) {
        "image/x-icon"@
    } else if same_name(e, "wasm"@) {
        "application/wasm"@
    } else {
        "application/octet-stream"@
    }
}

/// The media type of a file.
pub open spec fn mime_type(path: Seq<char>) -> Seq<char> {
    match extension(path) {
        Some(e) => mime_of_extension(e),
        None => "application/octet-stream"@,
    }
}

fn hex_digit_of(b: u8) -> (r: Option<u8>)
    ensures
        r == hex_digit(b),
        r matches Some(v) ==> v < 16,
{
    if 48 <= b && b <= 57 {
        Some(b - 48)
    } else if 65 <= b && b <= 70 {
        Some(b - 55)
    } else if 97 <= b && b <= 102 {
        Some(b - 87)
    } else {
        None
    }
}

fn hex_pair_of(a: u8, b: u8) -> (r: Option<u8>)
    ensures
        r == hex_pair(a, b),
{
    match (hex_digit_of(a), hex_digit_of(b)) {
        (Some(x), Some(y)) => Some(x * 16 + y),
        (None, Some(y)) => if a == 43 {
            Some(y)
        } else {
            None
        },
        _ => None,
    }
}

fn unescape_of(b: &Vec<u8>) -> (r: Option<Vec<u8>>)
    ensures
        match r {
            Some(v) => unescape(b@) == Some(v@),
            None => unescape(b@) is None,
        },
{
    let mut out: Vec<u8> = Vec::new();
    let n: usize = b.len();
    let mut i: usize = 0;
    assert(b@.subrange(0, n as int) =~= b@);
    assert(forall|r: Seq<u8>| out@ + r =~= r);
    while i < n
        invariant
            n == b@.len(),
            i <= n,
            unescape(b@) == (match unescape(b@.subrange(i as int, n as int)) {
                Some(r) => Some(out@ + r),
                None => None,
            }),
        decreases n - i,
    {
        let ghost t = b@.subrange(i as int, n as int);
        let ghost before = out@;
        if b[i] == 37 {
            if n - i < 3 {
                return None;
            }
            assert(t.subrange(3, t.len() as int) =~= b@.subrange(i + 3, n as int));
            match hex_pair_of(b[i + 1], b[i + 2]) {
                Some(v) => {
                    out.push(v);
                    assert(forall|r: Seq<u8>| before.push(v) + r =~= before + (seq![v] + r));
                },
                None => {
                    return None;
                },
            }
            i = i + 3;
        } else {
            let v: u8 = b[i];
            assert(t.subrange(1, t.len() as int) =~= b@.subrange(i + 1, n as int));
            out.push(v);
            assert(forall|r: Seq<u8>| before.push(v) + r =~= before + (seq![v] + r));
            i = i + 1;
        }
    }
    assert(b@.subrange(n as int, n as int) =~= Seq::<u8>::empty());
    assert(out@ + Seq::<u8>::empty() =~= out@);
    Some(out)
}

/// One round of percent decoding.
pub fn percent_decode_single(input: &str) -> (r: Option<String>)
    ensures
        match r {
            Some(v) => decoded_once(input@) == Some(v@),
            None => decoded_once(input@) is None,
        },
{
    match unescape_of(&bytes_of(input)) {
        Some(b) => utf8_text(b.as_slice()),
        None => None,
    }
}

/// Percent decoding until nothing is left to decode, four rounds at most.
pub fn percent_decode_recursive(input: &str) -> (r: Option<String>)
    ensures
        match r {
            Some(v) => decoded(input@, 4) == Some(v@),
            None => decoded(input@, 4) is None,
        },
{
    let mut text: String = input.to_owned();
    let mut n: usize = 4;
    while n > 0
        invariant
            n <= 4,
            decoded(text@, n as nat) == decoded(input@, 4),
        decreases n,
    {
        let now = chars_of(text.as_str());
        if find_of(&now, '%') == now.len() {
            return Some(text);
        }
        match percent_decode_single(text.as_str()) {
            None => {
                return None;
            },
            Some(t) => {
                if is_text(&now, t.as_str()) {
                    return Some(text);
                }
                text = t;
            },
        }
        n = n - 1;
    }
    Some(text)
}

/// What stands before a query and a fragment.
pub fn clean_path_of(s: &Vec<char>) -> (r: Vec<char>)
    ensures
        r@ == clean_path(s@),
{
    let a = part(s, 0, find_of(s, '?'));
    part(&a, 0, find_of(&a, '#'))
}

/// The names of a path.
pub fn components_of(s: &Vec<char>) -> (r: Vec<Vec<char>>)
    ensures
        texts(r@) == components(s@),
{
    let pieces = split_of(s, '/');
    let ghost p = split(s@, '/');
    let mut r: Vec<Vec<char>> = Vec::new();
    let mut i: usize = 0;
    assert(p.subrange(0, 0) =~= Seq::<Seq<char>>::empty());
    assert(texts(r@) =~= Seq::<Seq<char>>::empty());
    while i < pieces.len()
        invariant
            p == texts(pieces@),
            i <= pieces@.len(),
            texts(r@) == named(p.subrange(0, i as int)),
        decreases pieces@.len() - i,
    {
        let ghost t = p.subrange(0, i + 1);
        assert(t.drop_last() =~= p.subrange(0, i as int));
        assert(t.last() == pieces@[i as int]@);
        if pieces[i].len() != 0 && !is_text(&pieces[i], ".") {
            let ghost prev = texts(r@);
            r.push(copy(&pieces[i]));
            assert(texts(r@) =~= prev.push(t.last()));
        }
        i = i + 1;
    }
    assert(p.subrange(0, p.len() as int) =~= p);
    r
}

proof fn lemma_reduced_fails(p: Seq<Seq<char>>, i: int)
    requires
        0 <= i <= p.len(),
        reduced(p.subrange(0, i)) is None,
    ensures
        reduced(p) is None,
    decreases p.len(),
{
    if i == p.len() {
        assert(p.subrange(0, i) =~= p);
    } else {
        assert(p.drop_last().subrange(0, i) =~= p.subrange(0, i));
        lemma_reduced_fails(p.drop_last(), i);
    }
}

/// The names with a slash between each two.
pub fn join_path(p: &Vec<Vec<char>>) -> (r: Vec<char>)
    ensures
        r@ == joined_path(texts(p@)),
{
    let ghost t = texts(p@);
    let mut r: Vec<char> = Vec::new();
    let mut i: usize = 0;
    assert(t.subrange(0, 0) =~= Seq::<Seq<char>>::empty());
    while i < p.len()
        invariant
            t == texts(p@),
            i <= p@.len(),
            r@ == joined_path(t.subrange(0, i as int)),
        decreases p@.len() - i,
    {
        let ghost u = t.subrange(0, i + 1);
        assert(u.drop_last() =~= t.subrange(0, i as int));
        assert(u.last() == p@[i as int]@);
        if i > 0 {
            r.push('/');
        }
        push_text(&mut r, &p[i]);
        assert(i == 0 ==> r@ =~= u[0]);
        i = i + 1;
    }
    assert(t.subrange(0, t.len() as int) =~= t);
    r
}

/// The path below the root that a text denotes.
pub fn normalize_relative_path(uri: &str) -> (r: Result<String, &'static str>)
    ensures
        match r {
            Ok(p) => normal_path(uri@) == Some(p@),
            Err(e) => normal_path(uri@) is None && e@
                == "Path traversal escaped root directory"@,
        },
{
    let names = components_of(&chars_of(uri));
    let ghost c = components(uri@);
    let mut kept: Vec<Vec<char>> = Vec::new();
    let mut i: usize = 0;
    assert(c.subrange(0, 0) =~= Seq::<Seq<char>>::empty());
    assert(texts(kept@) =~= Seq::<Seq<char>>::empty());
    while i < names.len()
        invariant
            c == texts(names@),
            c == components(uri@),
            i <= names@.len(),
            reduced(c.subrange(0, i as int)) == Some(texts(kept@)),
        decreases names@.len() - i,
    {
        let ghost t = c.subrange(0, i + 1);
        assert(t.drop_last() =~= c.subrange(0, i as int));
        assert(t.last() == names@[i as int]@);
        let ghost prev = texts(kept@);
        if is_text(&names[i], "..") {
            if kept.len() == 0 {
                proof {
                    lemma_reduced_fails(c, i + 1);
                }
                return Err("Path traversal escaped root directory");
            }
            let _ = kept.pop();
            assert(texts(kept@) =~= prev.drop_last());
        } else {
            kept.push(copy(&names[i]));
            assert(texts(kept@) =~= prev.push(t.last()));
        }
        i = i + 1;
    }
    assert(c.subrange(0, c.len() as int) =~= c);
    Ok(string_of(&join_path(&kept)))
}

/// Whether some name of the path begins with a dot.
pub fn has_hidden_component(rel_path: &str) -> (b: bool)
    ensures
        b == hidden(rel_path@),
{
    let names = components_of(&chars_of(rel_path));
    let ghost c = components(rel_path@);
    let mut i: usize = 0;
    while i < names.len()
        invariant
            c == texts(names@),
            c == components(rel_path@),
            i <= names@.len(),
            forall|j: int| 0 <= j < i ==> !hidden_name(#[trigger] c[j]),
        decreases names@.len() - i,
    {
        assert(c[i as int] == names@[i as int]@);
        if names[i].len() > 0 && names[i][0] == '.' && !is_text(&names[i], "..") {
            assert(hidden_name(c[i as int]));
            return true;
        }
        i = i + 1;
    }
    false
}

/// Whether some name of the path is that of a rule file.
pub fn is_protected_rule_path(path: &str) -> (b: bool)
    ensures
        b == protected(path@),
{
    let names = components_of(&chars_of(path));
    let ghost c = components(path@);
    let mut i: usize = 0;
    while i < names.len()
        invariant
            c == texts(names@),
            c == components(path@),
            i <= names@.len(),
            forall|j: int| 0 <= j < i ==> #[trigger] c[j] != ".veysrule"@,
        decreases names@.len() - i,
    {
        assert(c[i as int] == names@[i as int]@);
        if is_text(&names[i], ".veysrule") {
            return true;
        }
        i = i + 1;
    }
    false
}

fn last_dot_of(n: &Vec<char>) -> (k: usize)
    ensures
        k == last_dot(n@),
        k <= n@.len(),
{
    let mut k: usize = n.len();
    assert(n@.subrange(0, k as int) =~= n@);
    while k > 0
        invariant
            k <= n@.len(),
            last_dot(n@.subrange(0, k as int)) == last_dot(n@),
        decreases k,
    {
        assert(n@.subrange(0, k as int).drop_last() =~= n@.subrange(0, k - 1));
        if n[k - 1] == '.' {
            return k;
        }
        k = k - 1;
    }
    0
}

/// The extension of a path.
pub fn extension_of(path: &str) -> (r: Option<Vec<char>>)
    ensures
        match r {
            Some(e) => extension(path@) == Some(e@),
            None => extension(path@) is None,
        },
{
    let names = components_of(&chars_of(path));
    let n: usize = names.len();
    if n == 0 {
        return None;
    }
    assert(components(path@).last() == names@[n - 1]@);
    let k: usize = last_dot_of(&names[n - 1]);
    if is_text(&names[n - 1], "..") || k <= 1 {
        return None;
    }
    Some(part(&names[n - 1], k, names[n - 1].len()))
}

/// The media type of a file by its extension.
pub fn get_mime_type(path: &str) -> (r: &'static str)
    ensures
        r@ == mime_type(path@),
{
    let e = match extension_of(path) {
        Some(e) => e,
        None => {
            return "application/octet-stream";
        },
    };
    if is_name(&e, "html") || is_name(&e, "htm") {
        "text/html; charset=utf-8"
    } else if is_name(&e, "css") {
        "text/css; charset=utf-8"
    } else if is_name(&e, "js") {
        "application/javascript"
    } else if is_name(&e, "json") {
        "application/json"
    } else if is_name(&e, "txt") {
        "text/plain; charset=utf-8"
    } else if is_name(&e, "xml") {
        "application/xml"
    } else if is_name(&e, "svg") {
        "image/svg+xml"
    } else if is_name(&e, "png") {
        "image/png"
    } else if is_name(&e, "jpg") || is_name(&e, "jpeg") {
        "image/jpeg"
    } else if is_name(&e, "gif") {
        "image/gif"
    } else if is_name(&e, "webp") {
        "image/webp"
    } else if is_name(&e, "ico") {
        "image/x-icon"
    } else if is_name(&e, "wasm") {
        "application/wasm"
    } else {
        "application/octet-stream"
    }
}

/// The path below the root that a request names.
pub open spec fn request_path(uri: Seq<char>) -> Option<Seq<char>> {
    match decoded(uri, 4) {
        Some(d) => normal_path(clean_path(d)),
        None => None,
    }
}

/// The path below the root that a request names.
pub fn normalized_request_path(uri: &str) -> (r: Option<String>)
    ensures
        match r {
            Some(p) => request_path(uri@) == Some(p@),
            None => request_path(uri@) is None,
        },
{
    match percent_decode_recursive(uri) {
        Some(d) => {
            let clean = string_of(&clean_path_of(&chars_of(d.as_str())));
            match normalize_relative_path(clean.as_str()) {
                Ok(p) => Some(p),
                Err(_) => None,
            }
        },
        None => None,
    }
}

/// A request whose path neither leaves the root nor names a rule file nor, where
/// hidden files are denied, a hidden one.
pub open spec fn safe_request(uri: Seq<char>, deny_hidden: bool) -> bool {
    request_path(uri) matches Some(p) && !protected(p) && (!deny_hidden || !hidden(p))
}

/// Whether a request's path may be handed to a handler.
pub fn request_path_is_safe(uri: &str, deny_hidden_files: bool) -> (b: bool)
    ensures
        b == safe_request(uri@, deny_hidden_files),
{
    match normalized_request_path(uri) {
        Some(p) => !is_protected_rule_path(p.as_str()) && (!deny_hidden_files
            || !has_hidden_component(p.as_str())),
        None => false,
    }
}

} // verus!
