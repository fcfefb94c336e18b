//! Which file a path names.

use crate::laws::texts::lemma_uncut;
use crate::router::path::{
    components, decoded_once, hex_digit, hex_pair, joined_path, law_normal_paths_stay_below_root,
    named, normal_path, plain_name, reduced, unescape,
};
use crate::router::render::{hex_upper, url_byte, url_bytes, url_text};
use crate::text::{has_char, lemma_split_nonempty, split};
use vstd::prelude::*;
use vstd::utf8::{
    encode_utf8, encode_utf8_decode_utf8, encode_utf8_valid_utf8, is_ascii_chars,
    is_ascii_chars_encode_utf8,
};

verus! {

pub proof fn lemma_split_joins(a: Seq<char>, b: Seq<char>, c: char)
    ensures
        split(a + seq![c] + b, c) == split(a, c) + split(b, c),
    decreases b.len(),
{
    let s = a + seq![c] + b;
    let e = Seq::<char>::empty();
    lemma_split_nonempty(a, c);
    lemma_split_nonempty(b, c);
    if b.len() == 0 {
        assert(s.drop_last() =~= a);
        assert(split(b, c) =~= seq![e]);
        assert(split(a, c).push(e) =~= split(a, c) + seq![e]);
    } else {
        let t = b.drop_last();
        lemma_split_joins(a, t, c);
        lemma_split_nonempty(t, c);
        assert(s.drop_last() =~= a + seq![c] + t);
        assert(s.last() == b.last());
        let x = split(a, c);
        let y = split(t, c);
        if b.last() == c {
            assert((x + y).push(e) =~= x + y.push(e));
        } else {
            assert((x + y).last() == y.last());
            assert((x + y).drop_last() =~= x + y.drop_last());
            let z = y.last().push(b.last());
            assert((x + y.drop_last()).push(z) =~= x + y.drop_last().push(z));
        }
    }
}

proof fn lemma_named_joins(p: Seq<Seq<char>>, q: Seq<Seq<char>>)
    ensures
        named(p + q) == named(p) + named(q),
    decreases q.len(),
{
    if q.len() == 0 {
        assert(p + q =~= p);
        assert(named(p) + named(q) =~= named(p));
    } else {
        let t = q.drop_last();
        lemma_named_joins(p, t);
        assert((p + q).drop_last() =~= p + t);
        assert((p + q).last() == q.last());
        assert((named(p) + named(t)).push(q.last()) =~= named(p) + named(t).push(q.last()));
    }
}

/// A path is made of the names between its slashes; an empty name and the name of the
/// current directory do not count.
pub proof fn law_paths_are_made_of_names(a: Seq<char>, b: Seq<char>, name: Seq<char>)
    requires
        name.len() > 0,
        name != "."@,
        !has_char(name, '/'),
    ensures
        components(a + seq!['/'] + b) == components(a) + components(b),
        components(name) == seq![name],
        components(Seq::empty()) == Seq::<Seq<char>>::empty(),
        components("."@) == Seq::<Seq<char>>::empty(),
{
    reveal_strlit(".");
    lemma_split_joins(a, b, '/');
    lemma_named_joins(split(a, '/'), split(b, '/'));
    lemma_uncut(name, '/');
    lemma_uncut(Seq::empty(), '/');
    lemma_uncut("."@, '/');
    let one = seq![name];
    assert(one.drop_last() =~= Seq::<Seq<char>>::empty());
    assert(named(one.drop_last()) =~= Seq::<Seq<char>>::empty());
    assert(one.last() == name);
    assert(named(one) =~= one);
    let none = seq![Seq::<char>::empty()];
    assert(none.drop_last() =~= Seq::<Seq<char>>::empty());
    assert(named(none) =~= Seq::<Seq<char>>::empty());
    let dot = seq!["."@];
    assert(dot.drop_last() =~= Seq::<Seq<char>>::empty());
    assert(named(dot) =~= Seq::<Seq<char>>::empty());
}

proof fn lemma_joined_nonempty(p: Seq<Seq<char>>)
    requires
        p.len() > 0,
        p[0].len() > 0,
    ensures
        joined_path(p).len() > 0,
    decreases p.len(),
{
    if p.len() > 1 {
        assert(p.drop_last()[0] == p[0]);
        lemma_joined_nonempty(p.drop_last());
    }
}

/// A name behind a path leads to that name below it, the name of the current directory
/// leads nowhere, and that of the parent leads up by one name, never out of the root.
pub proof fn law_names_lead_down_and_parents_up(a: Seq<char>, name: Seq<char>)
    requires
        plain_name(name),
    ensures
        normal_path(Seq::empty()) == Some(Seq::<char>::empty()),
        match normal_path(a) {
            Some(r) => {
                &&& normal_path(a + seq!['/'] + name) == Some(
                    if r.len() == 0 {
                        name
                    } else {
                        r + seq!['/'] + name
                    },
                )
                &&& normal_path(a + seq!['/'] + "."@) == Some(r)
                &&& normal_path(a + seq!['/']) == Some(r)
                &&& normal_path(a + seq!['/'] + name + seq!['/'] + ".."@) == Some(r)
                &&& r.len() == 0 ==> normal_path(a + seq!['/'] + ".."@) is None
            },
            None => normal_path(a + seq!['/'] + name) is None && normal_path(
                a + seq!['/'] + ".."@,
            ) is None,
        },
{
    reveal_strlit("..");
    reveal_strlit(".");
    assert(".."@.len() == 2 && "."@.len() == 1);
    assert forall|i: int| 0 <= i < ".."@.len() implies ".."@[i] != '/' by {
        assert(".."@[0] == '.' && ".."@[1] == '.');
    }
    let e = Seq::<char>::empty();
    let none = Seq::<Seq<char>>::empty();
    let c = components(a);
    law_paths_are_made_of_names(a, name, name);
    law_paths_are_made_of_names(a, "."@, name);
    law_paths_are_made_of_names(a, e, name);
    law_paths_are_made_of_names(a, ".."@, ".."@);
    law_paths_are_made_of_names(a + seq!['/'] + name, ".."@, name);
    assert(a + seq!['/'] + e =~= a + seq!['/']);
    assert(c + none =~= c);
    assert(c + seq![name] =~= c.push(name));
    assert(c.push(name).drop_last() =~= c);
    assert(c + seq![".."@] =~= c.push(".."@));
    assert(c.push(".."@).drop_last() =~= c);
    assert(c.push(name) + seq![".."@] =~= c.push(name).push(".."@));
    assert(c.push(name).push(".."@).drop_last() =~= c.push(name));
    match reduced(c) {
        Some(r) => {
            law_normal_paths_stay_below_root(a);
            assert(r.push(name).drop_last() =~= r);
            if r.len() > 0 {
                assert(plain_name(r[0])) by {
                    assert(components(joined_path(r)) == r);
                    assert(plain_name(components(joined_path(r))[0]));
                }
                lemma_joined_nonempty(r);
                assert(joined_path(r).push('/') + name =~= joined_path(r) + seq!['/'] + name);
            }
        },
        None => {},
    }
}

proof fn lemma_one_escape(byte: u8)
    ensures
        byte != 37 ==> unescape(seq![byte]) == Some(seq![byte]),
        unescape(
            seq![37u8, hex_upper(byte as int / 16) as u8, hex_upper(byte as int % 16) as u8],
        ) == Some(seq![byte]),
{
    let one = seq![byte];
    let none = Seq::<u8>::empty();
    assert(unescape(none) == Some(none));
    assert(one.subrange(1, one.len() as int) =~= none);
    assert(one + none =~= one);
    let esc = seq![37u8, hex_upper(byte as int / 16) as u8, hex_upper(byte as int % 16) as u8];
    assert(esc.subrange(3, esc.len() as int) =~= none);
    assert(hex_digit(esc[1]) == Some((byte / 16) as u8));
    assert(hex_digit(esc[2]) == Some((byte % 16) as u8));
    assert((byte / 16) * 16 + byte % 16 == byte);
    assert(hex_pair(esc[1], esc[2]) == Some(byte));
}

/// Escapes are decoded piece by piece: an escape stands for the byte that its two digits
/// denote, and any other byte for itself.
pub proof fn law_escapes_are_decoded_in_place(a: Seq<u8>, b: Seq<u8>, byte: u8)
    requires
        unescape(a) is Some,
    ensures
        unescape(a + b) == (match unescape(b) {
            Some(y) => Some(unescape(a).unwrap() + y),
            None => None,
        }),
        byte != 37 ==> unescape(seq![byte]) == Some(seq![byte]),
        unescape(
            seq![37u8, hex_upper(byte as int / 16) as u8, hex_upper(byte as int % 16) as u8],
        ) == Some(seq![byte]),
    decreases a.len(),
{
    lemma_one_escape(byte);
    if a.len() == 0 {
        assert(a + b =~= b);
        if unescape(b) is Some {
            assert(unescape(a).unwrap() + unescape(b).unwrap() =~= unescape(b).unwrap());
        }
    } else {
        let w = a + b;
        let k = if a[0] == 37 {
            3int
        } else {
            1int
        };
        let t = a.subrange(k, a.len() as int);
        law_escapes_are_decoded_in_place(t, b, byte);
        assert(w.subrange(k, w.len() as int) =~= t + b);
        assert(w[0] == a[0]);
        if k == 3 {
            assert(w[1] == a[1] && w[2] == a[2]);
        }
        if unescape(b) is Some {
            let x = unescape(t).unwrap();
            let y = unescape(b).unwrap();
            let h = unescape(a).unwrap().subrange(0, 1);
            assert(unescape(a).unwrap() =~= h + x);
            assert(h + (x + y) =~= (h + x) + y);
        }
    }
}

proof fn lemma_url_byte(b: u8)
    ensures
        is_ascii_chars(url_byte(b)),
        unescape(Seq::new(url_byte(b).len(), |i: int| url_byte(b)[i] as u8)) == Some(seq![b]),
{
    let u = Seq::new(url_byte(b).len(), |i: int| url_byte(b)[i] as u8);
    let none = Seq::<u8>::empty();
    law_escapes_are_decoded_in_place(none, none, b);
    let esc = seq![37u8, hex_upper(b as int / 16) as u8, hex_upper(b as int % 16) as u8];
    if url_byte(b).len() == 1 {
        assert(u =~= seq![b]);
    } else {
        assert(u =~= esc);
    }
}

proof fn lemma_url_bytes(b: Seq<u8>)
    ensures
        is_ascii_chars(url_bytes(b)),
        unescape(Seq::new(url_bytes(b).len(), |i: int| url_bytes(b)[i] as u8)) == Some(b),
    decreases b.len(),
{
    let u = Seq::new(url_bytes(b).len(), |i: int| url_bytes(b)[i] as u8);
    if b.len() == 0 {
        assert(u =~= b);
    } else {
        let t = b.drop_last();
        lemma_url_bytes(t);
        lemma_url_byte(b.last());
        let x = Seq::new(url_bytes(t).len(), |i: int| url_bytes(t)[i] as u8);
        let y = Seq::new(url_byte(b.last()).len(), |i: int| url_byte(b.last())[i] as u8);
        law_escapes_are_decoded_in_place(x, y, 0);
        assert(u =~= x + y);
        assert(t + seq![b.last()] =~= b);
    }
}

/// A name that stands in a link is read back when a client follows the link.
pub proof fn law_links_lead_to_their_names(name: Seq<char>)
    ensures
        decoded_once(url_text(name)) == Some(name),
{
    let b = encode_utf8(name);
    let u = url_text(name);
    lemma_url_bytes(b);
    is_ascii_chars_encode_utf8(u);
    assert(encode_utf8(u) =~= Seq::new(u.len(), |i: int| u[i] as u8));
    encode_utf8_valid_utf8(name);
    encode_utf8_decode_utf8(name);
}

} // verus!
