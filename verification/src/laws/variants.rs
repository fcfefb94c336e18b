//! Headers that the server adds, and the forms in which a body is sent.

use crate::config::merge::pair_at;
use crate::config::types::ServerView;
use crate::laws::headers::law_the_first_header_counts;
use crate::laws::merging::{lemma_one_more, lemma_place};
use crate::laws::texts::{lemma_split_more, lemma_trim_blank_before, lemma_trim_is, lemma_uncut};
use crate::router::negotiate::{
    bare_type, compressible, encoded_tag, names_header, secured, with_default, with_vary,
};
use crate::server::http::header_value;
use crate::server::response::has_header;
use crate::server::upstream::{compresses, fixes_body, last_named};
use crate::text::{before, has_char, lower, same_name, split, starts_with, trim};
use vstd::prelude::*;

verus! {

proof fn lemma_there(h: Seq<(Seq<char>, Seq<char>)>, name: Seq<char>)
    ensures
        has_header(h, name) <==> header_value(h, name) is Some,
{
    lemma_place(h, name);
    let k = pair_at(h, name);
    law_the_first_header_counts(h, name, k);
}

proof fn lemma_default(
    h: Seq<(Seq<char>, Seq<char>)>,
    name: Seq<char>,
    value: Option<Seq<char>>,
    n: Seq<char>,
)
    ensures
        header_value(with_default(h, name, value), n) == (if same_name(name, n) && header_value(
            h,
            n,
        ) is None {
            value
        } else {
            header_value(h, n)
        }),
{
    lemma_there(h, name);
    lemma_place(h, name);
    lemma_place(h, n);
    law_the_first_header_counts(h, n, pair_at(h, n));
    law_the_first_header_counts(h, name, pair_at(h, name));
    if value is Some {
        lemma_one_more(h, (name, value.unwrap()), n);
    }
}

proof fn lemma_four_names()
    ensures
        !same_name("X-Content-Type-Options"@, "Referrer-Policy"@),
        !same_name("X-Content-Type-Options"@, "X-Frame-Options"@),
        !same_name("X-Content-Type-Options"@, "Content-Security-Policy"@),
        !same_name("Referrer-Policy"@, "X-Frame-Options"@),
        !same_name("Referrer-Policy"@, "Content-Security-Policy"@),
        !same_name("X-Frame-Options"@, "Content-Security-Policy"@),
{
    reveal_strlit("X-Content-Type-Options");
    reveal_strlit("Referrer-Policy");
    reveal_strlit("X-Frame-Options");
    reveal_strlit("Content-Security-Policy");
    assert(lower("X-Content-Type-Options"@).len() == 22);
    assert(lower("Referrer-Policy"@).len() == 15);
    assert(lower("X-Frame-Options"@).len() == 15);
    assert(lower("Content-Security-Policy"@).len() == 23);
    assert(lower("Referrer-Policy"@)[0] == 'r');
    assert(lower("X-Frame-Options"@)[0] == 'x');
}

/// A security header has the value that the response came with, else the one of the
/// settings. All other headers stay as they are.
pub proof fn law_security_settings_reach_the_client(
    h: Seq<(Seq<char>, Seq<char>)>,
    c: ServerView,
    other: Seq<char>,
)
    ensures
        ({
            let value = |name: Seq<char>, setting: Option<Seq<char>>|
                match header_value(h, name) {
                    Some(v) => Some(v),
                    None => setting,
                };
            let s = secured(h, c);
            &&& header_value(s, "X-Content-Type-Options"@) == value(
                "X-Content-Type-Options"@,
                c.security_x_content_type_options,
            )
            &&& header_value(s, "Referrer-Policy"@) == value(
                "Referrer-Policy"@,
                c.security_referrer_policy,
            )
            &&& header_value(s, "X-Frame-Options"@) == value(
                "X-Frame-Options"@,
                c.security_x_frame_options,
            )
            &&& header_value(s, "Content-Security-Policy"@) == value(
                "Content-Security-Policy"@,
                c.security_content_security_policy,
            )
            &&& !same_name("X-Content-Type-Options"@, other) && !same_name(
                "Referrer-Policy"@,
                other,
            ) && !same_name("X-Frame-Options"@, other) && !same_name(
                "Content-Security-Policy"@,
                other,
            ) ==> header_value(s, other) == header_value(h, other)
        }),
{
    lemma_four_names();
    lemma_secured(h, c, "X-Content-Type-Options"@);
    lemma_secured(h, c, "Referrer-Policy"@);
    lemma_secured(h, c, "X-Frame-Options"@);
    lemma_secured(h, c, "Content-Security-Policy"@);
    lemma_secured(h, c, other);
}

proof fn lemma_secured(h: Seq<(Seq<char>, Seq<char>)>, c: ServerView, n: Seq<char>)
    ensures
        header_value(secured(h, c), n) == (if header_value(h, n) is Some {
            header_value(h, n)
        } else if same_name("X-Content-Type-Options"@, n) {
            c.security_x_content_type_options
        } else if same_name("Referrer-Policy"@, n) {
            c.security_referrer_policy
        } else if same_name("X-Frame-Options"@, n) {
            c.security_x_frame_options
        } else if same_name("Content-Security-Policy"@, n) {
            c.security_content_security_policy
        } else {
            None
        }),
{
    lemma_four_names();
    let a = with_default(h, "X-Content-Type-Options"@, c.security_x_content_type_options);
    let b = with_default(a, "Referrer-Policy"@, c.security_referrer_policy);
    let d = with_default(b, "X-Frame-Options"@, c.security_x_frame_options);
    lemma_default(h, "X-Content-Type-Options"@, c.security_x_content_type_options, n);
    lemma_default(a, "Referrer-Policy"@, c.security_referrer_policy, n);
    lemma_default(b, "X-Frame-Options"@, c.security_x_frame_options, n);
    lemma_default(d, "Content-Security-Policy"@, c.security_content_security_policy, n);
}

/// The tag of a compressed form is that of the file with the encoding inside of the quotes,
/// so that the two forms are told apart.
pub proof fn law_forms_have_tags_of_their_own(x: Seq<char>, encoding: Seq<char>)
    ensures
        encoded_tag(seq!['"'] + x + seq!['"'], encoding) == seq!['"'] + x + seq!['-'] + encoding
            + seq!['"'],
        encoded_tag(seq!['"'] + x + seq!['"'], encoding) != seq!['"'] + x + seq!['"'],
{
    reveal_strlit("\"");
    reveal_strlit("-");
    let t = seq!['"'] + x + seq!['"'];
    assert(t.subrange(t.len() - 1, t.len() as int) =~= "\""@);
    let e = seq!['"'] + x + seq!['-'] + encoding + seq!['"'];
    assert(encoded_tag(t, encoding) =~= e);
    assert(e.len() > t.len());
}

/// A response that depends on the encodings that a client takes says so, in the header that
/// it had for this where there was one. Its other headers stay as they are.
pub proof fn law_variants_are_announced(h: Seq<(Seq<char>, Seq<char>)>, other: Seq<char>)
    ensures
        header_value(with_vary(h), "Vary"@) matches Some(v) && names_header(v, "Accept-Encoding"@),
        !same_name("Vary"@, other) ==> header_value(with_vary(h), other) == header_value(h, other),
{
    reveal_strlit("Accept-Encoding");
    reveal_strlit(", Accept-Encoding");
    let name = "Accept-Encoding"@;
    let k = pair_at(h, "Vary"@);
    let w = with_vary(h);
    lemma_place(h, "Vary"@);
    lemma_place(h, other);
    law_the_first_header_counts(h, "Vary"@, k);
    law_the_first_header_counts(h, other, pair_at(h, other));
    assert(!has_char(name, ','));
    lemma_uncut(name, ',');
    lemma_trim_is(name);
    assert(split(name, ',')[0] == name);
    if k >= h.len() {
        lemma_one_more(h, ("Vary"@, name), "Vary"@);
        lemma_one_more(h, ("Vary"@, name), other);
        assert(names_header(name, name));
    } else {
        let v = h[k].1;
        let b = seq![' '] + name;
        assert(v + ", Accept-Encoding"@ =~= v + seq![','] + b);
        assert(!has_char(b, ','));
        lemma_split_more(v, ',', b);
        lemma_trim_blank_before(name);
        let s = split(v + ", Accept-Encoding"@, ',');
        assert(s[s.len() - 1] == b);
        assert forall|i: int| 0 <= i < k implies !same_name((#[trigger] w[i]).0, "Vary"@) by {
            assert(w[i] == h[i]);
        }
        law_the_first_header_counts(w, "Vary"@, k);
        if !same_name("Vary"@, other) {
            let j = pair_at(h, other);
            assert forall|i: int| 0 <= i < j implies !same_name((#[trigger] w[i]).0, other) by {
                assert(w[i].0 == h[i].0);
            }
            if j < h.len() {
                assert(j != k);
                assert(w[j] == h[j]);
            }
            law_the_first_header_counts(w, other, j);
        }
    }
}

/// A file is worth compressing where its type is a text, one of the known types, or begins
/// with one that the settings list; parameters and case do not count. `k` is the place of
/// its type.
pub proof fn law_texts_are_worth_compressing(
    h: Seq<(Seq<char>, Seq<char>)>,
    k: int,
    allow: Seq<Seq<char>>,
    i: int,
)
    requires
        0 <= k <= h.len(),
        forall|j: int| 0 <= j < k ==> !same_name((#[trigger] h[j]).0, "Content-Type"@),
        k < h.len() ==> same_name(h[k].0, "Content-Type"@),
    ensures
        k == h.len() ==> !compressible(h, allow),
        k < h.len() ==> {
            let m = bare_type(h[k].1);
            &&& starts_with(m, "text/"@) ==> compressible(h, allow)
            &&& m == "application/json"@ || m == "application/javascript"@ || m
                == "application/xml"@ || m == "image/svg+xml"@ ==> compressible(h, allow)
            &&& 0 <= i < allow.len() && starts_with(m, lower(allow[i])) ==> compressible(h, allow)
            &&& allow.len() == 0 && !starts_with(m, "text/"@) && m != "application/json"@ && m
                != "application/javascript"@ && m != "application/xml"@ && m != "image/svg+xml"@
                ==> !compressible(h, allow)
        },
{
    law_the_first_header_counts(h, "Content-Type"@, k);
}

/// The body of an upstream is compressed only for a client that takes it, of a response
/// that has one and succeeded, and where no header fixes the body; there it is where its
/// last type is a text.
pub proof fn law_upstream_bodies_are_compressed_with_care(
    h: Seq<(Seq<char>, Seq<char>)>,
    status: u16,
    head: bool,
    accepts: bool,
    value: Seq<char>,
)
    ensures
        !accepts || head || status < 200 || status > 299 || status == 204 ==> !compresses(
            h,
            status,
            head,
            accepts,
        ),
        (exists|i: int| 0 <= i < h.len() && same_name((#[trigger] h[i]).0, "Content-Encoding"@))
            ==> !compresses(h, status, head, accepts),
        accepts && !head && 200 <= status <= 299 && status != 204 && (forall|i: int|
            0 <= i < h.len() ==> !fixes_body(#[trigger] h[i])) && !fixes_body(
            ("Content-Type"@, value),
        ) && starts_with(trim(before(lower(value), ';')), "text/"@) ==> compresses(
            h.push(("Content-Type"@, value)),
            status,
            head,
            accepts,
        ),
{
    if exists|i: int| 0 <= i < h.len() && same_name((#[trigger] h[i]).0, "Content-Encoding"@) {
        let i = choose|i: int|
            0 <= i < h.len() && same_name((#[trigger] h[i]).0, "Content-Encoding"@);
        assert(fixes_body(h[i]));
    }
    let g = h.push(("Content-Type"@, value));
    assert(last_named(g, "Content-Type"@) == Some(value));
    if forall|i: int| 0 <= i < h.len() ==> !fixes_body(#[trigger] h[i]) {
        assert forall|i: int| 0 <= i < g.len() && !fixes_body(("Content-Type"@, value)) implies
            !fixes_body(#[trigger] g[i]) by {
            if i < h.len() {
                assert(g[i] == h[i]);
            }
        }
    }
}

} // verus!
