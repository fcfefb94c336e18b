//! Inheritance: the rules of a directory combined with those of a directory below
//! it.

use crate::config::ip::{Cidr, IpAddr};
use crate::config::types::{
    pages, pairs, views, DirView, DirectoryConfig, RewriteRule, RewriteView, MAX_REWRITE_RULES,
};
use crate::config::veysrule::{dir_wf, no_breaks};
use crate::text::{chars_of, is_name, is_text, same_name, strings};
use vstd::prelude::*;

verus! {

/// `b` appended to `a`, without what is there already.
pub open spec fn add_missing<T>(a: Seq<T>, b: Seq<T>) -> Seq<T>
    decreases b.len(),
{
    if b.len() == 0 {
        a
    } else {
        let r = add_missing(a, b.drop_last());
        if r.contains(b.last()) {
            r
        } else {
            r.push(b.last())
        }
    }
}

/// The position of the first pair of that name, or the length.
pub open spec fn pair_at(a: Seq<(Seq<char>, Seq<char>)>, name: Seq<char>) -> int
    decreases a.len(),
{
    if a.len() == 0 || same_name(a[0].0, name) {
        0
    } else {
        1 + pair_at(a.subrange(1, a.len() as int), name)
    }
}

/// The value of that name is replaced where there is one, else the pair is added.
pub open spec fn put_pair(a: Seq<(Seq<char>, Seq<char>)>, p: (Seq<char>, Seq<char>)) -> Seq<
    (Seq<char>, Seq<char>),
> {
    let k = pair_at(a, p.0);
    if k < a.len() {
        a.update(k, (a[k].0, p.1))
    } else {
        a.push(p)
    }
}

pub open spec fn put_pairs(
    a: Seq<(Seq<char>, Seq<char>)>,
    b: Seq<(Seq<char>, Seq<char>)>,
) -> Seq<(Seq<char>, Seq<char>)>
    decreases b.len(),
{
    if b.len() == 0 {
        a
    } else {
        put_pair(put_pairs(a, b.drop_last()), b.last())
    }
}

pub open spec fn page_at(a: Seq<(u16, Seq<char>)>, status: u16) -> int
    decreases a.len(),
{
    if a.len() == 0 || a[0].0 == status {
        0
    } else {
        1 + page_at(a.subrange(1, a.len() as int), status)
    }
}

pub open spec fn put_page(a: Seq<(u16, Seq<char>)>, p: (u16, Seq<char>)) -> Seq<(u16, Seq<char>)> {
    let k = page_at(a, p.0);
    if k < a.len() {
        a.update(k, p)
    } else {
        a.push(p)
    }
}

pub open spec fn put_pages(a: Seq<(u16, Seq<char>)>, b: Seq<(u16, Seq<char>)>) -> Seq<
    (u16, Seq<char>),
>
    decreases b.len(),
{
    if b.len() == 0 {
        a
    } else {
        put_page(put_pages(a, b.drop_last()), b.last())
    }
}

/// The pair is there: the name in any case, the value exactly.
pub open spec fn has_pair(a: Seq<(Seq<char>, Seq<char>)>, p: (Seq<char>, Seq<char>)) -> bool {
    exists|i: int| 0 <= i < a.len() && same_name((#[trigger] a[i]).0, p.0) && a[i].1 == p.1
}

pub open spec fn add_pairs(
    a: Seq<(Seq<char>, Seq<char>)>,
    b: Seq<(Seq<char>, Seq<char>)>,
) -> Seq<(Seq<char>, Seq<char>)>
    decreases b.len(),
{
    if b.len() == 0 {
        a
    } else {
        let r = add_pairs(a, b.drop_last());
        if has_pair(r, b.last()) {
            r
        } else {
            r.push(b.last())
        }
    }
}

pub open spec fn has_name(a: Seq<Seq<char>>, name: Seq<char>) -> bool {
    exists|i: int| 0 <= i < a.len() && same_name(#[trigger] a[i], name)
}

pub open spec fn add_names(a: Seq<Seq<char>>, b: Seq<Seq<char>>) -> Seq<Seq<char>>
    decreases b.len(),
{
    if b.len() == 0 {
        a
    } else {
        let r = add_names(a, b.drop_last());
        if has_name(r, b.last()) {
            r
        } else {
            r.push(b.last())
        }
    }
}

/// The pairs of other names.
pub open spec fn drop_named(a: Seq<(Seq<char>, Seq<char>)>, name: Seq<char>) -> Seq<
    (Seq<char>, Seq<char>),
>
    decreases a.len(),
{
    if a.len() == 0 {
        a
    } else {
        let r = drop_named(a.drop_last(), name);
        if same_name(a.last().0, name) {
            r
        } else {
            r.push(a.last())
        }
    }
}

pub open spec fn drop_all_named(a: Seq<(Seq<char>, Seq<char>)>, names: Seq<Seq<char>>) -> Seq<
    (Seq<char>, Seq<char>),
>
    decreases names.len(),
{
    if names.len() == 0 {
        a
    } else {
        drop_named(drop_all_named(a, names.drop_last()), names.last())
    }
}

/// The child's value, where it has one.
pub open spec fn deepest<T>(parent: Option<T>, child: Option<T>) -> Option<T> {
    if child is Some {
        child
    } else {
        parent
    }
}

pub open spec fn add_rewrites(a: Seq<RewriteView>, b: Seq<RewriteView>) -> Seq<RewriteView> {
    if b.len() == 0 {
        a
    } else if a.len() + b.len() <= MAX_REWRITE_RULES {
        a + b
    } else {
        (a + b).subrange(0, MAX_REWRITE_RULES as int)
    }
}

/// The rules that hold in a directory below.
pub open spec fn merged(parent: DirView, child: DirView) -> DirView {
    DirView {
        deny_ips: add_missing(parent.deny_ips, child.deny_ips),
        allow_networks: add_missing(parent.allow_networks, child.allow_networks),
        deny_networks: add_missing(parent.deny_networks, child.deny_networks),
        headers: drop_all_named(put_pairs(parent.headers, child.headers), child.remove_headers),
        add_headers: drop_all_named(
            add_pairs(parent.add_headers, child.add_headers),
            child.remove_headers,
        ),
        remove_headers: add_names(parent.remove_headers, child.remove_headers),
        redirect_404: deepest(parent.redirect_404, child.redirect_404),
        redirect: deepest(parent.redirect, child.redirect),
        rewrites: add_rewrites(parent.rewrites, child.rewrites),
        methods: deepest(parent.methods, child.methods),
        index_files: deepest(parent.index_files, child.index_files),
        autoindex: deepest(parent.autoindex, child.autoindex),
        cache: deepest(parent.cache, child.cache),
        expires: deepest(parent.expires, child.expires),
        mime_types: put_pairs(parent.mime_types, child.mime_types),
        error_pages: put_pages(parent.error_pages, child.error_pages),
        deny_hidden_files: deepest(parent.deny_hidden_files, child.deny_hidden_files),
    }
}

proof fn lemma_pair_at(a: Seq<(Seq<char>, Seq<char>)>, name: Seq<char>)
    ensures
        0 <= pair_at(a, name) <= a.len(),
        pair_at(a, name) < a.len() ==> same_name(a[pair_at(a, name)].0, name),
        forall|i: int| 0 <= i < pair_at(a, name) ==> !same_name((#[trigger] a[i]).0, name),
    decreases a.len(),
{
    if a.len() > 0 && !same_name(a[0].0, name) {
        let t = a.subrange(1, a.len() as int);
        lemma_pair_at(t, name);
        assert forall|i: int| 0 <= i < pair_at(a, name) implies !same_name(
            (#[trigger] a[i]).0,
            name,
        ) by {
            if i > 0 {
                assert(t[i - 1] == a[i]);
            }
        }
    }
}

proof fn lemma_pair_at_is(a: Seq<(Seq<char>, Seq<char>)>, name: Seq<char>, k: int)
    requires
        0 <= k <= a.len(),
        forall|i: int| 0 <= i < k ==> !same_name((#[trigger] a[i]).0, name),
        k == a.len() || same_name(a[k].0, name),
    ensures
        pair_at(a, name) == k,
{
    lemma_pair_at(a, name);
    let f = pair_at(a, name);
    if f < k {
        assert(!same_name(a[f].0, name));
    } else if k < f {
        assert(!same_name(a[k].0, name));
    }
}

proof fn lemma_page_at(a: Seq<(u16, Seq<char>)>, status: u16)
    ensures
        0 <= page_at(a, status) <= a.len(),
        page_at(a, status) < a.len() ==> a[page_at(a, status)].0 == status,
        forall|i: int| 0 <= i < page_at(a, status) ==> (#[trigger] a[i]).0 != status,
    decreases a.len(),
{
    if a.len() > 0 && a[0].0 != status {
        let t = a.subrange(1, a.len() as int);
        lemma_page_at(t, status);
        assert forall|i: int| 0 <= i < page_at(a, status) implies (#[trigger] a[i]).0 != status by {
            if i > 0 {
                assert(t[i - 1] == a[i]);
            }
        }
    }
}

proof fn lemma_page_at_is(a: Seq<(u16, Seq<char>)>, status: u16, k: int)
    requires
        0 <= k <= a.len(),
        forall|i: int| 0 <= i < k ==> (#[trigger] a[i]).0 != status,
        k == a.len() || a[k].0 == status,
    ensures
        page_at(a, status) == k,
{
    lemma_page_at(a, status);
    let f = page_at(a, status);
    if f < k {
        assert(a[f].0 != status);
    } else if k < f {
        assert(a[k].0 != status);
    }
}

/// Allow rules, deny rules, denied addresses and added headers accumulate: nothing
/// that the parent denies or allows is lost.
pub proof fn law_access_rules_accumulate(parent: DirView, child: DirView)
    ensures
        forall|a: IpAddr|
            parent.deny_ips.contains(a) || child.deny_ips.contains(a)
                <==> merged(parent, child).deny_ips.contains(a),
        forall|n: Cidr|
            parent.allow_networks.contains(n) || child.allow_networks.contains(n)
                <==> merged(parent, child).allow_networks.contains(n),
        forall|n: Cidr|
            parent.deny_networks.contains(n) || child.deny_networks.contains(n)
                <==> merged(parent, child).deny_networks.contains(n),
{
    lemma_add_missing(parent.deny_ips, child.deny_ips);
    lemma_add_missing(parent.allow_networks, child.allow_networks);
    lemma_add_missing(parent.deny_networks, child.deny_networks);
}

proof fn lemma_add_missing<T>(a: Seq<T>, b: Seq<T>)
    ensures
        forall|x: T| a.contains(x) || b.contains(x) <==> add_missing(a, b).contains(x),
    decreases b.len(),
{
    if b.len() > 0 {
        let c = b.drop_last();
        lemma_add_missing(a, c);
        let r = add_missing(a, c);
        assert(b =~= c.push(b.last()));
        assert forall|x: T| a.contains(x) || b.contains(x) <==> add_missing(a, b).contains(x) by {
            assert(b.contains(x) <==> c.contains(x) || x == b.last()) by {
                if b.contains(x) {
                    let i = choose|i: int| 0 <= i < b.len() && b[i] == x;
                    if i < c.len() {
                        assert(c[i] == x);
                    }
                }
                if c.contains(x) {
                    let i = choose|i: int| 0 <= i < c.len() && c[i] == x;
                    assert(b[i] == x);
                }
                assert(b[b.len() - 1] == b.last());
            }
            let p = r.push(b.last());
            assert(p.contains(x) <==> r.contains(x) || x == b.last()) by {
                if p.contains(x) {
                    let i = choose|i: int| 0 <= i < p.len() && p[i] == x;
                    if i < r.len() {
                        assert(r[i] == x);
                    }
                }
                if r.contains(x) {
                    let i = choose|i: int| 0 <= i < r.len() && r[i] == x;
                    assert(p[i] == x);
                }
                assert(p[r.len() as int] == b.last());
            }
        }
    } else {
        assert forall|x: T| !b.contains(x) by {}
    }
}

proof fn lemma_add_pairs(
    a: Seq<(Seq<char>, Seq<char>)>,
    b: Seq<(Seq<char>, Seq<char>)>,
    p: (Seq<char>, Seq<char>),
)
    requires
        has_pair(a, p) || has_pair(b, p),
    ensures
        has_pair(add_pairs(a, b), p),
    decreases b.len(),
{
    if b.len() > 0 {
        let c = b.drop_last();
        let r = add_pairs(a, c);
        let q = r.push(b.last());
        if has_pair(a, p) || has_pair(c, p) {
            lemma_add_pairs(a, c, p);
            let i = choose|i: int| 0 <= i < r.len() && same_name((#[trigger] r[i]).0, p.0) && r[i].1
                == p.1;
            assert(q[i] == r[i]);
        } else {
            let i = choose|i: int| 0 <= i < b.len() && same_name((#[trigger] b[i]).0, p.0) && b[i].1
                == p.1;
            if i < c.len() {
                assert(c[i] == b[i]);
            }
            if has_pair(r, b.last()) {
                let j = choose|j: int|
                    0 <= j < r.len() && same_name((#[trigger] r[j]).0, b.last().0) && r[j].1
                        == b.last().1;
                assert(same_name(r[j].0, p.0));
            } else {
                assert(q[r.len() as int] == b.last());
            }
        }
    }
}

proof fn lemma_drop_keeps(
    a: Seq<(Seq<char>, Seq<char>)>,
    name: Seq<char>,
    p: (Seq<char>, Seq<char>),
)
    requires
        has_pair(a, p),
        !same_name(p.0, name),
    ensures
        has_pair(drop_named(a, name), p),
    decreases a.len(),
{
    let b = a.drop_last();
    let r = drop_named(b, name);
    let i = choose|i: int| 0 <= i < a.len() && same_name((#[trigger] a[i]).0, p.0) && a[i].1 == p.1;
    if i < b.len() {
        assert(b[i] == a[i]);
        lemma_drop_keeps(b, name, p);
        let j = choose|j: int| 0 <= j < r.len() && same_name((#[trigger] r[j]).0, p.0) && r[j].1
            == p.1;
        assert(r.push(a.last())[j] == r[j]);
    } else {
        assert(r.push(a.last())[r.len() as int] == a.last());
    }
}

proof fn lemma_drop_all_keeps(
    a: Seq<(Seq<char>, Seq<char>)>,
    names: Seq<Seq<char>>,
    p: (Seq<char>, Seq<char>),
)
    requires
        has_pair(a, p),
        !has_name(names, p.0),
    ensures
        has_pair(drop_all_named(a, names), p),
    decreases names.len(),
{
    if names.len() > 0 {
        let rest = names.drop_last();
        assert(!has_name(rest, p.0)) by {
            if has_name(rest, p.0) {
                let i = choose|i: int| 0 <= i < rest.len() && same_name(#[trigger] rest[i], p.0);
                assert(same_name(names[i], p.0));
            }
        }
        assert(!same_name(names[names.len() - 1], p.0));
        lemma_drop_all_keeps(a, rest, p);
        lemma_drop_keeps(drop_all_named(a, rest), names.last(), p);
    }
}

/// Headers that are added accumulate: a directory below keeps those from above, but for
/// those that it removes.
pub proof fn law_added_headers_accumulate(
    parent: DirView,
    child: DirView,
    p: (Seq<char>, Seq<char>),
)
    requires
        has_pair(parent.add_headers, p) || has_pair(child.add_headers, p),
        !has_name(child.remove_headers, p.0),
    ensures
        has_pair(merged(parent, child).add_headers, p),
{
    lemma_add_pairs(parent.add_headers, child.add_headers, p);
    lemma_drop_all_keeps(
        add_pairs(parent.add_headers, child.add_headers),
        child.remove_headers,
        p,
    );
}

/// Rewrites accumulate, up to their limit.
pub proof fn law_rewrites_accumulate(parent: DirView, child: DirView)
    requires
        parent.rewrites.len() + child.rewrites.len() <= MAX_REWRITE_RULES,
    ensures
        merged(parent, child).rewrites == parent.rewrites + child.rewrites,
{
    assert(parent.rewrites + Seq::<RewriteView>::empty() =~= parent.rewrites);
    assert(child.rewrites.len() == 0 ==> child.rewrites =~= Seq::<RewriteView>::empty());
}

/// Of a scalar rule the deepest directory that has it decides.
pub proof fn law_deepest_scalar_wins(parent: DirView, child: DirView)
    ensures
        merged(parent, child).autoindex == (if child.autoindex is Some {
            child.autoindex
        } else {
            parent.autoindex
        }),
        merged(parent, child).redirect == (if child.redirect is Some {
            child.redirect
        } else {
            parent.redirect
        }),
        merged(parent, child).methods == (if child.methods is Some {
            child.methods
        } else {
            parent.methods
        }),
        merged(parent, child).index_files == (if child.index_files is Some {
            child.index_files
        } else {
            parent.index_files
        }),
        merged(parent, child).cache == (if child.cache is Some {
            child.cache
        } else {
            parent.cache
        }),
        merged(parent, child).expires == (if child.expires is Some {
            child.expires
        } else {
            parent.expires
        }),
        merged(parent, child).redirect_404 == (if child.redirect_404 is Some {
            child.redirect_404
        } else {
            parent.redirect_404
        }),
        merged(parent, child).deny_hidden_files == (if child.deny_hidden_files is Some {
            child.deny_hidden_files
        } else {
            parent.deny_hidden_files
        }),
{
}

proof fn lemma_drop_named(a: Seq<(Seq<char>, Seq<char>)>, name: Seq<char>)
    ensures
        forall|i: int|
            0 <= i < drop_named(a, name).len() ==> a.contains(#[trigger] drop_named(a, name)[i])
                && !same_name(drop_named(a, name)[i].0, name),
    decreases a.len(),
{
    if a.len() > 0 {
        let b = a.drop_last();
        lemma_drop_named(b, name);
        let r = drop_named(b, name);
        assert forall|i: int| 0 <= i < drop_named(a, name).len() implies a.contains(
            #[trigger] drop_named(a, name)[i],
        ) && !same_name(drop_named(a, name)[i].0, name) by {
            if i < r.len() {
                assert(b.contains(r[i]));
                let j = choose|j: int| 0 <= j < b.len() && b[j] == r[i];
                assert(a[j] == r[i]);
            } else {
                assert(a[a.len() - 1] == a.last());
            }
        }
    }
}

proof fn lemma_drop_all(a: Seq<(Seq<char>, Seq<char>)>, names: Seq<Seq<char>>)
    ensures
        forall|i: int, j: int|
            0 <= i < drop_all_named(a, names).len() && 0 <= j < names.len() ==> !same_name(
                #[trigger] drop_all_named(a, names)[i].0,
                #[trigger] names[j],
            ),
        forall|i: int|
            0 <= i < drop_all_named(a, names).len() ==> a.contains(
                #[trigger] drop_all_named(a, names)[i],
            ),
    decreases names.len(),
{
    let r = drop_all_named(a, names);
    if names.len() > 0 {
        let q = drop_all_named(a, names.drop_last());
        lemma_drop_all(a, names.drop_last());
        lemma_drop_named(q, names.last());
        assert forall|i: int| 0 <= i < r.len() implies a.contains(#[trigger] r[i]) by {
            assert(q.contains(r[i]));
            let k = choose|k: int| 0 <= k < q.len() && q[k] == r[i];
            assert(a.contains(q[k]));
        }
        assert forall|i: int, j: int| 0 <= i < r.len() && 0 <= j < names.len() implies !same_name(
            #[trigger] r[i].0,
            #[trigger] names[j],
        ) by {
            assert(q.contains(r[i]));
            let k = choose|k: int| 0 <= k < q.len() && q[k] == r[i];
            if j < names.len() - 1 {
                assert(names.drop_last()[j] == names[j]);
                assert(!same_name(q[k].0, names.drop_last()[j]));
            }
        }
    } else {
        assert forall|i: int| 0 <= i < r.len() implies a.contains(#[trigger] r[i]) by {
            assert(a[i] == r[i]);
        }
    }
}

/// A header that the child removes is in neither header list afterwards.
pub proof fn law_removed_headers_are_gone(parent: DirView, child: DirView, i: int, j: int)
    requires
        0 <= j < child.remove_headers.len(),
    ensures
        0 <= i < merged(parent, child).headers.len() ==> !same_name(
            merged(parent, child).headers[i].0,
            child.remove_headers[j],
        ),
        0 <= i < merged(parent, child).add_headers.len() ==> !same_name(
            merged(parent, child).add_headers[i].0,
            child.remove_headers[j],
        ),
{
    lemma_drop_all(put_pairs(parent.headers, child.headers), child.remove_headers);
    lemma_drop_all(add_pairs(parent.add_headers, child.add_headers), child.remove_headers);
}

/// Putting a pair makes its value the one found under its name.
pub proof fn law_put_pair_is_found(
    a: Seq<(Seq<char>, Seq<char>)>,
    p: (Seq<char>, Seq<char>),
)
    ensures
        pair_at(put_pair(a, p), p.0) < put_pair(a, p).len(),
        put_pair(a, p)[pair_at(put_pair(a, p), p.0)].1 == p.1,
{
    lemma_pair_at(a, p.0);
    lemma_pair_at_is(put_pair(a, p), p.0, pair_at(a, p.0));
}

proof fn lemma_put_pairs_values(
    a: Seq<(Seq<char>, Seq<char>)>,
    b: Seq<(Seq<char>, Seq<char>)>,
)
    requires
        forall|i: int| 0 <= i < a.len() ==> no_breaks((#[trigger] a[i]).1),
        forall|i: int| 0 <= i < b.len() ==> no_breaks((#[trigger] b[i]).1),
    ensures
        forall|i: int| 0 <= i < put_pairs(a, b).len() ==> no_breaks((#[trigger] put_pairs(a, b)[i]).1),
    decreases b.len(),
{
    if b.len() > 0 {
        lemma_put_pairs_values(a, b.drop_last());
        lemma_pair_at(put_pairs(a, b.drop_last()), b.last().0);
    }
}

proof fn lemma_add_pairs_values(
    a: Seq<(Seq<char>, Seq<char>)>,
    b: Seq<(Seq<char>, Seq<char>)>,
)
    requires
        forall|i: int| 0 <= i < a.len() ==> no_breaks((#[trigger] a[i]).1),
        forall|i: int| 0 <= i < b.len() ==> no_breaks((#[trigger] b[i]).1),
    ensures
        forall|i: int| 0 <= i < add_pairs(a, b).len() ==> no_breaks((#[trigger] add_pairs(a, b)[i]).1),
    decreases b.len(),
{
    if b.len() > 0 {
        let r = add_pairs(a, b.drop_last());
        lemma_add_pairs_values(a, b.drop_last());
        assert forall|i: int| 0 <= i < add_pairs(a, b).len() implies no_breaks(
            (#[trigger] add_pairs(a, b)[i]).1,
        ) by {
            if i < r.len() {
                assert(add_pairs(a, b)[i] == r[i]);
            } else {
                assert(add_pairs(a, b)[i] == b[b.len() - 1]);
            }
        }
    }
}

proof fn lemma_put_pages_status(a: Seq<(u16, Seq<char>)>, b: Seq<(u16, Seq<char>)>)
    requires
        forall|i: int| 0 <= i < a.len() ==> 100 <= (#[trigger] a[i]).0 <= 599,
        forall|i: int| 0 <= i < b.len() ==> 100 <= (#[trigger] b[i]).0 <= 599,
    ensures
        forall|i: int|
            0 <= i < put_pages(a, b).len() ==> 100 <= (#[trigger] put_pages(a, b)[i]).0 <= 599,
    decreases b.len(),
{
    if b.len() > 0 {
        lemma_put_pages_status(a, b.drop_last());
        lemma_page_at(put_pages(a, b.drop_last()), b.last().0);
    }
}

/// Inheritance keeps rules well formed.
pub proof fn law_merge_keeps_rules_well_formed(parent: DirView, child: DirView)
    requires
        dir_wf(parent),
        dir_wf(child),
    ensures
        dir_wf(merged(parent, child)),
{
    let m = merged(parent, child);
    lemma_add_missing(parent.allow_networks, child.allow_networks);
    lemma_add_missing(parent.deny_networks, child.deny_networks);
    lemma_put_pairs_values(parent.headers, child.headers);
    lemma_add_pairs_values(parent.add_headers, child.add_headers);
    lemma_drop_all(put_pairs(parent.headers, child.headers), child.remove_headers);
    lemma_drop_all(add_pairs(parent.add_headers, child.add_headers), child.remove_headers);
    lemma_put_pages_status(parent.error_pages, child.error_pages);
    assert forall|i: int| 0 <= i < m.allow_networks.len() implies (
    #[trigger] m.allow_networks[i]).wf() by {
        let x = m.allow_networks[i];
        assert(m.allow_networks.contains(x));
        if parent.allow_networks.contains(x) {
            let j = choose|j: int| 0 <= j < parent.allow_networks.len() && parent.allow_networks[j] == x;
            assert(parent.allow_networks[j].wf());
        } else {
            let j = choose|j: int| 0 <= j < child.allow_networks.len() && child.allow_networks[j] == x;
            assert(child.allow_networks[j].wf());
        }
    }
    assert forall|i: int| 0 <= i < m.deny_networks.len() implies (
    #[trigger] m.deny_networks[i]).wf() by {
        let x = m.deny_networks[i];
        assert(m.deny_networks.contains(x));
        if parent.deny_networks.contains(x) {
            let j = choose|j: int| 0 <= j < parent.deny_networks.len() && parent.deny_networks[j] == x;
            assert(parent.deny_networks[j].wf());
        } else {
            let j = choose|j: int| 0 <= j < child.deny_networks.len() && child.deny_networks[j] == x;
            assert(child.deny_networks[j].wf());
        }
    }
    assert forall|i: int| 0 <= i < m.headers.len() implies no_breaks(
        (#[trigger] m.headers[i]).1,
    ) by {
        assert(put_pairs(parent.headers, child.headers).contains(m.headers[i]));
    }
    assert forall|i: int| 0 <= i < m.add_headers.len() implies no_breaks(
        (#[trigger] m.add_headers[i]).1,
    ) by {
        assert(add_pairs(parent.add_headers, child.add_headers).contains(m.add_headers[i]));
    }
}

/// Two names are the same without regard to ASCII case.
pub fn names_match(a: &str, b: &str) -> (r: bool)
    ensures
        r == same_name(a@, b@),
{
    is_name(&chars_of(a), b)
}

fn add_missing_ips(a: &mut Vec<IpAddr>, b: &Vec<IpAddr>)
    ensures
        final(a)@ == add_missing(old(a)@, b@),
{
    let ghost start = a@;
    let mut i: usize = 0;
    assert(b@.subrange(0, 0) =~= Seq::<IpAddr>::empty());
    while i < b.len()
        invariant
            i <= b@.len(),
            a@ == add_missing(start, b@.subrange(0, i as int)),
        decreases b@.len() - i,
    {
        assert(b@.subrange(0, i + 1).drop_last() =~= b@.subrange(0, i as int));
        let x = b[i];
        let mut found = false;
        let mut j: usize = 0;
        while j < a.len()
            invariant
                j <= a@.len(),
                found == exists|k: int| 0 <= k < j && a@[k] == x,
            decreases a@.len() - j,
        {
            if a[j] == x {
                found = true;
            }
            j = j + 1;
        }
        assert(found == a@.contains(x));
        if !found {
            a.push(x);
        }
        i = i + 1;
    }
    assert(b@.subrange(0, b@.len() as int) =~= b@);
}

fn add_missing_networks(a: &mut Vec<Cidr>, b: &Vec<Cidr>)
    ensures
        final(a)@ == add_missing(old(a)@, b@),
{
    let ghost start = a@;
    let mut i: usize = 0;
    assert(b@.subrange(0, 0) =~= Seq::<Cidr>::empty());
    while i < b.len()
        invariant
            i <= b@.len(),
            a@ == add_missing(start, b@.subrange(0, i as int)),
        decreases b@.len() - i,
    {
        assert(b@.subrange(0, i + 1).drop_last() =~= b@.subrange(0, i as int));
        let x = b[i];
        let mut found = false;
        let mut j: usize = 0;
        while j < a.len()
            invariant
                j <= a@.len(),
                found == exists|k: int| 0 <= k < j && a@[k] == x,
            decreases a@.len() - j,
        {
            if a[j] == x {
                found = true;
            }
            j = j + 1;
        }
        assert(found == a@.contains(x));
        if !found {
            a.push(x);
        }
        i = i + 1;
    }
    assert(b@.subrange(0, b@.len() as int) =~= b@);
}

/// The position of the first pair of that name, or the length.
pub fn find_pair(a: &Vec<(String, String)>, name: &str) -> (k: usize)
    ensures
        k == pair_at(pairs(a@), name@),
        k <= a@.len(),
{
    let ghost p = pairs(a@);
    let mut k: usize = 0;
    while k < a.len() && !names_match(a[k].0.as_str(), name)
        invariant
            p == pairs(a@),
            k <= a@.len(),
            forall|i: int| 0 <= i < k ==> !same_name((#[trigger] p[i]).0, name@),
        decreases a@.len() - k,
    {
        k = k + 1;
    }
    proof {
        lemma_pair_at_is(p, name@, k as int);
    }
    k
}

/// Replaces the value under a name, or adds the pair.
pub fn set_pair(a: &mut Vec<(String, String)>, name: &str, value: &str)
    ensures
        pairs(final(a)@) == put_pair(pairs(old(a)@), (name@, value@)),
{
    let ghost prev = pairs(a@);
    let k: usize = find_pair(a, name);
    if k < a.len() {
        let kept = a[k].0.clone();
        a.set(k, (kept, value.to_owned()));
        assert(pairs(a@) =~= prev.update(k as int, (prev[k as int].0, value@)));
    } else {
        a.push((name.to_owned(), value.to_owned()));
        assert(pairs(a@) =~= prev.push((name@, value@)));
    }
}

fn set_pairs(a: &mut Vec<(String, String)>, b: &Vec<(String, String)>)
    ensures
        pairs(final(a)@) == put_pairs(pairs(old(a)@), pairs(b@)),
{
    let ghost start = pairs(a@);
    let ghost q = pairs(b@);
    let mut i: usize = 0;
    assert(q.subrange(0, 0) =~= Seq::<(Seq<char>, Seq<char>)>::empty());
    while i < b.len()
        invariant
            q == pairs(b@),
            i <= b@.len(),
            pairs(a@) == put_pairs(start, q.subrange(0, i as int)),
        decreases b@.len() - i,
    {
        assert(q.subrange(0, i + 1).drop_last() =~= q.subrange(0, i as int));
        set_pair(a, b[i].0.as_str(), b[i].1.as_str());
        i = i + 1;
    }
    assert(q.subrange(0, b@.len() as int) =~= q);
}

fn add_new_pairs(a: &mut Vec<(String, String)>, b: &Vec<(String, String)>)
    ensures
        pairs(final(a)@) == add_pairs(pairs(old(a)@), pairs(b@)),
{
    let ghost start = pairs(a@);
    let ghost q = pairs(b@);
    let mut i: usize = 0;
    assert(q.subrange(0, 0) =~= Seq::<(Seq<char>, Seq<char>)>::empty());
    while i < b.len()
        invariant
            q == pairs(b@),
            i <= b@.len(),
            pairs(a@) == add_pairs(start, q.subrange(0, i as int)),
        decreases b@.len() - i,
    {
        assert(q.subrange(0, i + 1).drop_last() =~= q.subrange(0, i as int));
        let ghost r = pairs(a@);
        let ghost p = q[i as int];
        let value = chars_of(b[i].1.as_str());
        let mut found = false;
        let mut j: usize = 0;
        while j < a.len()
            invariant
                i < b@.len(),
                q == pairs(b@),
                p == q[i as int],
                value@ == p.1,
                r == pairs(a@),
                j <= a@.len(),
                found == exists|k: int|
                    0 <= k < j && same_name((#[trigger] r[k]).0, p.0) && r[k].1 == p.1,
            decreases a@.len() - j,
        {
            assert(r[j as int] == (a@[j as int].0@, a@[j as int].1@));
            if names_match(a[j].0.as_str(), b[i].0.as_str()) && is_text(&value, a[j].1.as_str()) {
                found = true;
            }
            j = j + 1;
        }
        assert(found == has_pair(r, p));
        if !found {
            a.push((b[i].0.clone(), b[i].1.clone()));
            assert(pairs(a@) =~= r.push(p));
        }
        i = i + 1;
    }
    assert(q.subrange(0, b@.len() as int) =~= q);
}

/// Removes every pair of that name.
pub fn remove_named(a: &mut Vec<(String, String)>, name: &str)
    ensures
        pairs(final(a)@) == drop_named(pairs(old(a)@), name@),
{
    let ghost p = pairs(a@);
    let mut kept: Vec<(String, String)> = Vec::new();
    let mut i: usize = 0;
    assert(pairs(kept@) =~= Seq::<(Seq<char>, Seq<char>)>::empty());
    assert(p.subrange(0, 0) =~= Seq::<(Seq<char>, Seq<char>)>::empty());
    while i < a.len()
        invariant
            p == pairs(a@),
            i <= a@.len(),
            pairs(kept@) == drop_named(p.subrange(0, i as int), name@),
        decreases a@.len() - i,
    {
        assert(p.subrange(0, i + 1).drop_last() =~= p.subrange(0, i as int));
        if !names_match(a[i].0.as_str(), name) {
            let ghost k = pairs(kept@);
            kept.push((a[i].0.clone(), a[i].1.clone()));
            assert(pairs(kept@) =~= k.push(p[i as int]));
        }
        i = i + 1;
    }
    assert(p.subrange(0, p.len() as int) =~= p);
    *a = kept;
}

fn remove_all_named(a: &mut Vec<(String, String)>, names: &Vec<String>)
    ensures
        pairs(final(a)@) == drop_all_named(pairs(old(a)@), strings(names@)),
{
    let ghost start = pairs(a@);
    let ghost w = strings(names@);
    let mut i: usize = 0;
    assert(w.subrange(0, 0) =~= Seq::<Seq<char>>::empty());
    while i < names.len()
        invariant
            w == strings(names@),
            i <= names@.len(),
            pairs(a@) == drop_all_named(start, w.subrange(0, i as int)),
        decreases names@.len() - i,
    {
        assert(w.subrange(0, i + 1).drop_last() =~= w.subrange(0, i as int));
        remove_named(a, names[i].as_str());
        i = i + 1;
    }
    assert(w.subrange(0, names@.len() as int) =~= w);
}

fn add_new_names(a: &mut Vec<String>, b: &Vec<String>)
    ensures
        strings(final(a)@) == add_names(strings(old(a)@), strings(b@)),
{
    let ghost start = strings(a@);
    let ghost q = strings(b@);
    let mut i: usize = 0;
    assert(q.subrange(0, 0) =~= Seq::<Seq<char>>::empty());
    while i < b.len()
        invariant
            q == strings(b@),
            i <= b@.len(),
            strings(a@) == add_names(start, q.subrange(0, i as int)),
        decreases b@.len() - i,
    {
        assert(q.subrange(0, i + 1).drop_last() =~= q.subrange(0, i as int));
        let ghost r = strings(a@);
        let mut found = false;
        let mut j: usize = 0;
        while j < a.len()
            invariant
                i < b@.len(),
                q == strings(b@),
                r == strings(a@),
                j <= a@.len(),
                found == exists|k: int| 0 <= k < j && same_name(#[trigger] r[k], q[i as int]),
            decreases a@.len() - j,
        {
            assert(r[j as int] == a@[j as int]@);
            if names_match(a[j].as_str(), b[i].as_str()) {
                found = true;
            }
            j = j + 1;
        }
        assert(found == has_name(r, q[i as int]));
        if !found {
            a.push(b[i].clone());
            assert(strings(a@) =~= r.push(q[i as int]));
        }
        i = i + 1;
    }
    assert(q.subrange(0, b@.len() as int) =~= q);
}

fn set_pages(a: &mut Vec<(u16, String)>, b: &Vec<(u16, String)>)
    ensures
        pages(final(a)@) == put_pages(pages(old(a)@), pages(b@)),
{
    let ghost start = pages(a@);
    let ghost q = pages(b@);
    let mut i: usize = 0;
    assert(q.subrange(0, 0) =~= Seq::<(u16, Seq<char>)>::empty());
    while i < b.len()
        invariant
            q == pages(b@),
            i <= b@.len(),
            pages(a@) == put_pages(start, q.subrange(0, i as int)),
        decreases b@.len() - i,
    {
        assert(q.subrange(0, i + 1).drop_last() =~= q.subrange(0, i as int));
        let ghost r = pages(a@);
        let status: u16 = b[i].0;
        let mut k: usize = 0;
        while k < a.len() && a[k].0 != status
            invariant
                r == pages(a@),
                k <= a@.len(),
                forall|j: int| 0 <= j < k ==> (#[trigger] r[j]).0 != status,
            decreases a@.len() - k,
        {
            k = k + 1;
        }
        proof {
            lemma_page_at_is(r, status, k as int);
        }
        if k < a.len() {
            a.set(k, (status, b[i].1.clone()));
            assert(pages(a@) =~= r.update(k as int, q[i as int]));
        } else {
            a.push((status, b[i].1.clone()));
            assert(pages(a@) =~= r.push(q[i as int]));
        }
        i = i + 1;
    }
    assert(q.subrange(0, b@.len() as int) =~= q);
}

fn extend_rewrites(a: &mut Vec<RewriteRule>, b: &Vec<RewriteRule>)
    ensures
        views(final(a)@) == add_rewrites(views(old(a)@), views(b@)),
{
    let ghost start = views(a@);
    let ghost q = views(b@);
    if b.len() > 0 && a.len() > MAX_REWRITE_RULES {
        a.truncate(MAX_REWRITE_RULES);
        assert(views(a@) =~= (start + q).subrange(0, MAX_REWRITE_RULES as int));
        return;
    }
    if b.len() == 0 {
        return;
    }
    let mut i: usize = 0;
    assert(start + q.subrange(0, 0) =~= start);
    while i < b.len() && a.len() < MAX_REWRITE_RULES
        invariant
            q == views(b@),
            i <= b@.len(),
            a@.len() == start.len() + i,
            a@.len() <= MAX_REWRITE_RULES,
            views(a@) == start + q.subrange(0, i as int),
        decreases b@.len() - i,
    {
        let ghost r = views(a@);
        a.push(b[i].clone());
        assert(views(a@) =~= r.push(q[i as int]));
        i = i + 1;
        assert(start + q.subrange(0, i as int) =~= (start + q.subrange(0, i - 1)).push(q[i - 1]));
    }
    proof {
        if i == b@.len() {
            assert(q.subrange(0, i as int) =~= q);
            if q.len() == 0 {
                assert(start + q =~= start);
            }
        } else {
            assert(start + q.subrange(0, i as int) =~= (start + q).subrange(
                0,
                MAX_REWRITE_RULES as int,
            ));
        }
    }
}

impl DirectoryConfig {
    /// Adds the rules of a directory below to those of a directory.
    pub fn merge(&mut self, child: DirectoryConfig)
        ensures
            final(self)@ == merged(old(self)@, child@),
    {
        add_missing_ips(&mut self.deny_ips, &child.deny_ips);
        add_missing_networks(&mut self.allow_networks, &child.allow_networks);
        add_missing_networks(&mut self.deny_networks, &child.deny_networks);
        set_pairs(&mut self.headers, &child.headers);
        add_new_pairs(&mut self.add_headers, &child.add_headers);
        add_new_names(&mut self.remove_headers, &child.remove_headers);
        remove_all_named(&mut self.headers, &child.remove_headers);
        remove_all_named(&mut self.add_headers, &child.remove_headers);
        if child.redirect_404.is_some() {
            self.redirect_404 = child.redirect_404;
        }
        if child.redirect.is_some() {
            self.redirect = child.redirect;
        }
        extend_rewrites(&mut self.rewrites, &child.rewrites);
        if child.methods.is_some() {
            self.methods = child.methods;
        }
        if child.index_files.is_some() {
            self.index_files = child.index_files;
        }
        if child.autoindex.is_some() {
            self.autoindex = child.autoindex;
        }
        if child.cache.is_some() {
            self.cache = child.cache;
        }
        if child.expires.is_some() {
            self.expires = child.expires;
        }
        set_pairs(&mut self.mime_types, &child.mime_types);
        set_pages(&mut self.error_pages, &child.error_pages);
        if child.deny_hidden_files.is_some() {
            self.deny_hidden_files = child.deny_hidden_files;
        }
    }
}

} // verus!
