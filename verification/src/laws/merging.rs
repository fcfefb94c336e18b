//! The rules of a directory together with those above it.

use crate::config::merge::{
    drop_all_named, drop_named, merged, page_at, pair_at, put_page, put_pages, put_pair, put_pairs,
};
use crate::config::types::DirView;
use crate::laws::headers::law_the_first_header_counts;
use crate::router::handler::page_from;
use crate::server::http::header_value;
use crate::text::same_name;
use vstd::prelude::*;

verus! {

pub proof fn lemma_place(a: Seq<(Seq<char>, Seq<char>)>, name: Seq<char>)
    ensures
        0 <= pair_at(a, name) <= a.len(),
        pair_at(a, name) < a.len() ==> same_name(a[pair_at(a, name)].0, name),
        forall|i: int| 0 <= i < pair_at(a, name) ==> !same_name((#[trigger] a[i]).0, name),
    decreases a.len(),
{
    if a.len() > 0 && !same_name(a[0].0, name) {
        let t = a.subrange(1, a.len() as int);
        lemma_place(t, name);
        assert forall|i: int| 0 <= i < pair_at(a, name) implies !same_name(
            (#[trigger] a[i]).0,
            name,
        ) by {
            if i > 0 {
                assert(t[i - 1] == a[i]);
            }
        }
    }
}

proof fn lemma_put_pair(
    a: Seq<(Seq<char>, Seq<char>)>,
    p: (Seq<char>, Seq<char>),
    name: Seq<char>,
)
    ensures
        header_value(put_pair(a, p), name) == (if same_name(p.0, name) {
            Some(p.1)
        } else {
            header_value(a, name)
        }),
{
    let k = pair_at(a, p.0);
    let j = pair_at(a, name);
    let b = put_pair(a, p);
    lemma_place(a, p.0);
    lemma_place(a, name);
    if same_name(p.0, name) {
        assert forall|i: int| 0 <= i < k implies !same_name((#[trigger] b[i]).0, name) by {
            assert(b[i] == a[i]);
        }
        law_the_first_header_counts(b, name, k);
    } else {
        assert forall|i: int| 0 <= i < j implies !same_name((#[trigger] b[i]).0, name) by {
            assert(b[i].0 == a[i].0);
        }
        if j < a.len() {
            assert(b[j] == a[j]);
            law_the_first_header_counts(b, name, j);
        } else {
            law_the_first_header_counts(b, name, b.len() as int);
        }
    }
}

proof fn lemma_put_pairs(
    a: Seq<(Seq<char>, Seq<char>)>,
    b: Seq<(Seq<char>, Seq<char>)>,
    name: Seq<char>,
    k: int,
)
    requires
        0 <= k <= b.len(),
        forall|i: int| k <= i < b.len() ==> !same_name((#[trigger] b[i]).0, name),
        k > 0 ==> same_name(b[k - 1].0, name),
    ensures
        header_value(put_pairs(a, b), name) == (if k > 0 {
            Some(b[k - 1].1)
        } else {
            header_value(a, name)
        }),
    decreases b.len(),
{
    if b.len() > 0 {
        let t = b.drop_last();
        lemma_put_pair(put_pairs(a, t), b.last(), name);
        assert(b.last() == b[b.len() - 1]);
        if k < b.len() {
            assert(!same_name(b[b.len() - 1].0, name));
            lemma_put_pairs(a, t, name, k);
        }
    }
}

pub proof fn lemma_one_more(
    a: Seq<(Seq<char>, Seq<char>)>,
    p: (Seq<char>, Seq<char>),
    name: Seq<char>,
)
    ensures
        header_value(a.push(p), name) == (if header_value(a, name) is Some {
            header_value(a, name)
        } else if same_name(p.0, name) {
            Some(p.1)
        } else {
            None
        }),
{
    let b = a.push(p);
    lemma_place(a, name);
    let j = pair_at(a, name);
    assert forall|i: int| 0 <= i < j implies !same_name((#[trigger] b[i]).0, name) by {
        assert(b[i] == a[i]);
    }
    if j < a.len() || same_name(p.0, name) {
        law_the_first_header_counts(b, name, j);
    } else {
        law_the_first_header_counts(b, name, b.len() as int);
    }
}

proof fn lemma_drop_named(a: Seq<(Seq<char>, Seq<char>)>, gone: Seq<char>, name: Seq<char>)
    requires
        !same_name(gone, name),
    ensures
        header_value(drop_named(a, gone), name) == header_value(a, name),
    decreases a.len(),
{
    if a.len() > 0 {
        let t = a.drop_last();
        lemma_drop_named(t, gone, name);
        lemma_one_more(t, a.last(), name);
        lemma_one_more(drop_named(t, gone), a.last(), name);
        assert(t.push(a.last()) =~= a);
    }
}

proof fn lemma_drop_all(a: Seq<(Seq<char>, Seq<char>)>, gone: Seq<Seq<char>>, name: Seq<char>)
    requires
        forall|i: int| 0 <= i < gone.len() ==> !same_name(#[trigger] gone[i], name),
    ensures
        header_value(drop_all_named(a, gone), name) == header_value(a, name),
    decreases gone.len(),
{
    if gone.len() > 0 {
        let t = gone.drop_last();
        assert forall|i: int| 0 <= i < t.len() implies !same_name(#[trigger] t[i], name) by {
            assert(t[i] == gone[i]);
        }
        lemma_drop_all(a, t, name);
        assert(!same_name(gone[gone.len() - 1], name));
        lemma_drop_named(drop_all_named(a, t), gone.last(), name);
    }
}

/// A header that a directory sets has the value that it gives last; one that it neither
/// sets nor removes has the value from above. `k` is the place behind the last one of that
/// name, or nothing.
pub proof fn law_the_deepest_header_counts(
    parent: DirView,
    child: DirView,
    name: Seq<char>,
    k: int,
)
    requires
        forall|i: int|
            0 <= i < child.remove_headers.len() ==> !same_name(
                #[trigger] child.remove_headers[i],
                name,
            ),
        0 <= k <= child.headers.len(),
        forall|i: int|
            k <= i < child.headers.len() ==> !same_name((#[trigger] child.headers[i]).0, name),
        k > 0 ==> same_name(child.headers[k - 1].0, name),
    ensures
        header_value(merged(parent, child).headers, name) == (if k > 0 {
            Some(child.headers[k - 1].1)
        } else {
            header_value(parent.headers, name)
        }),
{
    lemma_put_pairs(parent.headers, child.headers, name, k);
    lemma_drop_all(put_pairs(parent.headers, child.headers), child.remove_headers, name);
}

/// The type of an extension is the one that the directory gives last, else the one from
/// above.
pub proof fn law_the_deepest_type_counts(
    parent: DirView,
    child: DirView,
    ext: Seq<char>,
    k: int,
)
    requires
        0 <= k <= child.mime_types.len(),
        forall|i: int|
            k <= i < child.mime_types.len() ==> !same_name((#[trigger] child.mime_types[i]).0, ext),
        k > 0 ==> same_name(child.mime_types[k - 1].0, ext),
    ensures
        header_value(merged(parent, child).mime_types, ext) == (if k > 0 {
            Some(child.mime_types[k - 1].1)
        } else {
            header_value(parent.mime_types, ext)
        }),
{
    lemma_put_pairs(parent.mime_types, child.mime_types, ext, k);
}

proof fn lemma_page_place(a: Seq<(u16, Seq<char>)>, status: u16)
    ensures
        0 <= page_at(a, status) <= a.len(),
        page_at(a, status) < a.len() ==> a[page_at(a, status)].0 == status,
        forall|i: int| 0 <= i < page_at(a, status) ==> (#[trigger] a[i]).0 != status,
    decreases a.len(),
{
    if a.len() > 0 && a[0].0 != status {
        let t = a.subrange(1, a.len() as int);
        lemma_page_place(t, status);
        assert forall|i: int| 0 <= i < page_at(a, status) implies (#[trigger] a[i]).0 != status by {
            if i > 0 {
                assert(t[i - 1] == a[i]);
            }
        }
    }
}

proof fn lemma_first_page(a: Seq<(u16, Seq<char>)>, status: u16, i: int, k: int)
    requires
        0 <= i <= k <= a.len(),
        forall|j: int| i <= j < k ==> (#[trigger] a[j]).0 != status,
        k < a.len() ==> a[k].0 == status,
    ensures
        page_from(a, status, i) == (if k < a.len() {
            Some(a[k].1)
        } else {
            None
        }),
    decreases k - i,
{
    if i < k {
        lemma_first_page(a, status, i + 1, k);
    }
}

proof fn lemma_put_page(a: Seq<(u16, Seq<char>)>, p: (u16, Seq<char>), status: u16)
    ensures
        page_from(put_page(a, p), status, 0) == (if p.0 == status {
            Some(p.1)
        } else {
            page_from(a, status, 0)
        }),
{
    let k = page_at(a, p.0);
    let j = page_at(a, status);
    let b = put_page(a, p);
    lemma_page_place(a, p.0);
    lemma_page_place(a, status);
    lemma_first_page(a, status, 0, j);
    if p.0 == status {
        assert forall|i: int| 0 <= i < k implies (#[trigger] b[i]).0 != status by {
            assert(b[i] == a[i]);
        }
        lemma_first_page(b, status, 0, k);
    } else {
        assert forall|i: int| 0 <= i < j implies (#[trigger] b[i]).0 != status by {
            assert(b[i].0 == a[i].0);
        }
        if j < a.len() {
            lemma_first_page(b, status, 0, j);
        } else {
            lemma_first_page(b, status, 0, b.len() as int);
        }
    }
}

proof fn lemma_put_pages(a: Seq<(u16, Seq<char>)>, b: Seq<(u16, Seq<char>)>, status: u16, k: int)
    requires
        0 <= k <= b.len(),
        forall|i: int| k <= i < b.len() ==> (#[trigger] b[i]).0 != status,
        k > 0 ==> b[k - 1].0 == status,
    ensures
        page_from(put_pages(a, b), status, 0) == (if k > 0 {
            Some(b[k - 1].1)
        } else {
            page_from(a, status, 0)
        }),
    decreases b.len(),
{
    if b.len() > 0 {
        let t = b.drop_last();
        lemma_put_page(put_pages(a, t), b.last(), status);
        assert(b.last() == b[b.len() - 1]);
        if k < b.len() {
            assert(b[b.len() - 1].0 != status);
            lemma_put_pages(a, t, status, k);
        }
    }
}

/// The page for a status is the one that the directory gives last, else the one from above.
pub proof fn law_the_deepest_page_counts(parent: DirView, child: DirView, status: u16, k: int)
    requires
        0 <= k <= child.error_pages.len(),
        forall|i: int|
            k <= i < child.error_pages.len() ==> (#[trigger] child.error_pages[i]).0 != status,
        k > 0 ==> child.error_pages[k - 1].0 == status,
    ensures
        page_from(merged(parent, child).error_pages, status, 0) == (if k > 0 {
            Some(child.error_pages[k - 1].1)
        } else {
            page_from(parent.error_pages, status, 0)
        }),
{
    lemma_put_pages(parent.error_pages, child.error_pages, status, k);
}

} // verus!
