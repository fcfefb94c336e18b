//! Rule files: which there are for a path, how they add up, and what is remembered of them.

use crate::config::manager::{
    cached, collected, law_remembered_rules_are_found, law_remembering_leaves_other_files_alone,
    read_rules, rule_files, ManagerView, RuleFileView,
};
use crate::config::tree::{preloaded, step_for, tree_complaints};
use crate::config::types::{no_rules, DirView, ErrorView};
use crate::config::veysrule::file_rules;
use crate::laws::merging::law_the_deepest_header_counts;
use crate::laws::paths::law_paths_are_made_of_names;
use crate::router::path::{components, joined_path, plain_name};
use crate::server::http::header_value;
use crate::text::{has_char, same_name};
use vstd::prelude::*;

verus! {

proof fn lemma_joined_reads_back(p: Seq<Seq<char>>)
    requires
        forall|i: int| 0 <= i < p.len() ==> plain_name(#[trigger] p[i]),
    ensures
        components(joined_path(p)) == p,
    decreases p.len(),
{
    if p.len() == 0 {
        reveal_strlit(".");
        assert(seq!['x'][0] != "."@[0]);
        law_paths_are_made_of_names(Seq::empty(), Seq::empty(), seq!['x']);
        assert(p =~= Seq::<Seq<char>>::empty());
    } else {
        let l = p.drop_last();
        let n = p.last();
        assert(plain_name(p[p.len() - 1]));
        assert forall|i: int| 0 <= i < l.len() implies plain_name(#[trigger] l[i]) by {
            assert(l[i] == p[i]);
        }
        lemma_joined_reads_back(l);
        law_paths_are_made_of_names(joined_path(l), n, n);
        if p.len() == 1 {
            assert(p =~= seq![n]);
        } else {
            assert(joined_path(p) =~= joined_path(l) + seq!['/'] + n);
            assert(l + seq![n] =~= p);
        }
    }
}

/// For a path the rule files are those of the root, of each directory on the way and of the
/// last one, in this order.
pub proof fn law_rule_files_lie_on_the_way(path: Seq<char>, i: int)
    requires
        forall|j: int| 0 <= j < components(path).len() ==> plain_name(#[trigger] components(path)[j]),
        0 <= i <= components(path).len(),
    ensures
        rule_files(path).len() == components(path).len() + 1,
        components(rule_files(path)[i]) == components(path).subrange(0, i).push(".veysrule"@),
{
    reveal_strlit(".veysrule");
    reveal_strlit(".");
    reveal_strlit("..");
    let p = components(path).subrange(0, i).push(".veysrule"@);
    assert forall|j: int| 0 <= j < p.len() implies plain_name(#[trigger] p[j]) by {
        if j < i {
            assert(p[j] == components(path)[j]);
        } else {
            assert(!has_char(".veysrule"@, '/'));
        }
    }
    lemma_joined_reads_back(p);
}

/// Where no file gives rules there are none.
pub proof fn law_no_files_give_no_rules(m: ManagerView, dev: bool)
    ensures
        collected(m, Seq::empty(), dev).1 == no_rules(),
        collected(m, Seq::empty(), dev).2.len() == 0,
{
}

/// The rules of a deeper directory prevail: a header that its file sets last has that value,
/// and one that it neither sets nor removes has the value from the directories above it. A
/// file with complaints changes nothing.
pub proof fn law_deeper_rules_prevail(
    m: ManagerView,
    above: Seq<RuleFileView>,
    f: RuleFileView,
    dev: bool,
    name: Seq<char>,
    k: int,
)
    ensures
        ({
            let a = collected(m, above, dev);
            let r = collected(m, above.push(f), dev);
            let child = file_rules(f.content, f.is_root);
            cached(a.0, f.path, dev, f.stamp) is None ==> {
                &&& child.complaints.len() > 0 ==> r.1 == a.1 && r.0 == a.0 && r.2.len() == a.2.len()
                    + child.complaints.len()
                &&& child.complaints.len() == 0 ==> r.2 == a.2
                &&& child.complaints.len() == 0 && sets_last(child.dir, name, k)
                    ==> header_value(r.1.headers, name) == (if k > 0 {
                    Some(child.dir.headers[k - 1].1)
                } else {
                    header_value(a.1.headers, name)
                })
            }
        }),
{
    let a = collected(m, above, dev);
    let child = file_rules(f.content, f.is_root).dir;
    assert(above.push(f).drop_last() =~= above);
    if sets_last(child, name, k) {
        law_the_deepest_header_counts(a.1, child, name, k);
    }
    assert(a.2 + Seq::<ErrorView>::empty() =~= a.2);
}

/// The rules do not remove the header, and its last value stands just before the place `k`;
/// it has none where `k` is zero.
pub open spec fn sets_last(d: DirView, name: Seq<char>, k: int) -> bool {
    &&& forall|i: int|
        0 <= i < d.remove_headers.len() ==> !same_name(#[trigger] d.remove_headers[i], name)
    &&& 0 <= k <= d.headers.len()
    &&& forall|i: int| k <= i < d.headers.len() ==> !same_name((#[trigger] d.headers[i]).0, name)
    &&& k > 0 ==> same_name(d.headers[k - 1].0, name)
}

/// A walk through the tree enters directories and reads rule files. It follows no link, and
/// leaves the rule file of the root and all other files alone.
pub proof fn law_walks_find_rule_files(link: bool, directory: bool, name: Seq<char>, root: bool)
    ensures
        step_for(true, directory, name, root) is Skip,
        step_for(false, true, name, root) is Enter,
        step_for(false, false, ".veysrule"@, false) is Read,
        step_for(false, false, ".veysrule"@, true) is Skip,
        name != ".veysrule"@ ==> step_for(false, false, name, root) is Skip,
{
}

/// A tree is without complaint exactly where each of its rule files is.
pub proof fn law_trees_are_as_good_as_their_files(files: Seq<RuleFileView>)
    ensures
        tree_complaints(files).len() == 0 <==> forall|i: int|
            0 <= i < files.len() ==> file_rules(
                (#[trigger] files[i]).content,
                files[i].is_root,
            ).complaints.len() == 0,
    decreases files.len(),
{
    if files.len() > 0 {
        let l = files.drop_last();
        law_trees_are_as_good_as_their_files(l);
        assert(files.last() == files[files.len() - 1]);
        if tree_complaints(files).len() == 0 {
            assert forall|i: int| 0 <= i < files.len() implies file_rules(
                (#[trigger] files[i]).content,
                files[i].is_root,
            ).complaints.len() == 0 by {
                if i < l.len() {
                    assert(l[i] == files[i]);
                }
            }
        } else if tree_complaints(l).len() > 0 {
            let i = choose|i: int|
                0 <= i < l.len() && file_rules(
                    (#[trigger] l[i]).content,
                    l[i].is_root,
                ).complaints.len() != 0;
            assert(files[i] == l[i]);
        }
    }
}

proof fn lemma_preloaded_keeps(m: ManagerView, files: Seq<RuleFileView>, path: Seq<char>, t: Option<u128>)
    requires
        forall|i: int| 0 <= i < files.len() ==> (#[trigger] files[i]).path != path,
    ensures
        cached(preloaded(m, files), path, false, t) == cached(m, path, false, t),
    decreases files.len(),
{
    if files.len() > 0 {
        let l = files.drop_last();
        assert forall|i: int| 0 <= i < l.len() implies (#[trigger] l[i]).path != path by {
            assert(l[i] == files[i]);
        }
        lemma_preloaded_keeps(m, l, path, t);
        let f = files.last();
        assert(f == files[files.len() - 1]);
        law_remembering_leaves_other_files_alone(
            preloaded(m, l),
            f.path,
            read_rules(f).dir,
            f.stamp,
            path,
            false,
            t,
        );
    }
}

/// After all rule files were looked at, the rules of each that is without complaint are at
/// hand, and nothing is remembered of those with complaints.
pub proof fn law_trees_are_remembered(
    m: ManagerView,
    files: Seq<RuleFileView>,
    i: int,
    t: Option<u128>,
)
    requires
        0 <= i < files.len(),
        forall|a: int, b: int|
            0 <= a < b < files.len() ==> (#[trigger] files[a]).path != (#[trigger] files[b]).path,
        forall|s: Option<u128>| #[trigger] cached(m, files[i].path, false, s) is None,
    ensures
        cached(preloaded(m, files), files[i].path, false, t) == (if file_rules(
            files[i].content,
            files[i].is_root,
        ).complaints.len() == 0 {
            Some(file_rules(files[i].content, files[i].is_root).dir)
        } else {
            None
        }),
    decreases files.len(),
{
    let l = files.drop_last();
    let f = files.last();
    let p = preloaded(m, l);
    assert(f == files[files.len() - 1]);
    if i < l.len() {
        assert(l[i] == files[i]);
        assert forall|a: int, b: int| 0 <= a < b < l.len() implies (#[trigger] l[a]).path != (
        #[trigger] l[b]).path by {
            assert(l[a] == files[a] && l[b] == files[b]);
        }
        law_trees_are_remembered(m, l, i, t);
        law_remembering_leaves_other_files_alone(
            p,
            f.path,
            read_rules(f).dir,
            f.stamp,
            files[i].path,
            false,
            t,
        );
    } else {
        assert forall|j: int| 0 <= j < l.len() implies (#[trigger] l[j]).path != f.path by {
            assert(l[j] == files[j]);
        }
        lemma_preloaded_keeps(m, l, f.path, t);
        lemma_preloaded_keeps(m, l, f.path, f.stamp);
        assert(cached(m, files[i].path, false, f.stamp) is None);
        assert(cached(m, files[i].path, false, t) is None);
        law_remembered_rules_are_found(p, f.path, read_rules(f).dir, f.stamp, t);
    }
}

} // verus!
