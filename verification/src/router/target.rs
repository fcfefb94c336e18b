//! How files below the root are opened, and which requests name one.

use crate::config::types::ServerConfig;
use crate::router::path::{
    components, components_of, lemma_components_plain, normal_path, normalize_relative_path,
    normalized_request_path, plain_name, request_path, request_path_is_safe, safe_request,
};
use crate::router::vhost::{join_below, path_below};
use crate::text::{chars_of, is_text, string_of, strings, texts};
use vstd::prelude::*;

verus! {

/// A name that is opened within the directory that was opened before it, without
/// following links.
#[derive(Debug, PartialEq, Eq)]
pub struct OpenStep {
    pub name: String,
    /// It must be a directory.
    pub directory: bool,
}

#[verifier::ext_equal]
pub struct StepView {
    pub name: Seq<char>,
    pub directory: bool,
}

impl View for OpenStep {
    type V = StepView;

    open spec fn view(&self) -> StepView {
        StepView { name: self.name@, directory: self.directory }
    }
}

/// The names of a path that are not the parent directory.
pub open spec fn without_parents(p: Seq<Seq<char>>) -> Seq<Seq<char>>
    decreases p.len(),
{
    if p.len() == 0 {
        p
    } else if p.last() == ".."@ {
        without_parents(p.drop_last())
    } else {
        without_parents(p.drop_last()).push(p.last())
    }
}

/// The steps that open a path, the last of which may open a file.
pub open spec fn steps_to(path: Seq<char>, directory: bool) -> Seq<StepView> {
    let p = without_parents(components(path));
    Seq::new(
        p.len(),
        |i: int| StepView { name: p[i], directory: directory || i + 1 < p.len() },
    )
}

proof fn lemma_without_parents(p: Seq<Seq<char>>, i: int)
    requires
        0 <= i < without_parents(p).len(),
    ensures
        without_parents(p)[i] != ".."@,
        p.contains(without_parents(p)[i]),
    decreases p.len(),
{
    let t = p.drop_last();
    let r = without_parents(t);
    assert(forall|j: int| 0 <= j < t.len() ==> t[j] == p[j]);
    if p.last() != ".."@ && i == r.len() {
        assert(p[p.len() - 1] == without_parents(p)[i]);
    } else {
        lemma_without_parents(t, i);
        let k = choose|k: int| 0 <= k < t.len() && t[k] == r[i];
        assert(p[k] == r[i]);
    }
}

/// No step leaves the directory it starts from: every name is one of an entry.
pub proof fn law_steps_stay_below(path: Seq<char>, directory: bool, i: int)
    requires
        0 <= i < steps_to(path, directory).len(),
    ensures
        plain_name(steps_to(path, directory)[i].name),
{
    let p = components(path);
    lemma_without_parents(p, i);
    let k = choose|k: int| 0 <= k < p.len() && p[k] == without_parents(p)[i];
    lemma_components_plain(path, k);
}

/// The steps that open a path.
pub fn open_steps(path: &str, directory: bool) -> (r: Vec<OpenStep>)
    ensures
        crate::config::types::views(r@) == steps_to(path@, directory),
{
    let c = components_of(&chars_of(path));
    let ghost p = components(path@);
    let mut names: Vec<String> = Vec::new();
    let mut i: usize = 0;
    assert(p.subrange(0, 0) =~= Seq::<Seq<char>>::empty());
    assert(crate::text::strings(names@) =~= Seq::<Seq<char>>::empty());
    while i < c.len()
        invariant
            p == texts(c@),
            i <= c@.len(),
            crate::text::strings(names@) == without_parents(p.subrange(0, i as int)),
        decreases c@.len() - i,
    {
        assert(p.subrange(0, i + 1).drop_last() =~= p.subrange(0, i as int));
        assert(p.subrange(0, i + 1).last() == c@[i as int]@);
        if !is_text(&c[i], "..") {
            let ghost prev = crate::text::strings(names@);
            names.push(string_of(&c[i]));
            assert(crate::text::strings(names@) =~= prev.push(c@[i as int]@));
        }
        i = i + 1;
    }
    assert(p.subrange(0, p.len() as int) =~= p);
    let ghost q = without_parents(p);
    let n: usize = names.len();
    let mut r: Vec<OpenStep> = Vec::new();
    let mut j: usize = 0;
    assert(crate::text::strings(names@).len() == n);
    while j < n
        invariant
            n == names@.len(),
            n == q.len(),
            q == crate::text::strings(names@),
            j <= n,
            r@.len() == j,
            forall|k: int|
                0 <= k < j ==> (#[trigger] r@[k])@ == (StepView {
                    name: q[k],
                    directory: directory || k + 1 < q.len(),
                }),
        decreases n - j,
    {
        assert(q[j as int] == names@[j as int]@);
        r.push(OpenStep { name: names[j].clone(), directory: directory || j + 1 < n });
        j = j + 1;
    }
    assert(crate::config::types::views(r@) =~= steps_to(path@, directory));
    r
}

/// The index files that are looked for before the front controller is asked.
pub fn static_indexes() -> (r: Vec<String>)
    ensures
        crate::text::strings(r@) == seq!["index.html"@, "index.htm"@],
{
    let mut r: Vec<String> = Vec::new();
    r.push("index.html".to_owned());
    r.push("index.htm".to_owned());
    assert(crate::text::strings(r@) =~= seq!["index.html"@, "index.htm"@]);
    r
}

/// What was found on disk about a request.
#[derive(Debug, Clone, Copy, PartialEq, Eq, Structural)]
pub struct StaticFacts {
    /// The document root exists.
    pub root_found: bool,
    /// The path, or an index file in it, can be opened.
    pub opens: bool,
    /// The path is a directory.
    pub directory: bool,
    /// The root has an index file.
    pub index_found: bool,
    /// The front controller can be opened.
    pub controller_found: bool,
}

/// A request names a file or a directory, where the front controller stands for the
/// root that has no index file.
pub open spec fn has_target(
    uri: Seq<char>,
    deny_hidden: bool,
    controller: Option<Seq<char>>,
    f: StaticFacts,
) -> bool {
    &&& safe_request(uri, deny_hidden)
    &&& f.root_found
    &&& if request_path(uri).unwrap().len() > 0 {
        f.opens || f.directory
    } else {
        f.directory && (f.index_found || !((controller matches Some(c) && normal_path(c) is Some)
            && f.controller_found))
    }
}

/// Whether a request names a file or a directory.
pub fn request_has_static_target(uri: &str, config: &ServerConfig, facts: &StaticFacts) -> (b: bool)
    ensures
        b == has_target(
            uri@,
            config@.deny_hidden_files,
            config@.front_controller,
            *facts,
        ),
{
    let relative = match normalized_request_path(uri) {
        Some(p) => p,
        None => {
            return false;
        },
    };
    if !request_path_is_safe(uri, config.deny_hidden_files) || !facts.root_found {
        return false;
    }
    if chars_of(relative.as_str()).len() > 0 {
        return facts.opens || facts.directory;
    }
    if !facts.directory {
        return false;
    }
    if facts.index_found {
        return true;
    }
    match &config.front_controller {
        Some(c) => match normalize_relative_path(c.as_str()) {
            Ok(_) => !facts.controller_found,
            Err(_) => true,
        },
        None => true,
    }
}

/// The path of the index file of a directory that comes after so many others.
pub open spec fn index_after(path: Seq<char>, indexes: Seq<Seq<char>>, tried: int) -> Option<
    Seq<char>,
> {
    if 0 <= tried < indexes.len() {
        Some(path_below(path, indexes[tried]))
    } else {
        None
    }
}

/// The path of the index file to try in a directory after so many others; none where all
/// were tried.
pub fn next_index(path: &str, indexes: &Vec<String>, tried: usize) -> (r: Option<String>)
    ensures
        match r {
            Some(p) => index_after(path@, strings(indexes@), tried as int) == Some(p@),
            None => index_after(path@, strings(indexes@), tried as int) is None,
        },
{
    if tried >= indexes.len() {
        return None;
    }
    assert(strings(indexes@)[tried as int] == indexes@[tried as int]@);
    Some(join_below(path, indexes[tried].as_str()))
}

/// Whether one of the index files of a directory could be opened.
pub fn has_index(opened: &Vec<bool>) -> (b: bool)
    ensures
        b == exists|i: int| 0 <= i < opened@.len() && #[trigger] opened@[i],
{
    let mut i: usize = 0;
    while i < opened.len()
        invariant
            i <= opened@.len(),
            forall|j: int| 0 <= j < i ==> !#[trigger] opened@[j],
        decreases opened@.len() - i,
    {
        if opened[i] {
            assert(opened@[i as int]);
            return true;
        }
        i = i + 1;
    }
    false
}

} // verus!
