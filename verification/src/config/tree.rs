//! All rule files below a document root.

use crate::config::manager::{
    looked_at, manager_wf, ConfigManager, ManagerView, RuleFile, RuleFileView,
};
use crate::config::types::{views, ConfigParseError, ErrorView};
use crate::config::veysrule::{file_rules, parse_veysrule_file, reports};
use crate::text::{chars_of, is_text};
use vstd::prelude::*;

verus! {

/// What is done with an entry of a directory.
#[derive(Debug, Clone, Copy, PartialEq, Eq, Structural)]
pub enum WalkStep {
    Skip,
    /// It is a directory, whose entries are looked at too.
    Enter,
    /// It is a rule file.
    Read,
}

/// Links are never followed, and the root rule file is read on its own.
pub open spec fn step_for(link: bool, directory: bool, name: Seq<char>, root_file: bool) -> WalkStep {
    if link {
        WalkStep::Skip
    } else if directory {
        WalkStep::Enter
    } else if name == ".veysrule"@ && !root_file {
        WalkStep::Read
    } else {
        WalkStep::Skip
    }
}

/// What is done with an entry of a directory.
pub fn walk_step(link: bool, directory: bool, name: &str, root_file: bool) -> (r: WalkStep)
    ensures
        r == step_for(link, directory, name@, root_file),
{
    if link {
        WalkStep::Skip
    } else if directory {
        WalkStep::Enter
    } else if is_text(&chars_of(name), ".veysrule") && !root_file {
        WalkStep::Read
    } else {
        WalkStep::Skip
    }
}

/// The complaints about rule files, in their order.
pub open spec fn tree_complaints(files: Seq<RuleFileView>) -> Seq<ErrorView>
    decreases files.len(),
{
    if files.len() == 0 {
        Seq::empty()
    } else {
        let f = files.last();
        tree_complaints(files.drop_last()) + reports(
            f.path,
            file_rules(f.content, f.is_root).complaints,
        )
    }
}

/// The complaints about all rule files.
pub fn validate_veysrule_tree(files: &Vec<RuleFile>) -> (r: Vec<ConfigParseError>)
    ensures
        views(r@) == tree_complaints(views(files@)),
{
    let ghost f = views(files@);
    let mut all: Vec<ConfigParseError> = Vec::new();
    let mut i: usize = 0;
    assert(f.subrange(0, 0) =~= Seq::<RuleFileView>::empty());
    assert(views(all@) =~= Seq::<ErrorView>::empty());
    while i < files.len()
        invariant
            f == views(files@),
            i <= files@.len(),
            views(all@) == tree_complaints(f.subrange(0, i as int)),
        decreases files@.len() - i,
    {
        assert(f.subrange(0, i + 1).drop_last() =~= f.subrange(0, i as int));
        assert(f.subrange(0, i + 1).last() == files@[i as int]@);
        let content = match &files[i].content {
            Some(s) => Some(s.as_str()),
            None => None,
        };
        let (_server, _dir, errors) = parse_veysrule_file(
            content,
            files[i].path.as_str(),
            files[i].is_root,
        );
        push_errors(&mut all, &errors);
        i = i + 1;
    }
    assert(f.subrange(0, f.len() as int) =~= f);
    all
}

fn push_errors(all: &mut Vec<ConfigParseError>, more: &Vec<ConfigParseError>)
    ensures
        views(final(all)@) == views(old(all)@) + views(more@),
{
    let ghost start = views(all@);
    let ghost m = views(more@);
    let mut i: usize = 0;
    assert(start + m.subrange(0, 0) =~= start);
    while i < more.len()
        invariant
            m == views(more@),
            i <= more@.len(),
            views(all@) == start + m.subrange(0, i as int),
        decreases more@.len() - i,
    {
        let ghost prev = views(all@);
        all.push(more[i].clone());
        assert(m[i as int] == more@[i as int]@);
        assert(views(all@) =~= prev.push(m[i as int]));
        assert(views(all@) =~= start + m.subrange(0, i + 1));
        i = i + 1;
    }
    assert(m.subrange(0, m.len() as int) =~= m);
}

/// What is remembered after all rule files were looked at.
pub open spec fn preloaded(m: ManagerView, files: Seq<RuleFileView>) -> ManagerView
    decreases files.len(),
{
    if files.len() == 0 {
        m
    } else {
        looked_at(preloaded(m, files.drop_last()), files.last(), false).manager
    }
}

impl ConfigManager {
    /// Looks at all rule files, so that they are remembered.
    pub fn preload_tree(&mut self, files: &Vec<RuleFile>)
        requires
            manager_wf(old(self)@),
        ensures
            final(self)@ == preloaded(old(self)@, views(files@)),
            manager_wf(final(self)@),
    {
        let ghost m = self@;
        let ghost f = views(files@);
        let mut i: usize = 0;
        assert(f.subrange(0, 0) =~= Seq::<RuleFileView>::empty());
        while i < files.len()
            invariant
                f == views(files@),
                i <= files@.len(),
                self@ == preloaded(m, f.subrange(0, i as int)),
                manager_wf(self@),
            decreases files@.len() - i,
        {
            assert(f.subrange(0, i + 1).drop_last() =~= f.subrange(0, i as int));
            assert(f.subrange(0, i + 1).last() == files@[i as int]@);
            let _ = self.load_dir_config(&files[i], false);
            i = i + 1;
        }
        assert(f.subrange(0, f.len() as int) =~= f);
    }
}

} // verus!
