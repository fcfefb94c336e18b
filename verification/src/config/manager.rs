//! The rules of directories: which files make them up and what is remembered of
//! files that were read.

use crate::config::merge::merged;
use crate::config::types::{
    no_rules, views, ConfigParseError, DirView, DirectoryConfig, ErrorView, MAX_RULE_FILE_BYTES,
};
use crate::config::veysrule::{dir_wf, file_rules, parse_veysrule_file, reports, Rules};
use crate::router::path::{components, components_of, join_path, joined_path};
use crate::text::{chars_of, copy, is_text, lines, string_of, strings, texts};
use vstd::prelude::*;
use vstd::utf8::encode_utf8;

verus! {

/// The rules of one file as they were read.
#[derive(Debug)]
struct CacheEntry {
    path: String,
    config: DirectoryConfig,
    /// When the file was last changed, where that is known.
    stamp: Option<u128>,
    generation: u64,
}

#[verifier::ext_equal]
pub struct EntryView {
    pub path: Seq<char>,
    pub config: DirView,
    pub stamp: Option<u128>,
    pub generation: u64,
}

impl View for CacheEntry {
    type V = EntryView;

    closed spec fn view(&self) -> EntryView {
        EntryView {
            path: self.path@,
            config: self.config@,
            stamp: self.stamp,
            generation: self.generation,
        }
    }
}

/// A rule file that was read from disk.
#[derive(Debug)]
pub struct RuleFile {
    pub path: String,
    /// The text; none where the file could not be read.
    pub content: Option<String>,
    /// When the file was last changed, where that is known.
    pub stamp: Option<u128>,
    /// It is the root rule file of the server.
    pub is_root: bool,
}

#[verifier::ext_equal]
pub struct RuleFileView {
    pub path: Seq<char>,
    pub content: Option<Seq<char>>,
    pub stamp: Option<u128>,
    pub is_root: bool,
}

impl View for RuleFile {
    type V = RuleFileView;

    open spec fn view(&self) -> RuleFileView {
        RuleFileView {
            path: self.path@,
            content: crate::config::types::opt_text(self.content),
            stamp: self.stamp,
            is_root: self.is_root,
        }
    }
}

/// What is remembered of rule files.
#[derive(Debug)]
pub struct ConfigManager {
    cache: Vec<CacheEntry>,
    generation: u64,
    error_log: String,
}

#[verifier::ext_equal]
pub struct ManagerView {
    pub cache: Seq<EntryView>,
    pub generation: u64,
    pub error_log: Seq<char>,
}

impl View for ConfigManager {
    type V = ManagerView;

    closed spec fn view(&self) -> ManagerView {
        ManagerView {
            cache: views(self.cache@),
            generation: self.generation,
            error_log: self.error_log@,
        }
    }
}

/// The place of a file in the cache, or the length.
pub open spec fn entry_at(c: Seq<EntryView>, path: Seq<char>) -> int
    decreases c.len(),
{
    if c.len() == 0 || c[0].path == path {
        0
    } else {
        1 + entry_at(c.subrange(1, c.len() as int), path)
    }
}

/// The remembered rules of a file: those of the current generation, and in
/// development mode only while the file is known to be unchanged.
pub open spec fn cached(m: ManagerView, path: Seq<char>, dev: bool, stamp: Option<u128>) -> Option<
    DirView,
> {
    let k = entry_at(m.cache, path);
    if k < m.cache.len() && m.cache[k].generation == m.generation && (!dev || (m.cache[k].stamp
        == stamp && stamp is Some)) {
        Some(m.cache[k].config)
    } else {
        None
    }
}

/// The manager with the rules of a file remembered.
pub open spec fn remembered(
    m: ManagerView,
    path: Seq<char>,
    config: DirView,
    stamp: Option<u128>,
) -> ManagerView {
    let e = EntryView { path, config, stamp, generation: m.generation };
    let k = entry_at(m.cache, path);
    ManagerView {
        cache: if k < m.cache.len() {
            m.cache.update(k, e)
        } else {
            m.cache.push(e)
        },
        ..m
    }
}

/// The rules that a file holds.
pub open spec fn read_rules(f: RuleFileView) -> Rules {
    file_rules(f.content, f.is_root)
}

/// What looking at one file leads to.
#[verifier::ext_equal]
pub struct Lookup {
    pub manager: ManagerView,
    pub config: Option<DirView>,
    pub complaints: Seq<ErrorView>,
}

/// Looks at one file: remembered rules are used, else the file is read; a file with
/// complaints gives no rules and is not remembered.
pub open spec fn looked_at(m: ManagerView, f: RuleFileView, dev: bool) -> Lookup {
    match cached(m, f.path, dev, f.stamp) {
        Some(d) => Lookup { manager: m, config: Some(d), complaints: Seq::empty() },
        None => {
            let r = read_rules(f);
            if r.complaints.len() > 0 {
                Lookup { manager: m, config: None, complaints: reports(f.path, r.complaints) }
            } else {
                Lookup {
                    manager: remembered(m, f.path, r.dir, f.stamp),
                    config: Some(r.dir),
                    complaints: Seq::empty(),
                }
            }
        },
    }
}

/// The rules of a chain of files, outermost first.
pub open spec fn collected(m: ManagerView, files: Seq<RuleFileView>, dev: bool) -> (
    ManagerView,
    DirView,
    Seq<ErrorView>,
)
    decreases files.len(),
{
    if files.len() == 0 {
        (m, no_rules(), Seq::empty())
    } else {
        let (a, d, e) = collected(m, files.drop_last(), dev);
        let l = looked_at(a, files.last(), dev);
        (
            l.manager,
            match l.config {
                Some(c) => merged(d, c),
                None => d,
            },
            e + l.complaints,
        )
    }
}

/// Everything that is remembered is well formed.
pub open spec fn manager_wf(m: ManagerView) -> bool {
    forall|i: int| 0 <= i < m.cache.len() ==> dir_wf((#[trigger] m.cache[i]).config)
}

/// The rule files of a directory and of those above it, below the root.
pub open spec fn rule_files(path: Seq<char>) -> Seq<Seq<char>> {
    let c = components(path);
    Seq::new(c.len() + 1, |i: int| joined_path(c.subrange(0, i).push(".veysrule"@)))
}

proof fn lemma_entry_at(c: Seq<EntryView>, path: Seq<char>)
    ensures
        0 <= entry_at(c, path) <= c.len(),
        entry_at(c, path) < c.len() ==> c[entry_at(c, path)].path == path,
        forall|i: int| 0 <= i < entry_at(c, path) ==> (#[trigger] c[i]).path != path,
    decreases c.len(),
{
    if c.len() > 0 && c[0].path != path {
        let t = c.subrange(1, c.len() as int);
        lemma_entry_at(t, path);
        assert forall|i: int| 0 <= i < entry_at(c, path) implies (#[trigger] c[i]).path
            != path by {
            if i > 0 {
                assert(t[i - 1] == c[i]);
            }
        }
    }
}

proof fn lemma_entry_at_is(c: Seq<EntryView>, path: Seq<char>, k: int)
    requires
        0 <= k <= c.len(),
        forall|i: int| 0 <= i < k ==> (#[trigger] c[i]).path != path,
        k == c.len() || c[k].path == path,
    ensures
        entry_at(c, path) == k,
{
    lemma_entry_at(c, path);
    let f = entry_at(c, path);
    if f < k {
        assert(c[f].path != path);
    } else if k < f {
        assert(c[k].path != path);
    }
}

/// Rules that were remembered are found again.
pub proof fn law_remembered_rules_are_found(
    m: ManagerView,
    path: Seq<char>,
    config: DirView,
    stamp: Option<u128>,
    later: Option<u128>,
)
    ensures
        cached(remembered(m, path, config, stamp), path, false, later) == Some(config),
        stamp is Some ==> cached(remembered(m, path, config, stamp), path, true, stamp) == Some(
            config,
        ),
        stamp != later ==> cached(remembered(m, path, config, stamp), path, true, later) is None,
{
    lemma_entry_at(m.cache, path);
    let k = entry_at(m.cache, path);
    let c = remembered(m, path, config, stamp).cache;
    assert forall|i: int| 0 <= i < k implies (#[trigger] c[i]).path != path by {
        assert(c[i] == m.cache[i]);
    }
    lemma_entry_at_is(c, path, k);
}

/// Remembering the rules of one file leaves those of the others alone.
pub proof fn law_remembering_leaves_other_files_alone(
    m: ManagerView,
    path: Seq<char>,
    config: DirView,
    stamp: Option<u128>,
    other: Seq<char>,
    dev: bool,
    later: Option<u128>,
)
    requires
        other != path,
    ensures
        cached(remembered(m, path, config, stamp), other, dev, later) == cached(
            m,
            other,
            dev,
            later,
        ),
{
    lemma_entry_at(m.cache, path);
    lemma_entry_at(m.cache, other);
    let k = entry_at(m.cache, path);
    let j = entry_at(m.cache, other);
    let c = remembered(m, path, config, stamp).cache;
    if k < m.cache.len() {
        assert forall|i: int| 0 <= i < j implies (#[trigger] c[i]).path != other by {
            assert(m.cache[i].path != other);
        }
        lemma_entry_at_is(c, other, j);
    } else if j < m.cache.len() {
        assert forall|i: int| 0 <= i < j implies (#[trigger] c[i]).path != other by {
            assert(c[i] == m.cache[i]);
        }
        lemma_entry_at_is(c, other, j);
    } else {
        assert forall|i: int| 0 <= i < c.len() implies (#[trigger] c[i]).path != other by {
            if i < m.cache.len() {
                assert(c[i] == m.cache[i]);
            }
        }
        lemma_entry_at_is(c, other, c.len() as int);
    }
}

/// The manager after its cache was cleared.
pub open spec fn cleared(m: ManagerView) -> ManagerView {
    ManagerView {
        cache: Seq::empty(),
        generation: if m.generation == u64::MAX {
            0
        } else {
            (m.generation + 1) as u64
        },
        ..m
    }
}

/// After the cache was cleared every file is read anew.
pub proof fn law_cleared_rules_are_read_anew(
    m: ManagerView,
    f: RuleFileView,
    dev: bool,
)
    ensures
        looked_at(cleared(m), f, dev).config == (if read_rules(f).complaints.len() > 0 {
            None
        } else {
            Some(read_rules(f).dir)
        }),
{
}

/// A file that is too long gives no rules and is not remembered, wherever it lies.
pub proof fn law_oversized_files_are_not_applied(m: ManagerView, f: RuleFileView, dev: bool)
    requires
        f.content matches Some(c) && encode_utf8(c).len() > MAX_RULE_FILE_BYTES,
        cached(m, f.path, dev, f.stamp) is None,
    ensures
        looked_at(m, f, dev).config is None,
        looked_at(m, f, dev).manager == m,
        looked_at(m, f, dev).complaints.len() == 1,
{
}

proof fn lemma_read_rules_wf(f: RuleFileView)
    ensures
        dir_wf(read_rules(f).dir),
{
    match f.content {
        Some(c) => {
            crate::config::veysrule::law_rules_are_well_formed(lines(c), f.is_root);
        },
        None => {},
    }
}

impl ConfigManager {
    /// A manager that reports to standard error.
    pub fn new() -> (r: Self)
        ensures
            r@ == (ManagerView {
                cache: Seq::empty(),
                generation: 0,
                error_log: "stderr"@,
            }),
            manager_wf(r@),
    {
        Self::new_with_error_log("stderr")
    }

    /// A manager that reports to the given log.
    pub fn new_with_error_log(destination: &str) -> (r: Self)
        ensures
            r@ == (ManagerView { cache: Seq::empty(), generation: 0, error_log: destination@ }),
            manager_wf(r@),
    {
        let cache: Vec<CacheEntry> = Vec::new();
        assert(views(cache@) =~= Seq::<EntryView>::empty());
        ConfigManager { cache, generation: 0, error_log: destination.to_owned() }
    }

    pub fn set_error_log(&mut self, destination: &str)
        ensures
            final(self)@ == (ManagerView { error_log: destination@, ..old(self)@ }),
    {
        self.error_log = destination.to_owned();
    }

    /// Where complaints are reported.
    pub fn error_log(&self) -> (r: &str)
        ensures
            r@ == self@.error_log,
    {
        self.error_log.as_str()
    }

    /// Forgets all rules.
    pub fn clear_cache(&mut self)
        ensures
            final(self)@ == cleared(old(self)@),
            manager_wf(final(self)@),
    {
        self.generation = if self.generation == 0xffff_ffff_ffff_ffff {
            0
        } else {
            self.generation + 1
        };
        self.cache = Vec::new();
        assert(views(self.cache@) =~= Seq::<EntryView>::empty());
    }

    fn find(&self, path: &str) -> (k: usize)
        ensures
            k == entry_at(self@.cache, path@),
            k <= self@.cache.len(),
            self@.cache.len() == self.cache@.len(),
    {
        let ghost c = views(self.cache@);
        let wanted = chars_of(path);
        let mut k: usize = 0;
        while k < self.cache.len() && !is_text(&wanted, self.cache[k].path.as_str())
            invariant
                c == views(self.cache@),
                wanted@ == path@,
                k <= self.cache@.len(),
                forall|i: int| 0 <= i < k ==> (#[trigger] c[i]).path != path@,
            decreases self.cache@.len() - k,
        {
            assert(c[k as int] == self.cache@[k as int]@);
            k = k + 1;
        }
        proof {
            if k < c.len() {
                assert(c[k as int] == self.cache@[k as int]@);
            }
            lemma_entry_at_is(c, path@, k as int);
        }
        k
    }

    /// The rules of one file and the complaints about it.
    pub fn load_dir_config(&mut self, file: &RuleFile, dev_mode: bool) -> (r: (
        Option<DirectoryConfig>,
        Vec<ConfigParseError>,
    ))
        requires
            manager_wf(old(self)@),
        ensures
            ({
                let l = looked_at(old(self)@, file@, dev_mode);
                &&& final(self)@ == l.manager
                &&& match r.0 {
                    Some(c) => l.config == Some(c@) && dir_wf(c@),
                    None => l.config is None,
                }
                &&& views(r.1@) == l.complaints
            }),
            manager_wf(final(self)@),
    {
        let ghost m = self@;
        let none: Vec<ConfigParseError> = Vec::new();
        assert(views(none@) =~= Seq::<ErrorView>::empty());
        let k: usize = self.find(file.path.as_str());
        if k < self.cache.len() {
            assert(m.cache[k as int] == self.cache@[k as int]@);
            let known = self.cache[k].generation == self.generation && (!dev_mode || (match (
                self.cache[k].stamp,
                file.stamp,
            ) {
                (Some(a), Some(b)) => a == b,
                _ => false,
            }));
            if known {
                assert(dir_wf(m.cache[k as int].config));
                return (Some(self.cache[k].config.clone()), none);
            }
        }
        assert(cached(m, file@.path, dev_mode, file.stamp) is None);
        let content = match &file.content {
            Some(c) => Some(c.as_str()),
            None => None,
        };
        let (_, dir, errors) = parse_veysrule_file(content, file.path.as_str(), file.is_root);
        let ghost rr = read_rules(file@);
        assert(dir@ == rr.dir);
        assert(views(errors@) == reports(file@.path, rr.complaints));
        assert(errors@.len() == views(errors@).len());
        assert(rr.complaints.len() == errors@.len());
        if errors.len() > 0 {
            return (None, errors);
        }
        assert(views(errors@) =~= Seq::<ErrorView>::empty());
        proof {
            lemma_read_rules_wf(file@);
        }
        let entry = CacheEntry {
            path: file.path.clone(),
            config: dir.clone(),
            stamp: file.stamp,
            generation: self.generation,
        };
        let ghost e = entry@;
        if k < self.cache.len() {
            self.cache.set(k, entry);
            assert(views(self.cache@) =~= m.cache.update(k as int, e));
        } else {
            self.cache.push(entry);
            assert(views(self.cache@) =~= m.cache.push(e));
        }
        assert(self@ =~= remembered(m, file@.path, dir@, file.stamp));
        assert forall|i: int| 0 <= i < self@.cache.len() implies dir_wf(
            (#[trigger] self@.cache[i]).config,
        ) by {
            if i != k {
                assert(self@.cache[i] == m.cache[i]);
            }
        }
        (Some(dir), errors)
    }

    /// The rules of a directory, given its chain of rule files, outermost first, and
    /// the complaints about them.
    pub fn get_config_for_dir(&mut self, files: &Vec<RuleFile>, dev_mode: bool) -> (r: (
        DirectoryConfig,
        Vec<ConfigParseError>,
    ))
        requires
            manager_wf(old(self)@),
        ensures
            ({
                let (m, d, e) = collected(old(self)@, views(files@), dev_mode);
                &&& final(self)@ == m
                &&& r.0@ == d
                &&& views(r.1@) == e
            }),
            manager_wf(final(self)@),
            dir_wf(r.0@),
    {
        let ghost m = self@;
        let ghost f = views(files@);
        let mut dir = DirectoryConfig::default();
        let mut all: Vec<ConfigParseError> = Vec::new();
        let mut i: usize = 0;
        assert(f.subrange(0, 0) =~= Seq::<RuleFileView>::empty());
        assert(views(all@) =~= Seq::<ErrorView>::empty());
        while i < files.len()
            invariant
                f == views(files@),
                i <= files@.len(),
                (self@, dir@, views(all@)) == collected(m, f.subrange(0, i as int), dev_mode),
                manager_wf(self@),
                dir_wf(dir@),
            decreases files@.len() - i,
        {
            let ghost t = f.subrange(0, i + 1);
            assert(t.drop_last() =~= f.subrange(0, i as int));
            assert(t.last() == files@[i as int]@);
            let ghost before = views(all@);
            let (config, errors) = self.load_dir_config(&files[i], dev_mode);
            match config {
                Some(c) => {
                    proof {
                        crate::config::merge::law_merge_keeps_rules_well_formed(dir@, c@);
                    }
                    dir.merge(c);
                },
                None => {},
            }
            let ghost new = views(errors@);
            let mut j: usize = 0;
            assert(before + new.subrange(0, 0) =~= before);
            while j < errors.len()
                invariant
                    new == views(errors@),
                    j <= errors@.len(),
                    views(all@) == before + new.subrange(0, j as int),
                decreases errors@.len() - j,
            {
                let ghost prev = views(all@);
                all.push(errors[j].clone());
                assert(new[j as int] == errors@[j as int]@);
                assert(views(all@) =~= prev.push(new[j as int]));
                assert(before + new.subrange(0, j + 1) =~= prev.push(new[j as int]));
                j = j + 1;
            }
            assert(new.subrange(0, new.len() as int) =~= new);
            i = i + 1;
        }
        assert(f.subrange(0, f.len() as int) =~= f);
        (dir, all)
    }
}

/// The rule files of a directory and of those above it, below the root.
pub fn rule_paths(rel_path: &str) -> (r: Vec<String>)
    ensures
        strings(r@) == rule_files(rel_path@),
{
    let names = components_of(&chars_of(rel_path));
    let ghost c = components(rel_path@);
    let n: usize = names.len();
    let mut r: Vec<String> = Vec::new();
    let mut current: Vec<Vec<char>> = Vec::new();
    let mut i: usize = 0;
    assert(texts(current@) =~= c.subrange(0, 0));
    while i < n
        invariant
            n == names@.len(),
            c == texts(names@),
            i <= n,
            texts(current@) == c.subrange(0, i as int),
            r@.len() == i,
            forall|j: int|
                0 <= j < i ==> (#[trigger] r@[j])@ == joined_path(
                    c.subrange(0, j).push(".veysrule"@),
                ),
        decreases n - i,
    {
        r.push(rule_path_in(&current));
        let ghost prev = texts(current@);
        current.push(copy(&names[i]));
        assert(texts(current@) =~= c.subrange(0, i + 1));
        i = i + 1;
    }
    r.push(rule_path_in(&current));
    assert(strings(r@) =~= rule_files(rel_path@));
    r
}

fn rule_path_in(dir: &Vec<Vec<char>>) -> (r: String)
    ensures
        r@ == joined_path(texts(dir@).push(".veysrule"@)),
{
    let mut all: Vec<Vec<char>> = Vec::new();
    let mut i: usize = 0;
    while i < dir.len()
        invariant
            i <= dir@.len(),
            all@.len() == i,
            forall|j: int| 0 <= j < i ==> (#[trigger] all@[j])@ == dir@[j]@,
        decreases dir@.len() - i,
    {
        all.push(copy(&dir[i]));
        i = i + 1;
    }
    all.push(chars_of(".veysrule"));
    assert(texts(all@) =~= texts(dir@).push(".veysrule"@));
    string_of(&join_path(&all))
}

} // verus!
