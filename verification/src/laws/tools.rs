//! The commands that do not serve, and their options.

use crate::cli::{
    check_lines, default_tool, pid_file_from, tool_from, OptionErrorView, OptionSet, ToolView,
};
use crate::laws::texts::{lemma_split_more, lemma_uncut};
use crate::text::{decimal, has_char, law_decimal_reads_back, parse_uint, split};
use vstd::prelude::*;

verus! {

proof fn lemma_options_go_on(
    set: OptionSet,
    a: Seq<Seq<char>>,
    rest: Seq<Seq<char>>,
    i: int,
    o: ToolView,
)
    requires
        0 <= i <= a.len(),
        tool_from(set, a, i, o) is Ok,
    ensures
        tool_from(set, a + rest, i, o) == tool_from(
            set,
            a + rest,
            a.len() as int,
            tool_from(set, a, i, o)->Ok_0,
        ),
    decreases a.len() - i,
{
    let b = a + rest;
    if i < a.len() {
        assert(b[i] == a[i]);
        assert(i + 1 < a.len());
        assert(b[i + 1] == a[i + 1]);
        if a[i] == "--root"@ && set != OptionSet::Path {
            lemma_options_go_on(set, a, rest, i + 2, ToolView { root: a[i + 1], ..o });
        } else if a[i] == "--config"@ {
            lemma_options_go_on(set, a, rest, i + 2, ToolView { config: a[i + 1], ..o });
        } else if a[i] == "--pid-file"@ && set == OptionSet::Test {
            lemma_options_go_on(set, a, rest, i + 2, o);
        } else {
            let p = parse_uint(a[i + 1], u16::MAX as nat).unwrap();
            lemma_options_go_on(set, a, rest, i + 2, ToolView { port: p as u16, ..o });
        }
    }
}

/// An option at the end of a command line sets what it names to the value behind it, where
/// the command has that option, and leaves the rest as it was. One that the command does
/// not have is refused by its name, and so is an option without a value.
pub proof fn law_last_options_count(set: OptionSet, a: Seq<Seq<char>>, v: Seq<char>, port: u16)
    requires
        tool_from(set, a, 0, default_tool()) is Ok,
    ensures
        ({
            let o = tool_from(set, a, 0, default_tool())->Ok_0;
            let with = |name: Seq<char>, value: Seq<char>|
                tool_from(set, a + seq![name, value], 0, default_tool());
            &&& with("--config"@, v) == Ok::<_, OptionErrorView>(ToolView { config: v, ..o })
            &&& with("--root"@, v) == if set == OptionSet::Path {
                Err(OptionErrorView::Unknown("--root"@))
            } else {
                Ok(ToolView { root: v, ..o })
            }
            &&& with("--port"@, decimal(port as nat)) == if set == OptionSet::Diagnostic {
                Ok(ToolView { port, ..o })
            } else {
                Err(OptionErrorView::Unknown("--port"@))
            }
            &&& with("--pid-file"@, v) == if set == OptionSet::Test {
                Ok(o)
            } else {
                Err(OptionErrorView::Unknown("--pid-file"@))
            }
            &&& tool_from(set, a.push(v), 0, default_tool()) == Err::<ToolView, _>(
                OptionErrorView::Unknown(v),
            )
        }),
        default_tool().port == 8080,
{
    let d = default_tool();
    let o = tool_from(set, a, 0, d)->Ok_0;
    let n = a.len() as int;
    let r1 = seq!["--config"@, v];
    let r2 = seq!["--root"@, v];
    let r3 = seq!["--port"@, decimal(port as nat)];
    let r4 = seq!["--pid-file"@, v];
    let r5 = seq![v];
    reveal_strlit("--config");
    reveal_strlit("--root");
    reveal_strlit("--port");
    reveal_strlit("--pid-file");
    assert("--config"@.len() == 8 && "--root"@.len() == 6 && "--port"@.len() == 6
        && "--pid-file"@.len() == 10);
    assert("--root"@[2] != "--port"@[2]);
    lemma_options_go_on(set, a, r1, 0, d);
    lemma_options_go_on(set, a, r2, 0, d);
    lemma_options_go_on(set, a, r3, 0, d);
    lemma_options_go_on(set, a, r4, 0, d);
    lemma_options_go_on(set, a, r5, 0, d);
    assert((a + r1)[n] == "--config"@ && (a + r1)[n + 1] == v);
    assert((a + r2)[n] == "--root"@ && (a + r2)[n + 1] == v);
    assert((a + r3)[n] == "--port"@ && (a + r3)[n + 1] == decimal(port as nat));
    assert((a + r4)[n] == "--pid-file"@ && (a + r4)[n + 1] == v);
    assert(a.push(v) =~= a + r5);
    law_decimal_reads_back(port as nat, u16::MAX as nat);
    assert(tool_from(set, a + r1, n + 2, ToolView { config: v, ..o }) == Ok::<_, OptionErrorView>(
        ToolView { config: v, ..o },
    ));
    assert(tool_from(set, a + r2, n + 2, ToolView { root: v, ..o }) == Ok::<_, OptionErrorView>(
        ToolView { root: v, ..o },
    ));
    assert(tool_from(set, a + r3, n + 2, ToolView { port, ..o }) == Ok::<_, OptionErrorView>(
        ToolView { port, ..o },
    ));
    assert(tool_from(set, a + r4, n + 2, o) == Ok::<_, OptionErrorView>(o));
}

proof fn lemma_no_pid_file(a: Seq<Seq<char>>, i: int, f: Seq<char>)
    requires
        0 <= i,
        forall|j: int| i <= j < a.len() ==> #[trigger] a[j] != "--pid-file"@,
    ensures
        pid_file_from(a, i, f) == f,
    decreases a.len() - i,
{
    if i < a.len() {
        lemma_no_pid_file(a, i + 1, f);
    }
}

/// The file with the number of the process is the one that the last such option names, else
/// the usual one. `k` is the place of the option.
pub proof fn law_pid_files_are_named(a: Seq<Seq<char>>, k: int, usual: Seq<char>)
    requires
        -1 <= k < a.len() - 1,
        k >= 0 ==> a[k] == "--pid-file"@,
        forall|j: int| 0 <= j < a.len() && j != k && j != k + 1 ==> #[trigger] a[j] != "--pid-file"@,
        k < 0 ==> forall|j: int| 0 <= j < a.len() ==> #[trigger] a[j] != "--pid-file"@,
    ensures
        pid_file_from(a, 0, usual) == (if k >= 0 {
            a[k + 1]
        } else {
            usual
        }),
{
    if k < 0 {
        lemma_no_pid_file(a, 0, usual);
    } else {
        lemma_pid_file(a, 0, k, usual);
    }
}

proof fn lemma_pid_file(a: Seq<Seq<char>>, i: int, k: int, f: Seq<char>)
    requires
        0 <= i <= k < a.len() - 1,
        a[k] == "--pid-file"@,
        forall|j: int| 0 <= j < a.len() && j != k && j != k + 1 ==> #[trigger] a[j] != "--pid-file"@,
    ensures
        pid_file_from(a, i, f) == a[k + 1],
    decreases k - i,
{
    if i < k {
        lemma_pid_file(a, i + 1, k, f);
    } else {
        lemma_no_pid_file(a, k + 2, a[k + 1]);
    }
}

/// A report has one line for each check, in their order, which says whether the check was
/// passed and which it was.
pub proof fn law_reports_name_every_check(c: Seq<(Seq<char>, bool)>, i: int)
    requires
        forall|j: int| 0 <= j < c.len() ==> !has_char((#[trigger] c[j]).0, '\n'),
        0 <= i < c.len(),
    ensures
        split(check_lines(c), '\n').len() == c.len() + 1,
        split(check_lines(c), '\n')[i] == (if c[i].1 {
            "[OK] "@
        } else {
            "[FAIL] "@
        }) + c[i].0,
{
    lemma_check_lines(c);
}

proof fn lemma_line_grows(a: Seq<char>, x: Seq<char>)
    requires
        !has_char(x, '\n'),
    ensures
        split(a, '\n').len() > 0,
        split(a + x, '\n') == split(a, '\n').drop_last().push(split(a, '\n').last() + x),
    decreases x.len(),
{
    lemma_split_more(a, '\n', x);
    if x.len() == 0 {
        assert(a + x =~= a);
        lemma_some_line(a);
        let s = split(a, '\n');
        assert(s.last() + x =~= s.last());
        assert(s.drop_last().push(s.last()) =~= s);
    } else {
        let y = x.drop_last();
        assert forall|j: int| 0 <= j < y.len() implies y[j] != '\n' by {
            assert(y[j] == x[j]);
        }
        lemma_line_grows(a, y);
        assert((a + x).drop_last() =~= a + y);
        assert(x[x.len() - 1] != '\n');
        let s = split(a, '\n');
        assert((s.last() + y).push(x.last()) =~= s.last() + x);
        assert(s.drop_last().push(s.last() + y).drop_last() =~= s.drop_last());
    }
}

proof fn lemma_some_line(a: Seq<char>)
    ensures
        split(a, '\n').len() > 0,
    decreases a.len(),
{
    if a.len() > 0 {
        lemma_some_line(a.drop_last());
    }
}

proof fn lemma_check_lines(c: Seq<(Seq<char>, bool)>)
    requires
        forall|j: int| 0 <= j < c.len() ==> !has_char((#[trigger] c[j]).0, '\n'),
    ensures
        split(check_lines(c), '\n') == Seq::new(
            c.len(),
            |i: int|
                (if c[i].1 {
                    "[OK] "@
                } else {
                    "[FAIL] "@
                }) + c[i].0,
        ).push(Seq::empty()),
    decreases c.len(),
{
    let w = |i: int|
        (if c[i].1 {
            "[OK] "@
        } else {
            "[FAIL] "@
        }) + c[i].0;
    let e = Seq::<char>::empty();
    if c.len() == 0 {
        lemma_uncut(e, '\n');
        assert(check_lines(c) =~= e);
        assert(seq![e] =~= Seq::new(c.len(), w).push(e));
    } else {
        let l = c.drop_last();
        let x = w(c.len() - 1);
        assert forall|j: int| 0 <= j < l.len() implies !has_char((#[trigger] l[j]).0, '\n') by {
            assert(l[j] == c[j]);
        }
        lemma_check_lines(l);
        reveal_strlit("[OK] ");
        reveal_strlit("[FAIL] ");
        reveal_strlit("\n");
        assert(!has_char(c[c.len() - 1].0, '\n'));
        assert(!has_char(x, '\n')) by {
            assert forall|j: int| 0 <= j < x.len() implies x[j] != '\n' by {
                let m = x.len() - c.last().0.len();
                if j >= m {
                    assert(x[j] == c.last().0[j - m]);
                }
            }
        }
        lemma_line_grows(check_lines(l), x);
        assert(check_lines(c) =~= check_lines(l) + x + seq!['\n'] + e);
        assert(split(check_lines(l), '\n').drop_last() =~= Seq::new(
            l.len(),
            |i: int|
                (if l[i].1 {
                    "[OK] "@
                } else {
                    "[FAIL] "@
                }) + l[i].0,
        ));
        lemma_split_more(check_lines(l) + x, '\n', e);
        assert(split(check_lines(c), '\n') =~= Seq::new(c.len(), w).push(e));
    }
}

} // verus!
