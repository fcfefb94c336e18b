//! The lines of logs.

use crate::text::{chars_of, has_char, is_text, push_str, string_of};
use vstd::prelude::*;

verus! {

/// The most characters of a line.
pub const MAX_LINE: usize = 16384;

/// What is written where a log cannot be.
pub const UNAVAILABLE: &'static str = "[ERROR] configured log destination unavailable\n";

/// Where a log goes.
#[derive(Debug, Clone, Copy, PartialEq, Eq, Structural)]
pub enum Destination {
    Stdout,
    Stderr,
    /// The file of that name, at its end.
    File,
}

pub open spec fn destination(name: Seq<char>) -> Destination {
    if name == "stdout"@ {
        Destination::Stdout
    } else if name == "stderr"@ {
        Destination::Stderr
    } else {
        Destination::File
    }
}

/// Where a log of that name goes.
pub fn log_destination(name: &str) -> (d: Destination)
    ensures
        d == destination(name@),
{
    let n = chars_of(name);
    if is_text(&n, "stdout") {
        Destination::Stdout
    } else if is_text(&n, "stderr") {
        Destination::Stderr
    } else {
        Destination::File
    }
}

/// What is written to standard error where a log could not be written.
pub fn on_failure(d: Destination) -> (r: Option<&'static str>)
    ensures
        match r {
            Some(m) => d != Destination::Stderr && m@ == UNAVAILABLE@,
            None => d == Destination::Stderr,
        },
{
    match d {
        Destination::Stderr => None,
        _ => Some(UNAVAILABLE),
    }
}

/// The beginning of a line, with blanks for line breaks.
pub open spec fn flattened(line: Seq<char>) -> Seq<char> {
    Seq::new(
        if line.len() <= MAX_LINE {
            line.len()
        } else {
            MAX_LINE as nat
        },
        |i: int|
            if line[i] == '\r' || line[i] == '\n' {
                ' '
            } else {
                line[i]
            },
    )
}

/// The line that is written: one line, whatever breaks were in it.
pub open spec fn log_line(line: Seq<char>) -> Seq<char> {
    let f = flattened(line);
    if line.len() > 0 && line.last() == '\n' {
        f.drop_last().push('\n')
    } else {
        f.push('\n')
    }
}

/// Whatever is logged, it is one line of bounded length.
pub proof fn law_log_entries_are_single_lines(line: Seq<char>)
    ensures
        log_line(line).len() <= MAX_LINE + 1,
        log_line(line).len() > 0,
        log_line(line).last() == '\n',
        !has_char(log_line(line).drop_last(), '\n'),
        !has_char(log_line(line), '\r'),
{
    let f = flattened(line);
    assert forall|i: int| 0 <= i < f.len() implies f[i] != '\r' && f[i] != '\n' by {
    }
    let r = log_line(line);
    assert forall|i: int| 0 <= i < r.len() - 1 implies r[i] != '\r' && r[i] != '\n' by {
        assert(r[i] == f[i]);
    }
}

/// The line that is written.
pub fn write_line(line: &str) -> (r: String)
    ensures
        r@ == log_line(line@),
{
    let v = chars_of(line);
    let n: usize = v.len();
    let end: usize = if n <= MAX_LINE {
        n
    } else {
        MAX_LINE
    };
    let mut out: Vec<char> = Vec::new();
    let mut i: usize = 0;
    while i < end
        invariant
            n == v@.len(),
            v@ == line@,
            end <= n,
            end == flattened(line@).len(),
            i <= end,
            out@.len() == i,
            forall|j: int| 0 <= j < i ==> out@[j] == flattened(line@)[j],
        decreases end - i,
    {
        let c = v[i];
        if c == '\r' || c == '\n' {
            out.push(' ');
        } else {
            out.push(c);
        }
        i = i + 1;
    }
    assert(out@ =~= flattened(line@));
    if n > 0 && v[n - 1] == '\n' {
        let _ = out.pop();
        assert(out@ =~= flattened(line@).drop_last());
    }
    out.push('\n');
    string_of(&out)
}

/// The line of an error.
pub fn error(message: &str) -> (r: String)
    ensures
        r@ == log_line("[ERROR] "@ + message@),
{
    let mut t = chars_of("[ERROR] ");
    push_str(&mut t, message);
    let s = string_of(&t);
    write_line(s.as_str())
}

/// The line of a warning.
pub fn warn(message: &str) -> (r: String)
    ensures
        r@ == log_line("[WARN] "@ + message@),
{
    let mut t = chars_of("[WARN] ");
    push_str(&mut t, message);
    let s = string_of(&t);
    write_line(s.as_str())
}

} // verus!
