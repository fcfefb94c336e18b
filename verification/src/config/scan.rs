//! The lexical level of rule files: quoting, comments, tokens and the shapes of
//! values.

use crate::text::{
    alnum, byte_len, chars_of, find_of, has_char, is_alnum, is_space, is_text, parse_uint, part,
    read_u16, read_u64, space, split, split_of, starts_with, starts_with_str, texts, trim, trim_of,
};
use vstd::prelude::*;
use vstd::utf8::encode_utf8;

verus! {

/// Inside a quoted string, and directly behind an escaping backslash.
pub struct QuoteState {
    pub quoted: bool,
    pub escaped: bool,
}

pub open spec fn quote_step(q: QuoteState, c: char) -> QuoteState {
    if q.escaped {
        QuoteState { quoted: q.quoted, escaped: false }
    } else if c == '\\' && q.quoted {
        QuoteState { quoted: true, escaped: true }
    } else if c == '"' {
        QuoteState { quoted: !q.quoted, escaped: false }
    } else {
        q
    }
}

/// The quoting state after reading `s`.
pub open spec fn quote_scan(s: Seq<char>) -> QuoteState
    decreases s.len(),
{
    if s.len() == 0 {
        QuoteState { quoted: false, escaped: false }
    } else {
        quote_step(quote_scan(s.drop_last()), s.last())
    }
}

/// `c` stands at `i`, outside quotes.
pub open spec fn bare_at(s: Seq<char>, c: char, i: int) -> bool {
    0 <= i < s.len() && s[i] == c && !quote_scan(s.subrange(0, i)).quoted
        && !quote_scan(s.subrange(0, i)).escaped
}

/// The position of the first unquoted `c`, counted from `from`, or the length.
pub open spec fn bare_find(s: Seq<char>, c: char, from: int) -> int
    decreases s.len() - from,
{
    if from >= s.len() || from < 0 {
        s.len() as int
    } else if bare_at(s, c, from) {
        from
    } else {
        bare_find(s, c, from + 1)
    }
}

/// The line up to its comment.
pub open spec fn strip_comment(s: Seq<char>) -> Seq<char> {
    s.subrange(0, bare_find(s, '#', 0))
}

pub open spec fn has_bare(s: Seq<char>, c: char) -> bool {
    exists|i: int| bare_at(s, c, i)
}

/// The character that a backslash sequence stands for.
pub open spec fn unescape(c: char) -> char {
    if c == 'n' {
        '\n'
    } else if c == 'r' {
        '\r'
    } else if c == 't' {
        '\t'
    } else {
        c
    }
}

/// Finished tokens, the open token and the quoting state.
pub struct TokenState {
    pub done: Seq<Seq<char>>,
    pub cur: Seq<char>,
    pub quote: QuoteState,
}

pub open spec fn token_step(st: TokenState, c: char) -> TokenState {
    let quote = quote_step(st.quote, c);
    if st.quote.escaped {
        TokenState { cur: st.cur.push(unescape(c)), quote, ..st }
    } else if (c == '\\' && st.quote.quoted) || c == '"' {
        TokenState { quote, ..st }
    } else if is_space(c) && !st.quote.quoted {
        if st.cur.len() > 0 {
            TokenState { done: st.done.push(st.cur), cur: Seq::empty(), quote }
        } else {
            st
        }
    } else {
        TokenState { cur: st.cur.push(c), ..st }
    }
}

pub open spec fn token_scan(s: Seq<char>) -> TokenState
    decreases s.len(),
{
    if s.len() == 0 {
        TokenState {
            done: Seq::empty(),
            cur: Seq::empty(),
            quote: QuoteState { quoted: false, escaped: false },
        }
    } else {
        token_step(token_scan(s.drop_last()), s.last())
    }
}

/// The tokens of a rule line, or what is wrong with its quoting.
pub open spec fn tokens(s: Seq<char>) -> Result<Seq<Seq<char>>, Seq<char>> {
    let st = token_scan(strip_comment(s));
    if st.quote.escaped {
        Err("trailing escape"@)
    } else if st.quote.quoted {
        Err("unterminated quoted string"@)
    } else if st.cur.len() > 0 {
        Ok(st.done.push(st.cur))
    } else {
        Ok(st.done)
    }
}

/// A character of an HTTP token.
pub open spec fn is_token_char(c: char) -> bool {
    is_alnum(c) || c == '!' || c == '#' || c == '$' || c == '%' || c == '&' || c == '\'' || c == '*'
        || c == '+' || c == '-' || c == '.' || c == '^' || c == '_' || c == '`' || c == '|' || c
        == '~'
}

/// An HTTP header name: a token.
pub open spec fn header_name_ok(s: Seq<char>) -> bool {
    s.len() > 0 && forall|i: int| 0 <= i < s.len() ==> is_token_char(#[trigger] s[i])
}

/// No carriage return, line feed or zero character.
pub open spec fn header_value_ok(s: Seq<char>) -> bool {
    forall|i: int| 0 <= i < s.len() ==> #[trigger] s[i] != '\r' && s[i] != '\n' && s[i] != '\0'
}

/// A path component that names no directory relation.
pub open spec fn plain_component(p: Seq<char>) -> bool {
    p.len() > 0 && p != "."@ && p != ".."@
}

/// An absolute URL path of plain components, without query, fragment or escapes.
pub open spec fn front_controller_ok(s: Seq<char>) -> bool {
    let p = split(s, '/');
    &&& s.len() > 1
    &&& s[0] == '/'
    &&& header_value_ok(s)
    &&& !has_char(s, '?')
    &&& !has_char(s, '#')
    &&& !has_char(s, '%')
    &&& forall|i: int| 1 <= i < p.len() ==> plain_component(#[trigger] p[i])
}

/// Seconds in the unit that a duration suffix names.
pub open spec fn unit_seconds(c: char) -> nat {
    if c == 's' {
        1
    } else if c == 'm' {
        60
    } else if c == 'h' {
        3600
    } else if c == 'd' {
        86400
    } else if c == 'w' {
        604800
    } else {
        0
    }
}

/// A number of seconds, minutes, hours, days or weeks, in seconds.
pub open spec fn duration(s: Seq<char>) -> Result<u64, Seq<char>> {
    if s.len() == 0 {
        Err("duration cannot be empty"@)
    } else {
        match parse_uint(s.drop_last(), u64::MAX as nat) {
            None => Err("invalid duration"@),
            Some(n) => if unit_seconds(s.last()) == 0 {
                Err("duration suffix must be s, m, h, d, or w"@)
            } else if n * unit_seconds(s.last()) > u64::MAX {
                Err("duration overflow"@)
            } else {
                Ok((n * unit_seconds(s.last())) as u64)
            },
        }
    }
}

pub open spec fn status(s: Seq<char>) -> Result<u16, Seq<char>> {
    match parse_uint(s, u16::MAX as nat) {
        None => Err("invalid HTTP status"@),
        Some(n) => if 100 <= n <= 599 {
            Ok(n as u16)
        } else {
            Err("HTTP status must be between 100 and 599"@)
        },
    }
}

pub open spec fn opener(c: char) -> char {
    if c == ')' {
        '('
    } else if c == ']' {
        '['
    } else {
        '{'
    }
}

/// The open brackets after reading a pattern; none where a bracket closed wrongly.
pub open spec fn bracket_scan(s: Seq<char>) -> Option<(bool, Seq<char>)>
    decreases s.len(),
{
    if s.len() == 0 {
        Some((false, Seq::empty()))
    } else {
        match bracket_scan(s.drop_last()) {
            None => None,
            Some((escaped, open)) => {
                let c = s.last();
                if escaped {
                    Some((false, open))
                } else if c == '\\' {
                    Some((true, open))
                } else if c == '(' || c == '[' || c == '{' {
                    Some((false, open.push(c)))
                } else if c == ')' || c == ']' || c == '}' {
                    if open.len() > 0 && open.last() == opener(c) {
                        Some((false, open.drop_last()))
                    } else {
                        None
                    }
                } else {
                    Some((false, open))
                }
            },
        }
    }
}

/// Every bracket is closed by its partner and no escape is left open.
pub open spec fn pattern_ok(s: Seq<char>) -> bool {
    bracket_scan(s) == Some((false, Seq::<char>::empty()))
}

/// An absolute prefix without control characters and parent components.
pub open spec fn route_prefix_ok(s: Seq<char>) -> bool {
    let p = split(s, '/');
    s.len() > 0 && s[0] == '/' && header_value_ok(s) && forall|i: int|
        0 <= i < p.len() ==> #[trigger] p[i] != ".."@
}

/// The position of the last `c`, or -1.
pub open spec fn rfind(s: Seq<char>, c: char) -> int
    decreases s.len(),
{
    if s.len() == 0 {
        -1
    } else if s.last() == c {
        s.len() - 1
    } else {
        rfind(s.drop_last(), c)
    }
}

pub open spec fn no_authority_break(s: Seq<char>) -> bool {
    header_value_ok(s) && !has_char(s, '/') && !has_char(s, '?') && !has_char(s, '#') && !has_char(
        s,
        '@',
    )
}

/// A host, a colon and a port number.
pub open spec fn authority_ok(s: Seq<char>) -> bool {
    let k = rfind(s, ':');
    k > 0 && no_authority_break(s) && parse_uint(
        s.subrange(k + 1, s.len() as int),
        u16::MAX as nat,
    ) is Some
}

/// One upstream: plain HTTP to an authority.
pub open spec fn one_upstream_ok(s: Seq<char>) -> bool {
    starts_with(s, "http://"@) && authority_ok(s.subrange("http://"@.len() as int, s.len() as int))
}

/// An upstream, or several between commas.
pub open spec fn upstream_ok(s: Seq<char>) -> bool {
    let p = split(s, ',');
    if has_char(s, ',') {
        forall|i: int| 0 <= i < p.len() ==> one_upstream_ok(trim(#[trigger] p[i]))
    } else {
        one_upstream_ok(s)
    }
}

/// A Unix socket path or a TCP authority.
pub open spec fn endpoint_ok(s: Seq<char>) -> bool {
    if starts_with(s, "unix:"@) {
        let path = s.subrange("unix:"@.len() as int, s.len() as int);
        path.len() > 0 && encode_utf8(path).len() <= 4096 && header_value_ok(path)
    } else {
        starts_with(s, "tcp://"@) && authority_ok(s.subrange("tcp://"@.len() as int, s.len() as int))
    }
}

fn step_quote(q: QuoteState, c: char) -> (r: QuoteState)
    ensures
        r == quote_step(q, c),
{
    if q.escaped {
        QuoteState { quoted: q.quoted, escaped: false }
    } else if c == '\\' && q.quoted {
        QuoteState { quoted: true, escaped: true }
    } else if c == '"' {
        QuoteState { quoted: !q.quoted, escaped: false }
    } else {
        q
    }
}

fn find_bare(s: &Vec<char>, c: char) -> (k: usize)
    ensures
        k == bare_find(s@, c, 0),
        k <= s@.len(),
        (k < s@.len()) == has_bare(s@, c),
{
    let mut q = QuoteState { quoted: false, escaped: false };
    let mut i: usize = 0;
    assert(s@.subrange(0, 0) =~= Seq::<char>::empty());
    while i < s.len()
        invariant
            i <= s@.len(),
            q == quote_scan(s@.subrange(0, i as int)),
            bare_find(s@, c, 0) == bare_find(s@, c, i as int),
            forall|j: int| 0 <= j < i ==> !bare_at(s@, c, j),
        decreases s@.len() - i,
    {
        if s[i] == c && !q.quoted && !q.escaped {
            assert(bare_at(s@, c, i as int));
            return i;
        }
        assert(!bare_at(s@, c, i as int));
        assert(s@.subrange(0, i + 1).drop_last() =~= s@.subrange(0, i as int));
        q = step_quote(q, s[i]);
        i = i + 1;
    }
    i
}

/// The line up to its comment.
pub fn strip_rule_comment(line: &Vec<char>) -> (r: Vec<char>)
    ensures
        r@ == strip_comment(line@),
{
    let k: usize = find_bare(line, '#');
    part(line, 0, k)
}

/// Whether an equals sign stands outside quotes.
pub fn has_unquoted_equals(line: &Vec<char>) -> (b: bool)
    ensures
        b == has_bare(line@, '='),
{
    find_bare(line, '=') < line.len()
}

/// Splits a rule line into tokens.
pub fn tokenize_rule_line(line: &Vec<char>) -> (r: Result<Vec<Vec<char>>, Vec<char>>)
    ensures
        match r {
            Ok(t) => tokens(line@) == Ok::<Seq<Seq<char>>, Seq<char>>(texts(t@)),
            Err(m) => tokens(line@) == Err::<Seq<Seq<char>>, Seq<char>>(m@),
        },
{
    let s = strip_rule_comment(line);
    let mut done: Vec<Vec<char>> = Vec::new();
    let mut cur: Vec<char> = Vec::new();
    let mut q = QuoteState { quoted: false, escaped: false };
    let mut i: usize = 0;
    assert(s@.subrange(0, 0) =~= Seq::<char>::empty());
    assert(texts(done@) =~= Seq::<Seq<char>>::empty());
    while i < s.len()
        invariant
            i <= s@.len(),
            token_scan(s@.subrange(0, i as int)) == (TokenState {
                done: texts(done@),
                cur: cur@,
                quote: q,
            }),
        decreases s@.len() - i,
    {
        let c = s[i];
        assert(s@.subrange(0, i + 1).drop_last() =~= s@.subrange(0, i as int));
        if q.escaped {
            let plain = if c == 'n' {
                '\n'
            } else if c == 'r' {
                '\r'
            } else if c == 't' {
                '\t'
            } else {
                c
            };
            cur.push(plain);
        } else if (c == '\\' && q.quoted) || c == '"' {
        } else if space(c) && !q.quoted {
            if cur.len() > 0 {
                let ghost prev = texts(done@).push(cur@);
                done.push(cur);
                cur = Vec::new();
                assert(texts(done@) =~= prev);
            }
        } else {
            cur.push(c);
        }
        q = step_quote(q, c);
        i = i + 1;
    }
    assert(s@.subrange(0, s@.len() as int) =~= s@);
    if q.escaped {
        return Err(chars_of("trailing escape"));
    }
    if q.quoted {
        return Err(chars_of("unterminated quoted string"));
    }
    if cur.len() > 0 {
        let ghost prev = texts(done@).push(cur@);
        done.push(cur);
        assert(texts(done@) =~= prev);
    }
    Ok(done)
}

pub fn token_char(c: char) -> (b: bool)
    ensures
        b == is_token_char(c),
{
    alnum(c) || c == '!' || c == '#' || c == '$' || c == '%' || c == '&' || c == '\'' || c == '*'
        || c == '+' || c == '-' || c == '.' || c == '^' || c == '_' || c == '`' || c == '|' || c
        == '~'
}

pub fn valid_header_name(s: &Vec<char>) -> (b: bool)
    ensures
        b == header_name_ok(s@),
{
    let mut i: usize = 0;
    while i < s.len()
        invariant
            i <= s@.len(),
            forall|j: int| 0 <= j < i ==> is_token_char(#[trigger] s@[j]),
        decreases s@.len() - i,
    {
        if !token_char(s[i]) {
            assert(!is_token_char(s@[i as int]));
            return false;
        }
        i = i + 1;
    }
    s.len() > 0
}

pub fn valid_header_value(s: &Vec<char>) -> (b: bool)
    ensures
        b == header_value_ok(s@),
{
    let mut i: usize = 0;
    while i < s.len()
        invariant
            i <= s@.len(),
            forall|j: int|
                0 <= j < i ==> #[trigger] s@[j] != '\r' && s@[j] != '\n' && s@[j] != '\0',
        decreases s@.len() - i,
    {
        let c = s[i];
        if c == '\r' || c == '\n' || c == '\0' {
            assert(s@[i as int] == c);
            return false;
        }
        i = i + 1;
    }
    true
}

pub fn has_char_of(s: &Vec<char>, c: char) -> (b: bool)
    ensures
        b == has_char(s@, c),
{
    find_of(s, c) < s.len()
}

pub fn valid_front_controller_path(s: &Vec<char>) -> (b: bool)
    ensures
        b == front_controller_ok(s@),
{
    if s.len() <= 1 || s[0] != '/' || !valid_header_value(s) || has_char_of(s, '?') || has_char_of(
        s,
        '#',
    ) || has_char_of(s, '%') {
        return false;
    }
    let p = split_of(s, '/');
    let ghost t = split(s@, '/');
    let mut i: usize = 1;
    while i < p.len()
        invariant
            t == split(s@, '/'),
            texts(p@) == t,
            1 <= i,
            i <= p@.len(),
            forall|j: int| 1 <= j < i ==> plain_component(#[trigger] t[j]),
        decreases p@.len() - i,
    {
        assert(t[i as int] == p@[i as int]@);
        assert(t.len() == p@.len());
        if p[i].len() == 0 || is_text(&p[i], ".") || is_text(&p[i], "..") {
            return false;
        }
        i = i + 1;
    }
    assert(t.len() == p@.len());
    true
}

/// Reads a duration in seconds.
pub fn parse_duration(s: &Vec<char>) -> (r: Result<u64, Vec<char>>)
    ensures
        match r {
            Ok(n) => duration(s@) == Ok::<u64, Seq<char>>(n),
            Err(m) => duration(s@) == Err::<u64, Seq<char>>(m@),
        },
{
    let n: usize = s.len();
    if n == 0 {
        return Err(chars_of("duration cannot be empty"));
    }
    let number = part(s, 0, n - 1);
    assert(number@ =~= s@.drop_last());
    let amount: u64 = match read_u64(&number) {
        Some(a) => a,
        None => {
            return Err(chars_of("invalid duration"));
        },
    };
    let c = s[n - 1];
    let unit: u64 = if c == 's' {
        1
    } else if c == 'm' {
        60
    } else if c == 'h' {
        3600
    } else if c == 'd' {
        86400
    } else if c == 'w' {
        604800
    } else {
        return Err(chars_of("duration suffix must be s, m, h, d, or w"));
    };
    match amount.checked_mul(unit) {
        Some(total) => Ok(total),
        None => Err(chars_of("duration overflow")),
    }
}

/// Reads a response status.
pub fn parse_status(s: &Vec<char>) -> (r: Result<u16, Vec<char>>)
    ensures
        match r {
            Ok(n) => status(s@) == Ok::<u16, Seq<char>>(n),
            Err(m) => status(s@) == Err::<u16, Seq<char>>(m@),
        },
{
    match read_u16(s) {
        None => Err(chars_of("invalid HTTP status")),
        Some(n) => if 100 <= n && n <= 599 {
            Ok(n)
        } else {
            Err(chars_of("HTTP status must be between 100 and 599"))
        },
    }
}

/// Whether the brackets of a rewrite pattern balance.
pub fn validate_rewrite_pattern(s: &Vec<char>) -> (b: bool)
    ensures
        b == pattern_ok(s@),
{
    let mut escaped = false;
    let mut open: Vec<char> = Vec::new();
    let mut i: usize = 0;
    assert(s@.subrange(0, 0) =~= Seq::<char>::empty());
    assert(open@ =~= Seq::<char>::empty());
    while i < s.len()
        invariant
            i <= s@.len(),
            bracket_scan(s@.subrange(0, i as int)) == Some((escaped, open@)),
        decreases s@.len() - i,
    {
        let c = s[i];
        assert(s@.subrange(0, i + 1).drop_last() =~= s@.subrange(0, i as int));
        if escaped {
            escaped = false;
        } else if c == '\\' {
            escaped = true;
        } else if c == '(' || c == '[' || c == '{' {
            open.push(c);
        } else if c == ')' || c == ']' || c == '}' {
            let want = if c == ')' {
                '('
            } else if c == ']' {
                '['
            } else {
                '{'
            };
            let n: usize = open.len();
            if n == 0 || open[n - 1] != want {
                assert(bracket_scan(s@.subrange(0, i + 1)) is None);
                proof {
                    lemma_bracket_none(s@, i + 1);
                }
                return false;
            }
            let ghost before_pop = open@;
            open.pop();
            assert(open@ =~= before_pop.drop_last());
        }
        i = i + 1;
    }
    assert(s@.subrange(0, s@.len() as int) =~= s@);
    if open.len() == 0 {
        assert(open@ =~= Seq::<char>::empty());
    }
    !escaped && open.len() == 0
}

proof fn lemma_bracket_none(s: Seq<char>, i: int)
    requires
        0 <= i <= s.len(),
        bracket_scan(s.subrange(0, i)) is None,
    ensures
        bracket_scan(s) is None,
    decreases s.len(),
{
    if i == s.len() {
        assert(s.subrange(0, i) =~= s);
    } else {
        assert(s.drop_last().subrange(0, i) =~= s.subrange(0, i));
        lemma_bracket_none(s.drop_last(), i);
    }
}

pub fn valid_route_prefix(s: &Vec<char>) -> (b: bool)
    ensures
        b == route_prefix_ok(s@),
{
    if s.len() == 0 || s[0] != '/' || !valid_header_value(s) {
        return false;
    }
    let p = split_of(s, '/');
    let ghost t = split(s@, '/');
    let mut i: usize = 0;
    while i < p.len()
        invariant
            t == split(s@, '/'),
            texts(p@) == t,
            i <= p@.len(),
            forall|j: int| 0 <= j < i ==> #[trigger] t[j] != ".."@,
        decreases p@.len() - i,
    {
        assert(t[i as int] == p@[i as int]@);
        if is_text(&p[i], "..") {
            return false;
        }
        i = i + 1;
    }
    assert(t.len() == p@.len());
    true
}

/// The position behind the last `c`, or zero where there is none.
pub fn rfind_of(s: &Vec<char>, c: char) -> (k: usize)
    ensures
        k == rfind(s@, c) + 1,
        k <= s@.len(),
{
    let mut n: usize = s.len();
    assert(s@.subrange(0, n as int) =~= s@);
    while n > 0 && s[n - 1] != c
        invariant
            n <= s@.len(),
            rfind(s@.subrange(0, n as int), c) == rfind(s@, c),
        decreases n,
    {
        assert(s@.subrange(0, n as int).drop_last() =~= s@.subrange(0, n - 1));
        n = n - 1;
    }
    n
}

fn valid_authority(s: &Vec<char>) -> (b: bool)
    ensures
        b == authority_ok(s@),
{
    let k: usize = rfind_of(s, ':');
    if k <= 1 {
        return false;
    }
    if !valid_header_value(s) || has_char_of(s, '/') || has_char_of(s, '?') || has_char_of(s, '#')
        || has_char_of(s, '@') {
        return false;
    }
    read_u16(&part(s, k, s.len())).is_some()
}

fn valid_one_upstream(s: &Vec<char>) -> (b: bool)
    ensures
        b == one_upstream_ok(s@),
{
    if !starts_with_str(s, "http://") {
        return false;
    }
    let n: usize = chars_of("http://").len();
    valid_authority(&part(s, n, s.len()))
}

pub fn valid_upstream(s: &Vec<char>) -> (b: bool)
    ensures
        b == upstream_ok(s@),
{
    if !has_char_of(s, ',') {
        return valid_one_upstream(s);
    }
    let p = split_of(s, ',');
    let ghost t = split(s@, ',');
    let mut i: usize = 0;
    while i < p.len()
        invariant
            t == split(s@, ','),
            has_char(s@, ','),
            texts(p@) == t,
            i <= p@.len(),
            forall|j: int| 0 <= j < i ==> one_upstream_ok(trim(#[trigger] t[j])),
        decreases p@.len() - i,
    {
        assert(t[i as int] == p@[i as int]@);
        if !valid_one_upstream(&trim_of(&p[i])) {
            return false;
        }
        i = i + 1;
    }
    assert(t.len() == p@.len());
    true
}

pub fn valid_fastcgi_endpoint(s: &Vec<char>) -> (b: bool)
    ensures
        b == endpoint_ok(s@),
{
    if starts_with_str(s, "unix:") {
        let n: usize = chars_of("unix:").len();
        let path = part(s, n, s.len());
        return path.len() > 0 && byte_len(&path) <= 4096 && valid_header_value(&path);
    }
    if !starts_with_str(s, "tcp://") {
        return false;
    }
    let n: usize = chars_of("tcp://").len();
    valid_authority(&part(s, n, s.len()))
}

} // verus!
