//! The SQL that a model returns, freed of what is not SQL.
use vstd::prelude::*;

use crate::text;
use crate::text::{chars_of, found_at, skip_end, skip_start, substring, Class};

verus! {

/// `s` without the texts `p` at its start.
pub open spec fn strip_prefixes(s: Seq<char>, p: Seq<char>) -> Seq<char>
    decreases s.len(),
{
    if p.len() > 0 && text::starts_with(s, p) {
        strip_prefixes(s.skip(p.len() as int), p)
    } else {
        s
    }
}

/// `s` without the texts `p` at its end.
pub open spec fn strip_suffixes(s: Seq<char>, p: Seq<char>) -> Seq<char>
    decreases s.len(),
{
    if p.len() > 0 && text::ends_with(s, p) {
        strip_suffixes(s.take(s.len() - p.len()), p)
    } else {
        s
    }
}

/// `s` without two dashes at its start.
pub open spec fn after_dashes(s: Seq<char>) -> Seq<char> {
    if text::starts_with(s, "--"@) {
        s.skip("--"@.len() as int)
    } else {
        s
    }
}

/// What a position of a statement lies in, quoted text aside.
#[derive(Clone, Copy, PartialEq, Eq, Structural)]
pub enum Part {
    Code,
    /// A comment to the end of the line.
    Line,
    /// A comment between `/*` and `*/`.
    Block,
}

/// A character that opens quoted text: a string or a quoted identifier.
pub open spec fn is_quote(c: char) -> bool {
    c == '\'' || c == '"'
}

/// The position after the first `q` at or after `i`, if there is one.
pub open spec fn quote_end(s: Seq<char>, i: int, q: char) -> Option<int>
    decreases s.len() - i,
{
    if i < 0 || i >= s.len() {
        None
    } else if s[i] == q {
        Some(i + 1)
    } else {
        quote_end(s, i + 1, q)
    }
}

pub proof fn lemma_quote_end(s: Seq<char>, i: int, q: char)
    requires
        0 <= i,
    ensures
        quote_end(s, i, q) matches Some(e) ==> i < e <= s.len() && s[e - 1] == q,
    decreases s.len() - i,
{
    if i < s.len() && s[i] != q {
        lemma_quote_end(s, i + 1, q);
    }
}

/// The characters `a` and `b` stand at `i`.
pub open spec fn pair_at(s: Seq<char>, i: int, a: char, b: char) -> bool {
    0 <= i && i + 1 < s.len() && s[i] == a && s[i + 1] == b
}

/// The position at or after `i` at which the statement ends: that of a semicolon that
/// is not in quoted text, or the end. A quote that is not closed, or that stands in a
/// comment, opens no quoted text.
pub open spec fn statement_end(s: Seq<char>, i: int, part: Part) -> int
    decreases s.len() - i,
{
    if i < 0 || i >= s.len() {
        s.len() as int
    } else if s[i] == ';' {
        i
    } else {
        match part {
            Part::Line => statement_end(
                s,
                i + 1,
                if s[i] == '\n' {
                    Part::Code
                } else {
                    Part::Line
                },
            ),
            Part::Block => if pair_at(s, i, '*', '/') {
                statement_end(s, i + 2, Part::Code)
            } else {
                statement_end(s, i + 1, Part::Block)
            },
            Part::Code => if is_quote(s[i]) {
                proof {
                    lemma_quote_end(s, i + 1, s[i]);
                }
                match quote_end(s, i + 1, s[i]) {
                    Some(e) => statement_end(s, e, Part::Code),
                    None => statement_end(s, i + 1, Part::Code),
                }
            } else if pair_at(s, i, '-', '-') {
                statement_end(s, i + 2, Part::Line)
            } else if pair_at(s, i, '/', '*') {
                statement_end(s, i + 2, Part::Block)
            } else {
                statement_end(s, i + 1, Part::Code)
            },
        }
    }
}

/// The first statement of several: what stands before the first semicolon that is not
/// in quoted text.
pub open spec fn first_statement(s: Seq<char>) -> Seq<char> {
    s.take(statement_end(s, 0, Part::Code))
}

/// `s` without a fence around it.
pub open spec fn unfenced(s: Seq<char>) -> Seq<char> {
    strip_suffixes(
        strip_prefixes(strip_prefixes(strip_prefixes(s, "```sql"@), "```SQL"@), "```"@),
        "```"@,
    )
}

/// `s` without the braces of an envelope around it.
pub open spec fn unwrapped(s: Seq<char>) -> Seq<char> {
    text::strip_end(text::strip_start(s, Class::Only('{')), Class::OrWhite('}'))
}

/// The first statement of what a model returned, without dashes before it and
/// without the fence and the envelope around it.
pub open spec fn cleaned(s: Seq<char>) -> Seq<char> {
    text::trim(unwrapped(text::trim(unfenced(text::trim(first_statement(after_dashes(s)))))))
}

/// The first position of `cs[from..to]` at which `p` does not stand, `p` after `p`.
fn skip_prefixes(cs: &Vec<char>, from: usize, to: usize, p: &str) -> (r: usize)
    requires
        from <= to <= cs.len(),
    ensures
        from <= r <= to,
        cs@.subrange(r as int, to as int) == strip_prefixes(
            cs@.subrange(from as int, to as int),
            p@,
        ),
{
    let pat = chars_of(p);
    let mut i: usize = from;
    while pat.len() > 0 && pat.len() <= to - i && found_at(cs, &pat, i)
        invariant
            pat@ == p@,
            from <= i <= to <= cs.len(),
            strip_prefixes(cs@.subrange(i as int, to as int), p@) == strip_prefixes(
                cs@.subrange(from as int, to as int),
                p@,
            ),
        decreases to - i,
    {
        let ghost here = cs@.subrange(i as int, to as int);
        assert(here.subrange(0, p@.len() as int) == cs@.subrange(i as int, i + p@.len()));
        assert(here.skip(p@.len() as int) == cs@.subrange(i + p@.len(), to as int));
        i = i + pat.len();
    }
    let ghost here = cs@.subrange(i as int, to as int);
    assert(pat.len() <= to - i ==> here.subrange(0, p@.len() as int) == cs@.subrange(
        i as int,
        i + p@.len(),
    ));
    i
}

/// The end of what is left of `cs[from..to]` when the texts `p` at its end are gone.
fn skip_suffixes(cs: &Vec<char>, from: usize, to: usize, p: &str) -> (r: usize)
    requires
        from <= to <= cs.len(),
    ensures
        from <= r <= to,
        cs@.subrange(from as int, r as int) == strip_suffixes(
            cs@.subrange(from as int, to as int),
            p@,
        ),
{
    let pat = chars_of(p);
    let mut j: usize = to;
    while pat.len() > 0 && pat.len() <= j - from && found_at(cs, &pat, j - pat.len())
        invariant
            pat@ == p@,
            from <= j <= to <= cs.len(),
            strip_suffixes(cs@.subrange(from as int, j as int), p@) == strip_suffixes(
                cs@.subrange(from as int, to as int),
                p@,
            ),
        decreases j - from,
    {
        let ghost here = cs@.subrange(from as int, j as int);
        assert(here.subrange(here.len() - p@.len(), here.len() as int) == cs@.subrange(
            j - p@.len(),
            j as int,
        ));
        assert(here.take(here.len() - p@.len()) == cs@.subrange(from as int, j - p@.len()));
        j = j - pat.len();
    }
    let ghost here = cs@.subrange(from as int, j as int);
    assert(pat.len() <= j - from ==> here.subrange(here.len() - p@.len(), here.len() as int)
        == cs@.subrange(j - p@.len(), j as int));
    j
}

/// The position after the first `q` at or after `from`.
fn end_of_quoted(cs: &Vec<char>, from: usize, q: char) -> (r: Option<usize>)
    requires
        from <= cs.len(),
    ensures
        match r {
            Some(e) => quote_end(cs@, from as int, q) == Some(e as int) && from < e <= cs.len(),
            None => quote_end(cs@, from as int, q) is None,
        },
{
    let mut i: usize = from;
    while i < cs.len()
        invariant
            from <= i <= cs.len(),
            quote_end(cs@, i as int, q) == quote_end(cs@, from as int, q),
        decreases cs.len() - i,
    {
        if cs[i] == q {
            return Some(i + 1);
        }
        i += 1;
    }
    None
}

/// Whether the characters `a` and `b` stand at `i`.
fn pair_stands(cs: &Vec<char>, i: usize, a: char, b: char) -> (r: bool)
    requires
        i < cs.len(),
    ensures
        r == pair_at(cs@, i as int, a, b),
{
    cs.len() - i > 1 && cs[i] == a && cs[i + 1] == b
}

/// The position at or after `from` at which the statement ends.
fn end_of_statement(cs: &Vec<char>, from: usize) -> (r: usize)
    requires
        from <= cs.len(),
    ensures
        from <= r <= cs.len(),
        r == statement_end(cs@, from as int, Part::Code),
{
    let mut i: usize = from;
    let mut part = Part::Code;
    while i < cs.len() && cs[i] != ';'
        invariant
            from <= i <= cs.len(),
            statement_end(cs@, i as int, part) == statement_end(cs@, from as int, Part::Code),
        decreases cs.len() - i,
    {
        match part {
            Part::Line => {
                if cs[i] == '\n' {
                    part = Part::Code;
                }
                i += 1;
            },
            Part::Block => {
                if pair_stands(cs, i, '*', '/') {
                    part = Part::Code;
                    i += 2;
                } else {
                    i += 1;
                }
            },
            Part::Code => {
                if cs[i] == '\'' || cs[i] == '"' {
                    i = match end_of_quoted(cs, i + 1, cs[i]) {
                        Some(e) => e,
                        None => i + 1,
                    };
                } else if pair_stands(cs, i, '-', '-') {
                    part = Part::Line;
                    i += 2;
                } else if pair_stands(cs, i, '/', '*') {
                    part = Part::Block;
                    i += 2;
                } else {
                    i += 1;
                }
            },
        }
    }
    i
}

proof fn lemma_quote_end_on(s: Seq<char>, d: int, i: int, q: char)
    requires
        0 <= d <= i,
        d <= s.len(),
    ensures
        quote_end(s.skip(d), i - d, q) == match quote_end(s, i, q) {
            Some(e) => Some(e - d),
            None => None,
        },
    decreases s.len() - i,
{
    if i < s.len() {
        assert(s.skip(d)[i - d] == s[i]);
        if s[i] != q {
            lemma_quote_end_on(s, d, i + 1, q);
        }
    }
}

/// A statement ends at the same place, whatever stands before the position from which
/// on it is read.
proof fn lemma_end_on(s: Seq<char>, d: int, i: int, part: Part)
    requires
        0 <= d <= i,
        d <= s.len(),
    ensures
        statement_end(s.skip(d), i - d, part) == statement_end(s, i, part) - d,
    decreases s.len() - i,
{
    let t = s.skip(d);
    if i < s.len() {
        assert(t[i - d] == s[i]);
        if i + 1 < s.len() {
            assert(t[i + 1 - d] == s[i + 1]);
        }
        lemma_end_on(s, d, i + 1, Part::Code);
        lemma_end_on(s, d, i + 1, Part::Line);
        lemma_end_on(s, d, i + 1, Part::Block);
        if i + 1 < s.len() {
            lemma_end_on(s, d, i + 2, Part::Code);
            lemma_end_on(s, d, i + 2, Part::Line);
            lemma_end_on(s, d, i + 2, Part::Block);
        }
        lemma_quote_end_on(s, d, i + 1, s[i]);
        lemma_quote_end(s, i + 1, s[i]);
        if let Some(e) = quote_end(s, i + 1, s[i]) {
            lemma_end_on(s, d, e, Part::Code);
        }
    }
}

/// The first statement of what a model returned, without what is not SQL.
pub fn clean_model_based_sql(input: &str) -> (r: String)
    ensures
        r@ == cleaned(input@),
{
    let cs = chars_of(input);
    let ghost s = input@;
    let dashes = chars_of("--");
    let start: usize = if dashes.len() <= cs.len() && found_at(&cs, &dashes, 0) {
        dashes.len()
    } else {
        0
    };
    assert(s.subrange(start as int, s.len() as int) == after_dashes(s)) by {
        if start == 0 {
            assert(s.subrange(0, s.len() as int) == s);
        }
        assert("--"@.len() <= s.len() ==> s.subrange(0, "--"@.len() as int) == s.take(
            "--"@.len() as int,
        ));
    }
    let end = end_of_statement(&cs, start);
    proof {
        lemma_end_on(s, start as int, start as int, Part::Code);
        assert(s.skip(start as int) == after_dashes(s));
        assert(first_statement(after_dashes(s)) == s.subrange(start as int, end as int));
    }
    let a = skip_start(&cs, start, end, Class::White);
    let b = skip_end(&cs, a, end, Class::White);
    let a = skip_prefixes(&cs, a, b, "```sql");
    let a = skip_prefixes(&cs, a, b, "```SQL");
    let a = skip_prefixes(&cs, a, b, "```");
    let b = skip_suffixes(&cs, a, b, "```");
    let a = skip_start(&cs, a, b, Class::White);
    let b = skip_end(&cs, a, b, Class::White);
    let a = skip_start(&cs, a, b, Class::Only('{'));
    let b = skip_end(&cs, a, b, Class::OrWhite('}'));
    let a = skip_start(&cs, a, b, Class::White);
    let b = skip_end(&cs, a, b, Class::White);
    substring(&cs, a, b)
}

// ---------------------------------------------------------------------------
// What cleaning guarantees
// ---------------------------------------------------------------------------

/// A text that is one statement: it ends nowhere before its end.
pub open spec fn is_one_statement(s: Seq<char>) -> bool {
    statement_end(s, 0, Part::Code) == s.len()
}

/// A character that plays no part in where quoted text and comments begin and end.
pub open spec fn is_neutral(c: char) -> bool {
    c != ';' && !is_quote(c) && c != '-' && c != '/' && c != '*'
}

proof fn lemma_quote_end_shorter(s: Seq<char>, n: int, i: int, q: char)
    requires
        0 <= i,
        0 <= n <= s.len(),
        forall|k: int| n <= k < s.len() ==> s[k] != q,
    ensures
        quote_end(s.take(n), i, q) == quote_end(s, i, q),
    decreases s.len() - i,
{
    if i < n {
        assert(s.take(n)[i] == s[i]);
    }
    if i < s.len() && s[i] != q {
        lemma_quote_end_shorter(s, n, i + 1, q);
    }
}

/// Neutral characters at the end of one statement can go.
proof fn lemma_shorter_end(s: Seq<char>, n: int, i: int, part: Part)
    requires
        0 <= i,
        0 <= n <= s.len(),
        forall|k: int| n <= k < s.len() ==> is_neutral(#[trigger] s[k]),
        statement_end(s, i, part) == s.len(),
    ensures
        statement_end(s.take(n), i, part) == n,
    decreases s.len() - i,
{
    let t = s.take(n);
    if i < n {
        assert(t[i] == s[i]);
        if i + 1 < s.len() {
            assert(i + 1 < n ==> t[i + 1] == s[i + 1]);
            assert(i + 1 >= n ==> is_neutral(s[i + 1]));
        }
        match part {
            Part::Line => {
                lemma_shorter_end(
                    s,
                    n,
                    i + 1,
                    if s[i] == '\n' {
                        Part::Code
                    } else {
                        Part::Line
                    },
                );
            },
            Part::Block => {
                if pair_at(s, i, '*', '/') {
                    lemma_shorter_end(s, n, i + 2, Part::Code);
                } else {
                    lemma_shorter_end(s, n, i + 1, Part::Block);
                }
            },
            Part::Code => {
                if is_quote(s[i]) {
                    lemma_quote_end_shorter(s, n, i + 1, s[i]);
                    lemma_quote_end(s, i + 1, s[i]);
                    match quote_end(s, i + 1, s[i]) {
                        Some(e) => {
                            lemma_shorter_end(s, n, e, Part::Code);
                        },
                        None => {
                            lemma_shorter_end(s, n, i + 1, Part::Code);
                        },
                    }
                } else if pair_at(s, i, '-', '-') {
                    lemma_shorter_end(s, n, i + 2, Part::Line);
                } else if pair_at(s, i, '/', '*') {
                    lemma_shorter_end(s, n, i + 2, Part::Block);
                } else {
                    lemma_shorter_end(s, n, i + 1, Part::Code);
                }
            },
        }
    }
}

/// Neutral characters at either end of one statement can go.
proof fn lemma_without_end(s: Seq<char>, n: int)
    requires
        is_one_statement(s),
        0 <= n <= s.len(),
        forall|k: int| n <= k < s.len() ==> is_neutral(#[trigger] s[k]),
    ensures
        is_one_statement(s.take(n)),
{
    lemma_shorter_end(s, n, 0, Part::Code);
}

proof fn lemma_reads_over(s: Seq<char>, i: int, n: int)
    requires
        0 <= i <= n <= s.len(),
        forall|k: int| i <= k < n ==> is_neutral(#[trigger] s[k]),
    ensures
        statement_end(s, i, Part::Code) == statement_end(s, n, Part::Code),
    decreases n - i,
{
    if i < n {
        assert(is_neutral(s[i]));
        lemma_reads_over(s, i + 1, n);
    }
}

proof fn lemma_without_start(s: Seq<char>, n: int)
    requires
        is_one_statement(s),
        0 <= n <= s.len(),
        forall|k: int| 0 <= k < n ==> is_neutral(#[trigger] s[k]),
    ensures
        is_one_statement(s.skip(n)),
{
    lemma_reads_over(s, 0, n);
    lemma_end_on(s, n, n, Part::Code);
}

/// A class of neutral characters.
pub open spec fn neutral_class(k: Class) -> bool {
    forall|c: char| #[trigger] k.has(c) ==> is_neutral(c)
}

proof fn lemma_strip_keeps(s: Seq<char>, k: Class)
    requires
        is_one_statement(s),
        neutral_class(k),
    ensures
        is_one_statement(text::strip_start(s, k)),
        is_one_statement(text::strip_end(s, k)),
    decreases s.len(),
{
    if s.len() > 0 {
        if k.has(s[0]) {
            lemma_without_start(s, 1);
            lemma_strip_keeps(s.skip(1), k);
        }
        if k.has(s.last()) {
            lemma_without_end(s, s.len() - 1);
            assert(s.take(s.len() - 1) == s.drop_last());
            lemma_strip_keeps(s.drop_last(), k);
        }
    }
}

proof fn lemma_strip_texts_keeps(s: Seq<char>, p: Seq<char>)
    requires
        is_one_statement(s),
        forall|k: int| 0 <= k < p.len() ==> is_neutral(#[trigger] p[k]),
    ensures
        is_one_statement(strip_prefixes(s, p)),
        is_one_statement(strip_suffixes(s, p)),
    decreases s.len(),
{
    let n = p.len() as int;
    if n > 0 && text::starts_with(s, p) {
        assert forall|k: int| 0 <= k < n implies is_neutral(#[trigger] s[k]) by {
            assert(s.take(n)[k] == p[k]);
        }
        lemma_without_start(s, n);
        lemma_strip_texts_keeps(s.skip(n), p);
    }
    if n > 0 && text::ends_with(s, p) {
        let m = s.len() - n;
        assert forall|k: int| m <= k < s.len() implies is_neutral(#[trigger] s[k]) by {
            assert(s.skip(m)[k - m] == p[k - m]);
        }
        lemma_without_end(s, m);
        lemma_strip_texts_keeps(s.take(m), p);
    }
}

proof fn lemma_trim_keeps(s: Seq<char>)
    requires
        is_one_statement(s),
    ensures
        is_one_statement(text::trim(s)),
{
    assert(neutral_class(Class::White));
    lemma_strip_keeps(s, Class::White);
    lemma_strip_keeps(text::strip_start(s, Class::White), Class::White);
}

proof fn lemma_quote_end_before(s: Seq<char>, n: int, i: int, q: char)
    requires
        0 <= i,
        0 <= n <= s.len(),
    ensures
        quote_end(s, i, q) matches Some(e) ==> e <= n ==> quote_end(s.take(n), i, q) == Some(e),
        quote_end(s, i, q) is None ==> quote_end(s.take(n), i, q) is None,
    decreases s.len() - i,
{
    if i < n {
        assert(s.take(n)[i] == s[i]);
    }
    if i < s.len() && s[i] != q {
        lemma_quote_end_before(s, n, i + 1, q);
    }
    lemma_quote_end(s, i, q);
}

proof fn lemma_end_is_after(s: Seq<char>, i: int, part: Part)
    requires
        0 <= i <= s.len(),
    ensures
        i <= statement_end(s, i, part) <= s.len(),
        statement_end(s, i, part) < s.len() ==> s[statement_end(s, i, part)] == ';',
    decreases s.len() - i,
{
    if i < s.len() && s[i] != ';' {
        lemma_end_is_after(s, i + 1, Part::Code);
        lemma_end_is_after(s, i + 1, Part::Line);
        lemma_end_is_after(s, i + 1, Part::Block);
        if i + 1 < s.len() {
            lemma_end_is_after(s, i + 2, Part::Code);
            lemma_end_is_after(s, i + 2, Part::Line);
            lemma_end_is_after(s, i + 2, Part::Block);
        }
        lemma_quote_end(s, i + 1, s[i]);
        if let Some(e) = quote_end(s, i + 1, s[i]) {
            lemma_end_is_after(s, e, Part::Code);
        }
    }
}

/// What stands before the end of a statement is one statement.
proof fn lemma_before_end(s: Seq<char>, i: int, part: Part)
    requires
        0 <= i <= s.len(),
    ensures
        ({
            let n = statement_end(s, i, part);
            statement_end(s.take(n), i, part) == n
        }),
    decreases s.len() - i,
{
    let n = statement_end(s, i, part);
    lemma_end_is_after(s, i, part);
    let t = s.take(n);
    if i < n {
        assert(t[i] == s[i]);
        if i + 1 < n {
            assert(t[i + 1] == s[i + 1]);
        }
        match part {
            Part::Line => {
                lemma_before_end(
                    s,
                    i + 1,
                    if s[i] == '\n' {
                        Part::Code
                    } else {
                        Part::Line
                    },
                );
            },
            Part::Block => {
                if pair_at(s, i, '*', '/') {
                    lemma_end_is_after(s, i + 2, Part::Code);
                    lemma_before_end(s, i + 2, Part::Code);
                } else {
                    lemma_before_end(s, i + 1, Part::Block);
                }
            },
            Part::Code => {
                if is_quote(s[i]) {
                    lemma_quote_end(s, i + 1, s[i]);
                    lemma_quote_end_before(s, n, i + 1, s[i]);
                    match quote_end(s, i + 1, s[i]) {
                        Some(e) => {
                            lemma_end_is_after(s, e, Part::Code);
                            lemma_before_end(s, e, Part::Code);
                        },
                        None => {
                            lemma_before_end(s, i + 1, Part::Code);
                        },
                    }
                } else if pair_at(s, i, '-', '-') {
                    lemma_end_is_after(s, i + 2, Part::Line);
                    lemma_before_end(s, i + 2, Part::Line);
                } else if pair_at(s, i, '/', '*') {
                    lemma_end_is_after(s, i + 2, Part::Block);
                    lemma_before_end(s, i + 2, Part::Block);
                } else {
                    lemma_before_end(s, i + 1, Part::Code);
                }
            },
        }
    }
}

proof fn lemma_strip_end_keeps_start(s: Seq<char>, k: Class)
    requires
        s.len() == 0 || !k.has(s[0]),
    ensures
        text::strip_end(s, k).len() == 0 || !k.has(text::strip_end(s, k)[0]),
    decreases s.len(),
{
    if s.len() > 0 && k.has(s.last()) {
        lemma_strip_end_keeps_start(s.drop_last(), k);
    }
}

proof fn lemma_stripped(s: Seq<char>, k: Class)
    ensures
        text::strip_start(s, k).len() == 0 || !k.has(text::strip_start(s, k)[0]),
        text::strip_end(s, k).len() == 0 || !k.has(text::strip_end(s, k).last()),
    decreases s.len(),
{
    if s.len() > 0 {
        lemma_stripped(s.skip(1), k);
        lemma_stripped(s.drop_last(), k);
    }
}

/// Only one statement is ever run: what is left holds no semicolon but in quoted text,
/// and begins and ends with something other than white space.
pub proof fn law_cleaned_is_one_statement(s: Seq<char>)
    ensures
        is_one_statement(cleaned(s)),
        cleaned(s).len() == 0 || (!text::is_white(cleaned(s)[0]) && !text::is_white(
            cleaned(s).last(),
        )),
{
    let a = first_statement(after_dashes(s));
    lemma_end_is_after(after_dashes(s), 0, Part::Code);
    lemma_before_end(after_dashes(s), 0, Part::Code);
    lemma_trim_keeps(a);
    let b = text::trim(a);
    reveal_strlit("```sql");
    reveal_strlit("```SQL");
    reveal_strlit("```");
    lemma_strip_texts_keeps(b, "```sql"@);
    let c = strip_prefixes(b, "```sql"@);
    lemma_strip_texts_keeps(c, "```SQL"@);
    let d = strip_prefixes(c, "```SQL"@);
    lemma_strip_texts_keeps(d, "```"@);
    let e = strip_prefixes(d, "```"@);
    lemma_strip_texts_keeps(e, "```"@);
    let f = strip_suffixes(e, "```"@);
    lemma_trim_keeps(f);
    let g = text::trim(f);
    assert(neutral_class(Class::Only('{')));
    lemma_strip_keeps(g, Class::Only('{'));
    let h = text::strip_start(g, Class::Only('{'));
    assert(neutral_class(Class::OrWhite('}')));
    lemma_strip_keeps(h, Class::OrWhite('}'));
    let i = text::strip_end(h, Class::OrWhite('}'));
    lemma_trim_keeps(i);
    lemma_stripped(i, Class::White);
    lemma_stripped(text::strip_start(i, Class::White), Class::White);
    lemma_strip_end_keeps_start(text::strip_start(i, Class::White), Class::White);
}

// ---------------------------------------------------------------------------
// What cleaning takes away
// ---------------------------------------------------------------------------

/// `t` is made of texts `p` alone, none or more.
pub open spec fn repeats(t: Seq<char>, p: Seq<char>) -> bool
    decreases t.len(),
{
    t.len() == 0 || (p.len() > 0 && text::starts_with(t, p) && repeats(t.skip(p.len() as int), p))
}

/// What is around the SQL in what a model returned.
pub struct Wrapping {
    pub dashes: Seq<char>,
    pub before_fence: Seq<char>,
    pub lower_fences: Seq<char>,
    pub upper_fences: Seq<char>,
    pub fences: Seq<char>,
    pub after_fence: Seq<char>,
    pub braces: Seq<char>,
    pub before: Seq<char>,
    pub after: Seq<char>,
    pub closing_braces: Seq<char>,
    pub before_closing_fence: Seq<char>,
    pub closing_fences: Seq<char>,
    pub after_closing_fence: Seq<char>,
    pub rest: Seq<char>,
}

impl Wrapping {
    /// What is between the braces.
    pub open spec fn braced(self, sql: Seq<char>) -> Seq<char> {
        self.before + sql + self.after
    }

    /// What is between the fences.
    pub open spec fn fenced(self, sql: Seq<char>) -> Seq<char> {
        self.after_fence + (self.braces + self.braced(sql) + self.closing_braces)
            + self.before_closing_fence
    }

    /// What comes after the fences of the first kind.
    pub open spec fn after_lower(self, sql: Seq<char>) -> Seq<char> {
        self.upper_fences + self.after_upper(sql)
    }

    /// What comes after the fences of the first two kinds.
    pub open spec fn after_upper(self, sql: Seq<char>) -> Seq<char> {
        self.fences + (self.fenced(sql) + self.closing_fences)
    }

    /// All of it, around `sql`.
    pub open spec fn around(self, sql: Seq<char>) -> Seq<char> {
        self.dashes + ((self.before_fence + (self.lower_fences + self.after_lower(sql))
            + self.after_closing_fence) + self.rest)
    }

    /// There is nothing in it but what wraps SQL: two dashes, white space, fences and
    /// braces, and after a semicolon whatever there is.
    pub open spec fn is_wrapping(self) -> bool {
        &&& self.dashes.len() == 0 || self.dashes == "--"@
        &&& text::all_white(self.before_fence) && text::all_white(self.after_fence)
        &&& text::all_white(self.before) && text::all_white(self.after)
        &&& text::all_white(self.before_closing_fence) && text::all_white(self.after_closing_fence)
        &&& repeats(self.lower_fences, "```sql"@)
        &&& repeats(self.upper_fences, "```SQL"@)
        &&& repeats(self.fences, "```"@) && repeats(self.closing_fences, "```"@)
        &&& forall|i: int| 0 <= i < self.braces.len() ==> #[trigger] self.braces[i] == '{'
        &&& forall|i: int|
            0 <= i < self.closing_braces.len() ==> (#[trigger] self.closing_braces[i] == '}'
                || text::is_white(self.closing_braces[i]))
        &&& self.rest.len() > 0 ==> self.rest[0] == ';'
    }

    /// Nothing of it is left at the ends of `sql`.
    pub open spec fn is_all(self, sql: Seq<char>) -> bool {
        let inside = self.fenced(sql);
        let bare = self.braced(sql);
        &&& self.dashes.len() == 0 ==> !text::starts_with(self.around(sql), "--"@)
        &&& !text::starts_with(self.after_lower(sql), "```sql"@)
        &&& !text::starts_with(self.after_upper(sql), "```SQL"@)
        &&& !text::starts_with(inside + self.closing_fences, "```"@)
        &&& !text::ends_with(inside, "```"@)
        &&& bare.len() > 0 ==> (bare + self.closing_braces)[0] != '{'
        &&& bare.len() > 0 ==> bare.last() != '}' && !text::is_white(bare.last())
        &&& sql.len() > 0 ==> !text::is_white(sql[0]) && !text::is_white(sql.last())
    }
}

proof fn lemma_prefixes_at(s: Seq<char>, p: Seq<char>) -> (f: Seq<char>)
    ensures
        s == f + strip_prefixes(s, p),
        repeats(f, p),
        p.len() > 0 ==> !text::starts_with(strip_prefixes(s, p), p),
    decreases s.len(),
{
    if p.len() > 0 && text::starts_with(s, p) {
        let n = p.len() as int;
        let rest = lemma_prefixes_at(s.skip(n), p);
        let f = p + rest;
        assert(f.skip(n) =~= rest);
        assert(f.subrange(0, n) =~= p);
        assert(s =~= f + strip_prefixes(s, p)) by {
            assert(s =~= s.subrange(0, n) + s.skip(n));
        }
        f
    } else {
        assert(Seq::<char>::empty() + s =~= s);
        Seq::<char>::empty()
    }
}

proof fn lemma_repeats_behind(f: Seq<char>, p: Seq<char>)
    requires
        repeats(f, p),
        p.len() > 0,
    ensures
        repeats(f + p, p),
    decreases f.len(),
{
    let n = p.len() as int;
    let t = f + p;
    if f.len() == 0 {
        assert(t =~= p);
        assert(t.subrange(0, n) =~= p);
        assert(t.skip(n).len() == 0);
        assert(repeats(t.skip(n), p));
    } else {
        lemma_repeats_behind(f.skip(n), p);
        assert(t.subrange(0, n) =~= f.subrange(0, n));
        assert(t.skip(n) =~= f.skip(n) + p);
        assert(repeats(t.skip(n), p));
    }
    assert(text::starts_with(t, p));
}

proof fn lemma_suffixes_at(s: Seq<char>, p: Seq<char>) -> (f: Seq<char>)
    ensures
        s == strip_suffixes(s, p) + f,
        repeats(f, p),
        p.len() > 0 ==> !text::ends_with(strip_suffixes(s, p), p),
    decreases s.len(),
{
    if p.len() > 0 && text::ends_with(s, p) {
        let n = s.len() - p.len();
        let rest = lemma_suffixes_at(s.take(n), p);
        lemma_repeats_behind(rest, p);
        assert(s =~= s.take(n) + s.subrange(n, s.len() as int));
        assert(s =~= strip_suffixes(s, p) + (rest + p));
        rest + p
    } else {
        assert(s + Seq::<char>::empty() =~= s);
        Seq::<char>::empty()
    }
}

/// A text is what trimming leaves of it, with white space before and after.
proof fn lemma_trim_at(s: Seq<char>) -> (ends: (Seq<char>, Seq<char>))
    ensures
        s == ends.0 + text::trim(s) + ends.1,
        text::all_white(ends.0) && text::all_white(ends.1),
        text::trim(s).len() > 0 ==> !text::is_white(text::trim(s)[0]) && !text::is_white(
            text::trim(s).last(),
        ),
{
    let (a, b) = text::law_trim_takes_white_space_alone(s);
    let x = s.subrange(0, a);
    let y = s.subrange(b, s.len() as int);
    assert(s =~= x + text::trim(s) + y);
    assert forall|i: int| 0 <= i < x.len() implies text::is_white(#[trigger] x[i]) by {
        assert(x[i] == s[i]);
    }
    assert forall|i: int| 0 <= i < y.len() implies text::is_white(#[trigger] y[i]) by {
        assert(y[i] == s[b + i]);
    }
    (x, y)
}

/// What braces wrap.
proof fn lemma_unwrapped_at(g: Seq<char>) -> (ends: (Seq<char>, Seq<char>))
    ensures
        g == ends.0 + unwrapped(g) + ends.1,
        forall|i: int| 0 <= i < ends.0.len() ==> #[trigger] ends.0[i] == '{',
        forall|i: int|
            0 <= i < ends.1.len() ==> (#[trigger] ends.1[i] == '}' || text::is_white(ends.1[i])),
        unwrapped(g).len() > 0 ==> (unwrapped(g) + ends.1)[0] != '{' && unwrapped(g).last() != '}'
            && !text::is_white(unwrapped(g).last()),
{
    let a = text::lemma_strip_start_at(g, Class::Only('{'));
    let h = g.skip(a);
    let b = text::lemma_strip_end_at(h, Class::OrWhite('}'));
    let x = g.subrange(0, a);
    let y = h.subrange(b, h.len() as int);
    assert(unwrapped(g) == h.take(b));
    assert(g =~= x + h.take(b) + y);
    assert forall|i: int| 0 <= i < x.len() implies #[trigger] x[i] == '{' by {
        assert(x[i] == g[i]);
        assert(Class::Only('{').has(g[i]));
    }
    assert forall|i: int| 0 <= i < y.len() implies (#[trigger] y[i] == '}' || text::is_white(
        y[i],
    )) by {
        assert(y[i] == h[b + i]);
        assert(Class::OrWhite('}').has(h[b + i]));
    }
    if b > 0 {
        assert((h.take(b) + y)[0] == g[a]);
        assert(!Class::Only('{').has(g[a]));
        assert(!Class::OrWhite('}').has(h[b - 1]));
    }
    (x, y)
}

/// Cleaning takes away nothing but wrapping, and all of it: what was returned is the
/// SQL with wrapping around it.
pub proof fn law_cleaning_takes_wrapping_alone(s: Seq<char>) -> (w: Wrapping)
    ensures
        w.around(cleaned(s)) == s,
        w.is_wrapping(),
        w.is_all(cleaned(s)),
{
    reveal_strlit("--");
    reveal_strlit("```sql");
    reveal_strlit("```SQL");
    reveal_strlit("```");
    let x = after_dashes(s);
    let dashes = if text::starts_with(s, "--"@) {
        "--"@
    } else {
        Seq::<char>::empty()
    };
    assert(s =~= dashes + x);
    let k = statement_end(x, 0, Part::Code);
    lemma_end_is_after(x, 0, Part::Code);
    let f = first_statement(x);
    let rest = x.skip(k);
    assert(x =~= f + rest);
    let (w1, w4) = lemma_trim_at(f);
    let b = text::trim(f);
    let f1 = lemma_prefixes_at(b, "```sql"@);
    let b1 = strip_prefixes(b, "```sql"@);
    let f2 = lemma_prefixes_at(b1, "```SQL"@);
    let b2 = strip_prefixes(b1, "```SQL"@);
    let f3 = lemma_prefixes_at(b2, "```"@);
    let b3 = strip_prefixes(b2, "```"@);
    let g4 = lemma_suffixes_at(b3, "```"@);
    let u = unfenced(b);
    let (w2, w5) = lemma_trim_at(u);
    let g = text::trim(u);
    let (bs, cs) = lemma_unwrapped_at(g);
    let q = unwrapped(g);
    let (w3, w6) = lemma_trim_at(q);
    let r = cleaned(s);
    let w = Wrapping {
        dashes,
        before_fence: w1,
        lower_fences: f1,
        upper_fences: f2,
        fences: f3,
        after_fence: w2,
        braces: bs,
        before: w3,
        after: w6,
        closing_braces: cs,
        before_closing_fence: w5,
        closing_fences: g4,
        after_closing_fence: w4,
        rest,
    };
    assert(w.braced(r) == q);
    assert(w.fenced(r) == u);
    assert(w.after_upper(r) == b2);
    assert(w.after_lower(r) == b1);
    assert(w.around(r) == s);
    w
}

proof fn lemma_no_separator(s: Seq<char>, i: int, part: Part)
    requires
        0 <= i <= s.len(),
        forall|k: int| i <= k < s.len() ==> s[k] != ';',
    ensures
        statement_end(s, i, part) == s.len(),
{
    lemma_end_is_after(s, i, part);
}

/// SQL that nothing wraps is left as it is: a text without a semicolon that begins and
/// ends with something else than white space, dashes, fences and braces.
pub proof fn law_bare_sql_is_unchanged(s: Seq<char>)
    requires
        !s.contains(';'),
        s.len() > 0,
        !text::is_white(s[0]) && !text::is_white(s.last()),
        !text::starts_with(s, "--"@) && !text::starts_with(s, "```"@) && s[0] != '{',
        !text::ends_with(s, "```"@) && s.last() != '}',
    ensures
        cleaned(s) == s,
{
    reveal_strlit("```sql");
    reveal_strlit("```SQL");
    reveal_strlit("```");
    assert forall|k: int| 0 <= k < s.len() implies s[k] != ';' by {}
    lemma_no_separator(s, 0, Part::Code);
    assert(first_statement(s) =~= s);
    lemma_trim_fixed(s);
    if text::starts_with(s, "```sql"@) {
        assert(s.subrange(0, 3) =~= s.subrange(0, 6).subrange(0, 3));
        assert(s.subrange(0, 3) =~= "```"@);
    }
    if text::starts_with(s, "```SQL"@) {
        assert(s.subrange(0, 3) =~= s.subrange(0, 6).subrange(0, 3));
        assert(s.subrange(0, 3) =~= "```"@);
    }
    assert(unfenced(s) == s);
    assert(unwrapped(s) == s);
}

proof fn lemma_trim_fixed(s: Seq<char>)
    requires
        s.len() > 0,
        !text::is_white(s[0]) && !text::is_white(s.last()),
    ensures
        text::trim(s) == s,
{
}

/// The first of two statements ends at the semicolon between them.
pub proof fn law_statements_end_at_semicolons(a: Seq<char>, b: Seq<char>)
    requires
        forall|i: int| 0 <= i < a.len() ==> is_neutral(#[trigger] a[i]),
    ensures
        first_statement(a + seq![';'] + b) == a,
{
    let s = a + seq![';'] + b;
    let n = a.len() as int;
    assert forall|k: int| 0 <= k < n implies is_neutral(#[trigger] s[k]) by {
        assert(s[k] == a[k]);
    }
    lemma_reads_over(s, 0, n);
    assert(s[n] == ';');
    assert(s.take(n) =~= a);
}

/// A semicolon in quoted text ends nothing: the statement goes on after the text.
pub proof fn law_quoted_text_is_passed_over(a: Seq<char>, t: Seq<char>, b: Seq<char>, q: char)
    requires
        q == '\'' || q == '"',
        forall|i: int| 0 <= i < a.len() ==> is_neutral(#[trigger] a[i]),
        !t.contains(q),
    ensures
        first_statement(a + seq![q] + t + seq![q] + b) == a + seq![q] + t + seq![q]
            + first_statement(b),
{
    let head = a + seq![q] + t + seq![q];
    let s = head + b;
    let n = a.len() as int;
    let e = head.len() as int;
    assert forall|k: int| 0 <= k < n implies is_neutral(#[trigger] s[k]) by {
        assert(s[k] == a[k]);
    }
    lemma_reads_over(s, 0, n);
    assert(s[n] == q);
    assert forall|k: int| n + 1 <= k < e - 1 implies s[k] != q by {
        assert(s[k] == t[k - n - 1]);
    }
    assert(s[e - 1] == q);
    lemma_quote_end_found(s, n + 1, e - 1, q);
    assert(statement_end(s, n, Part::Code) == statement_end(s, e, Part::Code));
    lemma_end_on(s, e, e, Part::Code);
    assert(s.skip(e) =~= b);
    lemma_end_is_after(b, 0, Part::Code);
    let k = statement_end(b, 0, Part::Code);
    assert(s.take(e + k) =~= head + b.take(k));
}

proof fn lemma_quote_end_found(s: Seq<char>, i: int, j: int, q: char)
    requires
        0 <= i <= j < s.len(),
        forall|k: int| i <= k < j ==> s[k] != q,
        s[j] == q,
    ensures
        quote_end(s, i, q) == Some(j + 1),
    decreases j - i,
{
    if i < j {
        lemma_quote_end_found(s, i + 1, j, q);
    }
}

} // verus!
