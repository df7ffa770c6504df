//! Per-tenant scope enforcement for `graph_query()` on a shared Neo4j graph.
//!
//! On a graph shared by many tenants the only isolation boundary is the tenant's
//! node label (`:asst_<id>`), which every node carries. `graph_query()` runs
//! arbitrary read Cypher, so when a scope label is configured [`enforce_scope`]
//! makes the traversal fail closed:
//!
//!   * every node pattern in a `MATCH` or `OPTIONAL MATCH` gets the scope label as
//!     a further required label, `(n:Chunk)` becoming ``(n:Chunk:`asst_x`)``;
//!   * a construct that could escape the scoping is refused: procedure calls and
//!     their namespaces, `UNION`, subquery expressions, pattern comprehensions and
//!     other patterns outside of a `MATCH`, grouped or quantified path patterns,
//!     `shortestPath`, and a `MATCH` within brackets.
//!
//! When in doubt, a statement is refused: so is one with a comment, with an escape
//! that not every reader of Cypher takes the same way, with a character outside of
//! quotes that is not plain, with another beginning than one of the clauses that are
//! known here, or with a word among its patterns that neither begins a clause nor
//! names a path. What this comes to for a statement that is read as Cypher is stated
//! in [`crate::neo4j::reading`].
use vstd::prelude::*;

use crate::text;
use crate::text::{
    ascii_ident, ascii_space, chars_of, contains_chars, found_at, has_char, has_text,
    is_ident_char, replace_char, same_text, skip_start, substring, to_lower, to_upper,
    trimmed, trimmed_range, white, words_of, end_of_word, Class,
};

verus! {

// ---------------------------------------------------------------------------
// The scope label
// ---------------------------------------------------------------------------

/// The scope label that a setting holds: nothing if it is unset or blank, which
/// turns the enforcement off.
pub open spec fn label_setting(value: Option<Seq<char>>) -> Option<Seq<char>> {
    match value {
        Some(s) => if text::trim(s).len() == 0 {
            None
        } else {
            Some(text::trim(s))
        },
        None => None,
    }
}

/// The scope label that a setting holds. One setting drives the scans of labels and
/// `graph_query()`.
pub fn scope_label(value: &Option<String>) -> (r: Option<String>)
    ensures
        text::text_of(r) == label_setting(text::text_of(*value)),
{
    match value {
        Some(s) => {
            let label = trimmed(s.as_str());
            if label.as_str().is_empty() {
                None
            } else {
                Some(label)
            }
        },
        None => None,
    }
}

// ---------------------------------------------------------------------------
// Literals
// ---------------------------------------------------------------------------

/// A character that opens a string literal or a quoted identifier.
pub open spec fn is_quote(c: char) -> bool {
    c == '\'' || c == '"' || c == '`'
}

/// The position after the literal whose content begins at `i` and which `q`
/// closes. In a string a backslash takes the character after it along; in a quoted
/// identifier it does not, since a backtick is written there by doubling it. An open
/// literal reaches to the end of the text.
pub open spec fn literal_end(s: Seq<char>, i: int, q: char) -> int
    decreases s.len() - i,
{
    if i < 0 || i >= s.len() {
        s.len() as int
    } else if s[i] == '\\' && q != '`' {
        if i + 1 < s.len() {
            literal_end(s, i + 2, q)
        } else {
            s.len() as int
        }
    } else if s[i] == q {
        i + 1
    } else {
        literal_end(s, i + 1, q)
    }
}

/// A literal's end lies after the position of its content, and within the text.
pub proof fn lemma_literal_end(s: Seq<char>, i: int, q: char)
    requires
        0 <= i <= s.len(),
    ensures
        i <= literal_end(s, i, q) <= s.len(),
        i < s.len() ==> i < literal_end(s, i, q),
    decreases s.len() - i,
{
    if i < s.len() {
        if s[i] == '\\' && q != '`' {
            if i + 2 <= s.len() {
                lemma_literal_end(s, i + 2, q);
            }
        } else if s[i] != q {
            lemma_literal_end(s, i + 1, q);
        }
    }
}

/// `n` spaces.
pub open spec fn spaces(n: int) -> Seq<char> {
    Seq::new(n as nat, |i: int| ' ')
}

/// The text from position `i` on, with a space in place of each character of a
/// literal, its quotes included.
pub open spec fn blanked_from(s: Seq<char>, i: int) -> Seq<char>
    decreases s.len() - i,
{
    if i < 0 || i >= s.len() {
        seq![]
    } else if is_quote(s[i]) {
        proof {
            lemma_literal_end(s, i + 1, s[i]);
        }
        let end = literal_end(s, i + 1, s[i]);
        spaces(end - i) + blanked_from(s, end)
    } else {
        seq![s[i]] + blanked_from(s, i + 1)
    }
}

/// The text with its literals blanked out.
pub open spec fn blanked(s: Seq<char>) -> Seq<char> {
    blanked_from(s, 0)
}

/// Whether `c` opens a literal.
pub fn opens_literal(c: char) -> (r: bool)
    ensures
        r == is_quote(c),
{
    c == '\'' || c == '"' || c == '`'
}

/// The position after the literal whose content begins at `from`.
pub fn end_of_literal(cs: &Vec<char>, from: usize, q: char) -> (r: usize)
    requires
        from <= cs.len(),
    ensures
        r as int == literal_end(cs@, from as int, q),
        from <= r <= cs.len(),
        from < cs.len() ==> from < r,
{
    let mut i: usize = from;
    while i < cs.len()
        invariant
            from <= i <= cs.len(),
            literal_end(cs@, i as int, q) == literal_end(cs@, from as int, q),
        decreases cs.len() - i,
    {
        proof {
            lemma_literal_end(cs@, from as int, q);
        }
        let c = cs[i];
        if c == '\\' && q != '`' {
            if cs.len() - i < 2 {
                return cs.len();
            }
            i += 2;
        } else if c == q {
            return i + 1;
        } else {
            i += 1;
        }
    }
    i
}

/// A copy of the text in which each character of a string literal or a quoted
/// identifier is a space.
pub fn blank_literals(cs: &Vec<char>) -> (r: Vec<char>)
    ensures
        r@ == blanked(cs@),
{
    let mut r: Vec<char> = Vec::new();
    let mut i: usize = 0;
    while i < cs.len()
        invariant
            i <= cs.len(),
            r@ + blanked_from(cs@, i as int) == blanked(cs@),
        decreases cs.len() - i,
    {
        if opens_literal(cs[i]) {
            proof {
                lemma_literal_end(cs@, i + 1, cs@[i as int]);
            }
            let end = end_of_literal(cs, i + 1, cs[i]);
            let ghost before = r@;
            let mut k: usize = i;
            while k < end
                invariant
                    i <= k <= end,
                    r@ == before + spaces(k - i),
                decreases end - k,
            {
                r.push(' ');
                k += 1;
            }
            assert(r@ + blanked_from(cs@, end as int) == before + blanked_from(cs@, i as int));
            i = end;
        } else {
            let ghost before = r@;
            r.push(cs[i]);
            assert(r@ + blanked_from(cs@, i + 1) == before + blanked_from(cs@, i as int));
            i += 1;
        }
    }
    assert(r@ + blanked_from(cs@, i as int) == r@);
    r
}

// ---------------------------------------------------------------------------
// Constructs that cannot be scoped
// ---------------------------------------------------------------------------

/// A keyword that introduces control flow or a subquery outside of the scoping.
pub open spec fn is_unscopable_word(w: Seq<char>) -> bool {
    ||| w == "CALL"@
    ||| w == "UNION"@
    ||| w == "EXISTS"@
    ||| w == "FOREACH"@
    ||| w == "SHORTESTPATH"@
    ||| w == "ALLSHORTESTPATHS"@
}

/// The first word whose upper-case form is a keyword that cannot be scoped.
pub open spec fn first_unscopable(ws: Seq<Seq<char>>) -> Option<Seq<char>>
    decreases ws.len(),
{
    if ws.len() == 0 {
        None
    } else if is_unscopable_word(text::upper(ws[0])) {
        Some(ws[0])
    } else {
        first_unscopable(ws.skip(1))
    }
}

/// The position of the first character at or after `i` that is not ASCII white
/// space.
pub open spec fn after_spaces(s: Seq<char>, i: int) -> int
    decreases s.len() - i,
{
    if 0 <= i < s.len() && text::is_ascii_space(s[i]) {
        after_spaces(s, i + 1)
    } else {
        i
    }
}

/// What follows position `i`, white space aside, is the character `c`.
pub open spec fn followed_by(s: Seq<char>, i: int, c: char) -> bool {
    0 <= after_spaces(s, i) < s.len() && s[after_spaces(s, i)] == c
}

/// `word` stands at `k`, no identifier character before it, and `{` follows it.
pub open spec fn word_then_brace_at(s: Seq<char>, word: Seq<char>, k: int) -> bool {
    &&& text::stands_at(s, word, k)
    &&& k == 0 || !text::is_ascii_ident(s[k - 1])
    &&& followed_by(s, k + word.len(), '{')
}

/// A subquery expression `word { ... }` stands in `s`.
pub open spec fn has_word_then_brace(s: Seq<char>, word: Seq<char>) -> bool {
    exists|k: int| word_then_brace_at(s, word, k)
}

/// `[` stands at `k` and `(` follows it.
pub open spec fn bracket_then_paren_at(s: Seq<char>, k: int) -> bool {
    0 <= k < s.len() && s[k] == '[' && followed_by(s, k + 1, '(')
}

/// A `[` is followed by a `(` somewhere in `s`, as where a pattern comprehension
/// opens that does not name its path.
pub open spec fn has_bracket_then_paren(s: Seq<char>) -> bool {
    exists|k: int| bracket_then_paren_at(s, k)
}

/// The namespaces of procedures and functions that reach beyond one tenant.
pub open spec fn namespaces() -> Seq<Seq<char>> {
    seq!["apoc."@, "db."@, "dbms."@, "gds."@, "spatial."@, "algo."@]
}

/// The first of the texts `ns` that stands in `s`.
pub open spec fn first_contained(s: Seq<char>, ns: Seq<Seq<char>>) -> Option<Seq<char>>
    decreases ns.len(),
{
    if ns.len() == 0 {
        None
    } else if text::contains(s, ns[0]) {
        Some(ns[0])
    } else {
        first_contained(s, ns.skip(1))
    }
}

pub open spec fn namespace_message(ns: Seq<char>) -> Seq<char> {
    "graph_query(): procedure/function namespace '"@ + ns
        + "' is not allowed under tenant scoping"@
}

pub open spec fn word_message(w: Seq<char>) -> Seq<char> {
    "graph_query(): '"@ + w
        + "' is not allowed under tenant scoping (cannot guarantee it stays within the tenant)"@
}

pub open spec fn subquery_message() -> Seq<char> {
    "graph_query(): COUNT { } / COLLECT { } subqueries are not allowed under tenant scoping"@
}

pub open spec fn comprehension_message() -> Seq<char> {
    "graph_query(): pattern comprehensions `[( ... )]` are not allowed under tenant scoping"@
}

/// Why a statement cannot be scoped, or `None`. Literals do not count.
pub open spec fn unscopable(cypher: Seq<char>) -> Option<Seq<char>> {
    let b = blanked(cypher);
    match first_contained(text::lower(b), namespaces()) {
        Some(ns) => Some(namespace_message(ns)),
        None => match first_unscopable(text::words(b)) {
            Some(w) => Some(word_message(w)),
            None => if has_word_then_brace(text::lower(b), "count"@)
                || has_word_then_brace(text::lower(b), "collect"@) {
                Some(subquery_message())
            } else if has_bracket_then_paren(b) {
                Some(comprehension_message())
            } else {
                None
            },
        },
    }
}

/// Whether what follows position `from`, white space aside, is `c`.
fn next_is(cs: &Vec<char>, from: usize, c: char) -> (r: bool)
    requires
        from <= cs.len(),
    ensures
        r == followed_by(cs@, from as int, c),
{
    let mut j: usize = from;
    while j < cs.len() && ascii_space(cs[j])
        invariant
            from <= j <= cs.len(),
            after_spaces(cs@, j as int) == after_spaces(cs@, from as int),
        decreases cs.len() - j,
    {
        j += 1;
    }
    j < cs.len() && cs[j] == c
}

/// Whether `word` stands in the text as a whole token that `{` follows, white
/// space aside: a `word { ... }` subquery expression.
pub fn contains_word_then_brace(cs: &Vec<char>, word: &str) -> (r: bool)
    ensures
        r == has_word_then_brace(cs@, word@),
{
    let w = chars_of(word);
    let mut k: usize = 0;
    while k < cs.len()
        invariant
            w@ == word@,
            k <= cs.len(),
            forall|m: int| 0 <= m < k ==> !word_then_brace_at(cs@, word@, m),
        decreases cs.len() - k,
    {
        if found_at(cs, &w, k) && (k == 0 || !ascii_ident(cs[k - 1])) && next_is(
            cs,
            k + w.len(),
            '{',
        ) {
            assert(word_then_brace_at(cs@, word@, k as int));
            return true;
        }
        k += 1;
    }
    assert forall|m: int| !word_then_brace_at(cs@, word@, m) by {
        if m >= cs.len() && text::stands_at(cs@, word@, m) {
            assert(!followed_by(cs@, m + word@.len(), '{'));
        }
    }
    false
}

/// Whether a `[` is followed, white space aside, by `(`, as where a pattern
/// comprehension opens that does not name its path.
pub fn bracket_then_paren(cs: &Vec<char>) -> (r: bool)
    ensures
        r == has_bracket_then_paren(cs@),
{
    let mut i: usize = 0;
    while i < cs.len()
        invariant
            i <= cs.len(),
            forall|m: int| 0 <= m < i ==> !bracket_then_paren_at(cs@, m),
        decreases cs.len() - i,
    {
        if cs[i] == '[' && next_is(cs, i + 1, '(') {
            assert(bracket_then_paren_at(cs@, i as int));
            return true;
        }
        i += 1;
    }
    false
}

/// Whether an upper-case word is a keyword that cannot be scoped.
fn unscopable_word(w: &str) -> (r: bool)
    ensures
        r == is_unscopable_word(w@),
{
    same_text(w, "CALL") || same_text(w, "UNION") || same_text(w, "EXISTS") || same_text(
        w,
        "FOREACH",
    ) || same_text(w, "SHORTESTPATH") || same_text(w, "ALLSHORTESTPATHS")
}

/// The first of the texts `ns` that stands in `cs`.
fn find_contained(cs: &Vec<char>, ns: &Vec<String>) -> (r: Option<String>)
    ensures
        text::text_of(r) == first_contained(cs@, text::texts(ns@)),
{
    let mut i: usize = 0;
    assert(text::texts(ns@).skip(0) == text::texts(ns@));
    while i < ns.len()
        invariant
            i <= ns.len(),
            first_contained(cs@, text::texts(ns@)) == first_contained(cs@, text::texts(ns@).skip(i as int)),
        decreases ns.len() - i,
    {
        assert(text::texts(ns@).skip(i as int).skip(1) == text::texts(ns@).skip(i + 1));
        if contains_chars(cs, &chars_of(ns[i].as_str())) {
            return Some(ns[i].clone());
        }
        i += 1;
    }
    None
}

/// The refusal of the first namespace that stands in a text.
pub open spec fn namespace_found(s: Seq<char>) -> Option<Seq<char>> {
    match first_contained(s, namespaces()) {
        Some(ns) => Some(namespace_message(ns)),
        None => None,
    }
}

/// The refusal of the first namespace that stands in a text.
fn namespace_refusal(cs: &Vec<char>) -> (r: Option<String>)
    ensures
        text::text_of(r) == namespace_found(cs@),
{
    let ns: Vec<String> = vec![
        "apoc.".to_owned(),
        "db.".to_owned(),
        "dbms.".to_owned(),
        "gds.".to_owned(),
        "spatial.".to_owned(),
        "algo.".to_owned(),
    ];
    assert(text::texts(ns@) == namespaces());
    match find_contained(cs, &ns) {
        Some(n) => {
            let mut e = "graph_query(): procedure/function namespace '".to_owned();
            e.push_str(n.as_str());
            e.push_str("' is not allowed under tenant scoping");
            Some(e)
        },
        None => None,
    }
}

/// The first word whose upper-case form cannot be scoped.
fn find_unscopable(ws: &Vec<String>) -> (r: Option<String>)
    ensures
        text::text_of(r) == first_unscopable(text::texts(ws@)),
{
    let mut i: usize = 0;
    assert(text::texts(ws@).skip(0) == text::texts(ws@));
    while i < ws.len()
        invariant
            i <= ws.len(),
            first_unscopable(text::texts(ws@)) == first_unscopable(text::texts(ws@).skip(i as int)),
        decreases ws.len() - i,
    {
        assert(text::texts(ws@).skip(i as int).skip(1) == text::texts(ws@).skip(i + 1));
        if unscopable_word(to_upper(ws[i].as_str()).as_str()) {
            return Some(ws[i].clone());
        }
        i += 1;
    }
    None
}

/// Refuses a statement that holds a construct which could read outside of the
/// scoped nodes. User text in literals is no reason to refuse.
pub fn reject_unscopable(cypher: &str) -> (r: Result<(), String>)
    ensures
        match r {
            Ok(_) => unscopable(cypher@) is None,
            Err(e) => unscopable(cypher@) == Some(e@),
        },
{
    let blank = blank_literals(&chars_of(cypher));
    let low = to_lower(&blank);
    if let Some(e) = namespace_refusal(&low) {
        return Err(e);
    }
    let ws = words_of(&blank);
    if let Some(w) = find_unscopable(&ws) {
        let mut e = "graph_query(): '".to_owned();
        e.push_str(w.as_str());
        e.push_str(
            "' is not allowed under tenant scoping (cannot guarantee it stays within the tenant)",
        );
        return Err(e);
    }
    if contains_word_then_brace(&low, "count") || contains_word_then_brace(&low, "collect") {
        return Err(
            "graph_query(): COUNT { } / COLLECT { } subqueries are not allowed under tenant scoping".to_owned(),
        );
    }
    if bracket_then_paren(&blank) {
        return Err(
            "graph_query(): pattern comprehensions `[( ... )]` are not allowed under tenant scoping".to_owned(),
        );
    }
    Ok(())
}

// ---------------------------------------------------------------------------
// Node patterns
// ---------------------------------------------------------------------------

/// By how much a character changes the nesting depth.
pub open spec fn nesting(c: char) -> int {
    if c == '(' || c == '[' || c == '{' {
        1
    } else if c == ')' || c == ']' || c == '}' {
        -1
    } else {
        0
    }
}

/// The bracket that closes an opening one.
pub open spec fn closer(c: char) -> char {
    if c == '(' {
        ')'
    } else if c == '[' {
        ']'
    } else {
        '}'
    }
}

/// The position, at or after `i`, of the bracket that closes the outermost of those
/// that are open, where `open` holds the closing brackets that are owed, the
/// innermost last. Nothing where a bracket of another kind comes first. Literals do
/// not count.
pub open spec fn closing(s: Seq<char>, i: int, open: Seq<char>) -> Option<int>
    decreases s.len() - i,
{
    if i < 0 || i >= s.len() {
        None
    } else if is_quote(s[i]) {
        proof {
            lemma_literal_end(s, i + 1, s[i]);
        }
        closing(s, literal_end(s, i + 1, s[i]), open)
    } else if nesting(s[i]) > 0 {
        closing(s, i + 1, open.push(closer(s[i])))
    } else if nesting(s[i]) < 0 {
        if open.len() == 0 || open.last() != s[i] {
            None
        } else if open.len() == 1 {
            Some(i)
        } else {
            closing(s, i + 1, open.drop_last())
        }
    } else {
        closing(s, i + 1, open)
    }
}

/// The position of the first `{` at depth zero, at or after `i`. Quoted text
/// does not count.
pub open spec fn brace_from(s: Seq<char>, i: int, depth: int) -> Option<int>
    decreases s.len() - i,
{
    if i < 0 || i >= s.len() {
        None
    } else if is_quote(s[i]) {
        proof {
            lemma_literal_end(s, i + 1, s[i]);
        }
        brace_from(s, literal_end(s, i + 1, s[i]), depth)
    } else if s[i] == '{' && depth == 0 {
        Some(i)
    } else {
        brace_from(s, i + 1, depth + nesting(s[i]))
    }
}

/// Where the property map of a node pattern begins; its end where it has none.
pub open spec fn map_start(inner: Seq<char>) -> int {
    match brace_from(inner, 0, 0) {
        Some(k) => k,
        None => inner.len() as int,
    }
}

/// A label in backticks, with those it holds doubled.
pub open spec fn quoted_label(name: Seq<char>) -> Seq<char> {
    "`"@ + text::replaced(name, '`', "``"@) + "`"@
}

/// The position of the first character at or after `i` that is not white space.
pub open spec fn after_white(s: Seq<char>, i: int) -> int
    decreases s.len() - i,
{
    if 0 <= i < s.len() && text::is_white(s[i]) {
        after_white(s, i + 1)
    } else {
        i
    }
}

/// The first character at or after `i` that is not white space.
pub open spec fn next_char(s: Seq<char>, i: int) -> Option<char> {
    if 0 <= after_white(s, i) < s.len() {
        Some(s[after_white(s, i)])
    } else {
        None
    }
}

/// The line of a relationship follows position `i`, white space aside: `-[`, `->`, or
/// `--` with a `(`, a `>` or a `[` after it. Two dashes before anything else are signs.
pub open spec fn line_follows(s: Seq<char>, i: int) -> bool {
    let first = after_white(s, i);
    let second = after_white(s, first + 1);
    let third = next_char(s, second + 1);
    &&& next_char(s, i) == Some('-')
    &&& {
        ||| next_char(s, first + 1) == Some('[')
        ||| next_char(s, first + 1) == Some('>')
        ||| next_char(s, first + 1) == Some('-') && (third == Some('(') || third == Some('>')
            || third == Some('['))
    }
}

/// A relationship begins after position `i`, white space aside: a line, with or
/// without a `<` before it.
pub open spec fn link_follows(s: Seq<char>, i: int) -> bool {
    ||| line_follows(s, i)
    ||| next_char(s, i) == Some('<') && line_follows(s, after_white(s, i) + 1)
}

/// `)` stands at `k` and a relationship follows it: part of a pattern.
pub open spec fn linked_paren_at(s: Seq<char>, k: int) -> bool {
    0 <= k < s.len() && s[k] == ')' && link_follows(s, k + 1)
}

/// A relationship follows a `)` somewhere in `s`.
pub open spec fn has_linked_paren(s: Seq<char>) -> bool {
    exists|k: int| linked_paren_at(s, k)
}

pub open spec fn linked_message() -> Seq<char> {
    "graph_query(): patterns outside of MATCH are not allowed under tenant scoping"@
}

/// The position of the first character at or after `from` that is not white space.
fn skip_white(cs: &Vec<char>, from: usize) -> (r: usize)
    requires
        from <= cs.len(),
    ensures
        r == after_white(cs@, from as int),
        from <= r <= cs.len(),
{
    let mut j: usize = from;
    while j < cs.len() && white(cs[j])
        invariant
            from <= j <= cs.len(),
            after_white(cs@, j as int) == after_white(cs@, from as int),
        decreases cs.len() - j,
    {
        j += 1;
    }
    j
}

/// Whether the line of a relationship follows position `from`.
fn line_ahead(cs: &Vec<char>, from: usize) -> (r: bool)
    requires
        from <= cs.len(),
    ensures
        r == line_follows(cs@, from as int),
{
    let first = skip_white(cs, from);
    if first >= cs.len() || cs[first] != '-' {
        return false;
    }
    let second = skip_white(cs, first + 1);
    if second >= cs.len() {
        return false;
    }
    if cs[second] == '[' || cs[second] == '>' {
        return true;
    }
    cs[second] == '-' && (next_char_is(cs, second + 1, '(') || next_char_is(cs, second + 1, '>')
        || next_char_is(cs, second + 1, '['))
}

/// Whether a relationship begins after position `from`.
fn link_ahead(cs: &Vec<char>, from: usize) -> (r: bool)
    requires
        from <= cs.len(),
    ensures
        r == link_follows(cs@, from as int),
{
    let j = skip_white(cs, from);
    if j < cs.len() && cs[j] == '<' {
        line_ahead(cs, j + 1)
    } else {
        line_ahead(cs, from)
    }
}

/// Whether a relationship follows a `)` somewhere in the text.
pub fn linked_paren(cs: &Vec<char>) -> (r: bool)
    ensures
        r == has_linked_paren(cs@),
{
    let mut i: usize = 0;
    while i < cs.len()
        invariant
            i <= cs.len(),
            forall|m: int| 0 <= m < i ==> !linked_paren_at(cs@, m),
        decreases cs.len() - i,
    {
        if cs[i] == ')' && link_ahead(cs, i + 1) {
            assert(linked_paren_at(cs@, i as int));
            return true;
        }
        i += 1;
    }
    false
}

pub open spec fn inline_where_message() -> Seq<char> {
    "graph_query(): inline WHERE inside a node pattern is not supported under tenant scoping"@
}

pub open spec fn label_expression_message() -> Seq<char> {
    "graph_query(): label-expression syntax (& | !) inside a node pattern is not supported under tenant scoping"@
}

/// `=` stands at `k` and `(` follows it.
pub open spec fn equals_then_paren_at(s: Seq<char>, k: int) -> bool {
    0 <= k < s.len() && s[k] == '=' && followed_by(s, k + 1, '(')
}

/// A `=` is followed by a `(` somewhere in `s`, as where a group names its path.
pub open spec fn has_equals_then_paren(s: Seq<char>) -> bool {
    exists|k: int| equals_then_paren_at(s, k)
}

/// Whether a `=` is followed, white space aside, by `(`.
fn equals_then_paren(cs: &Vec<char>) -> (r: bool)
    ensures
        r == has_equals_then_paren(cs@),
{
    let mut i: usize = 0;
    while i < cs.len()
        invariant
            i <= cs.len(),
            forall|m: int| 0 <= m < i ==> !equals_then_paren_at(cs@, m),
        decreases cs.len() - i,
    {
        if cs[i] == '=' && next_is(cs, i + 1, '(') {
            assert(equals_then_paren_at(cs@, i as int));
            return true;
        }
        i += 1;
    }
    false
}

/// Why a node pattern cannot take one more label: an inline predicate, label
/// expression syntax, a path that is named within it, or a pattern among the values of
/// its properties.
pub open spec fn inner_refusal(inner: Seq<char>) -> Option<Seq<char>> {
    if text::words(text::lower(blanked(inner))).contains("where"@) {
        Some(inline_where_message())
    } else if inner.contains('&') || inner.contains('|') || inner.contains('!') {
        Some(label_expression_message())
    } else if has_linked_paren(blanked(inner)) {
        Some(linked_message())
    } else if has_equals_then_paren(blanked(inner.subrange(0, map_start(inner)))) {
        Some(grouped_message())
    } else {
        None
    }
}

/// The inside of a node pattern with the scope label added to its labels, before
/// its property map.
pub open spec fn scoped_inner(inner: Seq<char>, scope: Seq<char>) -> Seq<char> {
    let labels = text::trim(inner.subrange(0, map_start(inner)));
    let map = text::trim(inner.subrange(map_start(inner), inner.len() as int));
    labels + ":"@ + quoted_label(scope) + (if map.len() == 0 {
        map
    } else {
        " "@ + map
    })
}

/// A label in backticks, with those it holds doubled, so that any text can stand
/// as a label.
pub fn cypher_label(name: &str) -> (r: String)
    ensures
        r@ == quoted_label(name@),
{
    let mut r = "`".to_owned();
    r.push_str(replace_char(name, '`', "``").as_str());
    r.push_str("`");
    r
}

/// By how much a character changes the nesting depth.
fn nesting_of(c: char) -> (r: i128)
    ensures
        r == nesting(c),
        -1 <= r <= 1,
{
    if c == '(' || c == '[' || c == '{' {
        1
    } else if c == ')' || c == ']' || c == '}' {
        -1
    } else {
        0
    }
}

/// The position of the first `{` at depth zero.
pub fn top_level_brace(cs: &Vec<char>) -> (r: Option<usize>)
    ensures
        match r {
            Some(k) => brace_from(cs@, 0, 0) == Some(k as int) && k < cs.len(),
            None => brace_from(cs@, 0, 0) is None,
        },
{
    let mut i: usize = 0;
    let mut depth: i128 = 0;
    while i < cs.len()
        invariant
            i <= cs.len(),
            -(i as int) <= depth <= i as int,
            brace_from(cs@, i as int, depth as int) == brace_from(cs@, 0, 0),
        decreases cs.len() - i,
    {
        let c = cs[i];
        if opens_literal(c) {
            proof {
                lemma_literal_end(cs@, i + 1, c);
            }
            i = end_of_literal(cs, i + 1, c);
        } else {
            if c == '{' && depth == 0 {
                return Some(i);
            }
            depth = depth + nesting_of(c);
            i += 1;
        }
    }
    None
}

/// The inside of a node pattern with the scope label added, or why it cannot be
/// added.
pub fn rewrite_node_inner(inner: &Vec<char>, scope: &str) -> (r: Result<String, String>)
    ensures
        match r {
            Ok(t) => inner_refusal(inner@) is None && t@ == scoped_inner(inner@, scope@),
            Err(e) => inner_refusal(inner@) == Some(e@),
        },
{
    let scan = to_lower(&blank_literals(inner));
    let ws = words_of(&scan);
    if has_text(&ws, "where") {
        return Err(
            "graph_query(): inline WHERE inside a node pattern is not supported under tenant scoping".to_owned(),
        );
    }
    if has_char(inner, '&') || has_char(inner, '|') || has_char(inner, '!') {
        return Err(
            "graph_query(): label-expression syntax (& | !) inside a node pattern is not supported under tenant scoping".to_owned(),
        );
    }
    if linked_paren(&blank_literals(inner)) {
        return Err(
            "graph_query(): patterns outside of MATCH are not allowed under tenant scoping".to_owned(),
        );
    }
    let at: usize = match top_level_brace(inner) {
        Some(k) => k,
        None => inner.len(),
    };
    let labels = chars_of(substring(inner, 0, at).as_str());
    if equals_then_paren(&blank_literals(&labels)) {
        return Err(
            "graph_query(): grouped/quantified path patterns are not supported under tenant scoping".to_owned(),
        );
    }
    let mut r = trimmed_range(inner, 0, at);
    r.push_str(":");
    r.push_str(cypher_label(scope).as_str());
    let map = trimmed_range(inner, at, inner.len());
    if !map.as_str().is_empty() {
        r.push_str(" ");
        r.push_str(map.as_str());
    }
    assert(r@ == scoped_inner(inner@, scope@));
    Ok(r)
}

// ---------------------------------------------------------------------------
// Statements
// ---------------------------------------------------------------------------

/// A character that may stand outside of literals: a printable ASCII character other
/// than a backslash, ASCII white space, or a letter or digit of another script. What
/// else there is (other white space, other dashes and arrows, control characters)
/// could be read as one of these.
pub open spec fn is_plain_code(c: char) -> bool {
    if text::is_ascii_char(c) {
        (' ' <= c && c <= '~' && c != '\\') || text::is_ascii_space(c)
    } else {
        text::is_ident(c) && !text::is_white(c)
    }
}

/// A comment opens at `i`.
pub open spec fn comment_at(s: Seq<char>, i: int) -> bool {
    0 <= i && i + 1 < s.len() && s[i] == '/' && (s[i + 1] == '/' || s[i + 1] == '*')
}

pub open spec fn comment_message() -> Seq<char> {
    "graph_query(): comments are not allowed under tenant scoping"@
}

pub open spec fn escape_message() -> Seq<char> {
    "graph_query(): a backslash in a quoted identifier is not allowed under tenant scoping"@
}

pub open spec fn character_message() -> Seq<char> {
    "graph_query(): only plain characters are allowed outside of quotes under tenant scoping"@
}

pub open spec fn unicode_message() -> Seq<char> {
    "graph_query(): a quote or a backslash as a Unicode escape is not allowed under tenant scoping"@
}

pub open spec fn spaced_dot_message() -> Seq<char> {
    "graph_query(): a number that ends in '.' before a MATCH is not allowed under tenant scoping"@
}

/// A text holds the Unicode escape of a quote or of a backslash.
pub open spec fn escapes_a_quote(s: Seq<char>) -> bool {
    ||| text::contains(text::lower(s), "\\u0022"@)
    ||| text::contains(text::lower(s), "\\u0027"@)
    ||| text::contains(text::lower(s), "\\u005c"@)
}

/// The refusal of a name that is followed by a `.`, where it spells a namespace.
pub open spec fn name_refusal(name: Seq<char>) -> Option<Seq<char>> {
    namespace_found(text::lower(name + "."@))
}

/// Why the literal from `i` to `end` is in doubt: a backslash in a quoted identifier;
/// a quoted identifier that names a namespace, or a function of one that is called; a
/// quote or a backslash that is written as a Unicode escape, which can end the string.
pub open spec fn literal_refusal(s: Seq<char>, i: int, end: int) -> Option<Seq<char>> {
    let lit = s.subrange(i, end);
    if s[i] == '`' {
        if lit.contains('\\') {
            Some(escape_message())
        } else if next_char(s, end) == Some('(') {
            namespace_found(text::lower(lit))
        } else if next_char(s, end) == Some('.') {
            name_refusal(lit.drop_last())
        } else {
            None
        }
    } else if escapes_a_quote(lit) {
        Some(unicode_message())
    } else {
        None
    }
}

/// The position after the last character before `i` that is not white space.
pub open spec fn before_white(s: Seq<char>, i: int) -> int
    decreases i,
{
    if 0 < i <= s.len() && text::is_white(s[i - 1]) {
        before_white(s, i - 1)
    } else {
        i
    }
}

/// Where the run of identifier characters that ends at `i` begins.
pub open spec fn word_start(s: Seq<char>, i: int) -> int
    decreases i,
{
    if 0 < i <= s.len() && text::is_ident(s[i - 1]) {
        word_start(s, i - 1)
    } else {
        i
    }
}

/// The `.` at `i` ends a number, and after white space a `MATCH` follows: the `.` could
/// be part of the number, or have the word as a property.
pub open spec fn number_dot_match(s: Seq<char>, i: int) -> bool {
    let w = word_start(s, i);
    &&& w < i && '0' <= s[w] && s[w] <= '9'
    &&& i + 1 < s.len() && text::is_white(s[i + 1])
    &&& next_word(s, i + 1) == "MATCH"@
}

/// Why the `.` at `i` is in doubt: a number before it and a `MATCH` after it, or a
/// namespace before the white space before it.
pub open spec fn dot_refusal(s: Seq<char>, i: int) -> Option<Seq<char>> {
    let w = before_white(s, i);
    if number_dot_match(s, i) {
        Some(spaced_dot_message())
    } else if w < i {
        name_refusal(s.subrange(word_start(s, w), w))
    } else {
        None
    }
}

/// Why the text from position `i` on cannot be read with certainty: a literal or a
/// `.` that is in doubt, a comment, or a character that is not plain.
pub open spec fn oddity_from(s: Seq<char>, i: int) -> Option<Seq<char>>
    decreases s.len() - i,
{
    if i < 0 || i >= s.len() {
        None
    } else if is_quote(s[i]) {
        proof {
            lemma_literal_end(s, i + 1, s[i]);
        }
        let end = literal_end(s, i + 1, s[i]);
        match literal_refusal(s, i, end) {
            Some(e) => Some(e),
            None => oddity_from(s, end),
        }
    } else if comment_at(s, i) {
        Some(comment_message())
    } else if !is_plain_code(s[i]) {
        Some(character_message())
    } else if s[i] == '.' && dot_refusal(s, i) is Some {
        dot_refusal(s, i)
    } else {
        oddity_from(s, i + 1)
    }
}

/// Whether a character may stand outside of literals.
fn plain_code(c: char) -> (r: bool)
    ensures
        r == is_plain_code(c),
{
    if (c as u32) < 128 {
        (' ' <= c && c <= '~' && c != '\\') || ascii_space(c)
    } else {
        is_ident_char(c) && !white(c)
    }
}

/// The refusal of a name that is followed by a `.`, where it spells a namespace.
fn refused_name(name: String) -> (r: Option<String>)
    ensures
        text::text_of(r) == name_refusal(name@),
{
    let mut t = name;
    t.push_str(".");
    namespace_refusal(&to_lower(&chars_of(t.as_str())))
}

/// Why the literal from `i` to `end` is in doubt.
fn refused_literal(cs: &Vec<char>, i: usize, end: usize) -> (r: Option<String>)
    requires
        i < end <= cs.len(),
    ensures
        text::text_of(r) == literal_refusal(cs@, i as int, end as int),
{
    let lit = chars_of(substring(cs, i, end).as_str());
    if cs[i] == '`' {
        if has_char(&lit, '\\') {
            Some(
                "graph_query(): a backslash in a quoted identifier is not allowed under tenant scoping".to_owned(),
            )
        } else if next_char_is(cs, end, '(') {
            namespace_refusal(&to_lower(&lit))
        } else if next_char_is(cs, end, '.') {
            let name = substring(cs, i, end - 1);
            assert(name@ == lit@.drop_last());
            refused_name(name)
        } else {
            None
        }
    } else {
        let low = to_lower(&lit);
        if contains_chars(&low, &chars_of("\\u0022")) || contains_chars(
            &low,
            &chars_of("\\u0027"),
        ) || contains_chars(&low, &chars_of("\\u005c")) {
            return Some(
                "graph_query(): a quote or a backslash as a Unicode escape is not allowed under tenant scoping".to_owned(),
            );
        }
        None
    }
}

/// Whether the `.` at `i` ends a number and a `MATCH` follows.
fn ends_number_before_match(cs: &Vec<char>, i: usize) -> (r: bool)
    requires
        i < cs.len(),
    ensures
        r == number_dot_match(cs@, i as int),
{
    let mut w: usize = i;
    while w > 0 && is_ident_char(cs[w - 1])
        invariant
            w <= i < cs.len(),
            word_start(cs@, w as int) == word_start(cs@, i as int),
        decreases w,
    {
        w -= 1;
    }
    w < i && '0' <= cs[w] && cs[w] <= '9' && cs.len() - i > 1 && white(cs[i + 1]) && same_text(
        following_word(cs, i + 1).as_str(),
        "MATCH",
    )
}

/// Why the `.` at `i` is in doubt.
fn refused_dot(cs: &Vec<char>, i: usize) -> (r: Option<String>)
    requires
        i < cs.len(),
    ensures
        text::text_of(r) == dot_refusal(cs@, i as int),
{
    let mut w: usize = i;
    while w > 0 && white(cs[w - 1])
        invariant
            w <= i < cs.len(),
            before_white(cs@, w as int) == before_white(cs@, i as int),
        decreases w,
    {
        w -= 1;
    }
    if ends_number_before_match(cs, i) {
        Some(
            "graph_query(): a number that ends in '.' before a MATCH is not allowed under tenant scoping".to_owned(),
        )
    } else if w < i {
        refused_name(preceding_word(cs, w))
    } else {
        None
    }
}

/// Why a text cannot be read with certainty.
fn find_oddity(cs: &Vec<char>) -> (r: Option<String>)
    ensures
        text::text_of(r) == oddity_from(cs@, 0),
{
    let mut i: usize = 0;
    while i < cs.len()
        invariant
            i <= cs.len(),
            oddity_from(cs@, i as int) == oddity_from(cs@, 0),
        decreases cs.len() - i,
    {
        let c = cs[i];
        if opens_literal(c) {
            proof {
                lemma_literal_end(cs@, i + 1, c);
            }
            let end = end_of_literal(cs, i + 1, c);
            let e = refused_literal(cs, i, end);
            if e.is_some() {
                return e;
            }
            i = end;
        } else {
            if c == '/' && cs.len() - i > 1 && (cs[i + 1] == '/' || cs[i + 1] == '*') {
                return Some("graph_query(): comments are not allowed under tenant scoping".to_owned());
            }
            if !plain_code(c) {
                return Some(
                    "graph_query(): only plain characters are allowed outside of quotes under tenant scoping".to_owned(),
                );
            }
            if c == '.' {
                let e = refused_dot(cs, i);
                if e.is_some() {
                    return e;
                }
            }
            i += 1;
        }
    }
    None
}

/// The clause that a position of a statement lies in.
#[derive(Clone, Copy, PartialEq, Eq, Structural)]
pub enum Clause {
    /// Before the first clause keyword.
    Start,
    /// In the patterns of a `MATCH` or an `OPTIONAL MATCH`.
    Match,
    /// In a clause of expressions, where `(` never opens a node pattern.
    Other,
}

/// A part of a statement.
pub enum Piece {
    /// Text that is passed on as it is.
    Verbatim(Seq<char>),
    /// A node pattern, by its inside.
    Node(Seq<char>),
}

impl Piece {
    /// The text of the piece in the statement.
    pub open spec fn source(self) -> Seq<char> {
        match self {
            Piece::Verbatim(t) => t,
            Piece::Node(inner) => seq!['('] + inner + seq![')'],
        }
    }

    /// The text of the piece in the scoped statement.
    pub open spec fn scoped(self, scope: Seq<char>) -> Seq<char> {
        match self {
            Piece::Verbatim(t) => t,
            Piece::Node(inner) => seq!['('] + scoped_inner(inner, scope) + seq![')'],
        }
    }
}

/// The pieces of a statement one after the other.
pub open spec fn source_text(ps: Seq<Piece>) -> Seq<char>
    decreases ps.len(),
{
    if ps.len() == 0 {
        seq![]
    } else {
        source_text(ps.drop_last()) + ps.last().source()
    }
}

/// The pieces one after the other, each node pattern with the scope label.
pub open spec fn scoped_text(ps: Seq<Piece>, scope: Seq<char>) -> Seq<char>
    decreases ps.len(),
{
    if ps.len() == 0 {
        seq![]
    } else {
        scoped_text(ps.drop_last(), scope) + ps.last().scoped(scope)
    }
}

/// A keyword after which expressions follow, no patterns.
pub open spec fn ends_patterns(w: Seq<char>) -> bool {
    ||| w == "WHERE"@
    ||| w == "RETURN"@
    ||| w == "WITH"@
    ||| w == "UNWIND"@
    ||| w == "ORDER"@
    ||| w == "SKIP"@
    ||| w == "LIMIT"@
}

/// A character after which an expression or a pattern goes on: no clause can begin
/// there.
pub open spec fn goes_on_after(c: char) -> bool {
    ||| c == '.' || c == ',' || c == ':' || c == '$' || c == '=' || c == '<'
    ||| c == '+' || c == '-' || c == '/' || c == '^' || c == '|' || c == '&'
    ||| nesting(c) > 0
}

/// Whether a clause can begin after a character, white space aside. `before` says
/// whether it could before.
pub open spec fn can_begin_after(c: char, before: bool) -> bool {
    if text::is_white(c) {
        before
    } else {
        !goes_on_after(c)
    }
}

/// What follows position `i` could be the beginning of a pattern: a node, or a name.
pub open spec fn pattern_can_follow(s: Seq<char>, i: int) -> bool {
    next_char(s, i) matches Some(c) && (c == '(' || c == '`' || text::is_ident(c))
}

/// A word that is given a value follows position `i`: `name =`.
pub open spec fn named_follows(s: Seq<char>, i: int) -> bool {
    let j = after_white(s, i);
    0 <= j < s.len() && text::is_ident(s[j]) && next_char(s, text::word_end(s, j)) == Some('=')
}

pub open spec fn doubt_message(word: Seq<char>) -> Seq<char> {
    "graph_query(): '"@ + word + "' is not supported at this place under tenant scoping"@
}

/// What follows position `i` is the beginning of a pattern: a node, a quoted name, or
/// a name that is given a value.
pub open spec fn pattern_follows(s: Seq<char>, i: int) -> bool {
    next_char(s, i) == Some('(') || next_char(s, i) == Some('`') || named_follows(s, i)
}

/// The word from `i` to `end` is a number with a `MATCH` right after it, which could be
/// read as two words.
pub open spec fn number_then_match(s: Seq<char>, i: int, end: int) -> bool {
    &&& '0' <= s[i] && s[i] <= '9'
    &&& end - i > 5
    &&& text::upper(s.subrange(end - 5, end)) == "MATCH"@
}

/// The word that follows position `i`, in upper case.
pub open spec fn next_word(s: Seq<char>, i: int) -> Seq<char> {
    text::upper(s.subrange(after_white(s, i), text::word_end(s, after_white(s, i))))
}

/// The word from `i` to `end` has no place in `clause`, if it begins none itself: in
/// the patterns of a `MATCH` a word has to name a path; a statement begins with a
/// clause; and no clause may hide behind a number or load a file.
pub open spec fn is_misplaced(s: Seq<char>, i: int, end: int, clause: Clause) -> bool {
    let upper = text::upper(s.subrange(i, end));
    ||| clause == Clause::Match && upper != "OPTIONAL"@ && next_char(s, end) != Some('=')
    ||| clause == Clause::Start && upper != "OPTIONAL"@
    ||| number_then_match(s, i, end)
    ||| upper == "LOAD"@ && next_word(s, end) == "CSV"@
}

/// The next clause begins after position `i`.
pub open spec fn clause_follows(s: Seq<char>, i: int) -> bool {
    let w = next_word(s, i);
    ends_patterns(w) || w == "MATCH"@ || w == "OPTIONAL"@
}

/// The clause that the word from `i` to `end` leads to, or why that is in doubt. A
/// word spelled like a clause keyword is one only where a clause can begin, and not
/// where it is given a value. Elsewhere no pattern may follow a `MATCH`. One with the
/// next clause right after it, as in `AS match RETURN`, has no patterns.
pub open spec fn clause_at(s: Seq<char>, i: int, end: int, clause: Clause, begins: bool) -> Result<
    Clause,
    Seq<char>,
> {
    let word = s.subrange(i, end);
    let upper = text::upper(word);
    if upper == "MATCH"@ && (pattern_follows(s, end) || begins && pattern_can_follow(s, end)) {
        if begins && (pattern_follows(s, end) || clause_follows(s, end)) {
            Ok(Clause::Match)
        } else {
            Err(doubt_message(word))
        }
    } else if begins && ends_patterns(upper) && next_char(s, end) != Some('=') {
        Ok(Clause::Other)
    } else if is_misplaced(s, i, end, clause) {
        Err(doubt_message(word))
    } else {
        Ok(clause)
    }
}

pub open spec fn glued_message() -> Seq<char> {
    "graph_query(): unexpected '(' after an identifier in a MATCH pattern is not supported under tenant scoping"@
}

pub open spec fn open_paren_message() -> Seq<char> {
    "graph_query(): unbalanced '(' in a MATCH pattern"@
}

pub open spec fn grouped_message() -> Seq<char> {
    "graph_query(): grouped/quantified path patterns are not supported under tenant scoping"@
}

pub open spec fn unbalanced_message() -> Seq<char> {
    "graph_query(): unbalanced parentheses/brackets"@
}

/// The inside of a pattern begins with a `(`, white space aside.
pub open spec fn is_grouped(inner: Seq<char>) -> bool {
    let t = text::strip_start(inner, Class::White);
    t.len() > 0 && t[0] == '('
}

/// The `(` at `i` is glued to a word other than `MATCH`.
pub open spec fn is_glued(s: Seq<char>, i: int) -> bool {
    &&& i > 0
    &&& text::is_ident(s[i - 1])
    &&& text::upper(s.subrange(word_start(s, i), i)) != "MATCH"@
}

/// The node pattern that opens at `i`, or why it cannot be scoped.
pub open spec fn node_at(s: Seq<char>, i: int) -> Result<Seq<char>, Seq<char>> {
    if is_glued(s, i) {
        Err(glued_message())
    } else {
        match closing(s, i + 1, seq![')']) {
            None => Err(open_paren_message()),
            Some(j) => {
                let inner = s.subrange(i + 1, j);
                if is_grouped(inner) {
                    Err(grouped_message())
                } else {
                    match inner_refusal(inner) {
                        Some(e) => Err(e),
                        None => Ok(inner),
                    }
                }
            },
        }
    }
}

/// A piece in front of what follows it, unless that was refused.
pub open spec fn ahead(p: Piece, rest: Result<Seq<Piece>, Seq<char>>) -> Result<
    Seq<Piece>,
    Seq<char>,
> {
    match rest {
        Ok(ps) => Ok(seq![p] + ps),
        Err(e) => Err(e),
    }
}

pub open spec fn nested_message() -> Seq<char> {
    "graph_query(): a MATCH within brackets is not allowed under tenant scoping"@
}

/// A `MATCH` with a pattern after it begins at `i`.
pub open spec fn match_at(s: Seq<char>, i: int) -> bool {
    let end = text::word_end(s, i);
    &&& text::is_ident(s[i])
    &&& i > 0 ==> !text::is_ident(s[i - 1])
    &&& text::upper(s.subrange(i, end)) == "MATCH"@
    &&& pattern_follows(s, end)
}

/// The pieces of a statement from position `i` on, or why it is refused. A node
/// pattern opens with a `(` at depth zero in the patterns of a `MATCH`; elsewhere a
/// `)` with a relationship after it is refused, and so is a `MATCH` within brackets.
/// `begins` says whether a clause can begin at `i`.
pub open spec fn pieces_from(
    s: Seq<char>,
    i: int,
    clause: Clause,
    depth: int,
    begins: bool,
) -> Result<Seq<Piece>, Seq<char>>
    decreases s.len() - i,
{
    if i < 0 || i >= s.len() {
        if depth != 0 {
            Err(unbalanced_message())
        } else {
            Ok(seq![])
        }
    } else if is_quote(s[i]) {
        proof {
            lemma_literal_end(s, i + 1, s[i]);
        }
        let end = literal_end(s, i + 1, s[i]);
        ahead(Piece::Verbatim(s.subrange(i, end)), pieces_from(s, end, clause, depth, true))
    } else if s[i] == '(' && clause == Clause::Match && depth == 0 {
        proof {
            lemma_closing(s, i + 1, seq![')']);
        }
        match node_at(s, i) {
            Err(e) => Err(e),
            Ok(inner) => ahead(
                Piece::Node(inner),
                pieces_from(s, i + 2 + inner.len(), clause, depth, true),
            ),
        }
    } else if text::is_ident(s[i]) && depth == 0 {
        proof {
            text::lemma_word_end(s, i);
        }
        let end = text::word_end(s, i);
        match clause_at(s, i, end, clause, begins) {
            Err(e) => Err(e),
            Ok(after) => ahead(
                Piece::Verbatim(s.subrange(i, end)),
                pieces_from(s, end, after, depth, true),
            ),
        }
    } else if linked_paren_at(s, i) {
        Err(linked_message())
    } else if match_at(s, i) {
        Err(nested_message())
    } else if depth + nesting(s[i]) < 0 {
        Err(unbalanced_message())
    } else {
        ahead(
            Piece::Verbatim(seq![s[i]]),
            pieces_from(
                s,
                i + 1,
                clause,
                depth + nesting(s[i]),
                can_begin_after(s[i], begins),
            ),
        )
    }
}

/// The pieces of a statement, or why it is refused.
pub open spec fn pieces(s: Seq<char>) -> Result<Seq<Piece>, Seq<char>> {
    match oddity_from(s, 0) {
        Some(e) => Err(e),
        None => pieces_from(s, 0, Clause::Start, 0, true),
    }
}

/// The closing bracket lies at or after the position the search begins at.
pub proof fn lemma_closing(s: Seq<char>, i: int, open: Seq<char>)
    requires
        0 <= i <= s.len(),
        open.len() > 0,
    ensures
        closing(s, i, open) matches Some(j) ==> i <= j < s.len() && s[j] == open[0],
    decreases s.len() - i,
{
    if i < s.len() {
        if is_quote(s[i]) {
            lemma_literal_end(s, i + 1, s[i]);
            lemma_closing(s, literal_end(s, i + 1, s[i]), open);
        } else if nesting(s[i]) > 0 {
            lemma_closing(s, i + 1, open.push(closer(s[i])));
        } else if nesting(s[i]) < 0 {
            if open.len() > 1 && open.last() == s[i] {
                lemma_closing(s, i + 1, open.drop_last());
            }
        } else {
            lemma_closing(s, i + 1, open);
        }
    }
}

/// A statement with the scope label in each of its nodes, or why it is refused.
pub open spec fn scoped(cypher: Seq<char>, scope: Seq<char>) -> Result<Seq<char>, Seq<char>> {
    match unscopable(cypher) {
        Some(e) => Err(e),
        None => match pieces(cypher) {
            Ok(ps) => Ok(scoped_text(ps, scope)),
            Err(e) => Err(e),
        },
    }
}

/// The texts of a result of strings.
pub open spec fn outcome(r: Result<String, String>) -> Result<Seq<char>, Seq<char>> {
    match r {
        Ok(t) => Ok(t@),
        Err(e) => Err(e@),
    }
}

/// Whether a pattern's inside begins with a `(`, white space aside.
fn grouped(inner: &Vec<char>) -> (r: bool)
    ensures
        r == is_grouped(inner@),
{
    let a = skip_start(inner, 0, inner.len(), Class::White);
    assert(inner@.subrange(0, inner.len() as int) == inner@);
    assert(inner@.subrange(a as int, inner.len() as int) == text::strip_start(
        inner@,
        Class::White,
    ));
    a < inner.len() && inner[a] == '('
}

/// The word that ends before position `end`; empty where no identifier character
/// stands there.
pub fn preceding_word(cs: &Vec<char>, end: usize) -> (r: String)
    requires
        end <= cs.len(),
    ensures
        r@ == cs@.subrange(word_start(cs@, end as int), end as int),
{
    let mut i: usize = end;
    while i > 0 && is_ident_char(cs[i - 1])
        invariant
            i <= end <= cs.len(),
            word_start(cs@, i as int) == word_start(cs@, end as int),
        decreases i,
    {
        i -= 1;
    }
    substring(cs, i, end)
}

/// The characters between the `(` at `open` and the `)` that closes it, and the
/// position after that `)`. Refused where it is not closed, or where a bracket of
/// another kind stands in its place.
pub fn take_balanced_paren(cs: &Vec<char>, open: usize) -> (r: Result<(Vec<char>, usize), String>)
    requires
        open < cs.len(),
    ensures
        match r {
            Ok((inner, next)) => {
                &&& open + 1 < next <= cs.len()
                &&& closing(cs@, open + 1, seq![')']) == Some(next - 1)
                &&& cs@[next - 1] == ')'
                &&& inner@ == cs@.subrange(open + 1, next - 1)
            },
            Err(e) => closing(cs@, open + 1, seq![')']) is None && e@ == open_paren_message(),
        },
{
    let mut i: usize = open + 1;
    let mut owed: Vec<char> = vec![')'];
    let mut inner: Vec<char> = Vec::new();
    assert(owed@ == seq![')']);
    while i < cs.len()
        invariant
            open + 1 <= i <= cs.len(),
            inner@ == cs@.subrange(open + 1, i as int),
            owed.len() > 0,
            closing(cs@, i as int, owed@) == closing(cs@, open + 1, seq![')']),
        decreases cs.len() - i,
    {
        let c = cs[i];
        if opens_literal(c) {
            proof {
                lemma_literal_end(cs@, i + 1, c);
            }
            let end = end_of_literal(cs, i + 1, c);
            let ghost start = i as int;
            let mut k: usize = i;
            while k < end
                invariant
                    open + 1 <= start <= k <= end <= cs.len(),
                    inner@ == cs@.subrange(open + 1, k as int),
                decreases end - k,
            {
                inner.push(cs[k]);
                k += 1;
            }
            i = end;
        } else {
            let n = nesting_of(c);
            if n > 0 {
                owed.push(closer_of(c));
            } else if n < 0 {
                if owed[owed.len() - 1] != c {
                    return Err("graph_query(): unbalanced '(' in a MATCH pattern".to_owned());
                }
                if owed.len() == 1 {
                    proof {
                        lemma_closing(cs@, open + 1, seq![')']);
                    }
                    return Ok((inner, i + 1));
                }
                let ghost before = owed@;
                owed.pop();
                assert(owed@ == before.drop_last());
            }
            inner.push(c);
            i += 1;
        }
    }
    Err("graph_query(): unbalanced '(' in a MATCH pattern".to_owned())
}

/// The bracket that closes an opening one.
fn closer_of(c: char) -> (r: char)
    ensures
        r == closer(c),
{
    if c == '(' {
        ')'
    } else if c == '[' {
        ']'
    } else {
        '}'
    }
}

/// Whether the first character at or after `from` that is not white space is `c`.
fn next_char_is(cs: &Vec<char>, from: usize, c: char) -> (r: bool)
    requires
        from <= cs.len(),
    ensures
        r == (next_char(cs@, from as int) == Some(c)),
{
    let j = skip_white(cs, from);
    j < cs.len() && cs[j] == c
}

/// Whether no clause can begin after a character.
fn goes_on(c: char) -> (r: bool)
    ensures
        r == goes_on_after(c),
{
    c == '.' || c == ',' || c == ':' || c == '$' || c == '=' || c == '<' || c == '+' || c == '-'
        || c == '/' || c == '^' || c == '|' || c == '&' || nesting_of(c) > 0
}

/// Whether an upper-case word is a keyword after which no patterns follow.
fn patterns_end(w: &str) -> (r: bool)
    ensures
        r == ends_patterns(w@),
{
    same_text(w, "WHERE") || same_text(w, "RETURN") || same_text(w, "WITH") || same_text(
        w,
        "UNWIND",
    ) || same_text(w, "ORDER") || same_text(w, "SKIP") || same_text(w, "LIMIT")
}

/// Whether what follows position `from` is the beginning of a pattern.
fn pattern_ahead(cs: &Vec<char>, from: usize) -> (r: bool)
    requires
        from <= cs.len(),
    ensures
        r == pattern_follows(cs@, from as int),
{
    let j = skip_white(cs, from);
    if j >= cs.len() {
        false
    } else if cs[j] == '(' || cs[j] == '`' {
        true
    } else {
        is_ident_char(cs[j]) && {
            let after = end_of_word(cs, j);
            next_char_is(cs, after, '=')
        }
    }
}

/// The refusal of a word whose part in the statement is in doubt.
fn refused_word(word: &str) -> (r: String)
    ensures
        r@ == doubt_message(word@),
{
    let mut e = "graph_query(): '".to_owned();
    e.push_str(word);
    e.push_str("' is not supported at this place under tenant scoping");
    e
}

/// The word that follows position `from`, in upper case.
fn following_word(cs: &Vec<char>, from: usize) -> (r: String)
    requires
        from <= cs.len(),
    ensures
        r@ == next_word(cs@, from as int),
{
    let j = skip_white(cs, from);
    let after = end_of_word(cs, j);
    to_upper(substring(cs, j, after).as_str())
}

/// Whether the word from `i` to `end` has no place in `clause`.
fn misplaced(cs: &Vec<char>, i: usize, end: usize, clause: Clause) -> (r: bool)
    requires
        i < end <= cs.len(),
    ensures
        r == is_misplaced(cs@, i as int, end as int, clause),
{
    let up = to_upper(substring(cs, i, end).as_str());
    let optional = same_text(up.as_str(), "OPTIONAL");
    if clause == Clause::Match && !optional && !next_char_is(cs, end, '=') {
        return true;
    }
    if clause == Clause::Start && !optional {
        return true;
    }
    if '0' <= cs[i] && cs[i] <= '9' && end - i > 5 && same_text(
        to_upper(substring(cs, end - 5, end).as_str()).as_str(),
        "MATCH",
    ) {
        return true;
    }
    same_text(up.as_str(), "LOAD") && same_text(following_word(cs, end).as_str(), "CSV")
}

/// Whether the next clause begins after position `from`.
fn clause_ahead(cs: &Vec<char>, from: usize) -> (r: bool)
    requires
        from <= cs.len(),
    ensures
        r == clause_follows(cs@, from as int),
{
    let word = following_word(cs, from);
    let w = word.as_str();
    patterns_end(w) || same_text(w, "MATCH") || same_text(w, "OPTIONAL")
}

/// The clause that the word from `i` to `end` leads to, or why that is in doubt.
fn next_clause(cs: &Vec<char>, i: usize, end: usize, clause: Clause, begins: bool) -> (r: Result<
    Clause,
    String,
>)
    requires
        i < end <= cs.len(),
    ensures
        match r {
            Ok(c) => clause_at(cs@, i as int, end as int, clause, begins) == Ok::<
                Clause,
                Seq<char>,
            >(c),
            Err(e) => clause_at(cs@, i as int, end as int, clause, begins) == Err::<
                Clause,
                Seq<char>,
            >(e@),
        },
{
    let word = substring(cs, i, end);
    let up = to_upper(word.as_str());
    let w = up.as_str();
    let j = skip_white(cs, end);
    let follows = pattern_ahead(cs, end);
    if same_text(w, "MATCH") && (follows || begins && j < cs.len() && is_ident_char(cs[j])) {
        if begins && (follows || clause_ahead(cs, end)) {
            return Ok(Clause::Match);
        }
    } else if begins && patterns_end(w) && !next_char_is(cs, end, '=') {
        return Ok(Clause::Other);
    } else if !misplaced(cs, i, end, clause) {
        return Ok(clause);
    }
    Err(refused_word(word.as_str()))
}

/// The pieces in front of what follows them, unless that was refused.
pub open spec fn all_ahead(done: Seq<Piece>, rest: Result<Seq<Piece>, Seq<char>>) -> Result<
    Seq<Piece>,
    Seq<char>,
> {
    match rest {
        Ok(ps) => Ok(done + ps),
        Err(e) => Err(e),
    }
}

/// One more piece done.
proof fn lemma_step(
    total: Result<Seq<Piece>, Seq<char>>,
    done: Seq<Piece>,
    p: Piece,
    rest: Result<Seq<Piece>, Seq<char>>,
    scope: Seq<char>,
) -> (more: Seq<Piece>)
    requires
        total == all_ahead(done, ahead(p, rest)),
    ensures
        total == all_ahead(more, rest),
        scoped_text(more, scope) == scoped_text(done, scope) + p.scoped(scope),
{
    let more = done.push(p);
    assert(more.drop_last() == done);
    match rest {
        Ok(ps) => {
            assert(done + (seq![p] + ps) == more + ps);
        },
        Err(e) => {},
    }
    more
}

/// The node pattern that opens at `i`, with the scope label, and the position
/// after it; or why it cannot be scoped.
fn rewrite_node(cs: &Vec<char>, i: usize, scope: &str) -> (r: Result<(String, usize), String>)
    requires
        i < cs.len(),
    ensures
        match r {
            Ok((t, next)) => {
                let inner = cs@.subrange(i + 1, next - 1);
                &&& i + 1 < next <= cs.len()
                &&& node_at(cs@, i as int) == Ok::<Seq<char>, Seq<char>>(inner)
                &&& t@ == seq!['('] + scoped_inner(inner, scope@) + seq![')']
            },
            Err(e) => node_at(cs@, i as int) == Err::<Seq<char>, Seq<char>>(e@),
        },
{
    if i > 0 && is_ident_char(cs[i - 1]) {
        let w = to_upper(preceding_word(cs, i).as_str());
        if !same_text(w.as_str(), "MATCH") {
            return Err(
                "graph_query(): unexpected '(' after an identifier in a MATCH pattern is not supported under tenant scoping".to_owned(),
            );
        }
    }
    match take_balanced_paren(cs, i) {
        Err(e) => Err(e),
        Ok((inner, next)) => {
            if grouped(&inner) {
                return Err(
                    "graph_query(): grouped/quantified path patterns are not supported under tenant scoping".to_owned(),
                );
            }
            match rewrite_node_inner(&inner, scope) {
                Err(e) => Err(e),
                Ok(t) => {
                    let mut node = "(".to_owned();
                    node.push_str(t.as_str());
                    node.push_str(")");
                    proof {
                        reveal_strlit("(");
                        reveal_strlit(")");
                        assert("("@ == seq!['(']);
                        assert(")"@ == seq![')']);
                    }
                    Ok((node, next))
                },
            }
        },
    }
}

/// Whether a `MATCH` with a pattern after it begins at `i`.
fn match_ahead(cs: &Vec<char>, i: usize) -> (r: bool)
    requires
        i < cs.len(),
    ensures
        r == match_at(cs@, i as int),
{
    if !is_ident_char(cs[i]) || (i > 0 && is_ident_char(cs[i - 1])) {
        return false;
    }
    let end = end_of_word(cs, i);
    proof {
        text::lemma_word_end(cs@, i as int);
    }
    let word = substring(cs, i, end);
    same_text(to_upper(word.as_str()).as_str(), "MATCH") && pattern_ahead(cs, end)
}

/// The statement with the scope label in each node pattern of a `MATCH` or an
/// `OPTIONAL MATCH`. Literals are passed on as they are.
pub fn rewrite_match_patterns(cypher: &str, scope: &str) -> (r: Result<String, String>)
    ensures
        match r {
            Ok(t) => pieces(cypher@) matches Ok(ps) && t@ == scoped_text(ps, scope@),
            Err(e) => pieces(cypher@) == Err::<Seq<Piece>, Seq<char>>(e@),
        },
{
    let cs = chars_of(cypher);
    let ghost s = cypher@;
    if let Some(e) = find_oddity(&cs) {
        return Err(e);
    }
    let ghost total = pieces(s);
    let mut out = String::new();
    let mut i: usize = 0;
    let mut clause = Clause::Start;
    let mut depth: i128 = 0;
    let mut begins = true;
    let ghost mut done: Seq<Piece> = seq![];
    assert(all_ahead(done, total) == total) by {
        match total {
            Ok(ps) => {
                assert(done + ps == ps);
            },
            Err(e) => {},
        }
    }
    while i < cs.len()
        invariant
            cs@ == s,
            s == cypher@,
            total == pieces(s),
            i <= cs.len(),
            0 <= depth <= i as int,
            out@ == scoped_text(done, scope@),
            total == all_ahead(done, pieces_from(s, i as int, clause, depth as int, begins)),
        decreases cs.len() - i,
    {
        let c = cs[i];
        if opens_literal(c) {
            proof {
                lemma_literal_end(s, i + 1, c);
            }
            let end = end_of_literal(&cs, i + 1, c);
            let lit = substring(&cs, i, end);
            proof {
                let p = Piece::Verbatim(lit@);
                let rest = pieces_from(s, end as int, clause, depth as int, true);
                assert(pieces_from(s, i as int, clause, depth as int, begins) == ahead(p, rest));
                done = lemma_step(total, done, p, rest, scope@);
            }
            out.push_str(lit.as_str());
            begins = true;
            i = end;
        } else if c == '(' && clause == Clause::Match && depth == 0 {
            let (t, next) = match rewrite_node(&cs, i, scope) {
                Err(e) => {
                    return Err(e);
                },
                Ok(node) => node,
            };
            proof {
                let p = Piece::Node(s.subrange(i + 1, next - 1));
                let rest = pieces_from(s, next as int, clause, depth as int, true);
                assert(pieces_from(s, i as int, clause, depth as int, begins) == ahead(p, rest));
                done = lemma_step(total, done, p, rest, scope@);
            }
            out.push_str(t.as_str());
            begins = true;
            i = next;
        } else if is_ident_char(c) && depth == 0 {
            let end = end_of_word(&cs, i);
            proof {
                text::lemma_word_end(s, i as int);
            }
            let word = substring(&cs, i, end);
            let after = match next_clause(&cs, i, end, clause, begins) {
                Err(e) => {
                    return Err(e);
                },
                Ok(after) => after,
            };
            proof {
                let p = Piece::Verbatim(word@);
                let rest = pieces_from(s, end as int, after, depth as int, true);
                assert(pieces_from(s, i as int, clause, depth as int, begins) == ahead(p, rest));
                done = lemma_step(total, done, p, rest, scope@);
            }
            out.push_str(word.as_str());
            clause = after;
            begins = true;
            i = end;
        } else {
            if c == ')' && link_ahead(&cs, i + 1) {
                return Err(
                    "graph_query(): patterns outside of MATCH are not allowed under tenant scoping".to_owned(),
                );
            }
            if match_ahead(&cs, i) {
                return Err(
                    "graph_query(): a MATCH within brackets is not allowed under tenant scoping".to_owned(),
                );
            }
            let d = depth + nesting_of(c);
            if d < 0 {
                return Err("graph_query(): unbalanced parentheses/brackets".to_owned());
            }
            let b = if white(c) {
                begins
            } else {
                !goes_on(c)
            };
            proof {
                let p = Piece::Verbatim(seq![c]);
                let rest = pieces_from(s, i + 1, clause, d as int, b);
                assert(pieces_from(s, i as int, clause, depth as int, begins) == ahead(p, rest));
                done = lemma_step(total, done, p, rest, scope@);
            }
            let ghost before = out@;
            out.push(c);
            assert(out@ == before + seq![c]);
            depth = d;
            begins = b;
            i += 1;
        }
    }
    if depth != 0 {
        return Err("graph_query(): unbalanced parentheses/brackets".to_owned());
    }
    assert(done + Seq::<Piece>::empty() == done);
    Ok(out)
}

/// Enforces `scope` on a read statement: the statement in which each node pattern of a
/// `MATCH` carries the scope label, or the reason why it cannot be scoped.
pub fn enforce_scope(cypher: &str, scope: &str) -> (r: Result<String, String>)
    ensures
        outcome(r) == scoped(cypher@, scope@),
{
    match reject_unscopable(cypher) {
        Err(e) => Err(e),
        Ok(_) => rewrite_match_patterns(cypher, scope),
    }
}

// ---------------------------------------------------------------------------
// What scoping guarantees
// ---------------------------------------------------------------------------

proof fn lemma_source_text_add(a: Seq<Piece>, b: Seq<Piece>)
    ensures
        source_text(a + b) == source_text(a) + source_text(b),
    decreases b.len(),
{
    if b.len() == 0 {
        assert(a + b == a);
        assert(source_text(a) + source_text(b) == source_text(a));
    } else {
        lemma_source_text_add(a, b.drop_last());
        assert((a + b).drop_last() == a + b.drop_last());
        assert((a + b).last() == b.last());
        assert(source_text(a) + (source_text(b.drop_last()) + b.last().source()) == source_text(a)
            + source_text(b.drop_last()) + b.last().source());
    }
}

/// A piece in front of others.
pub proof fn lemma_source_text_ahead(p: Piece, ps: Seq<Piece>)
    ensures
        source_text(seq![p] + ps) == p.source() + source_text(ps),
{
    lemma_source_text_add(seq![p], ps);
    assert(seq![p].drop_last() == Seq::<Piece>::empty());
    assert(source_text(seq![p].drop_last()) == Seq::<char>::empty());
    assert(source_text(seq![p]) == p.source());
}

/// One piece more in front of a statement's text from `next` on.
proof fn lemma_cover_ahead(
    s: Seq<char>,
    i: int,
    p: Piece,
    next: int,
    rest: Result<Seq<Piece>, Seq<char>>,
)
    requires
        0 <= i <= next <= s.len(),
        p.source() == s.subrange(i, next),
        rest matches Ok(ps) ==> source_text(ps) == s.skip(next),
    ensures
        ahead(p, rest) matches Ok(ps) ==> source_text(ps) == s.skip(i),
{
    if let Ok(ps) = rest {
        lemma_source_text_ahead(p, ps);
        assert(s.skip(i) == s.subrange(i, next) + s.skip(next));
    }
}

/// The pieces from a position on are the statement from there on.
#[verifier::spinoff_prover]
pub proof fn lemma_pieces_cover(s: Seq<char>, i: int, clause: Clause, depth: int, begins: bool)
    requires
        0 <= i <= s.len(),
    ensures
        pieces_from(s, i, clause, depth, begins) matches Ok(ps) ==> source_text(ps) == s.skip(i),
    decreases s.len() - i,
{
    if i == s.len() {
        assert(s.skip(i) == Seq::<char>::empty());
    } else if is_quote(s[i]) {
        let end = literal_end(s, i + 1, s[i]);
        lemma_literal_end(s, i + 1, s[i]);
        lemma_pieces_cover(s, end, clause, depth, true);
        let p = Piece::Verbatim(s.subrange(i, end));
        lemma_cover_ahead(s, i, p, end, pieces_from(s, end, clause, depth, true));
    } else if s[i] == '(' && clause == Clause::Match && depth == 0 {
        lemma_closing(s, i + 1, seq![')']);
        if let Ok(inner) = node_at(s, i) {
            let next = i + 2 + inner.len();
            lemma_pieces_cover(s, next, clause, depth, true);
            let p = Piece::Node(inner);
            assert(p.source() == s.subrange(i, next));
            lemma_cover_ahead(s, i, p, next, pieces_from(s, next, clause, depth, true));
        }
    } else if text::is_ident(s[i]) && depth == 0 {
        let end = text::word_end(s, i);
        text::lemma_word_end(s, i);
        if let Ok(after) = clause_at(s, i, end, clause, begins) {
            lemma_pieces_cover(s, end, after, depth, true);
            let p = Piece::Verbatim(s.subrange(i, end));
            lemma_cover_ahead(s, i, p, end, pieces_from(s, end, after, depth, true));
        }
    } else if pieces_from(s, i, clause, depth, begins) is Ok {
        let d = depth + nesting(s[i]);
        let b = can_begin_after(s[i], begins);
        lemma_pieces_cover(s, i + 1, clause, d, b);
        let p = Piece::Verbatim(seq![s[i]]);
        assert(p.source() == s.subrange(i, i + 1));
        lemma_cover_ahead(s, i, p, i + 1, pieces_from(s, i + 1, clause, d, b));
    }
}

/// Nothing of a statement is lost: its pieces, one after the other, are the
/// statement. So a scoped statement differs from it in its node patterns alone.
pub proof fn law_pieces_are_the_statement(cypher: Seq<char>)
    ensures
        pieces(cypher) matches Ok(ps) ==> source_text(ps) == cypher,
{
    lemma_pieces_cover(cypher, 0, Clause::Start, 0, true);
    assert(cypher.skip(0) == cypher);
}

/// A node that is rewritten carries the scope label: it is written as its own labels,
/// then the scope label, then its property map.
pub proof fn law_node_carries_the_scope(inner: Seq<char>, scope: Seq<char>)
    ensures
        ({
            let node = Piece::Node(inner).scoped(scope);
            let labels = text::trim(inner.subrange(0, map_start(inner)));
            &&& text::stands_at(node, ":"@ + quoted_label(scope), 1int + labels.len())
            &&& text::starts_with(node, seq!['('] + labels)
        }),
{
    let node = Piece::Node(inner).scoped(scope);
    let labels = text::trim(inner.subrange(0, map_start(inner)));
    let mark = ":"@ + quoted_label(scope);
    assert(node.subrange(1int + labels.len(), 1int + labels.len() + mark.len()) == mark);
    assert(node.subrange(0, 1int + labels.len()) == seq!['('] + labels);
}

proof fn lemma_first_contained(s: Seq<char>, ns: Seq<Seq<char>>)
    ensures
        first_contained(s, ns) is None <==> forall|i: int|
            0 <= i < ns.len() ==> !contains_one(s, ns, i),
    decreases ns.len(),
{
    if ns.len() > 0 {
        lemma_first_contained(s, ns.skip(1));
        assert(contains_one(s, ns, 0) == text::contains(s, ns[0]));
        if first_contained(s, ns) is None {
            assert forall|i: int| 0 <= i < ns.len() implies !contains_one(s, ns, i) by {
                if i > 0 {
                    assert(!contains_one(s, ns.skip(1), i - 1));
                }
            }
        } else if first_contained(s, ns.skip(1)) is Some && !text::contains(s, ns[0]) {
            let i = choose|i: int| 0 <= i < ns.skip(1).len() && contains_one(s, ns.skip(1), i);
            assert(contains_one(s, ns, i + 1));
        }
    }
}

/// The text `ns[i]` stands in `s`.
pub open spec fn contains_one(s: Seq<char>, ns: Seq<Seq<char>>, i: int) -> bool {
    text::contains(s, ns[i])
}

proof fn lemma_first_unscopable(ws: Seq<Seq<char>>)
    ensures
        first_unscopable(ws) is None <==> forall|i: int|
            0 <= i < ws.len() ==> !is_unscopable_word(text::upper(#[trigger] ws[i])),
    decreases ws.len(),
{
    if ws.len() > 0 {
        lemma_first_unscopable(ws.skip(1));
        if first_unscopable(ws) is None {
            assert forall|i: int| 0 <= i < ws.len() implies !is_unscopable_word(
                text::upper(#[trigger] ws[i]),
            ) by {
                if i > 0 {
                    assert(ws.skip(1)[i - 1] == ws[i]);
                }
            }
        } else if !is_unscopable_word(text::upper(ws[0])) {
            let i = choose|i: int|
                0 <= i < ws.skip(1).len() && is_unscopable_word(
                    text::upper(#[trigger] ws.skip(1)[i]),
                );
            assert(is_unscopable_word(text::upper(ws[i + 1])));
        }
    }
}

/// Literals aside, a text that can be read with certainty has no comment.
proof fn lemma_blanked_comments(s: Seq<char>, i: int)
    requires
        0 <= i <= s.len(),
        oddity_from(s, i) is None,
    ensures
        forall|k: int| !#[trigger] comment_at(blanked_from(s, i), k),
        i < s.len() ==> blanked_from(s, i).len() > 0 && blanked_from(s, i)[0] == (if is_quote(
            s[i],
        ) {
            ' '
        } else {
            s[i]
        }),
        i == s.len() ==> blanked_from(s, i).len() == 0,
    decreases s.len() - i,
{
    if i < s.len() {
        let b = blanked_from(s, i);
        let next = if is_quote(s[i]) {
            literal_end(s, i + 1, s[i])
        } else {
            i + 1
        };
        lemma_literal_end(s, i + 1, s[i]);
        lemma_blanked_comments(s, next);
        assert forall|k: int| !#[trigger] comment_at(b, k) by {
            if comment_at(b, k) {
                if k >= next - i {
                    assert(comment_at(blanked_from(s, next), k - (next - i)));
                } else {
                    assert(!is_quote(s[i]));
                    assert(k == 0);
                    assert(b[1] == blanked_from(s, next)[0]);
                }
            }
        }
    }
}

/// A statement with a comment is refused: one that holds `//` or `/*`, literals aside.
pub proof fn law_comments_are_refused(cypher: Seq<char>, k: int)
    requires
        comment_at(blanked(cypher), k),
    ensures
        pieces(cypher) is Err,
{
    if oddity_from(cypher, 0) is None {
        lemma_blanked_comments(cypher, 0);
    }
}

/// Scoping fails closed: a statement is accepted only if, literals aside, it
/// names no namespace of procedures, has no keyword that leads out of the scoped
/// patterns, and holds no subquery expression, no `[` with a `(` after it, and no
/// comment.
pub proof fn law_accepted_statement_cannot_escape(cypher: Seq<char>, scope: Seq<char>)
    requires
        scoped(cypher, scope) is Ok,
    ensures
        ({
            let b = blanked(cypher);
            &&& forall|i: int|
                0 <= i < namespaces().len() ==> !contains_one(text::lower(b), namespaces(), i)
            &&& forall|i: int|
                0 <= i < text::words(b).len() ==> !is_unscopable_word(
                    text::upper(#[trigger] text::words(b)[i]),
                )
            &&& !has_word_then_brace(text::lower(b), "count"@)
            &&& !has_word_then_brace(text::lower(b), "collect"@)
            &&& !has_bracket_then_paren(b)
            &&& forall|i: int| !#[trigger] comment_at(b, i)
        }),
{
    lemma_blanked_comments(cypher, 0);
    lemma_first_contained(text::lower(blanked(cypher)), namespaces());
    lemma_first_unscopable(text::words(blanked(cypher)));
}

/// A quoted label reads back as the label: it stands between two backticks, and with
/// pairs of them read as one it is the text, whatever the text.
pub proof fn law_labels_read_back(name: Seq<char>)
    ensures
        ({
            let q = quoted_label(name);
            &&& q.len() >= 2
            &&& q[0] == '`' && q.last() == '`'
            &&& text::undoubled(q.subrange(1, q.len() - 1), '`') == name
            &&& !name.contains('`') ==> q.subrange(1, q.len() - 1) == name
        }),
{
    reveal_strlit("`");
    reveal_strlit("``");
    assert("``"@ == seq!['`', '`']);
    text::law_doubled_reads_back(name, '`');
    let q = quoted_label(name);
    assert(q.subrange(1, q.len() - 1) == text::replaced(name, '`', "``"@));
}

/// The scope label is what is set, without the white space around it; a blank setting is
/// none.
pub proof fn law_scope_label_is_as_set(value: Seq<char>)
    ensures
        label_setting(None) is None,
        text::all_white(value) ==> label_setting(Some(value)) is None,
        !text::all_white(value) ==> label_setting(Some(value)) == Some(text::trim(value)),
{
    let (a, b) = text::law_trim_takes_white_space_alone(value);
    if text::all_white(value) {
        if a < b {
            assert(text::is_white(value[a]));
        }
    } else {
        let i = choose|i: int| 0 <= i < value.len() && !text::is_white(#[trigger] value[i]);
        if a == b {
            assert(text::is_white(value[i]));
        }
    }
}

} // verus!
