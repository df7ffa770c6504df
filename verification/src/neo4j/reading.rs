//! How a statement reads as Cypher, and what the patterns of a scoped one hold.
//!
//! The reading here goes through a text once, from its first character on. It knows
//! strings with their escapes, quoted identifiers, in which a backtick is doubled,
//! both kinds of comments, brackets, and the keywords that begin a clause where one
//! can begin, outside of all brackets. It takes any text and refuses none.
use vstd::prelude::*;

use crate::neo4j::scope;
use crate::neo4j::scope::{Clause, Piece};
use crate::text;
use crate::text::Class;

verus! {

// ---------------------------------------------------------------------------
// Characters
// ---------------------------------------------------------------------------

/// What a character is part of.
pub enum Place {
    /// The statement itself.
    Code,
    /// A string between two such quotes.
    Text(char),
    /// A string, after a backslash.
    Escape(char),
    /// A quoted identifier. A doubled backtick leaves it and enters it again.
    Name,
    /// A comment to the end of the line.
    Line,
    /// A comment between `/*` and `*/`.
    Block,
    /// Such a comment, after a `*`.
    Star,
}

/// Where the reading of a text stands.
pub struct Scan {
    pub place: Place,
    /// The brackets that are open.
    pub depth: int,
    /// Whether the last character was a `/` of the statement itself.
    pub slash: bool,
}

/// By how much a character changes the number of open brackets.
pub open spec fn bracket(c: char) -> int {
    match c {
        '(' | '[' | '{' => 1,
        ')' | ']' | '}' => -1,
        _ => 0,
    }
}

/// One character further.
pub open spec fn advance(at: Scan, c: char) -> Scan {
    let stay = Scan { place: at.place, depth: at.depth, slash: false };
    match at.place {
        Place::Code => if at.slash && c == '/' {
            Scan { place: Place::Line, ..stay }
        } else if at.slash && c == '*' {
            Scan { place: Place::Block, ..stay }
        } else if c == '\'' || c == '"' {
            Scan { place: Place::Text(c), ..stay }
        } else if c == '`' {
            Scan { place: Place::Name, ..stay }
        } else {
            Scan { place: Place::Code, depth: at.depth + bracket(c), slash: c == '/' }
        },
        Place::Text(q) => if c == '\\' {
            Scan { place: Place::Escape(q), ..stay }
        } else if c == q {
            Scan { place: Place::Code, ..stay }
        } else {
            stay
        },
        Place::Escape(q) => Scan { place: Place::Text(q), ..stay },
        Place::Name => if c == '`' {
            Scan { place: Place::Code, ..stay }
        } else {
            stay
        },
        Place::Line => if c == '\n' || c == '\r' {
            Scan { place: Place::Code, ..stay }
        } else {
            stay
        },
        Place::Block => if c == '*' {
            Scan { place: Place::Star, ..stay }
        } else {
            stay
        },
        Place::Star => if c == '/' {
            Scan { place: Place::Code, ..stay }
        } else if c == '*' {
            stay
        } else {
            Scan { place: Place::Block, ..stay }
        },
    }
}

/// Where the reading stands after a text.
pub open spec fn scan(from: Scan, t: Seq<char>) -> Scan
    decreases t.len(),
{
    if t.len() == 0 {
        from
    } else {
        advance(scan(from, t.drop_last()), t.last())
    }
}

/// Where the reading of a text begins.
pub open spec fn start() -> Scan {
    Scan { place: Place::Code, depth: 0, slash: false }
}

/// Where the reading of `t` stands before position `i`.
pub open spec fn scan_at(t: Seq<char>, i: int) -> Scan {
    scan(start(), t.take(i))
}

/// The character at `i` belongs to the statement itself.
pub open spec fn is_code(t: Seq<char>, i: int) -> bool {
    0 <= i < t.len() && scan_at(t, i).place is Code
}

/// The reading stands in a comment.
pub open spec fn in_comment(at: Scan) -> bool {
    at.place is Line || at.place is Block || at.place is Star
}

/// The character at `i` separates what is before it from what is after it: white
/// space, or part of a comment.
pub open spec fn is_blank(t: Seq<char>, i: int) -> bool {
    &&& 0 <= i < t.len()
    &&& {
        ||| in_comment(scan_at(t, i))
        ||| scan_at(t, i).place is Code && text::is_white(t[i])
        ||| i + 1 < t.len() && in_comment(scan_at(t, i + 1))
        ||| i + 2 < t.len() && scan_at(t, i).place is Code && t[i] == '/' && in_comment(
            scan_at(t, i + 2),
        )
    }
}

// ---------------------------------------------------------------------------
// Clauses
// ---------------------------------------------------------------------------

/// An expression or a pattern cannot end with this character: it is an opening bracket,
/// a separator, or a sign that something has to follow.
pub open spec fn is_unfinished(c: char) -> bool {
    match c {
        '(' | '[' | '{' => true,
        ',' | '.' | ':' | '$' | '|' | '&' => true,
        '=' | '<' | '+' | '-' | '/' | '^' => true,
        _ => false,
    }
}

/// A keyword, in upper case, after which expressions follow.
pub open spec fn is_expression_keyword(w: Seq<char>) -> bool {
    ||| w == "RETURN"@ || w == "WITH"@ || w == "WHERE"@
    ||| w == "ORDER"@ || w == "SKIP"@ || w == "LIMIT"@ || w == "UNWIND"@
}

/// Whether a clause can begin at `i`: at the beginning, or where what is before, blanks
/// aside, can be the end of an expression or of a pattern.
pub open spec fn can_begin(t: Seq<char>, i: int) -> bool
    decreases i,
{
    if i <= 0 {
        true
    } else if is_blank(t, i - 1) {
        can_begin(t, i - 1)
    } else if scan_at(t, i - 1).place is Code {
        !is_unfinished(t[i - 1])
    } else {
        true
    }
}

/// The first character at or after `i` that is not blank.
pub open spec fn next_code(t: Seq<char>, i: int) -> Option<char>
    decreases t.len() - i,
{
    if i < 0 || i >= t.len() {
        None
    } else if is_blank(t, i) {
        next_code(t, i + 1)
    } else {
        Some(t[i])
    }
}

/// A word of the statement itself begins at `i`, outside of all brackets.
pub open spec fn word_begins(t: Seq<char>, i: int) -> bool {
    &&& is_code(t, i)
    &&& scan_at(t, i).depth == 0
    &&& text::is_ident(t[i])
    &&& i > 0 ==> !text::is_ident(t[i - 1])
}

/// The word that begins at `i`, in upper case.
pub open spec fn word_of(t: Seq<char>, i: int) -> Seq<char> {
    text::upper(t.subrange(i, text::word_end(t, i)))
}

/// What follows the word that begins at `i`.
pub open spec fn after_word(t: Seq<char>, i: int) -> Option<char> {
    next_code(t, text::word_end(t, i))
}

/// The patterns of a `MATCH` begin with the word at `i`: it is the keyword, a clause
/// can begin there, and a node or a name follows.
pub open spec fn match_begins(t: Seq<char>, i: int) -> bool {
    &&& word_begins(t, i)
    &&& can_begin(t, i)
    &&& word_of(t, i) == "MATCH"@
    &&& after_word(t, i) matches Some(c) && (c == '(' || c == '`' || text::is_ident(c))
}

/// A clause of expressions begins with the word at `i`: it is a keyword, a clause can
/// begin there, and it is not given a value.
pub open spec fn expressions_begin(t: Seq<char>, i: int) -> bool {
    &&& word_begins(t, i)
    &&& can_begin(t, i)
    &&& is_expression_keyword(word_of(t, i))
    &&& after_word(t, i) != Some('=')
}

/// Position `i` lies in the patterns of a `MATCH`.
pub open spec fn in_patterns(t: Seq<char>, i: int) -> bool
    decreases i,
{
    if i <= 0 {
        false
    } else if match_begins(t, i - 1) {
        true
    } else if expressions_begin(t, i - 1) {
        false
    } else {
        in_patterns(t, i - 1)
    }
}

/// A node pattern opens at `i`: a `(` outside of all brackets in the patterns of a
/// `MATCH`.
pub open spec fn node_opens(t: Seq<char>, i: int) -> bool {
    is_code(t, i) && t[i] == '(' && scan_at(t, i).depth == 0 && in_patterns(t, i)
}

// ---------------------------------------------------------------------------
// Labels
// ---------------------------------------------------------------------------

/// The node pattern that opens at `i` is closed at `j`.
pub open spec fn node_closes(t: Seq<char>, i: int, j: int) -> bool {
    &&& i < j
    &&& is_code(t, j)
    &&& t[j] == ')'
    &&& scan_at(t, j + 1).depth == 0
    &&& forall|m: int| i < m <= j ==> (#[trigger] scan_at(t, m)).depth >= 1
}

/// A colon and the scope label stand at `k`, in the node pattern from `i` to `j` and
/// in no bracket within it; the label is read as one quoted identifier.
pub open spec fn label_stands(t: Seq<char>, scope: Seq<char>, i: int, j: int, k: int) -> bool {
    let mark = ":"@ + scope::quoted_label(scope);
    &&& node_closes(t, i, j)
    &&& i < k && k + mark.len() <= j
    &&& text::stands_at(t, mark, k)
    &&& is_code(t, k) && scan_at(t, k).depth == 1
    &&& scan_at(t, k + mark.len()).place is Code && scan_at(t, k + mark.len()).depth == 1
}

/// The node pattern that opens at `i` has the scope label.
pub open spec fn is_labelled(t: Seq<char>, scope: Seq<char>, i: int) -> bool {
    exists|j: int, k: int| label_stands(t, scope, i, j, k)
}

// ---------------------------------------------------------------------------
// Reading on
// ---------------------------------------------------------------------------

/// Where the reading stands before position `i`, if it stood at `from` before `a`.
pub open spec fn scan_on(from: Scan, t: Seq<char>, a: int, i: int) -> Scan {
    scan(from, t.subrange(a, i))
}

proof fn lemma_scan_on_step(from: Scan, t: Seq<char>, a: int, i: int)
    requires
        0 <= a <= i < t.len(),
    ensures
        scan_on(from, t, a, i + 1) == advance(scan_on(from, t, a, i), t[i]),
{
    assert(t.subrange(a, i + 1).drop_last() == t.subrange(a, i));
    assert(t.subrange(a, i + 1).last() == t[i]);
}

proof fn lemma_scan_step(t: Seq<char>, i: int)
    requires
        0 <= i < t.len(),
    ensures
        scan_at(t, i + 1) == advance(scan_at(t, i), t[i]),
{
    assert(t.take(i + 1).drop_last() == t.take(i));
    assert(t.take(i + 1).last() == t[i]);
}

proof fn lemma_scan_add(from: Scan, a: Seq<char>, b: Seq<char>)
    ensures
        scan(from, a + b) == scan(scan(from, a), b),
    decreases b.len(),
{
    if b.len() == 0 {
        assert(a + b == a);
    } else {
        lemma_scan_add(from, a, b.drop_last());
        assert((a + b).drop_last() == a + b.drop_last());
        assert((a + b).last() == b.last());
    }
}

/// A literal of which the reading is inside.
pub open spec fn literal_place(q: char) -> Place {
    if q == '`' {
        Place::Name
    } else {
        Place::Text(q)
    }
}

/// The reading stands within a literal.
pub open spec fn in_literal(at: Scan) -> bool {
    at.place is Text || at.place is Escape || at.place is Name
}

/// The reading stays within a literal up to its end.
proof fn lemma_scan_literal(from: Scan, t: Seq<char>, a: int, i: int, q: char, depth: int)
    requires
        0 <= a <= i <= t.len(),
        scope::is_quote(q),
        scan_on(from, t, a, i) == (Scan { place: literal_place(q), depth, slash: false }),
    ensures
        ({
            let e = scope::literal_end(t, i, q);
            &&& i <= e <= t.len()
            &&& forall|m: int|
                i <= m < e ==> in_literal(#[trigger] scan_on(from, t, a, m)) && scan_on(
                    from,
                    t,
                    a,
                    m,
                ).depth == depth
            &&& scan_on(from, t, a, e).depth == depth
            &&& !in_comment(scan_on(from, t, a, e))
            &&& e < t.len() ==> scan_on(from, t, a, e) == (Scan {
                place: Place::Code,
                depth,
                slash: false,
            }) && e > i && t[e - 1] == q
        }),
    decreases t.len() - i,
{
    scope::lemma_literal_end(t, i, q);
    if i < t.len() {
        lemma_scan_on_step(from, t, a, i);
        if t[i] == '\\' && q != '`' {
            if i + 1 < t.len() {
                lemma_scan_on_step(from, t, a, i + 1);
                lemma_scan_literal(from, t, a, i + 2, q, depth);
                scope::lemma_literal_end(t, i + 2, q);
            }
        } else if t[i] != q {
            lemma_scan_literal(from, t, a, i + 1, q, depth);
        }
    }
}

// ---------------------------------------------------------------------------
// Insides of node patterns
// ---------------------------------------------------------------------------

/// Where the reading stands after the `(` of a node pattern.
pub open spec fn opened() -> Scan {
    Scan { place: Place::Code, depth: 1, slash: false }
}

/// A text that stays within the `(` before it: it has no comment, closes what it
/// opens, and does not close that `(`.
pub open spec fn stays_inside(t: Seq<char>) -> bool {
    &&& scan(opened(), t).place is Code && scan(opened(), t).depth == 1
    &&& forall|n: int|
        0 <= n <= t.len() ==> (#[trigger] scan(opened(), t.take(n))).depth >= 1 && !in_comment(
            scan(opened(), t.take(n)),
        )
}

/// A text that does not go on with a comment, whatever is before it.
pub open spec fn no_comment_first(t: Seq<char>) -> bool {
    t.len() > 0 ==> t[0] != '/' && t[0] != '*'
}

proof fn lemma_slash_is_over(depth: int, t: Seq<char>)
    requires
        no_comment_first(t),
        t.len() > 0,
    ensures
        scan(Scan { place: Place::Code, depth, slash: true }, t) == scan(
            Scan { place: Place::Code, depth, slash: false },
            t,
        ),
    decreases t.len(),
{
    if t.len() == 1 {
        assert(t.drop_last().len() == 0);
        assert(t.last() == t[0]);
    } else {
        lemma_slash_is_over(depth, t.drop_last());
    }
}

/// From a place in code at depth one, a text reads as from a `(`.
proof fn lemma_reads_as_opened(at: Scan, t: Seq<char>)
    requires
        at.place is Code && at.depth == 1,
        at.slash ==> no_comment_first(t),
        t.len() > 0,
    ensures
        scan(at, t) == scan(opened(), t),
{
    if at.slash {
        lemma_slash_is_over(1, t);
    }
}

proof fn lemma_stays_add(a: Seq<char>, b: Seq<char>)
    requires
        stays_inside(a),
        stays_inside(b),
        no_comment_first(b),
    ensures
        stays_inside(a + b),
{
    let t = a + b;
    let mid = scan(opened(), a);
    lemma_scan_add(opened(), a, b);
    if b.len() > 0 {
        lemma_reads_as_opened(mid, b);
    }
    assert forall|n: int| 0 <= n <= t.len() implies (#[trigger] scan(opened(), t.take(n))).depth
        >= 1 && !in_comment(scan(opened(), t.take(n))) by {
        if n <= a.len() {
            assert(t.take(n) == a.take(n));
        } else {
            let m = n - a.len();
            assert(t.take(n) == a + b.take(m));
            lemma_scan_add(opened(), a, b.take(m));
            assert(b.take(m)[0] == b[0]);
            lemma_reads_as_opened(mid, b.take(m));
        }
    }
}

/// What is before a place in code at depth one stays inside.
proof fn lemma_stays_front(t: Seq<char>, m: int)
    requires
        stays_inside(t),
        0 <= m <= t.len(),
        scan(opened(), t.take(m)).place is Code,
        scan(opened(), t.take(m)).depth == 1,
    ensures
        stays_inside(t.take(m)),
{
    let a = t.take(m);
    assert forall|n: int| 0 <= n <= a.len() implies (#[trigger] scan(opened(), a.take(n))).depth
        >= 1 && !in_comment(scan(opened(), a.take(n))) by {
        assert(a.take(n) == t.take(n));
    }
}

/// What is after such a place stays inside.
proof fn lemma_stays_back(t: Seq<char>, m: int)
    requires
        stays_inside(t),
        0 <= m <= t.len(),
        scan(opened(), t.take(m)).place is Code,
        scan(opened(), t.take(m)).depth == 1,
        no_comment_first(t.skip(m)),
    ensures
        stays_inside(t.skip(m)),
{
    let a = t.take(m);
    let b = t.skip(m);
    assert(t == a + b);
    let mid = scan(opened(), a);
    lemma_scan_add(opened(), a, b);
    if b.len() > 0 {
        lemma_reads_as_opened(mid, b);
    }
    assert forall|n: int| 0 <= n <= b.len() implies (#[trigger] scan(opened(), b.take(n))).depth
        >= 1 && !in_comment(scan(opened(), b.take(n))) by {
        if n > 0 {
            assert(t.take(m + n) == a + b.take(n));
            lemma_scan_add(opened(), a, b.take(n));
            assert(b.take(n)[0] == b[0]);
            lemma_reads_as_opened(mid, b.take(n));
        }
    }
}

proof fn lemma_stays_strip_start(t: Seq<char>)
    requires
        stays_inside(t),
    ensures
        stays_inside(text::strip_start(t, Class::White)),
    decreases t.len(),
{
    if t.len() > 0 && text::is_white(t[0]) {
        let one = t.take(1);
        assert(one.drop_last().len() == 0);
        assert(one.last() == t[0]);
        assert(scan(opened(), one.drop_last()) == opened());
        assert(scan(opened(), one) == opened());
        lemma_stays_after_blank(t);
        lemma_stays_strip_start(t.skip(1));
    }
}

proof fn lemma_stays_after_blank(t: Seq<char>)
    requires
        stays_inside(t),
        t.len() > 0,
        scan(opened(), t.take(1)) == opened(),
    ensures
        stays_inside(t.skip(1)),
{
    let a = t.take(1);
    let b = t.skip(1);
    assert(t == a + b);
    lemma_scan_add(opened(), a, b);
    assert forall|n: int| 0 <= n <= b.len() implies (#[trigger] scan(opened(), b.take(n))).depth
        >= 1 && !in_comment(scan(opened(), b.take(n))) by {
        assert(t.take(1 + n) == a + b.take(n));
        lemma_scan_add(opened(), a, b.take(n));
    }
}

/// A string stands between quotes.
proof fn lemma_string_quotes(t: Seq<char>)
    ensures
        scan(opened(), t).place matches Place::Text(q) ==> scope::is_quote(q),
        scan(opened(), t).place matches Place::Escape(q) ==> scope::is_quote(q),
    decreases t.len(),
{
    if t.len() > 0 {
        lemma_string_quotes(t.drop_last());
    }
}

proof fn lemma_stays_strip_end(t: Seq<char>)
    requires
        stays_inside(t),
    ensures
        stays_inside(text::strip_end(t, Class::White)),
    decreases t.len(),
{
    if t.len() > 0 && text::is_white(t.last()) {
        let n = t.len() - 1;
        assert(t.drop_last() == t.take(n));
        assert(!in_comment(scan(opened(), t.take(n))));
        lemma_string_quotes(t.take(n));
        lemma_stays_front(t, n);
        lemma_stays_strip_end(t.drop_last());
    }
}

proof fn lemma_stays_trim(t: Seq<char>)
    requires
        stays_inside(t),
    ensures
        stays_inside(text::trim(t)),
{
    lemma_stays_strip_start(t);
    lemma_stays_strip_end(text::strip_start(t, Class::White));
}

/// A label, whatever it is, is one quoted identifier.
proof fn lemma_scan_label(name: Seq<char>)
    ensures
        ({
            let body = "`"@ + text::replaced(name, '`', "``"@);
            &&& scan(opened(), body) == (Scan { place: Place::Name, depth: 1, slash: false })
            &&& forall|n: int|
                0 <= n <= body.len() ==> (#[trigger] scan(opened(), body.take(n))).depth == 1
                    && !in_comment(scan(opened(), body.take(n)))
        }),
    decreases name.len(),
{
    reveal_strlit("`");
    reveal_strlit("``");
    let body = "`"@ + text::replaced(name, '`', "``"@);
    if name.len() == 0 {
        assert(body == seq!['`']);
        assert(body.drop_last().len() == 0);
        assert(scan(opened(), body.drop_last()) == opened());
        assert forall|n: int| 0 <= n <= body.len() implies (#[trigger] scan(
            opened(),
            body.take(n),
        )).depth == 1 && !in_comment(scan(opened(), body.take(n))) by {
            if n == 0 {
                assert(body.take(n).len() == 0);
            } else {
                assert(body.take(n) == body);
            }
        }
    } else {
        let shorter = "`"@ + text::replaced(name.drop_last(), '`', "``"@);
        lemma_scan_label(name.drop_last());
        let tail = if name.last() == '`' {
            "``"@
        } else {
            seq![name.last()]
        };
        assert(body == shorter + tail);
        lemma_scan_add(opened(), shorter, tail);
        let named = Scan { place: Place::Name, depth: 1, slash: false };
        let coded = Scan { place: Place::Code, depth: 1, slash: false };
        assert(tail.take(1).drop_last().len() == 0);
        assert(scan(named, tail.take(1).drop_last()) == named);
        assert(tail.take(1).last() == tail[0]);
        if name.last() == '`' {
            assert(scan(named, tail.take(1)) == coded);
            assert(tail.drop_last() == tail.take(1));
            assert(scan(named, tail) == named);
        } else {
            assert(tail.take(1) == tail);
            assert(scan(named, tail) == named);
        }
        assert forall|n: int| 0 <= n <= body.len() implies (#[trigger] scan(
            opened(),
            body.take(n),
        )).depth == 1 && !in_comment(scan(opened(), body.take(n))) by {
            if n <= shorter.len() {
                assert(body.take(n) == shorter.take(n));
            } else {
                let m = n - shorter.len();
                assert(body.take(n) == shorter + tail.take(m));
                lemma_scan_add(opened(), shorter, tail.take(m));
                if m == 2 {
                    assert(tail.take(m) == tail);
                }
            }
        }
    }
}

/// A colon and a label stay inside.
proof fn lemma_label_stays(name: Seq<char>)
    ensures
        stays_inside(":"@ + scope::quoted_label(name)),
{
    reveal_strlit("`");
    reveal_strlit(":");
    let body = "`"@ + text::replaced(name, '`', "``"@);
    let label = scope::quoted_label(name);
    lemma_scan_label(name);
    assert(label == body + seq!['`']);
    assert(label.drop_last() == body);
    assert(label.last() == '`');
    assert(stays_inside(label)) by {
        assert forall|n: int| 0 <= n <= label.len() implies (#[trigger] scan(
            opened(),
            label.take(n),
        )).depth >= 1 && !in_comment(scan(opened(), label.take(n))) by {
            if n <= body.len() {
                assert(label.take(n) == body.take(n));
            } else {
                assert(label.take(n) == label);
            }
        }
    }
    let colon = ":"@;
    assert(colon == seq![':']);
    assert(stays_inside(colon)) by {
        lemma_one_stays(':');
    }
    assert(label[0] == '`');
    lemma_stays_add(colon, label);
}

proof fn lemma_one_stays(c: char)
    requires
        c == ':' || c == ' ',
    ensures
        stays_inside(seq![c]),
{
    let t = seq![c];
    assert(t.drop_last().len() == 0);
    assert(scan(opened(), t.drop_last()) == opened());
    assert(scan(opened(), t) == opened());
    assert forall|n: int| 0 <= n <= t.len() implies (#[trigger] scan(opened(), t.take(n))).depth
        >= 1 && !in_comment(scan(opened(), t.take(n))) by {
        if n == 0 {
            assert(t.take(n).len() == 0);
        } else {
            assert(t.take(n) == t);
        }
    }
}

/// What stands before the `)` that closes a `(` stays inside.
proof fn lemma_closing_scan(s: Seq<char>, a: int, i: int, open: Seq<char>, j: int)
    requires
        0 <= a <= i <= s.len(),
        open.len() > 0,
        scope::closing(s, i, open) == Some(j),
        scope::oddity_from(s, i) is None,
        scan_on(opened(), s, a, i).place is Code,
        scan_on(opened(), s, a, i).depth == open.len(),
        scan_on(opened(), s, a, i).slash && i < s.len() ==> s[i] != '/' && s[i] != '*',
    ensures
        i <= j < s.len(),
        scan_on(opened(), s, a, j).place is Code,
        scan_on(opened(), s, a, j).depth == 1,
        forall|m: int|
            i <= m <= j ==> (#[trigger] scan_on(opened(), s, a, m)).depth >= 1 && !in_comment(
                scan_on(opened(), s, a, m),
            ),
        scope::oddity_from(s, j) is None,
        scope::is_plain_code(s[j]),
    decreases s.len() - i,
{
    scope::lemma_closing(s, i, open);
    lemma_scan_on_step(opened(), s, a, i);
    if scope::is_quote(s[i]) {
        let e = scope::literal_end(s, i + 1, s[i]);
        scope::lemma_literal_end(s, i + 1, s[i]);
        lemma_scan_literal(opened(), s, a, i + 1, s[i], open.len() as int);
        scope::lemma_closing(s, e, open);
        lemma_closing_scan(s, a, e, open, j);
    } else if scope::nesting(s[i]) > 0 {
        lemma_closing_scan(s, a, i + 1, open.push(scope::closer(s[i])), j);
    } else if scope::nesting(s[i]) < 0 {
        if open.len() > 1 {
            lemma_closing_scan(s, a, i + 1, open.drop_last(), j);
        }
    } else {
        lemma_closing_scan(s, a, i + 1, open, j);
    }
}

/// The inside of a node pattern stays inside, and the reading goes on after it.
proof fn lemma_node_inside(s: Seq<char>, i: int, j: int)
    requires
        0 <= i < s.len(),
        s[i] == '(',
        scope::closing(s, i + 1, seq![')']) == Some(j),
        scope::oddity_from(s, i) is None,
    ensures
        i < j < s.len(),
        s[j] == ')',
        stays_inside(s.subrange(i + 1, j)),
        scope::oddity_from(s, j + 1) is None,
{
    let inner = s.subrange(i + 1, j);
    let a = i + 1;
    scope::lemma_closing(s, a, seq![')']);
    assert(s.subrange(a, a).len() == 0);
    assert(scan_on(opened(), s, a, a) == opened());
    lemma_closing_scan(s, a, a, seq![')'], j);
    assert forall|n: int| 0 <= n <= inner.len() implies (#[trigger] scan(
        opened(),
        inner.take(n),
    )).depth >= 1 && !in_comment(scan(opened(), inner.take(n))) by {
        assert(inner.take(n) == s.subrange(a, a + n));
        assert(scan_on(opened(), s, a, a + n).depth >= 1);
    }
    assert(!scope::comment_at(s, j));
}

proof fn lemma_brace_scan(t: Seq<char>, i: int, depth: int, m: int)
    requires
        0 <= i <= t.len(),
        stays_inside(t),
        scope::brace_from(t, i, depth) == Some(m),
        scan(opened(), t.take(i)).place is Code,
        scan(opened(), t.take(i)).depth == depth + 1,
    ensures
        i <= m < t.len(),
        t[m] == '{',
        scan(opened(), t.take(m)).place is Code,
        scan(opened(), t.take(m)).depth == 1,
    decreases t.len() - i,
{
    assert forall|k: int| 0 <= k <= t.len() implies #[trigger] t.subrange(0, k) == t.take(k) by {}
    lemma_scan_on_step(opened(), t, 0, i);
    assert(t.subrange(0, i + 1) == t.take(i + 1));
    assert(t.subrange(0, i) == t.take(i));
    assert(!in_comment(scan(opened(), t.take(i + 1))));
    if scope::is_quote(t[i]) {
        let e = scope::literal_end(t, i + 1, t[i]);
        scope::lemma_literal_end(t, i + 1, t[i]);
        lemma_scan_literal(opened(), t, 0, i + 1, t[i], depth + 1);
        assert(t.subrange(0, e) == t.take(e));
        lemma_brace_scan(t, e, depth, m);
    } else if !(t[i] == '{' && depth == 0) {
        lemma_brace_scan(t, i + 1, depth + scope::nesting(t[i]), m);
    }
}

/// The inside of a node pattern with the scope label: its parts, each of which stays
/// inside, and the whole.
proof fn lemma_scoped_inner_stays(inner: Seq<char>, scope: Seq<char>)
    requires
        stays_inside(inner),
    ensures
        ({
            let labels = text::trim(inner.subrange(0, scope::map_start(inner)));
            let mark = ":"@ + scope::quoted_label(scope);
            let whole = scope::scoped_inner(inner, scope);
            &&& stays_inside(labels)
            &&& stays_inside(labels + mark)
            &&& stays_inside(whole)
            &&& whole.len() >= labels.len() + mark.len()
            &&& whole.take((labels + mark).len() as int) == labels + mark
        }),
{
    let m = scope::map_start(inner);
    let n = inner.len() as int;
    assert(inner.take(0).len() == 0);
    assert(scan(opened(), inner.take(0)) == opened());
    if let Some(k) = scope::brace_from(inner, 0, 0) {
        lemma_brace_scan(inner, 0, 0, k);
        assert(inner.skip(k)[0] == '{');
    } else {
        assert(inner.take(n) == inner);
        assert(inner.skip(n).len() == 0);
    }
    lemma_stays_front(inner, m);
    lemma_stays_back(inner, m);
    assert(inner.subrange(0, m) == inner.take(m));
    assert(inner.subrange(m, n) == inner.skip(m));
    let labels = text::trim(inner.subrange(0, m));
    let map = text::trim(inner.subrange(m, n));
    lemma_stays_trim(inner.take(m));
    lemma_stays_trim(inner.skip(m));
    let mark = ":"@ + scope::quoted_label(scope);
    reveal_strlit(":");
    reveal_strlit(" ");
    lemma_label_stays(scope);
    assert(mark[0] == ':');
    lemma_stays_add(labels, mark);
    let head = labels + mark;
    let whole = scope::scoped_inner(inner, scope);
    assert(labels + ":"@ + scope::quoted_label(scope) == head);
    if map.len() == 0 {
        assert(head + map == head);
        assert(whole == head);
    } else {
        let blank = " "@;
        assert(blank == seq![' ']);
        lemma_one_stays(' ');
        lemma_map_first(inner.skip(m));
        lemma_stays_add(blank, map);
        assert((blank + map)[0] == ' ');
        lemma_stays_add(head, blank + map);
        assert(whole == head + (blank + map));
    }
    assert(whole.take(head.len() as int) == head);
}

/// A property map begins with its brace.
proof fn lemma_map_first(t: Seq<char>)
    requires
        t.len() > 0 ==> t[0] == '{',
    ensures
        no_comment_first(text::trim(t)),
{
    let u = text::strip_start(t, Class::White);
    assert(u == t);
    lemma_strip_end_first(u);
}

proof fn lemma_strip_end_first(t: Seq<char>)
    ensures
        text::strip_end(t, Class::White).len() > 0 ==> t.len() > 0 && text::strip_end(
            t,
            Class::White,
        )[0] == t[0],
    decreases t.len(),
{
    if t.len() > 0 && text::is_white(t.last()) {
        lemma_strip_end_first(t.drop_last());
    }
}

// ---------------------------------------------------------------------------
// Pieces
// ---------------------------------------------------------------------------

/// A piece as it stands in a statement: with a label in it, or without.
pub open spec fn shown(p: Piece, label: Option<Seq<char>>) -> Seq<char> {
    match label {
        Some(l) => p.scoped(l),
        None => p.source(),
    }
}

/// Pieces one after the other.
pub open spec fn shown_text(ps: Seq<Piece>, label: Option<Seq<char>>) -> Seq<char> {
    match label {
        Some(l) => scope::scoped_text(ps, l),
        None => scope::source_text(ps),
    }
}

/// A node pattern among the pieces begins after `n` characters.
pub open spec fn node_begins(ps: Seq<Piece>, label: Option<Seq<char>>, n: int) -> bool {
    exists|k: int| #[trigger] node_begins_with(ps, label, n, k)
}

/// The piece `k` is a node pattern, and `n` characters stand before it.
pub open spec fn node_begins_with(
    ps: Seq<Piece>,
    label: Option<Seq<char>>,
    n: int,
    k: int,
) -> bool {
    0 <= k < ps.len() && ps[k] is Node && shown_text(ps.take(k), label).len() == n
}

proof fn lemma_scoped_text_add(a: Seq<Piece>, b: Seq<Piece>, scope: Seq<char>)
    ensures
        scope::scoped_text(a + b, scope) == scope::scoped_text(a, scope) + scope::scoped_text(
            b,
            scope,
        ),
    decreases b.len(),
{
    let whole = scope::scoped_text(a, scope);
    if b.len() == 0 {
        assert(a + b == a);
        assert(whole + scope::scoped_text(b, scope) == whole);
    } else {
        let front = scope::scoped_text(b.drop_last(), scope);
        lemma_scoped_text_add(a, b.drop_last(), scope);
        assert((a + b).drop_last() == a + b.drop_last());
        assert((a + b).last() == b.last());
        assert(whole + (front + b.last().scoped(scope)) == whole + front + b.last().scoped(scope));
    }
}

proof fn lemma_shown_ahead(p: Piece, ps: Seq<Piece>, label: Option<Seq<char>>)
    ensures
        shown_text(seq![p] + ps, label) == shown(p, label) + shown_text(ps, label),
{
    match label {
        Some(l) => {
            lemma_scoped_text_add(seq![p], ps, l);
            assert(seq![p].drop_last() == Seq::<Piece>::empty());
            assert(scope::scoped_text(seq![p].drop_last(), l) == Seq::<char>::empty());
            assert(scope::scoped_text(seq![p], l) == p.scoped(l));
        },
        None => {
            scope::lemma_source_text_ahead(p, ps);
        },
    }
}

proof fn lemma_node_begins_ahead(p: Piece, ps: Seq<Piece>, label: Option<Seq<char>>, n: int)
    requires
        n >= 0,
        shown(p, label).len() > 0,
    ensures
        node_begins(seq![p] + ps, label, n) <==> if n == 0 {
            p is Node
        } else {
            node_begins(ps, label, n - shown(p, label).len())
        },
{
    let all = seq![p] + ps;
    let len = shown(p, label).len() as int;
    assert(shown_text(all.take(0), label).len() == 0) by {
        assert(all.take(0) == Seq::<Piece>::empty());
    }
    assert forall|k: int| 0 <= k < ps.len() implies shown_text(#[trigger] all.take(k + 1), label).len()
        == len + shown_text(ps.take(k), label).len() by {
        assert(all.take(k + 1) == seq![p] + ps.take(k));
        lemma_shown_ahead(p, ps.take(k), label);
    }
    if node_begins(all, label, n) {
        let k = choose|k: int| #[trigger] node_begins_with(all, label, n, k);
        if k > 0 {
            assert(all.take(k - 1 + 1) == all.take(k));
            assert(all[k] == ps[k - 1]);
            assert(node_begins_with(ps, label, n - len, k - 1));
        }
    }
    if n == 0 && p is Node {
        assert(node_begins_with(all, label, n, 0));
    }
    if n != 0 && node_begins(ps, label, n - len) {
        let k = choose|k: int| #[trigger] node_begins_with(ps, label, n - len, k);
        assert(all[k + 1] == ps[k]);
        assert(node_begins_with(all, label, n, k + 1));
    }
}

/// The first of two parts of a text, and what follows it.
proof fn lemma_first_part(out: Seq<char>, k: int, t: Seq<char>, tail: Seq<char>)
    requires
        0 <= k <= out.len(),
        out.skip(k) == t + tail,
    ensures
        k + t.len() <= out.len(),
        out.subrange(k, k + t.len()) == t,
        out.skip(k + t.len()) == tail,
        forall|n: int| 0 <= n < t.len() ==> out[k + n] == #[trigger] t[n],
{
    let n = t.len() as int;
    let rest = out.skip(k);
    assert(rest.len() == n + tail.len());
    assert(out.subrange(k, k + n) == rest.take(n));
    assert(rest.take(n) == t);
    assert(out.skip(k + n) == rest.skip(n));
    assert(rest.skip(n) == tail);
    assert forall|n: int| 0 <= n < t.len() implies out[k + n] == #[trigger] t[n] by {
        assert(rest[n] == out[k + n]);
    }
}

/// What is shown goes on with the character that the statement goes on with.
proof fn lemma_same_first(
    s: Seq<char>,
    i: int,
    clause: Clause,
    depth: int,
    begins: bool,
    label: Option<Seq<char>>,
)
    requires
        0 <= i <= s.len(),
        scope::pieces_from(s, i, clause, depth, begins) is Ok,
    ensures
        ({
            let t = shown_text(scope::pieces_from(s, i, clause, depth, begins)->Ok_0, label);
            if i < s.len() {
                t.len() > 0 && t[0] == s[i]
            } else {
                t.len() == 0
            }
        }),
{
    if i < s.len() {
        if scope::is_quote(s[i]) {
            let end = scope::literal_end(s, i + 1, s[i]);
            scope::lemma_literal_end(s, i + 1, s[i]);
            let p = Piece::Verbatim(s.subrange(i, end));
            lemma_shown_ahead(p, scope::pieces_from(s, end, clause, depth, true)->Ok_0, label);
            assert(shown(p, label)[0] == s[i]);
        } else if s[i] == '(' && clause == Clause::Match && depth == 0 {
            let inner = scope::node_at(s, i)->Ok_0;
            let p = Piece::Node(inner);
            let rest = scope::pieces_from(s, i + 2 + inner.len(), clause, depth, true)->Ok_0;
            lemma_shown_ahead(p, rest, label);
            assert(shown(p, label)[0] == '(');
        } else if text::is_ident(s[i]) && depth == 0 {
            let end = text::word_end(s, i);
            text::lemma_word_end(s, i);
            let p = Piece::Verbatim(s.subrange(i, end));
            let after = scope::clause_at(s, i, end, clause, begins)->Ok_0;
            lemma_shown_ahead(p, scope::pieces_from(s, end, after, depth, true)->Ok_0, label);
            assert(end > i);
            assert(shown(p, label)[0] == s[i]);
        } else {
            let p = Piece::Verbatim(seq![s[i]]);
            let d = depth + scope::nesting(s[i]);
            let b = scope::can_begin_after(s[i], begins);
            lemma_shown_ahead(p, scope::pieces_from(s, i + 1, clause, d, b)->Ok_0, label);
            assert(shown(p, label)[0] == s[i]);
        }
    }
}

/// What is shown goes on, white space aside, as the statement does.
proof fn lemma_same_next(
    s: Seq<char>,
    i: int,
    clause: Clause,
    depth: int,
    begins: bool,
    label: Option<Seq<char>>,
    out: Seq<char>,
    k: int,
)
    requires
        0 <= i <= s.len(),
        0 <= k <= out.len(),
        scope::oddity_from(s, i) is None,
        scope::pieces_from(s, i, clause, depth, begins) is Ok,
        out.skip(k) == shown_text(scope::pieces_from(s, i, clause, depth, begins)->Ok_0, label),
    ensures
        scope::next_char(s, i) == scope::next_char(out, k),
    decreases s.len() - i,
{
    lemma_same_first(s, i, clause, depth, begins, label);
    if i == s.len() {
        assert(out.skip(k).len() == 0);
    } else {
        assert(out.skip(k)[0] == out[k]);
        if text::is_white(s[i]) {
            assert(!text::is_ident(s[i]));
            let p = Piece::Verbatim(seq![s[i]]);
            let d = depth + scope::nesting(s[i]);
            let b = scope::can_begin_after(s[i], begins);
            let rest = scope::pieces_from(s, i + 1, clause, d, b)->Ok_0;
            lemma_shown_ahead(p, rest, label);
            lemma_first_part(out, k, shown(p, label), shown_text(rest, label));
            lemma_same_next(s, i + 1, clause, d, b, label, out, k + 1);
        }
    }
}

/// A literal of one text ends in another, which holds the same characters, at the
/// same place.
proof fn lemma_literal_moved(s: Seq<char>, i: int, out: Seq<char>, k: int, q: char)
    requires
        0 <= i <= s.len(),
        0 <= k <= out.len(),
        k + scope::literal_end(s, i, q) - i <= out.len(),
        s.subrange(i, scope::literal_end(s, i, q)) == out.subrange(
            k,
            k + scope::literal_end(s, i, q) - i,
        ),
        scope::literal_end(s, i, q) == s.len() ==> out.len() == k + s.len() - i,
    ensures
        scope::literal_end(out, k, q) == k + scope::literal_end(s, i, q) - i,
    decreases s.len() - i,
{
    let e = scope::literal_end(s, i, q);
    scope::lemma_literal_end(s, i, q);
    if i < s.len() {
        assert(s.subrange(i, e)[0] == s[i]);
        assert(out.subrange(k, k + e - i)[0] == out[k]);
        if s[i] == '\\' && q != '`' {
            if i + 1 < s.len() {
                scope::lemma_literal_end(s, i + 2, q);
                assert(s.subrange(i + 2, e) == s.subrange(i, e).skip(2));
                assert(out.subrange(k + 2, k + e - i) == out.subrange(k, k + e - i).skip(2));
                lemma_literal_moved(s, i + 2, out, k + 2, q);
            }
        } else if s[i] != q {
            scope::lemma_literal_end(s, i + 1, q);
            assert(s.subrange(i + 1, e) == s.subrange(i, e).skip(1));
            assert(out.subrange(k + 1, k + e - i) == out.subrange(k, k + e - i).skip(1));
            lemma_literal_moved(s, i + 1, out, k + 1, q);
        }
    }
}

proof fn lemma_word_moved(s: Seq<char>, i: int, out: Seq<char>, k: int)
    requires
        0 <= i <= s.len(),
        0 <= k,
        k + text::word_end(s, i) - i <= out.len(),
        s.subrange(i, text::word_end(s, i)) == out.subrange(k, k + text::word_end(s, i) - i),
        k + text::word_end(s, i) - i < out.len() ==> !text::is_ident(
            out[k + text::word_end(s, i) - i],
        ),
    ensures
        text::word_end(out, k) == k + text::word_end(s, i) - i,
    decreases s.len() - i,
{
    let e = text::word_end(s, i);
    if i < s.len() && text::is_ident(s[i]) {
        text::lemma_word_end(s, i);
        assert(s.subrange(i, e)[0] == s[i]);
        assert(out.subrange(k, k + e - i)[0] == out[k]);
        assert(s.subrange(i + 1, e) == s.subrange(i, e).skip(1));
        assert(out.subrange(k + 1, k + e - i) == out.subrange(k, k + e - i).skip(1));
        lemma_word_moved(s, i + 1, out, k + 1);
    }
}

// ---------------------------------------------------------------------------
// Reading pieces
// ---------------------------------------------------------------------------

/// The reading of `out` stands in code at `k`, and no comment opens there.
pub open spec fn stands(out: Seq<char>, k: int, depth: int) -> bool {
    let at = scan_at(out, k);
    &&& at.place is Code
    &&& at.depth == depth
    &&& at.slash && k < out.len() ==> out[k] != '/' && out[k] != '*'
}

proof fn lemma_read_literal(out: Seq<char>, k: int, depth: int)
    requires
        0 <= k < out.len(),
        stands(out, k, depth),
        scope::is_quote(out[k]),
    ensures
        ({
            let e = scope::literal_end(out, k + 1, out[k]);
            &&& k < e <= out.len()
            &&& forall|m: int| k < m < e ==> in_literal(#[trigger] scan_at(out, m))
            &&& !in_comment(scan_at(out, e))
            &&& e < out.len() ==> stands(out, e, depth) && out[e - 1] == out[k] && e > k + 1
        }),
{
    let e = scope::literal_end(out, k + 1, out[k]);
    lemma_scan_step(out, k);
    scope::lemma_literal_end(out, k + 1, out[k]);
    assert forall|m: int| 0 <= m <= out.len() implies scan_on(start(), out, 0, m) == #[trigger] scan_at(
        out,
        m,
    ) by {
        assert(out.subrange(0, m) == out.take(m));
    }
    assert(scan_on(start(), out, 0, k + 1) == scan_at(out, k + 1));
    lemma_scan_literal(start(), out, 0, k + 1, out[k], depth);
    assert forall|m: int| k < m < e implies in_literal(#[trigger] scan_at(out, m)) by {
        assert(in_literal(scan_on(start(), out, 0, m)));
    }
    assert(scan_on(start(), out, 0, e) == scan_at(out, e));
}

proof fn lemma_read_word(out: Seq<char>, k: int, end: int, depth: int)
    requires
        0 <= k < end <= out.len(),
        stands(out, k, depth),
        forall|m: int| k <= m < end ==> text::is_ident(#[trigger] out[m]),
    ensures
        forall|m: int|
            k <= m <= end ==> (#[trigger] scan_at(out, m)).place is Code && scan_at(out, m).depth
                == depth,
        !scan_at(out, end).slash,
    decreases end - k,
{
    lemma_scan_step(out, k);
    assert(text::is_ident(out[k]));
    if k + 1 < end {
        assert(text::is_ident(out[k + 1]));
        lemma_read_word(out, k + 1, end, depth);
    }
}

proof fn lemma_read_node(out: Seq<char>, k: int, t: Seq<char>)
    requires
        0 <= k,
        k + t.len() + 2 <= out.len(),
        stands(out, k, 0),
        out[k] == '(',
        out.subrange(k + 1, k + 1 + t.len()) == t,
        out[k + 1 + t.len()] == ')',
        stays_inside(t),
    ensures
        forall|n: int|
            0 <= n <= t.len() ==> #[trigger] scan_at(out, k + 1 + n) == scan(opened(), t.take(n)),
        forall|m: int|
            k < m <= k + 1 + t.len() ==> (#[trigger] scan_at(out, m)).depth >= 1 && !in_comment(
                scan_at(out, m),
            ),
        scan_at(out, k + t.len() + 2) == (Scan { place: Place::Code, depth: 0, slash: false }),
{
    lemma_scan_step(out, k);
    assert(scan_at(out, k + 1) == opened());
    assert forall|n: int| 0 <= n <= t.len() implies #[trigger] scan_at(out, k + 1 + n) == scan(
        opened(),
        t.take(n),
    ) by {
        assert(t.take(n) == out.subrange(k + 1, k + 1 + n));
        assert(out.take(k + 1 + n) == out.take(k + 1) + t.take(n));
        lemma_scan_add(start(), out.take(k + 1), t.take(n));
    }
    assert forall|m: int| k < m <= k + 1 + t.len() implies (#[trigger] scan_at(out, m)).depth >= 1
        && !in_comment(scan_at(out, m)) by {
        let n = m - k - 1;
        assert(scan_at(out, k + 1 + n) == scan(opened(), t.take(n)));
    }
    let n = t.len() as int;
    assert(t.take(n) == t);
    assert(scan_at(out, k + 1 + n) == scan(opened(), t));
    lemma_scan_step(out, k + 1 + n);
}

/// The label stands in a rewritten node.
proof fn lemma_read_label(out: Seq<char>, k: int, inner: Seq<char>, scope: Seq<char>)
    requires
        0 <= k,
        stays_inside(inner),
        ({
            let t = scope::scoped_inner(inner, scope);
            &&& k + t.len() + 2 <= out.len()
            &&& out.subrange(k + 1, k + 1 + t.len()) == t
            &&& node_closes(out, k, k + 1 + t.len())
            &&& forall|n: int|
                0 <= n <= t.len() ==> #[trigger] scan_at(out, k + 1 + n) == scan(
                    opened(),
                    t.take(n),
                )
        }),
    ensures
        is_labelled(out, scope, k),
{
    lemma_scoped_inner_stays(inner, scope);
    let t = scope::scoped_inner(inner, scope);
    let n = t.len() as int;
    let labels = text::trim(inner.subrange(0, scope::map_start(inner)));
    let mark = ":"@ + scope::quoted_label(scope);
    let a = labels.len() as int;
    let b = mark.len() as int;
    let at = k + 1 + a;
    let both = labels + mark;
    reveal_strlit(":");
    assert(t.take(a + b) == both);
    assert(t.take(a) == labels) by {
        assert(t.take(a + b).take(a) == t.take(a));
        assert(both.take(a) == labels);
    }
    assert(scan_at(out, k + 1 + a) == scan(opened(), labels));
    assert(scan_at(out, k + 1 + (a + b)) == scan(opened(), both));
    assert(out.subrange(at, at + b) == mark) by {
        assert(out.subrange(k + 1, k + 1 + n).subrange(a, a + b) == out.subrange(at, at + b));
        assert(t.subrange(a, a + b) == t.take(a + b).subrange(a, a + b));
        assert(both.subrange(a, a + b) == mark);
    }
    assert(at + b == k + 1 + (a + b));
    assert(label_stands(out, scope, k, k + 1 + n, at));
}

/// No comment opens in what is shown of a statement that has none.
#[verifier::rlimit(40)]
#[verifier::spinoff_prover]
proof fn lemma_calm(
    s: Seq<char>,
    i: int,
    clause: Clause,
    depth: int,
    begins: bool,
    label: Option<Seq<char>>,
    out: Seq<char>,
    k: int,
)
    requires
        0 <= i <= s.len(),
        0 <= k <= out.len(),
        scope::oddity_from(s, i) is None,
        scope::pieces_from(s, i, clause, depth, begins) is Ok,
        out.skip(k) == shown_text(scope::pieces_from(s, i, clause, depth, begins)->Ok_0, label),
        stands(out, k, depth),
    ensures
        forall|m: int| k <= m <= out.len() ==> !in_comment(#[trigger] scan_at(out, m)),
    decreases s.len() - i,
{
    lemma_same_first(s, i, clause, depth, begins, label);
    if i == s.len() {
        assert(out.skip(k).len() == 0);
    } else {
        assert(out.skip(k)[0] == out[k]);
        if scope::is_quote(s[i]) {
            let end = scope::literal_end(s, i + 1, s[i]);
            lemma_literal_piece(s, i, clause, depth, begins, label, out, k);
            lemma_read_literal(out, k, depth);
            if end < s.len() {
                lemma_calm(s, end, clause, depth, true, label, out, k + end - i);
            }
        } else if s[i] == '(' && clause == Clause::Match && depth == 0 {
            let inner = scope::node_at(s, i)->Ok_0;
            lemma_node_piece(s, i, begins, label, out, k);
            let t = inside(inner, label);
            lemma_read_node(out, k, t);
            lemma_calm(
                s,
                i + 2 + inner.len(),
                clause,
                depth,
                true,
                label,
                out,
                k + t.len() + 2,
            );
        } else if text::is_ident(s[i]) && depth == 0 {
            let end = text::word_end(s, i);
            let after = scope::clause_at(s, i, end, clause, begins)->Ok_0;
            lemma_word_piece(s, i, clause, begins, label, out, k);
            lemma_read_word(out, k, k + end - i, depth);
            lemma_calm(s, end, after, depth, true, label, out, k + end - i);
        } else {
            let d = depth + scope::nesting(s[i]);
            let b = scope::can_begin_after(s[i], begins);
            lemma_char_piece(s, i, clause, depth, begins, label, out, k);
            lemma_calm(s, i + 1, clause, d, b, label, out, k + 1);
        }
    }
}

/// What stands between the brackets of a node pattern that is shown.
pub open spec fn inside(inner: Seq<char>, label: Option<Seq<char>>) -> Seq<char> {
    match label {
        Some(l) => scope::scoped_inner(inner, l),
        None => inner,
    }
}

proof fn lemma_literal_piece(
    s: Seq<char>,
    i: int,
    clause: Clause,
    depth: int,
    begins: bool,
    label: Option<Seq<char>>,
    out: Seq<char>,
    k: int,
)
    requires
        0 <= i < s.len(),
        0 <= k <= out.len(),
        scope::is_quote(s[i]),
        scope::oddity_from(s, i) is None,
        scope::pieces_from(s, i, clause, depth, begins) is Ok,
        out.skip(k) == shown_text(scope::pieces_from(s, i, clause, depth, begins)->Ok_0, label),
    ensures
        ({
            let end = scope::literal_end(s, i + 1, s[i]);
            let rest = scope::pieces_from(s, end, clause, depth, true);
            &&& i < end <= s.len()
            &&& k < out.len() && out[k] == s[i]
            &&& scope::literal_end(out, k + 1, out[k]) == k + end - i
            &&& k + end - i <= out.len()
            &&& end == s.len() <==> k + end - i == out.len()
            &&& scope::oddity_from(s, end) is None
            &&& rest is Ok
            &&& scope::pieces_from(s, i, clause, depth, begins)->Ok_0 == seq![
                Piece::Verbatim(s.subrange(i, end)),
            ] + rest->Ok_0
            &&& out.skip(k + end - i) == shown_text(rest->Ok_0, label)
        }),
{
    let end = scope::literal_end(s, i + 1, s[i]);
    scope::lemma_literal_end(s, i + 1, s[i]);
    let p = Piece::Verbatim(s.subrange(i, end));
    let rest = scope::pieces_from(s, end, clause, depth, true)->Ok_0;
    lemma_shown_ahead(p, rest, label);
    lemma_first_part(out, k, s.subrange(i, end), shown_text(rest, label));
    lemma_same_first(s, end, clause, depth, true, label);
    let n = end - i;
    assert(s.subrange(i, end)[0] == s[i]);
    assert(out[k + 0] == s[i]);
    assert(out.skip(k + n).len() == out.len() - k - n);
    assert(s.subrange(i + 1, end) == s.subrange(i, end).skip(1));
    assert(out.subrange(k + 1, k + n) == out.subrange(k, k + n).skip(1));
    lemma_literal_moved(s, i + 1, out, k + 1, s[i]);
}

proof fn lemma_node_piece(
    s: Seq<char>,
    i: int,
    begins: bool,
    label: Option<Seq<char>>,
    out: Seq<char>,
    k: int,
)
    requires
        0 <= i < s.len(),
        0 <= k <= out.len(),
        s[i] == '(',
        scope::oddity_from(s, i) is None,
        scope::pieces_from(s, i, Clause::Match, 0, begins) is Ok,
        out.skip(k) == shown_text(scope::pieces_from(s, i, Clause::Match, 0, begins)->Ok_0, label),
    ensures
        scope::node_at(s, i) is Ok,
        ({
            let inner = scope::node_at(s, i)->Ok_0;
            let next = i + 2 + inner.len();
            let t = inside(inner, label);
            let rest = scope::pieces_from(s, next, Clause::Match, 0, true);
            &&& next <= s.len()
            &&& k + t.len() + 2 <= out.len()
            &&& out[k] == '('
            &&& out.subrange(k + 1, k + 1 + t.len()) == t
            &&& out[k + 1 + t.len()] == ')'
            &&& stays_inside(inner)
            &&& stays_inside(t)
            &&& scope::oddity_from(s, next) is None
            &&& rest is Ok
            &&& scope::pieces_from(s, i, Clause::Match, 0, begins)->Ok_0 == seq![Piece::Node(inner)]
                + rest->Ok_0
            &&& shown(Piece::Node(inner), label).len() == t.len() + 2
            &&& out.skip(k + t.len() + 2) == shown_text(rest->Ok_0, label)
        }),
{
    let inner = scope::node_at(s, i)->Ok_0;
    let p = Piece::Node(inner);
    let t = inside(inner, label);
    let n = t.len() as int;
    let next = i + 2 + inner.len();
    let rest = scope::pieces_from(s, next, Clause::Match, 0, true)->Ok_0;
    scope::lemma_closing(s, i + 1, seq![')']);
    let j = scope::closing(s, i + 1, seq![')'])->0;
    lemma_node_inside(s, i, j);
    match label {
        Some(l) => {
            lemma_scoped_inner_stays(inner, l);
        },
        None => {},
    }
    let whole = seq!['('] + t + seq![')'];
    assert(shown(p, label) == whole);
    lemma_shown_ahead(p, rest, label);
    lemma_first_part(out, k, whole, shown_text(rest, label));
    assert(whole[0] == '(' && whole[n + 1] == ')');
    assert(out[k + 0] == '(' && out[k + (n + 1)] == ')');
    assert(out.subrange(k + 1, k + 1 + n) == t) by {
        assert(out.subrange(k, k + n + 2).subrange(1, n + 1) == out.subrange(k + 1, k + 1 + n));
        assert(whole.subrange(1, n + 1) == t);
    }
}

proof fn lemma_word_piece(
    s: Seq<char>,
    i: int,
    clause: Clause,
    begins: bool,
    label: Option<Seq<char>>,
    out: Seq<char>,
    k: int,
)
    requires
        0 <= i < s.len(),
        0 <= k <= out.len(),
        text::is_ident(s[i]),
        scope::oddity_from(s, i) is None,
        scope::pieces_from(s, i, clause, 0, begins) is Ok,
        out.skip(k) == shown_text(scope::pieces_from(s, i, clause, 0, begins)->Ok_0, label),
    ensures
        ({
            let end = text::word_end(s, i);
            let after = scope::clause_at(s, i, end, clause, begins);
            let rest = scope::pieces_from(s, end, after->Ok_0, 0, true);
            &&& i < end <= s.len()
            &&& k + end - i <= out.len()
            &&& after is Ok
            &&& text::word_end(out, k) == k + end - i
            &&& out.subrange(k, k + end - i) == s.subrange(i, end)
            &&& forall|m: int|
                k <= m < k + end - i ==> text::is_ident(#[trigger] out[m]) && !text::is_white(
                    out[m],
                )
            &&& k + end - i < out.len() ==> !text::is_ident(out[k + end - i])
            &&& scope::next_char(out, k + end - i) == scope::next_char(s, end)
            &&& scope::oddity_from(s, end) is None
            &&& rest is Ok
            &&& scope::pieces_from(s, i, clause, 0, begins)->Ok_0 == seq![
                Piece::Verbatim(s.subrange(i, end)),
            ] + rest->Ok_0
            &&& out.skip(k + end - i) == shown_text(rest->Ok_0, label)
        }),
{
    let end = text::word_end(s, i);
    text::lemma_word_end(s, i);
    let n = end - i;
    let word = s.subrange(i, end);
    let after = scope::clause_at(s, i, end, clause, begins)->Ok_0;
    let p = Piece::Verbatim(word);
    lemma_ident_is_no_quote(s[i]);
    let rest = scope::pieces_from(s, end, after, 0, true)->Ok_0;
    lemma_shown_ahead(p, rest, label);
    lemma_first_part(out, k, word, shown_text(rest, label));
    lemma_same_first(s, end, after, 0, true, label);
    assert(k + n < out.len() ==> !text::is_ident(out[k + n])) by {
        if k + n < out.len() {
            assert(out.skip(k + n)[0] == out[k + n]);
        }
    }
    lemma_oddity_word(s, i, end);
    assert forall|m: int| k <= m < k + n implies text::is_ident(#[trigger] out[m])
        && !text::is_white(out[m]) by {
        assert(out[k + (m - k)] == word[m - k]);
        assert(word[m - k] == s[i + (m - k)]);
    }
    lemma_word_moved(s, i, out, k);
    lemma_same_next(s, end, after, 0, true, label, out, k + n);
}

proof fn lemma_ident_is_no_quote(c: char)
    requires
        text::is_ident(c),
    ensures
        !scope::is_quote(c),
        scope::nesting(c) == 0,
        c != '/' && c != '(' && c != ')' && c != '*' && c != '=',
        text::is_ascii_char(c) ==> !text::is_white(c),
{
}

proof fn lemma_oddity_word(s: Seq<char>, i: int, end: int)
    requires
        0 <= i <= end <= s.len(),
        scope::oddity_from(s, i) is None,
        forall|m: int| i <= m < end ==> text::is_ident(#[trigger] s[m]),
    ensures
        scope::oddity_from(s, end) is None,
        forall|m: int| i <= m < end ==> !text::is_white(#[trigger] s[m]),
    decreases end - i,
{
    if i < end {
        lemma_ident_is_no_quote(s[i]);
        lemma_oddity_word(s, i + 1, end);
    }
}

proof fn lemma_char_piece(
    s: Seq<char>,
    i: int,
    clause: Clause,
    depth: int,
    begins: bool,
    label: Option<Seq<char>>,
    out: Seq<char>,
    k: int,
)
    requires
        0 <= i < s.len(),
        0 <= k <= out.len(),
        !scope::is_quote(s[i]),
        !(s[i] == '(' && clause == Clause::Match && depth == 0),
        !(text::is_ident(s[i]) && depth == 0),
        scope::oddity_from(s, i) is None,
        scope::pieces_from(s, i, clause, depth, begins) is Ok,
        out.skip(k) == shown_text(scope::pieces_from(s, i, clause, depth, begins)->Ok_0, label),
        stands(out, k, depth),
    ensures
        ({
            let d = depth + scope::nesting(s[i]);
            let b = scope::can_begin_after(s[i], begins);
            let rest = scope::pieces_from(s, i + 1, clause, d, b);
            &&& k < out.len() && out[k] == s[i]
            &&& stands(out, k + 1, d)
            &&& scope::oddity_from(s, i + 1) is None
            &&& rest is Ok
            &&& scope::pieces_from(s, i, clause, depth, begins)->Ok_0 == seq![
                Piece::Verbatim(seq![s[i]]),
            ] + rest->Ok_0
            &&& out.skip(k + 1) == shown_text(rest->Ok_0, label)
        }),
{
    let d = depth + scope::nesting(s[i]);
    let b = scope::can_begin_after(s[i], begins);
    let p = Piece::Verbatim(seq![s[i]]);
    let rest = scope::pieces_from(s, i + 1, clause, d, b)->Ok_0;
    lemma_shown_ahead(p, rest, label);
    lemma_first_part(out, k, seq![s[i]], shown_text(rest, label));
    assert(out[k + 0] == seq![s[i]][0]);
    lemma_same_first(s, i + 1, clause, d, b, label);
    lemma_scan_step(out, k);
    if k + 1 < out.len() {
        assert(out.skip(k + 1)[0] == out[k + 1]);
    }
    assert(!scope::comment_at(s, i));
}

/// A text without a comment.
pub open spec fn is_calm(out: Seq<char>) -> bool {
    forall|m: int| 0 <= m <= out.len() ==> !in_comment(#[trigger] scan_at(out, m))
}

proof fn lemma_calm_blank(out: Seq<char>, k: int)
    requires
        is_calm(out),
        0 <= k < out.len(),
    ensures
        is_blank(out, k) <==> scan_at(out, k).place is Code && text::is_white(out[k]),
{
    assert(!in_comment(scan_at(out, k)));
    assert(!in_comment(scan_at(out, k + 1)));
    if k + 2 <= out.len() {
        assert(!in_comment(scan_at(out, k + 2)));
    }
}

proof fn lemma_calm_next(out: Seq<char>, j: int)
    requires
        is_calm(out),
        0 <= j <= out.len(),
        scan_at(out, j).place is Code,
    ensures
        next_code(out, j) == scope::next_char(out, j),
    decreases out.len() - j,
{
    if j < out.len() {
        lemma_calm_blank(out, j);
        if text::is_white(out[j]) {
            lemma_scan_step(out, j);
            lemma_calm_next(out, j + 1);
        }
    }
}

/// Where no word begins, the patterns go on as they do.
proof fn lemma_patterns_go_on(out: Seq<char>, a: int, b: int)
    requires
        0 <= a <= b,
        forall|m: int| a <= m < b ==> !#[trigger] word_begins(out, m),
    ensures
        in_patterns(out, b) == in_patterns(out, a),
    decreases b - a,
{
    if a < b {
        lemma_patterns_go_on(out, a, b - 1);
        assert(!word_begins(out, b - 1));
    }
}

/// The node patterns of a part of a text are those of its pieces, and they have the
/// label.
pub open spec fn reads_as(
    out: Seq<char>,
    k: int,
    ps: Seq<Piece>,
    label: Option<Seq<char>>,
) -> bool {
    forall|m: int|
        k <= m < out.len() ==> {
            &&& #[trigger] node_opens(out, m) <==> node_begins(ps, label, m - k)
            &&& label matches Some(l) ==> node_opens(out, m) ==> is_labelled(out, l, m)
        }
}

/// One piece, and what follows it.
proof fn lemma_reads_ahead(
    out: Seq<char>,
    k: int,
    p: Piece,
    ps: Seq<Piece>,
    label: Option<Seq<char>>,
)
    requires
        0 <= k,
        shown(p, label).len() > 0,
        k + shown(p, label).len() <= out.len(),
        reads_as(out, k + shown(p, label).len(), ps, label),
        node_opens(out, k) <==> p is Node,
        label matches Some(l) ==> node_opens(out, k) ==> is_labelled(out, l, k),
        forall|m: int| k < m < k + shown(p, label).len() ==> !#[trigger] node_opens(out, m),
    ensures
        reads_as(out, k, seq![p] + ps, label),
{
    let n = shown(p, label).len() as int;
    assert forall|m: int| k <= m < out.len() implies {
        &&& #[trigger] node_opens(out, m) <==> node_begins(seq![p] + ps, label, m - k)
        &&& label matches Some(l) ==> node_opens(out, m) ==> is_labelled(out, l, m)
    } by {
        lemma_node_begins_ahead(p, ps, label, m - k);
        if k < m < k + n {
            assert(!node_opens(out, m));
            assert(!node_begins(ps, label, m - k - n));
        }
    }
}

proof fn lemma_walk_literal(
    s: Seq<char>,
    i: int,
    clause: Clause,
    depth: int,
    begins: bool,
    label: Option<Seq<char>>,
    out: Seq<char>,
    k: int,
)
    requires
        0 <= i < s.len(),
        0 <= k <= out.len(),
        scope::is_quote(s[i]),
        scope::oddity_from(s, i) is None,
        scope::pieces_from(s, i, clause, depth, begins) is Ok,
        out.skip(k) == shown_text(scope::pieces_from(s, i, clause, depth, begins)->Ok_0, label),
        is_calm(out),
        stands(out, k, depth),
    ensures
        ({
            let e = k + scope::literal_end(s, i + 1, s[i]) - i;
            &&& k < e <= out.len()
            &&& !node_opens(out, k)
            &&& forall|m: int| k < m < e ==> !#[trigger] node_opens(out, m)
            &&& in_patterns(out, e) == in_patterns(out, k)
            &&& e < out.len() ==> stands(out, e, depth) && can_begin(out, e) && !text::is_ident(
                out[e - 1],
            )
        }),
{
    lemma_literal_piece(s, i, clause, depth, begins, label, out, k);
    lemma_read_literal(out, k, depth);
    let e = k + scope::literal_end(s, i + 1, s[i]) - i;
    assert forall|m: int| k <= m < e implies !#[trigger] word_begins(out, m) by {
        if m > k {
            assert(in_literal(scan_at(out, m)));
        }
    }
    lemma_patterns_go_on(out, k, e);
    assert forall|m: int| k < m < e implies !#[trigger] node_opens(out, m) by {
        assert(in_literal(scan_at(out, m)));
    }
    if e < out.len() {
        assert(in_literal(scan_at(out, e - 1)));
        lemma_calm_blank(out, e - 1);
    }
}

proof fn lemma_walk_node(
    s: Seq<char>,
    i: int,
    begins: bool,
    label: Option<Seq<char>>,
    out: Seq<char>,
    k: int,
)
    requires
        0 <= i < s.len(),
        0 <= k <= out.len(),
        s[i] == '(',
        scope::oddity_from(s, i) is None,
        scope::pieces_from(s, i, Clause::Match, 0, begins) is Ok,
        out.skip(k) == shown_text(scope::pieces_from(s, i, Clause::Match, 0, begins)->Ok_0, label),
        is_calm(out),
        stands(out, k, 0),
        in_patterns(out, k),
    ensures
        ({
            let e = k + inside(scope::node_at(s, i)->Ok_0, label).len() + 2;
            &&& e <= out.len()
            &&& node_opens(out, k)
            &&& label matches Some(l) ==> is_labelled(out, l, k)
            &&& forall|m: int| k < m < e ==> !#[trigger] node_opens(out, m)
            &&& in_patterns(out, e)
            &&& stands(out, e, 0)
            &&& can_begin(out, e)
            &&& !text::is_ident(out[e - 1])
        }),
{
    lemma_node_piece(s, i, begins, label, out, k);
    let inner = scope::node_at(s, i)->Ok_0;
    let t = inside(inner, label);
    let n = t.len() as int;
    let e = k + n + 2;
    lemma_read_node(out, k, t);
    assert forall|m: int| k <= m < e implies !#[trigger] word_begins(out, m) by {
        if m > k {
            assert(scan_at(out, m).depth >= 1);
        }
    }
    lemma_patterns_go_on(out, k, e);
    assert forall|m: int| k < m < e implies !#[trigger] node_opens(out, m) by {
        assert(scan_at(out, m).depth >= 1);
    }
    assert(t.take(n) == t);
    assert(scan_at(out, k + 1 + n) == scan(opened(), t));
    lemma_calm_blank(out, e - 1);
    assert(node_closes(out, k, k + 1 + n));
    if let Some(l) = label {
        lemma_read_label(out, k, inner, l);
    }
}

proof fn lemma_walk_word(
    s: Seq<char>,
    i: int,
    clause: Clause,
    begins: bool,
    label: Option<Seq<char>>,
    out: Seq<char>,
    k: int,
)
    requires
        0 <= i < s.len(),
        0 <= k <= out.len(),
        text::is_ident(s[i]),
        scope::oddity_from(s, i) is None,
        scope::pieces_from(s, i, clause, 0, begins) is Ok,
        out.skip(k) == shown_text(scope::pieces_from(s, i, clause, 0, begins)->Ok_0, label),
        is_calm(out),
        stands(out, k, 0),
        can_begin(out, k) == begins,
        in_patterns(out, k) == (clause == Clause::Match),
        0 < k < out.len() && text::is_ident(out[k]) ==> !text::is_ident(out[k - 1]),
    ensures
        ({
            let end = text::word_end(s, i);
            let e = k + end - i;
            &&& k < e <= out.len()
            &&& forall|m: int| k <= m < e ==> !#[trigger] node_opens(out, m)
            &&& in_patterns(out, e) == (scope::clause_at(s, i, end, clause, begins)->Ok_0
                == Clause::Match)
            &&& stands(out, e, 0)
            &&& can_begin(out, e)
            &&& e < out.len() ==> !text::is_ident(out[e])
        }),
{
    let end = text::word_end(s, i);
    let e = k + end - i;
    lemma_word_piece(s, i, clause, begins, label, out, k);
    lemma_read_word(out, k, e, 0);
    assert(text::is_ident(out[k]));
    assert(scan_at(out, k).place is Code);
    assert(word_begins(out, k));
    lemma_calm_next(out, e);
    assert(after_word(out, k) == scope::next_char(s, end));
    assert(word_of(out, k) == text::upper(s.subrange(i, end)));
    assert(in_patterns(out, k + 1) == (scope::clause_at(s, i, end, clause, begins)->Ok_0
        == Clause::Match));
    assert forall|m: int| k + 1 <= m < e implies !#[trigger] word_begins(out, m) by {
        assert(text::is_ident(out[m - 1]));
    }
    lemma_patterns_go_on(out, k + 1, e);
    assert forall|m: int| k <= m < e implies !#[trigger] node_opens(out, m) by {
        assert(text::is_ident(out[m]));
        lemma_ident_is_no_quote(out[m]);
    }
    assert(text::is_ident(out[e - 1]) && !text::is_white(out[e - 1]));
    assert(scan_at(out, e - 1).place is Code);
    lemma_calm_blank(out, e - 1);
}

/// A statement and what is shown of it are read in step from `i` and from `k` on.
#[verifier::opaque]
pub open spec fn in_step(
    s: Seq<char>,
    i: int,
    clause: Clause,
    depth: int,
    begins: bool,
    label: Option<Seq<char>>,
    out: Seq<char>,
    k: int,
) -> bool {
    &&& 0 <= i <= s.len()
    &&& 0 <= k <= out.len()
    &&& scope::oddity_from(s, i) is None
    &&& scope::pieces_from(s, i, clause, depth, begins) is Ok
    &&& out.skip(k) == shown_text(scope::pieces_from(s, i, clause, depth, begins)->Ok_0, label)
    &&& stands(out, k, depth)
    &&& can_begin(out, k) == begins
    &&& in_patterns(out, k) == (clause == Clause::Match)
    &&& depth == 0 && 0 < k < out.len() && text::is_ident(out[k]) ==> !text::is_ident(out[k - 1])
}

/// The node patterns from `k` on are those of the pieces from `i` on.
#[verifier::opaque]
pub open spec fn reads_on(
    s: Seq<char>,
    i: int,
    clause: Clause,
    depth: int,
    begins: bool,
    label: Option<Seq<char>>,
    out: Seq<char>,
    k: int,
) -> bool {
    reads_as(out, k, scope::pieces_from(s, i, clause, depth, begins)->Ok_0, label)
}

proof fn lemma_step_literal(
    s: Seq<char>,
    i: int,
    clause: Clause,
    depth: int,
    begins: bool,
    label: Option<Seq<char>>,
    out: Seq<char>,
    k: int,
)
    requires
        is_calm(out),
        i < s.len(),
        scope::is_quote(s[i]),
        in_step(s, i, clause, depth, begins, label, out, k),
    ensures
        ({
            let end = scope::literal_end(s, i + 1, s[i]);
            let e = k + end - i;
            &&& i < end <= s.len()
            &&& end < s.len() ==> in_step(s, end, clause, depth, true, label, out, e)
            &&& (end < s.len() ==> reads_on(s, end, clause, depth, true, label, out, e))
                ==> reads_on(s, i, clause, depth, begins, label, out, k)
        }),
{
    reveal(in_step);
    reveal(reads_on);
    let end = scope::literal_end(s, i + 1, s[i]);
    let e = k + end - i;
    scope::lemma_literal_end(s, i + 1, s[i]);
    lemma_literal_piece(s, i, clause, depth, begins, label, out, k);
    lemma_walk_literal(s, i, clause, depth, begins, label, out, k);
    let rest = scope::pieces_from(s, end, clause, depth, true)->Ok_0;
    lemma_same_first(s, end, clause, depth, true, label);
    if end < s.len() {
        assert(out.skip(e)[0] == out[e]);
    } else {
        assert(out.skip(e).len() == 0);
        assert(reads_as(out, e, rest, label));
    }
    if end < s.len() ==> reads_as(out, e, rest, label) {
        lemma_reads_ahead(out, k, Piece::Verbatim(s.subrange(i, end)), rest, label);
    }
}

proof fn lemma_step_node(
    s: Seq<char>,
    i: int,
    clause: Clause,
    depth: int,
    begins: bool,
    label: Option<Seq<char>>,
    out: Seq<char>,
    k: int,
)
    requires
        is_calm(out),
        i < s.len(),
        s[i] == '(' && clause == Clause::Match && depth == 0,
        in_step(s, i, clause, depth, begins, label, out, k),
    ensures
        ({
            let inner = scope::node_at(s, i)->Ok_0;
            let next = i + 2 + inner.len();
            let e = k + inside(inner, label).len() + 2;
            &&& i < next <= s.len()
            &&& in_step(s, next, clause, depth, true, label, out, e)
            &&& reads_on(s, next, clause, depth, true, label, out, e) ==> reads_on(
                s,
                i,
                clause,
                depth,
                begins,
                label,
                out,
                k,
            )
        }),
{
    reveal(in_step);
    reveal(reads_on);
    let inner = scope::node_at(s, i)->Ok_0;
    let next = i + 2 + inner.len();
    let e = k + inside(inner, label).len() + 2;
    lemma_node_piece(s, i, begins, label, out, k);
    lemma_walk_node(s, i, begins, label, out, k);
    let rest = scope::pieces_from(s, next, clause, depth, true)->Ok_0;
    if reads_as(out, e, rest, label) {
        lemma_reads_ahead(out, k, Piece::Node(inner), rest, label);
    }
}

proof fn lemma_step_word(
    s: Seq<char>,
    i: int,
    clause: Clause,
    depth: int,
    begins: bool,
    label: Option<Seq<char>>,
    out: Seq<char>,
    k: int,
)
    requires
        is_calm(out),
        i < s.len(),
        text::is_ident(s[i]) && depth == 0,
        in_step(s, i, clause, depth, begins, label, out, k),
    ensures
        ({
            let end = text::word_end(s, i);
            let e = k + end - i;
            let after = scope::clause_at(s, i, end, clause, begins)->Ok_0;
            &&& i < end <= s.len()
            &&& in_step(s, end, after, depth, true, label, out, e)
            &&& reads_on(s, end, after, depth, true, label, out, e) ==> reads_on(
                s,
                i,
                clause,
                depth,
                begins,
                label,
                out,
                k,
            )
        }),
{
    reveal(in_step);
    reveal(reads_on);
    let end = text::word_end(s, i);
    let e = k + end - i;
    let after = scope::clause_at(s, i, end, clause, begins)->Ok_0;
    text::lemma_word_end(s, i);
    lemma_word_piece(s, i, clause, begins, label, out, k);
    lemma_walk_word(s, i, clause, begins, label, out, k);
    let rest = scope::pieces_from(s, end, after, depth, true)->Ok_0;
    assert(!node_opens(out, k));
    if reads_as(out, e, rest, label) {
        lemma_reads_ahead(out, k, Piece::Verbatim(s.subrange(i, end)), rest, label);
    }
}

proof fn lemma_step_char(
    s: Seq<char>,
    i: int,
    clause: Clause,
    depth: int,
    begins: bool,
    label: Option<Seq<char>>,
    out: Seq<char>,
    k: int,
)
    requires
        is_calm(out),
        i < s.len(),
        !scope::is_quote(s[i]),
        !(s[i] == '(' && clause == Clause::Match && depth == 0),
        !(text::is_ident(s[i]) && depth == 0),
        in_step(s, i, clause, depth, begins, label, out, k),
    ensures
        ({
            let d = depth + scope::nesting(s[i]);
            let b = scope::can_begin_after(s[i], begins);
            &&& in_step(s, i + 1, clause, d, b, label, out, k + 1)
            &&& reads_on(s, i + 1, clause, d, b, label, out, k + 1) ==> reads_on(
                s,
                i,
                clause,
                depth,
                begins,
                label,
                out,
                k,
            )
        }),
{
    reveal(in_step);
    reveal(reads_on);
    let d = depth + scope::nesting(s[i]);
    let b = scope::can_begin_after(s[i], begins);
    lemma_char_piece(s, i, clause, depth, begins, label, out, k);
    lemma_calm_blank(out, k);
    assert(!word_begins(out, k));
    lemma_patterns_go_on(out, k, k + 1);
    if text::is_ident(s[i]) {
        lemma_ident_is_no_quote(s[i]);
    }
    assert(!node_opens(out, k));
    let rest = scope::pieces_from(s, i + 1, clause, d, b)->Ok_0;
    if reads_as(out, k + 1, rest, label) {
        lemma_reads_ahead(out, k, Piece::Verbatim(seq![s[i]]), rest, label);
    }
}

proof fn lemma_walk(
    s: Seq<char>,
    i: int,
    clause: Clause,
    depth: int,
    begins: bool,
    label: Option<Seq<char>>,
    out: Seq<char>,
    k: int,
)
    requires
        is_calm(out),
        in_step(s, i, clause, depth, begins, label, out, k),
    ensures
        reads_on(s, i, clause, depth, begins, label, out, k),
    decreases s.len() - i,
{
    assert(0 <= i <= s.len()) by {
        reveal(in_step);
    }
    if i == s.len() {
        reveal(in_step);
        reveal(reads_on);
        lemma_same_first(s, i, clause, depth, begins, label);
        assert(out.skip(k).len() == 0);
    } else if scope::is_quote(s[i]) {
        let end = scope::literal_end(s, i + 1, s[i]);
        lemma_step_literal(s, i, clause, depth, begins, label, out, k);
        if end < s.len() {
            lemma_walk(s, end, clause, depth, true, label, out, k + end - i);
        }
    } else if s[i] == '(' && clause == Clause::Match && depth == 0 {
        let inner = scope::node_at(s, i)->Ok_0;
        lemma_step_node(s, i, clause, depth, begins, label, out, k);
        lemma_walk(
            s,
            i + 2 + inner.len(),
            clause,
            depth,
            true,
            label,
            out,
            k + inside(inner, label).len() + 2,
        );
    } else if text::is_ident(s[i]) && depth == 0 {
        let end = text::word_end(s, i);
        let after = scope::clause_at(s, i, end, clause, begins)->Ok_0;
        lemma_step_word(s, i, clause, depth, begins, label, out, k);
        lemma_walk(s, end, after, depth, true, label, out, k + end - i);
    } else {
        let d = depth + scope::nesting(s[i]);
        let b = scope::can_begin_after(s[i], begins);
        lemma_step_char(s, i, clause, depth, begins, label, out, k);
        lemma_walk(s, i + 1, clause, d, b, label, out, k + 1);
    }
}

proof fn lemma_reads(cypher: Seq<char>, label: Option<Seq<char>>)
    requires
        scope::pieces(cypher) is Ok,
    ensures
        reads_as(
            shown_text(scope::pieces(cypher)->Ok_0, label),
            0,
            scope::pieces(cypher)->Ok_0,
            label,
        ),
{
    let out = shown_text(scope::pieces(cypher)->Ok_0, label);
    assert(out.skip(0) == out);
    assert(out.take(0).len() == 0);
    assert(scan_at(out, 0) == start());
    lemma_calm(cypher, 0, Clause::Start, 0, true, label, out, 0);
    reveal(in_step);
    reveal(reads_on);
    lemma_walk(cypher, 0, Clause::Start, 0, true, label, out, 0);
}

/// Every node pattern of a scoped statement has the scope label: whatever the
/// statement and whatever the label, the statement that comes out, if one does, opens
/// no node pattern in a `MATCH` or an `OPTIONAL MATCH` outside of all brackets that
/// is closed without the label in it.
pub proof fn law_every_node_pattern_is_labelled(cypher: Seq<char>, scope: Seq<char>)
    ensures
        scope::scoped(cypher, scope) matches Ok(t) ==> forall|i: int| #[trigger]
            node_opens(t, i) ==> is_labelled(t, scope, i),
{
    if let Ok(t) = scope::scoped(cypher, scope) {
        lemma_reads(cypher, Some(scope));
        assert forall|i: int| #[trigger] node_opens(t, i) implies is_labelled(t, scope, i) by {
            assert(0 <= i < t.len());
        }
    }
}

/// The nodes that are rewritten are the node patterns that the statement opens, and
/// they are those that the scoped statement opens: none is overlooked and none is made
/// up.
pub proof fn law_node_patterns_are_the_pieces(cypher: Seq<char>, scope: Seq<char>)
    ensures
        scope::pieces(cypher) matches Ok(ps) ==> {
            &&& forall|i: int|
                0 <= i < cypher.len() ==> (#[trigger] node_opens(cypher, i) <==> node_begins(
                    ps,
                    None,
                    i,
                ))
            &&& forall|i: int|
                0 <= i < scope::scoped_text(ps, scope).len() ==> (#[trigger] node_opens(
                    scope::scoped_text(ps, scope),
                    i,
                ) <==> node_begins(ps, Some(scope), i))
        },
{
    if let Ok(ps) = scope::pieces(cypher) {
        scope::law_pieces_are_the_statement(cypher);
        lemma_reads(cypher, None);
        lemma_reads(cypher, Some(scope));
    }
}

proof fn lemma_without_nodes(ps: Seq<Piece>, scope: Seq<char>)
    requires
        forall|k: int| 0 <= k < ps.len() ==> !((#[trigger] ps[k]) is Node),
    ensures
        scope::scoped_text(ps, scope) == scope::source_text(ps),
    decreases ps.len(),
{
    if ps.len() > 0 {
        assert(!(ps[ps.len() - 1] is Node));
        lemma_without_nodes(ps.drop_last(), scope);
    }
}

/// A statement without a node pattern is handed back as it is.
pub proof fn law_statement_without_patterns_is_unchanged(cypher: Seq<char>, scope: Seq<char>)
    requires
        forall|i: int| !#[trigger] node_opens(cypher, i),
    ensures
        scope::scoped(cypher, scope) matches Ok(t) ==> t == cypher,
{
    if let Ok(t) = scope::scoped(cypher, scope) {
        let ps = scope::pieces(cypher)->Ok_0;
        scope::law_pieces_are_the_statement(cypher);
        law_node_patterns_are_the_pieces(cypher, scope);
        assert forall|k: int| 0 <= k < ps.len() implies !((#[trigger] ps[k]) is Node) by {
            if ps[k] is Node {
                let n = scope::source_text(ps.take(k)).len() as int;
                lemma_node_is_within(ps, k);
                assert(node_begins_with(ps, None, n, k));
                assert(!node_opens(cypher, n));
            }
        }
        lemma_without_nodes(ps, scope);
    }
}

proof fn lemma_node_is_within(ps: Seq<Piece>, k: int)
    requires
        0 <= k < ps.len(),
        ps[k] is Node,
    ensures
        scope::source_text(ps.take(k)).len() < scope::source_text(ps).len(),
    decreases ps.len(),
{
    if k == ps.len() - 1 {
        assert(ps.take(k) == ps.drop_last());
    } else {
        lemma_node_is_within(ps.drop_last(), k);
        assert(ps.drop_last().take(k) == ps.take(k));
    }
}

// ---------------------------------------------------------------------------
// Relationships
// ---------------------------------------------------------------------------

/// A `)` of the statement itself stands at `j`, and a relationship follows it.
pub open spec fn link_at(t: Seq<char>, j: int) -> bool {
    is_code(t, j) && scope::linked_paren_at(t, j)
}

/// What stands at `j` closes a node pattern of a `MATCH`.
pub open spec fn closes_node(t: Seq<char>, j: int) -> bool {
    exists|i: int| node_opens(t, i) && #[trigger] node_closes(t, i, j)
}

/// Where a text is no literal, blanking its literals leaves it as it is.
proof fn lemma_blank_code(t: Seq<char>, a: int)
    requires
        0 <= a <= t.len(),
        stays_inside(t),
        scan(opened(), t.take(a)).place is Code,
    ensures
        scope::blanked_from(t, a).len() == t.len() - a,
        forall|n: int|
            a <= n < t.len() && (#[trigger] scan(opened(), t.take(n))).place is Code
                && !scope::is_quote(t[n]) ==> scope::blanked_from(t, a)[n - a] == t[n],
    decreases t.len() - a,
{
    if a < t.len() {
        assert forall|k: int| 0 <= k <= t.len() implies #[trigger] t.subrange(0, k) == t.take(
            k,
        ) by {}
        lemma_scan_on_step(opened(), t, 0, a);
        assert(t.subrange(0, a + 1) == t.take(a + 1));
        assert(t.subrange(0, a) == t.take(a));
        assert(!in_comment(scan(opened(), t.take(a + 1))));
        let b = scope::blanked_from(t, a);
        if scope::is_quote(t[a]) {
            let e = scope::literal_end(t, a + 1, t[a]);
            scope::lemma_literal_end(t, a + 1, t[a]);
            lemma_scan_literal(opened(), t, 0, a + 1, t[a], scan(opened(), t.take(a)).depth);
            if e < t.len() {
                assert(t.subrange(0, e) == t.take(e));
                lemma_blank_code(t, e);
            }
            assert(b == scope::spaces(e - a) + scope::blanked_from(t, e));
            assert forall|n: int|
                a <= n < t.len() && (#[trigger] scan(opened(), t.take(n))).place is Code
                    && !scope::is_quote(t[n]) implies b[n - a] == t[n] by {
                if n > a && n < e {
                    assert(t.subrange(0, n) == t.take(n));
                    assert(in_literal(scan_on(opened(), t, 0, n)));
                } else if n > a {
                    assert(b[n - a] == scope::blanked_from(t, e)[n - e]);
                }
            }
        } else {
            lemma_blank_code(t, a + 1);
            assert(b == seq![t[a]] + scope::blanked_from(t, a + 1));
            assert forall|n: int|
                a <= n < t.len() && (#[trigger] scan(opened(), t.take(n))).place is Code
                    && !scope::is_quote(t[n]) implies b[n - a] == t[n] by {
                if n > a {
                    assert(b[n - a] == scope::blanked_from(t, a + 1)[n - (a + 1)]);
                }
            }
        }
    }
}

/// What follows white space is found in the blanked text too.
proof fn lemma_blank_next(t: Seq<char>, n: int)
    requires
        stays_inside(t),
        0 <= n <= t.len(),
        scan(opened(), t.take(n)).place is Code,
        scope::next_char(t, n) is Some,
        !scope::is_quote(scope::next_char(t, n)->0),
    ensures
        ({
            let j = scope::after_white(t, n);
            &&& n <= j < t.len()
            &&& scan(opened(), t.take(j)).place is Code
            &&& scope::after_white(scope::blanked(t), n) == j
            &&& j < scope::blanked(t).len()
            &&& scope::blanked(t)[j] == t[j]
        }),
    decreases t.len() - n,
{
    assert(t.take(0).len() == 0);
    assert(scan(opened(), t.take(0)) == opened());
    lemma_blank_code(t, 0);
    let b = scope::blanked(t);
    assert(n < t.len());
    assert(!scope::is_quote(t[n]));
    assert(b[n - 0] == t[n]);
    if text::is_white(t[n]) {
        assert(t.take(n + 1).drop_last() == t.take(n));
        assert(t.take(n + 1).last() == t[n]);
        assert(!in_comment(scan(opened(), t.take(n + 1))));
        lemma_blank_next(t, n + 1);
    }
}

/// After a character of the statement itself that is no quote, it goes on.
proof fn lemma_code_after(t: Seq<char>, n: int)
    requires
        stays_inside(t),
        0 <= n < t.len(),
        scan(opened(), t.take(n)).place is Code,
        !scope::is_quote(t[n]),
    ensures
        scan(opened(), t.take(n + 1)).place is Code,
{
    assert(t.take(n + 1).drop_last() == t.take(n));
    assert(t.take(n + 1).last() == t[n]);
    assert(!in_comment(scan(opened(), t.take(n + 1))));
}

/// The line of a relationship is found in the blanked text too.
proof fn lemma_blank_line(t: Seq<char>, n: int)
    requires
        stays_inside(t),
        0 <= n <= t.len(),
        scan(opened(), t.take(n)).place is Code,
        scope::line_follows(t, n),
    ensures
        scope::line_follows(scope::blanked(t), n),
{
    lemma_blank_next(t, n);
    let first = scope::after_white(t, n);
    lemma_code_after(t, first);
    lemma_blank_next(t, first + 1);
    let second = scope::after_white(t, first + 1);
    if t[second] == '-' {
        lemma_code_after(t, second);
        lemma_blank_next(t, second + 1);
    }
}

/// A node that was not refused holds no `)` with a relationship after it.
proof fn lemma_no_link_inside(inner: Seq<char>, n: int)
    requires
        stays_inside(inner),
        !scope::has_linked_paren(scope::blanked(inner)),
        0 <= n < inner.len(),
        scan(opened(), inner.take(n)).place is Code,
        inner[n] == ')',
    ensures
        !scope::link_follows(inner, n + 1),
{
    if scope::link_follows(inner, n + 1) {
        let b = scope::blanked(inner);
        assert(inner.take(0).len() == 0);
        assert(scan(opened(), inner.take(0)) == opened());
        lemma_blank_code(inner, 0);
        assert(b[n - 0] == ')');
        lemma_code_after(inner, n);
        if scope::line_follows(inner, n + 1) {
            lemma_blank_line(inner, n + 1);
        } else {
            lemma_blank_next(inner, n + 1);
            let j = scope::after_white(inner, n + 1);
            lemma_code_after(inner, j);
            lemma_blank_line(inner, j + 1);
        }
        assert(scope::linked_paren_at(b, n));
    }
}

/// What follows a position within a part of a text, where it is not what closes it.
proof fn lemma_part_next(s: Seq<char>, a: int, j: int, n: int)
    requires
        0 <= a <= n <= j < s.len(),
        s[j] == ')',
        scope::next_char(s, n) is Some,
        scope::next_char(s, n) != Some(')'),
    ensures
        n <= scope::after_white(s, n) < j,
        scope::after_white(s.subrange(a, j), n - a) == scope::after_white(s, n) - a,
        scope::next_char(s.subrange(a, j), n - a) == scope::next_char(s, n),
    decreases j - n,
{
    let t = s.subrange(a, j);
    if n < j {
        assert(t[n - a] == s[n]);
        if text::is_white(s[n]) {
            lemma_part_next(s, a, j, n + 1);
        }
    }
}

/// The line of a relationship within a part of a text.
proof fn lemma_part_line(s: Seq<char>, a: int, j: int, n: int)
    requires
        0 <= a <= n <= j < s.len(),
        s[j] == ')',
        scope::line_follows(s, n),
    ensures
        scope::line_follows(s.subrange(a, j), n - a),
{
    lemma_part_next(s, a, j, n);
    let first = scope::after_white(s, n);
    lemma_part_next(s, a, j, first + 1);
    let second = scope::after_white(s, first + 1);
    if s[second] == '-' {
        lemma_part_next(s, a, j, second + 1);
    }
}

#[verifier::rlimit(40)]
#[verifier::spinoff_prover]
proof fn lemma_links_node(
    s: Seq<char>,
    i: int,
    clause: Clause,
    depth: int,
    begins: bool,
)
    requires
        is_calm(s),
        0 <= i < s.len(),
        s[i] == '(' && clause == Clause::Match && depth == 0,
        in_step(s, i, clause, depth, begins, None, s, i),
    ensures
        ({
            let next = i + 2 + (scope::node_at(s, i)->Ok_0).len();
            forall|m: int| i <= m < next && #[trigger] link_at(s, m) ==> closes_node(s, m)
        }),
{
    reveal(in_step);
    let inner = scope::node_at(s, i)->Ok_0;
    let n = inner.len() as int;
    let j = i + 1 + n;
    lemma_node_piece(s, i, begins, None, s, i);
    lemma_walk_node(s, i, begins, None, s, i);
    lemma_read_node(s, i, inner);
    assert(inner.take(n) == inner);
    assert(scan_at(s, i + 1 + n) == scan(opened(), inner));
    assert(node_closes(s, i, j));
    assert(!scope::has_linked_paren(scope::blanked(inner)));
    assert forall|m: int| i <= m < j + 1 && #[trigger] link_at(s, m) implies closes_node(s, m) by {
        if m < j {
            let k = m - i - 1;
            assert(scan_at(s, i + 1 + k) == scan(opened(), inner.take(k)));
            assert(s.subrange(i + 1, j)[k] == s[m]);
            if scope::line_follows(s, m + 1) {
                lemma_part_line(s, i + 1, j, m + 1);
            } else {
                lemma_part_next(s, i + 1, j, m + 1);
                lemma_part_line(s, i + 1, j, scope::after_white(s, m + 1) + 1);
            }
            lemma_no_link_inside(inner, k);
        }
    }
}

proof fn lemma_links_literal(
    s: Seq<char>,
    i: int,
    clause: Clause,
    depth: int,
    begins: bool,
)
    requires
        0 <= i < s.len(),
        scope::is_quote(s[i]),
        in_step(s, i, clause, depth, begins, None, s, i),
    ensures
        forall|m: int|
            i <= m < scope::literal_end(s, i + 1, s[i]) ==> !#[trigger] link_at(s, m),
{
    reveal(in_step);
    lemma_literal_piece(s, i, clause, depth, begins, None, s, i);
    lemma_read_literal(s, i, depth);
    assert forall|m: int| i <= m < scope::literal_end(s, i + 1, s[i]) implies !#[trigger] link_at(
        s,
        m,
    ) by {
        if m > i {
            assert(in_literal(scan_at(s, m)));
        }
    }
}

proof fn lemma_links(s: Seq<char>, i: int, clause: Clause, depth: int, begins: bool)
    requires
        is_calm(s),
        in_step(s, i, clause, depth, begins, None, s, i),
    ensures
        forall|m: int| i <= m < s.len() && #[trigger] link_at(s, m) ==> closes_node(s, m),
    decreases s.len() - i,
{
    assert(0 <= i <= s.len()) by {
        reveal(in_step);
    }
    if i == s.len() {
    } else if scope::is_quote(s[i]) {
        let end = scope::literal_end(s, i + 1, s[i]);
        lemma_step_literal(s, i, clause, depth, begins, None, s, i);
        lemma_links_literal(s, i, clause, depth, begins);
        if end < s.len() {
            lemma_links(s, end, clause, depth, true);
        }
    } else if s[i] == '(' && clause == Clause::Match && depth == 0 {
        let inner = scope::node_at(s, i)->Ok_0;
        lemma_step_node(s, i, clause, depth, begins, None, s, i);
        lemma_links_node(s, i, clause, depth, begins);
        lemma_links(s, i + 2 + inner.len(), clause, depth, true);
    } else if text::is_ident(s[i]) && depth == 0 {
        let end = text::word_end(s, i);
        let after = scope::clause_at(s, i, end, clause, begins)->Ok_0;
        lemma_step_word(s, i, clause, depth, begins, None, s, i);
        text::lemma_word_end(s, i);
        lemma_links(s, end, after, depth, true);
        assert forall|m: int| i <= m < end implies !#[trigger] link_at(s, m) by {
            assert(text::is_ident(s[m]));
        }
    } else {
        let d = depth + scope::nesting(s[i]);
        let b = scope::can_begin_after(s[i], begins);
        lemma_step_char(s, i, clause, depth, begins, None, s, i);
        lemma_links(s, i + 1, clause, d, b);
        assert(!link_at(s, i)) by {
            reveal(in_step);
        }
    }
}

/// No pattern stands outside of a `MATCH`: where a statement is accepted, a `)` with a
/// relationship after it closes one of its node patterns.
pub proof fn law_relationships_follow_node_patterns(cypher: Seq<char>)
    ensures
        scope::pieces(cypher) is Ok ==> forall|i: int| #[trigger]
            link_at(cypher, i) ==> closes_node(cypher, i),
{
    if scope::pieces(cypher) is Ok {
        scope::law_pieces_are_the_statement(cypher);
        assert(cypher.skip(0) == cypher);
        assert(cypher.take(0).len() == 0);
        assert(scan_at(cypher, 0) == start());
        lemma_calm(cypher, 0, Clause::Start, 0, true, None, cypher, 0);
        reveal(in_step);
        lemma_links(cypher, 0, Clause::Start, 0, true);
    }
}

// ---------------------------------------------------------------------------
// Nothing is lost
// ---------------------------------------------------------------------------

/// A part of a statement before and after scoping.
pub enum Part {
    /// Text that stays as it is.
    Kept(Seq<char>),
    /// A node pattern, by its inside before and after.
    Node { inner: Seq<char>, marked: Seq<char> },
}

/// The parts one after the other, before scoping.
pub open spec fn text_before(parts: Seq<Part>) -> Seq<char>
    decreases parts.len(),
{
    if parts.len() == 0 {
        seq![]
    } else {
        text_before(parts.drop_last()) + match parts.last() {
            Part::Kept(t) => t,
            Part::Node { inner, marked } => seq!['('] + inner + seq![')'],
        }
    }
}

/// The parts one after the other, after scoping.
pub open spec fn text_after(parts: Seq<Part>) -> Seq<char>
    decreases parts.len(),
{
    if parts.len() == 0 {
        seq![]
    } else {
        text_after(parts.drop_last()) + match parts.last() {
            Part::Kept(t) => t,
            Part::Node { inner, marked } => seq!['('] + marked + seq![')'],
        }
    }
}

/// The inside of a node pattern in two halves, with the white space around them.
pub struct Halves {
    pub before: Seq<char>,
    pub labels: Seq<char>,
    pub between: Seq<char>,
    pub map: Seq<char>,
    pub after: Seq<char>,
}

/// The halves are the whole inside: the name and the labels, in which no property map
/// begins, and the property map, if there is one. What is around them is white space.
pub open spec fn are_halves(h: Halves, inner: Seq<char>) -> bool {
    &&& inner == h.before + h.labels + h.between + h.map + h.after
    &&& text::all_white(h.before) && text::all_white(h.between) && text::all_white(h.after)
    &&& h.map.len() > 0 ==> h.map[0] == '{'
    &&& forall|i: int|
        0 <= i < h.labels.len() && h.labels[i] == '{' ==> {
            let at = #[trigger] scan(opened(), h.labels.take(i));
            !(at.place is Code && at.depth == 1)
        }
}

/// `marked` is the inside of a node pattern with the scope label and nothing else added
/// to it: its labels, the label, and exactly its property map, if it has one.
pub open spec fn is_marked(inner: Seq<char>, marked: Seq<char>, scope: Seq<char>) -> bool {
    exists|h: Halves| #[trigger]
        are_halves(h, inner) && marked == h.labels + ":"@ + scope::quoted_label(scope) + (
        if h.map.len() == 0 {
            h.map
        } else {
            " "@ + h.map
        })
}

/// Before the property map of a node no `{` opens one.
proof fn lemma_before_brace(t: Seq<char>, i: int, depth: int)
    requires
        0 <= i <= t.len(),
        stays_inside(t),
        scan(opened(), t.take(i)).place is Code,
        scan(opened(), t.take(i)).depth == depth + 1,
    ensures
        ({
            let m = match scope::brace_from(t, i, depth) {
                Some(m) => m,
                None => t.len() as int,
            };
            &&& i <= m <= t.len()
            &&& forall|n: int|
                i <= n < m && (#[trigger] scan(opened(), t.take(n))).place is Code && scan(
                    opened(),
                    t.take(n),
                ).depth == 1 ==> t[n] != '{'
        }),
    decreases t.len() - i,
{
    if i < t.len() {
        assert forall|k: int| 0 <= k <= t.len() implies #[trigger] t.subrange(0, k) == t.take(
            k,
        ) by {}
        lemma_scan_on_step(opened(), t, 0, i);
        assert(t.subrange(0, i + 1) == t.take(i + 1));
        assert(t.subrange(0, i) == t.take(i));
        assert(!in_comment(scan(opened(), t.take(i + 1))));
        if scope::is_quote(t[i]) {
            let e = scope::literal_end(t, i + 1, t[i]);
            scope::lemma_literal_end(t, i + 1, t[i]);
            lemma_scan_literal(opened(), t, 0, i + 1, t[i], depth + 1);
            if e < t.len() {
                assert(t.subrange(0, e) == t.take(e));
                lemma_before_brace(t, e, depth);
            }
            assert forall|n: int|
                i <= n < e && (#[trigger] scan(opened(), t.take(n))).place is Code implies t[n]
                != '{' by {
                if n > i {
                    assert(t.subrange(0, n) == t.take(n));
                    assert(in_literal(scan_on(opened(), t, 0, n)));
                }
            }
        } else if !(t[i] == '{' && depth == 0) {
            lemma_before_brace(t, i + 1, depth + scope::nesting(t[i]));
        }
    }
}

proof fn lemma_white_stays_opened(t: Seq<char>)
    requires
        text::all_white(t),
    ensures
        scan(opened(), t) == opened(),
    decreases t.len(),
{
    if t.len() > 0 {
        assert forall|i: int| 0 <= i < t.drop_last().len() implies text::is_white(
            #[trigger] t.drop_last()[i],
        ) by {
            assert(text::is_white(t[i]));
        }
        lemma_white_stays_opened(t.drop_last());
        assert(text::is_white(t[t.len() - 1]));
    }
}

/// The halves of an inside, cut at `m`: the left one from `a` to `b`, the right one
/// from `c` to `d`.
pub open spec fn halves(inner: Seq<char>, m: int, a: int, b: int, c: int, d: int) -> Halves {
    Halves {
        before: inner.subrange(0, a),
        labels: inner.subrange(a, b),
        between: inner.subrange(b, m + c),
        map: inner.subrange(m + c, m + d),
        after: inner.subrange(m + d, inner.len() as int),
    }
}

proof fn lemma_halves_white(inner: Seq<char>, m: int, a: int, b: int, c: int, d: int)
    requires
        0 <= a <= b <= m <= m + c <= m + d <= inner.len(),
        forall|i: int| 0 <= i < a || b <= i < m ==> text::is_white(#[trigger] inner[i]),
        forall|i: int|
            m <= i < m + c || m + d <= i < inner.len() ==> text::is_white(#[trigger] inner[i]),
    ensures
        ({
            let h = halves(inner, m, a, b, c, d);
            &&& inner == h.before + h.labels + h.between + h.map + h.after
            &&& text::all_white(h.before) && text::all_white(h.between) && text::all_white(h.after)
        }),
{
    let h = halves(inner, m, a, b, c, d);
    assert(h.before + h.labels + h.between + h.map + h.after =~= inner);
    assert forall|i: int| 0 <= i < h.before.len() implies text::is_white(#[trigger] h.before[i]) by {
        assert(h.before[i] == inner[i]);
    }
    assert forall|i: int| 0 <= i < h.between.len() implies text::is_white(
        #[trigger] h.between[i],
    ) by {
        assert(h.between[i] == inner[b + i]);
    }
    assert forall|i: int| 0 <= i < h.after.len() implies text::is_white(#[trigger] h.after[i]) by {
        assert(h.after[i] == inner[m + d + i]);
    }
}

proof fn lemma_halves_labels(inner: Seq<char>, m: int, a: int, b: int)
    requires
        0 <= a <= b <= m <= inner.len(),
        text::all_white(inner.subrange(0, a)),
        forall|n: int|
            0 <= n < m && (#[trigger] scan(opened(), inner.take(n))).place is Code && scan(
                opened(),
                inner.take(n),
            ).depth == 1 ==> inner[n] != '{',
    ensures
        ({
            let labels = inner.subrange(a, b);
            forall|i: int|
                0 <= i < labels.len() && labels[i] == '{' ==> {
                    let at = #[trigger] scan(opened(), labels.take(i));
                    !(at.place is Code && at.depth == 1)
                }
        }),
{
    let labels = inner.subrange(a, b);
    let before = inner.subrange(0, a);
    lemma_white_stays_opened(before);
    assert forall|i: int| 0 <= i < labels.len() && labels[i] == '{' implies {
        let at = #[trigger] scan(opened(), labels.take(i));
        !(at.place is Code && at.depth == 1)
    } by {
        assert(inner.take(a + i) =~= before + labels.take(i));
        lemma_scan_add(opened(), before, labels.take(i));
        assert(scan(opened(), inner.take(a + i)) == scan(opened(), labels.take(i)));
        assert(inner[a + i] == '{');
    }
}

proof fn lemma_marked(inner: Seq<char>, scope: Seq<char>)
    requires
        stays_inside(inner),
    ensures
        is_marked(inner, scope::scoped_inner(inner, scope), scope),
{
    let m = scope::map_start(inner);
    let n = inner.len() as int;
    assert(inner.take(0).len() == 0);
    assert(scan(opened(), inner.take(0)) == opened());
    lemma_before_brace(inner, 0, 0);
    if let Some(k) = scope::brace_from(inner, 0, 0) {
        lemma_brace_scan(inner, 0, 0, k);
    }
    let left = inner.subrange(0, m);
    let right = inner.subrange(m, n);
    let (a, b) = text::law_trim_takes_white_space_alone(left);
    let (c, d) = text::law_trim_takes_white_space_alone(right);
    assert forall|i: int| 0 <= i < a || b <= i < m implies text::is_white(#[trigger] inner[i]) by {
        assert(left[i] == inner[i]);
    }
    assert forall|i: int| m <= i < m + c || m + d <= i < n implies text::is_white(
        #[trigger] inner[i],
    ) by {
        assert(right[i - m] == inner[i]);
    }
    let h = halves(inner, m, a, b, c, d);
    lemma_halves_white(inner, m, a, b, c, d);
    lemma_halves_labels(inner, m, a, b);
    assert(left.subrange(a, b) =~= h.labels);
    assert(right.subrange(c, d) =~= h.map);
    if m < n {
        assert(right[0] == '{');
        assert(c == 0);
    }
    assert(are_halves(h, inner));
}

/// All the nodes among the pieces are closed where they end.
#[verifier::opaque]
pub open spec fn nodes_stay(ps: Seq<Piece>) -> bool {
    forall|k: int|
        0 <= k < ps.len() ==> ((#[trigger] ps[k]) matches Piece::Node(inner) ==> stays_inside(
            inner,
        ) && scope::inner_refusal(inner) is None)
}

proof fn lemma_nodes_ahead(p: Piece, rest: Seq<Piece>)
    requires
        p matches Piece::Node(inner) ==> stays_inside(inner) && scope::inner_refusal(inner) is None,
        nodes_stay(rest),
    ensures
        nodes_stay(seq![p] + rest),
{
    reveal(nodes_stay);
    let all = seq![p] + rest;
    assert forall|k: int| 0 <= k < all.len() implies ((#[trigger] all[k]) matches Piece::Node(inner)
        ==> stays_inside(inner) && scope::inner_refusal(inner) is None) by {
        if k > 0 {
            assert(all[k] == rest[k - 1]);
        }
    }
}

proof fn lemma_nodes_stay(s: Seq<char>, i: int, clause: Clause, depth: int, begins: bool)
    requires
        is_calm(s),
        in_step(s, i, clause, depth, begins, None, s, i),
    ensures
        nodes_stay(scope::pieces_from(s, i, clause, depth, begins)->Ok_0),
    decreases s.len() - i,
{
    assert(0 <= i <= s.len()) by {
        reveal(in_step);
    }
    if i == s.len() {
        reveal(nodes_stay);
        reveal(in_step);
    } else if scope::is_quote(s[i]) {
        let end = scope::literal_end(s, i + 1, s[i]);
        lemma_step_literal(s, i, clause, depth, begins, None, s, i);
        assert(scope::pieces_from(s, i, clause, depth, begins)->Ok_0 == seq![
            Piece::Verbatim(s.subrange(i, end)),
        ] + scope::pieces_from(s, end, clause, depth, true)->Ok_0) by {
            reveal(in_step);
            lemma_literal_piece(s, i, clause, depth, begins, None, s, i);
        }
        if end < s.len() {
            lemma_nodes_stay(s, end, clause, depth, true);
        } else {
            reveal(nodes_stay);
            assert(scope::pieces_from(s, end, clause, depth, true)->Ok_0.len() == 0) by {
                reveal(in_step);
                lemma_literal_piece(s, i, clause, depth, begins, None, s, i);
            }
        }
        lemma_nodes_ahead(
            Piece::Verbatim(s.subrange(i, end)),
            scope::pieces_from(s, end, clause, depth, true)->Ok_0,
        );
    } else if s[i] == '(' && clause == Clause::Match && depth == 0 {
        let inner = scope::node_at(s, i)->Ok_0;
        let next = i + 2 + inner.len();
        lemma_step_node(s, i, clause, depth, begins, None, s, i);
        lemma_nodes_stay(s, next, clause, depth, true);
        assert(stays_inside(inner) && scope::inner_refusal(inner) is None && scope::pieces_from(
            s,
            i,
            clause,
            depth,
            begins,
        )->Ok_0 == seq![Piece::Node(inner)] + scope::pieces_from(
            s,
            next,
            clause,
            depth,
            true,
        )->Ok_0) by {
            reveal(in_step);
            lemma_node_piece(s, i, begins, None, s, i);
        }
        lemma_nodes_ahead(
            Piece::Node(inner),
            scope::pieces_from(s, next, clause, depth, true)->Ok_0,
        );
    } else if text::is_ident(s[i]) && depth == 0 {
        let end = text::word_end(s, i);
        let after = scope::clause_at(s, i, end, clause, begins)->Ok_0;
        lemma_step_word(s, i, clause, depth, begins, None, s, i);
        lemma_nodes_stay(s, end, after, depth, true);
        assert(scope::pieces_from(s, i, clause, depth, begins)->Ok_0 == seq![
            Piece::Verbatim(s.subrange(i, end)),
        ] + scope::pieces_from(s, end, after, depth, true)->Ok_0) by {
            reveal(in_step);
            lemma_word_piece(s, i, clause, begins, None, s, i);
        }
        lemma_nodes_ahead(
            Piece::Verbatim(s.subrange(i, end)),
            scope::pieces_from(s, end, after, depth, true)->Ok_0,
        );
    } else {
        let d = depth + scope::nesting(s[i]);
        let b = scope::can_begin_after(s[i], begins);
        lemma_step_char(s, i, clause, depth, begins, None, s, i);
        lemma_nodes_stay(s, i + 1, clause, d, b);
        assert(scope::pieces_from(s, i, clause, depth, begins)->Ok_0 == seq![
            Piece::Verbatim(seq![s[i]]),
        ] + scope::pieces_from(s, i + 1, clause, d, b)->Ok_0) by {
            reveal(in_step);
            lemma_char_piece(s, i, clause, depth, begins, None, s, i);
        }
        lemma_nodes_ahead(
            Piece::Verbatim(seq![s[i]]),
            scope::pieces_from(s, i + 1, clause, d, b)->Ok_0,
        );
    }
}

/// An accepted statement can be read, and the nodes among its pieces are closed where
/// they end.
proof fn lemma_accepted(cypher: Seq<char>)
    requires
        scope::pieces(cypher) is Ok,
    ensures
        is_calm(cypher),
        nodes_stay(scope::pieces(cypher)->Ok_0),
{
    scope::law_pieces_are_the_statement(cypher);
    assert(cypher.skip(0) == cypher);
    assert(cypher.take(0).len() == 0);
    assert(scan_at(cypher, 0) == start());
    lemma_calm(cypher, 0, Clause::Start, 0, true, None, cypher, 0);
    reveal(in_step);
    lemma_nodes_stay(cypher, 0, Clause::Start, 0, true);
}

proof fn lemma_parts(ps: Seq<Piece>, scope: Seq<char>) -> (parts: Seq<Part>)
    requires
        nodes_stay(ps),
    ensures
        parts.len() == ps.len(),
        text_before(parts) == scope::source_text(ps),
        text_after(parts) == scope::scoped_text(ps, scope),
        forall|k: int|
            0 <= k < parts.len() ==> ((#[trigger] parts[k]) matches Part::Node { inner, marked }
                ==> is_marked(inner, marked, scope) && scope::inner_refusal(inner) is None
                && stays_inside(inner)),
    decreases ps.len(),
{
    reveal(nodes_stay);
    if ps.len() == 0 {
        Seq::<Part>::empty()
    } else {
        let front = ps.drop_last();
        assert forall|k: int| 0 <= k < front.len() implies ((#[trigger] front[k]) matches Piece::Node(
            inner,
        ) ==> stays_inside(inner) && scope::inner_refusal(inner) is None) by {
            assert(front[k] == ps[k]);
        }
        let before = lemma_parts(front, scope);
        assert(ps[ps.len() - 1] == ps.last());
        let p = match ps.last() {
            Piece::Verbatim(t) => Part::Kept(t),
            Piece::Node(inner) => Part::Node {
                inner,
                marked: scope::scoped_inner(inner, scope),
            },
        };
        if let Piece::Node(inner) = ps.last() {
            lemma_marked(inner, scope);
        }
        let parts = before.push(p);
        assert(parts.drop_last() == before);
        parts
    }
}

/// Scoping only adds: a scoped statement is the statement itself, with the scope label
/// put into the insides of its node patterns. No part of it is lost or changed but for
/// white space within a node pattern, and so no property condition is.
pub proof fn law_scoping_only_adds(cypher: Seq<char>, scope: Seq<char>) -> (parts: Seq<Part>)
    ensures
        scope::scoped(cypher, scope) matches Ok(t) ==> {
            &&& text_before(parts) == cypher
            &&& text_after(parts) == t
            &&& forall|k: int|
                0 <= k < parts.len() ==> ((#[trigger] parts[k]) matches Part::Node { inner, marked }
                    ==> is_marked(inner, marked, scope))
        },
{
    if scope::scoped(cypher, scope) is Ok {
        scope::law_pieces_are_the_statement(cypher);
        lemma_accepted(cypher);
        lemma_parts(scope::pieces(cypher)->Ok_0, scope)
    } else {
        Seq::<Part>::empty()
    }
}

/// Whether a statement is accepted does not depend on the label.
pub proof fn law_acceptance_ignores_the_label(cypher: Seq<char>, a: Seq<char>, b: Seq<char>)
    ensures
        scope::scoped(cypher, a) is Ok <==> scope::scoped(cypher, b) is Ok,
        scope::scoped(cypher, a) matches Err(e) ==> scope::scoped(cypher, b) == Err::<
            Seq<char>,
            Seq<char>,
        >(e),
{
}

// ---------------------------------------------------------------------------
// What is refused
// ---------------------------------------------------------------------------

/// Blanking the literals of a text leaves the rest as it is, and puts a blank in the
/// place of each character of a literal.
proof fn lemma_calm_blanked(t: Seq<char>, a: int)
    requires
        0 <= a <= t.len(),
        is_calm(t),
        scan_at(t, a).place is Code,
    ensures
        scope::blanked_from(t, a).len() == t.len() - a,
        forall|n: int|
            a <= n < t.len() ==> scope::blanked_from(t, a)[n - a] == (if (#[trigger] scan_at(
                t,
                n,
            )).place is Code && !scope::is_quote(t[n]) {
                t[n]
            } else {
                ' '
            }),
    decreases t.len() - a,
{
    if a < t.len() {
        let b = scope::blanked_from(t, a);
        lemma_scan_step(t, a);
        assert(!in_comment(scan_at(t, a + 1)));
        if scope::is_quote(t[a]) {
            let e = scope::literal_end(t, a + 1, t[a]);
            scope::lemma_literal_end(t, a + 1, t[a]);
            assert forall|k: int| 0 <= k <= t.len() implies scan_on(start(), t, 0, k)
                == #[trigger] scan_at(t, k) by {
                assert(t.subrange(0, k) == t.take(k));
            }
            assert(scan_on(start(), t, 0, a + 1) == scan_at(t, a + 1));
            lemma_scan_literal(start(), t, 0, a + 1, t[a], scan_at(t, a).depth);
            assert(scan_on(start(), t, 0, e) == scan_at(t, e));
            if e < t.len() {
                lemma_calm_blanked(t, e);
            }
            assert(b == scope::spaces(e - a) + scope::blanked_from(t, e));
            assert forall|n: int| a <= n < t.len() implies b[n - a] == (if (#[trigger] scan_at(
                t,
                n,
            )).place is Code && !scope::is_quote(t[n]) {
                t[n]
            } else {
                ' '
            }) by {
                if n > a && n < e {
                    assert(in_literal(scan_on(start(), t, 0, n)));
                } else if n >= e {
                    assert(b[n - a] == scope::blanked_from(t, e)[n - e]);
                }
            }
        } else {
            lemma_calm_blanked(t, a + 1);
            assert(b == seq![t[a]] + scope::blanked_from(t, a + 1));
            assert forall|n: int| a <= n < t.len() implies b[n - a] == (if (#[trigger] scan_at(
                t,
                n,
            )).place is Code && !scope::is_quote(t[n]) {
                t[n]
            } else {
                ' '
            }) by {
                if n > a {
                    assert(b[n - a] == scope::blanked_from(t, a + 1)[n - (a + 1)]);
                }
            }
        }
    }
}

/// No character from `i` to `j` is a quote.
pub open spec fn no_quotes(t: Seq<char>, i: int, j: int) -> bool {
    forall|k: int| i <= k < j ==> !scope::is_quote(#[trigger] t[k])
}

proof fn lemma_code_goes_on(t: Seq<char>, i: int, j: int)
    requires
        0 <= i <= j <= t.len(),
        is_calm(t),
        scan_at(t, i).place is Code,
        no_quotes(t, i, j),
    ensures
        forall|k: int| i <= k <= j ==> (#[trigger] scan_at(t, k)).place is Code,
    decreases j - i,
{
    if i < j {
        lemma_scan_step(t, i);
        assert(!in_comment(scan_at(t, i + 1)));
        assert(!scope::is_quote(t[i]));
        assert forall|k: int| i + 1 <= k < j implies !scope::is_quote(#[trigger] t[k]) by {}
        lemma_code_goes_on(t, i + 1, j);
    }
}

/// A part of the statement itself stands in the blanked statement too.
proof fn lemma_blanked_part(t: Seq<char>, i: int, j: int)
    requires
        0 <= i <= j <= t.len(),
        is_calm(t),
        scan_at(t, i).place is Code,
        no_quotes(t, i, j),
    ensures
        scope::blanked(t).len() == t.len(),
        scope::blanked(t).subrange(i, j) == t.subrange(i, j),
        forall|k: int| i <= k < j ==> #[trigger] scope::blanked(t)[k] == t[k],
        forall|k: int|
            0 <= k < t.len() ==> #[trigger] scope::blanked(t)[k] == t[k] || scope::blanked(t)[k]
                == ' ',
{
    assert(t.take(0).len() == 0);
    assert(scan_at(t, 0) == start());
    lemma_calm_blanked(t, 0);
    lemma_code_goes_on(t, i, j);
    let b = scope::blanked(t);
    assert forall|k: int| i <= k < j implies #[trigger] b[k] == t[k] by {
        assert(scan_at(t, k).place is Code);
        assert(b[k - 0] == t[k]);
    }
    assert forall|k: int| 0 <= k < t.len() implies #[trigger] b[k] == t[k] || b[k] == ' ' by {
        let at = scan_at(t, k);
        assert(b[k - 0] == b[k]);
    }
    assert(b.subrange(i, j) =~= t.subrange(i, j));
}

/// A statement that can be read has no comment.
pub proof fn law_accepted_statement_has_no_comment(cypher: Seq<char>, scope: Seq<char>)
    ensures
        scope::scoped(cypher, scope) is Ok ==> is_calm(cypher),
{
    if scope::scoped(cypher, scope) is Ok {
        lemma_accepted(cypher);
    }
}

/// A statement with a word that leads out of the scoped patterns is refused: one of
/// `CALL`, `UNION`, `EXISTS`, `FOREACH`, `shortestPath` and `allShortestPaths`, in any
/// case, where it is part of the statement itself.
pub proof fn law_words_that_escape_are_refused(cypher: Seq<char>, scope: Seq<char>, i: int, j: int)
    requires
        text::word_at(cypher, i, j),
        is_code(cypher, i),
        ({
            let w = text::upper(cypher.subrange(i, j));
            w == "CALL"@ || w == "UNION"@ || w == "EXISTS"@ || w == "FOREACH"@ || w
                == "SHORTESTPATH"@ || w == "ALLSHORTESTPATHS"@
        }),
    ensures
        scope::scoped(cypher, scope) is Err,
{
    if scope::scoped(cypher, scope) is Ok {
        lemma_accepted(cypher);
        assert forall|k: int| i <= k < j implies !scope::is_quote(#[trigger] cypher[k]) by {
            assert(text::is_ident(cypher[k]));
            lemma_ident_is_no_quote(cypher[k]);
        }
        lemma_blanked_part(cypher, i, j);
        let b = scope::blanked(cypher);
        assert(text::word_at(b, i, j)) by {
            assert forall|k: int| i <= k < j implies text::is_ident(#[trigger] b[k]) by {
                assert(text::is_ident(cypher[k]));
            }
            if i > 0 {
                assert(b[i - 1] == cypher[i - 1] || b[i - 1] == ' ');
            }
            if j < b.len() {
                assert(b[j] == cypher[j] || b[j] == ' ');
            }
        }
        let w = cypher.subrange(i, j);
        assert(b.subrange(i, j) == w);
        text::law_words_are_the_longest_runs(b, w);
        let k = choose|k: int| 0 <= k < text::words(b).len() && text::words(b)[k] == w;
        scope::law_accepted_statement_cannot_escape(cypher, scope);
        assert(!scope::is_unscopable_word(text::upper(text::words(b)[k])));
    }
}

/// A statement that names a namespace of procedures is refused, in any case, where that
/// is part of the statement itself.
pub proof fn law_namespaces_are_refused(
    cypher: Seq<char>,
    scope: Seq<char>,
    ns: Seq<char>,
    k: int,
)
    requires
        ns == "apoc."@ || ns == "db."@ || ns == "dbms."@ || ns == "gds."@ || ns == "spatial."@ || ns
            == "algo."@,
        text::stands_at(text::lower(cypher), ns, k),
        is_code(cypher, k),
        no_quotes(cypher, k, k + ns.len()),
    ensures
        scope::scoped(cypher, scope) is Err,
{
    if scope::scoped(cypher, scope) is Ok {
        lemma_accepted(cypher);
        let n = ns.len() as int;
        lemma_blanked_part(cypher, k, k + n);
        let b = scope::blanked(cypher);
        assert(text::lower(b).subrange(k, k + n) =~= text::lower(cypher).subrange(k, k + n)) by {
            assert forall|m: int| k <= m < k + n implies text::lower(b)[m] == text::lower(
                cypher,
            )[m] by {
                assert(b[m] == cypher[m]);
            }
        }
        assert(text::stands_at(text::lower(b), ns, k));
        assert(text::contains(text::lower(b), ns));
        scope::law_accepted_statement_cannot_escape(cypher, scope);
        let all = scope::namespaces();
        let i: int = if ns == "apoc."@ {
            0
        } else if ns == "db."@ {
            1
        } else if ns == "dbms."@ {
            2
        } else if ns == "gds."@ {
            3
        } else if ns == "spatial."@ {
            4
        } else {
            5
        };
        assert(all[i] == ns);
        assert(!scope::contains_one(text::lower(b), all, i));
    }
}

proof fn lemma_after_spaces(t: Seq<char>, i: int, j: int)
    requires
        0 <= i <= j < t.len(),
        forall|k: int| i <= k < j ==> text::is_ascii_space(#[trigger] t[k]),
        !text::is_ascii_space(t[j]),
    ensures
        scope::after_spaces(t, i) == j,
    decreases j - i,
{
    if i < j {
        assert(text::is_ascii_space(t[i]));
        lemma_after_spaces(t, i + 1, j);
    }
}

/// A statement with a subquery expression is refused: `COUNT` or `COLLECT`, in any case,
/// with a `{` after it.
pub proof fn law_subqueries_are_refused(
    cypher: Seq<char>,
    scope: Seq<char>,
    word: Seq<char>,
    k: int,
    j: int,
)
    requires
        word == "count"@ || word == "collect"@,
        text::stands_at(text::lower(cypher), word, k),
        k > 0 ==> !text::is_ascii_ident(cypher[k - 1]),
        k + word.len() <= j < cypher.len(),
        forall|m: int| k + word.len() <= m < j ==> text::is_ascii_space(#[trigger] cypher[m]),
        cypher[j] == '{',
        is_code(cypher, k),
        no_quotes(cypher, k, j),
    ensures
        scope::scoped(cypher, scope) is Err,
{
    if scope::scoped(cypher, scope) is Ok {
        lemma_accepted(cypher);
        let n = word.len() as int;
        assert(no_quotes(cypher, k, j + 1));
        lemma_blanked_part(cypher, k, j + 1);
        let b = scope::blanked(cypher);
        let low = text::lower(b);
        assert(low.subrange(k, k + n) =~= text::lower(cypher).subrange(k, k + n)) by {
            assert forall|m: int| k <= m < k + n implies low[m] == text::lower(cypher)[m] by {
                assert(b[m] == cypher[m]);
            }
        }
        assert forall|m: int| k + n <= m < j implies text::is_ascii_space(#[trigger] low[m]) by {
            assert(b[m] == cypher[m]);
            assert(text::is_ascii_space(cypher[m]));
        }
        assert(b[j] == cypher[j]);
        assert(low[j] == '{');
        lemma_after_spaces(low, k + n, j);
        if k > 0 {
            assert(b[k - 1] == cypher[k - 1] || b[k - 1] == ' ');
        }
        assert(scope::word_then_brace_at(low, word, k));
        assert(scope::has_word_then_brace(low, word));
        scope::law_accepted_statement_cannot_escape(cypher, scope);
    }
}

/// A statement in which a `(` follows a `[` is refused.
pub proof fn law_comprehensions_are_refused(cypher: Seq<char>, scope: Seq<char>, k: int, j: int)
    requires
        0 <= k < j < cypher.len(),
        cypher[k] == '[',
        forall|m: int| k < m < j ==> text::is_ascii_space(#[trigger] cypher[m]),
        cypher[j] == '(',
        is_code(cypher, k),
    ensures
        scope::scoped(cypher, scope) is Err,
{
    if scope::scoped(cypher, scope) is Ok {
        lemma_accepted(cypher);
        assert forall|m: int| k <= m < j + 1 implies !scope::is_quote(#[trigger] cypher[m]) by {
            if k < m < j {
                assert(text::is_ascii_space(cypher[m]));
            }
        }
        lemma_blanked_part(cypher, k, j + 1);
        let b = scope::blanked(cypher);
        assert forall|m: int| k + 1 <= m < j implies text::is_ascii_space(#[trigger] b[m]) by {
            assert(b[m] == cypher[m]);
            assert(text::is_ascii_space(cypher[m]));
        }
        assert(b[j] == cypher[j] && b[k] == cypher[k]);
        lemma_after_spaces(b, k + 1, j);
        assert(scope::bracket_then_paren_at(b, k));
        scope::law_accepted_statement_cannot_escape(cypher, scope);
    }
}

/// The node patterns of an accepted statement hold none of the signs of label
/// expressions.
pub proof fn law_label_expressions_are_refused(cypher: Seq<char>, scope: Seq<char>) -> (parts: Seq<
    Part,
>)
    ensures
        scope::scoped(cypher, scope) is Ok ==> text_before(parts) == cypher && forall|k: int|
            0 <= k < parts.len() ==> ((#[trigger] parts[k]) matches Part::Node { inner, marked }
                ==> !inner.contains('&') && !inner.contains('|') && !inner.contains('!')),
{
    if scope::scoped(cypher, scope) is Ok {
        scope::law_pieces_are_the_statement(cypher);
        lemma_accepted(cypher);
        lemma_parts(scope::pieces(cypher)->Ok_0, scope)
    } else {
        Seq::<Part>::empty()
    }
}

// ---------------------------------------------------------------------------
// What is accepted
// ---------------------------------------------------------------------------

/// A character of a plain list of expressions: of names and numbers, of a few signs, and
/// of round brackets.
pub open spec fn is_plain_sign(c: char) -> bool {
    ||| text::is_ascii_ident(c)
    ||| c == ' ' || c == ',' || c == '.' || c == '(' || c == ')'
    ||| c == '*' || c == '+' || c == '%' || c == '=' || c == '>' || c == ':' || c == '$'
}

/// The brackets that are open before position `i`.
pub open spec fn level(s: Seq<char>, i: int) -> int
    decreases i,
{
    if i <= 0 {
        0
    } else {
        level(s, i - 1) + bracket(s[i - 1])
    }
}

/// A plain list of expressions: plain signs, dots between names alone, and brackets that
/// are closed.
pub open spec fn is_plain_list(s: Seq<char>) -> bool {
    &&& s.len() > 0 && text::is_ascii_ident(s[0])
    &&& forall|i: int| 0 <= i < s.len() ==> is_plain_sign(#[trigger] s[i])
    &&& forall|i: int|
        0 <= i < s.len() && #[trigger] s[i] == '.' ==> 0 < i < s.len() - 1 && text::is_ascii_ident(
            s[i - 1],
        ) && text::is_ascii_ident(s[i + 1])
    &&& forall|i: int| 0 <= i <= s.len() ==> #[trigger] level(s, i) >= 0
    &&& level(s, s.len() as int) == 0
}

/// A node of a plain pattern: names, colons and numbers, and a property map with any
/// number of properties.
pub open spec fn is_plain_node(s: Seq<char>) -> bool {
    &&& forall|i: int|
        0 <= i < s.len() ==> text::is_ascii_ident(#[trigger] s[i]) || s[i] == ':' || s[i] == ' '
            || s[i] == ',' || s[i] == '$' || s[i] == '{' || s[i] == '}'
    &&& forall|i: int| 0 <= i <= s.len() ==> #[trigger] level(s, i) >= 0
    &&& level(s, s.len() as int) == 0
    &&& !text::words(text::lower(s)).contains("where"@)
}

/// A relationship of a plain pattern, or a comma: what names it stands in brackets.
pub open spec fn is_plain_link(s: Seq<char>) -> bool {
    &&& s.len() > 0 && !text::is_ascii_ident(s.last())
    &&& forall|i: int|
        0 <= i < s.len() ==> s[i] == '-' || s[i] == '<' || s[i] == '>' || s[i] == ',' || s[i] == ' '
            || s[i] == '[' || s[i] == ']' || (level(s, i) > 0 && (text::is_ascii_ident(s[i])
            || #[trigger] s[i] == ':' || s[i] == '*' || s[i] == '|'))
    &&& forall|i: int|
        0 <= i < s.len() && #[trigger] s[i] == '[' ==> i + 1 < s.len() && s[i + 1] != ' '
    &&& forall|i: int| 0 <= i <= s.len() ==> #[trigger] level(s, i) >= 0
    &&& level(s, s.len() as int) == 0
}

/// Nodes with relationships or commas between them.
pub open spec fn pattern(nodes: Seq<Seq<char>>, links: Seq<Seq<char>>) -> Seq<char>
    decreases nodes.len(),
{
    if nodes.len() == 0 {
        seq![]
    } else if nodes.len() == 1 {
        seq!['('] + nodes[0] + seq![')']
    } else {
        seq!['('] + nodes[0] + seq![')'] + links[0] + pattern(nodes.skip(1), links.skip(1))
    }
}

/// A plain pattern: at least one plain node, and one plain link between any two.
pub open spec fn is_plain_pattern(nodes: Seq<Seq<char>>, links: Seq<Seq<char>>) -> bool {
    &&& nodes.len() > 0 && links.len() == nodes.len() - 1
    &&& forall|k: int| 0 <= k < nodes.len() ==> is_plain_node(#[trigger] nodes[k])
    &&& forall|k: int| 0 <= k < links.len() ==> is_plain_link(#[trigger] links[k])
}

/// A statement of one pattern, a keyword and a list of expressions.
pub open spec fn plain_statement(
    nodes: Seq<Seq<char>>,
    links: Seq<Seq<char>>,
    keyword: Seq<char>,
    list: Seq<char>,
) -> Seq<char> {
    "MATCH "@ + pattern(nodes, links) + " "@ + keyword + " "@ + list
}

/// A word, in upper case, that leads out of the scoped patterns.
pub open spec fn leads_out(w: Seq<char>) -> bool {
    w == "CALL"@ || w == "UNION"@ || w == "EXISTS"@ || w == "FOREACH"@ || w == "SHORTESTPATH"@ || w
        == "ALLSHORTESTPATHS"@
}

/// No word of a statement leads out of its patterns, none but the first begins patterns,
/// none from `n` on loads a file, none before `n` could open a subquery, and no namespace
/// of procedures is named.
pub open spec fn has_plain_words(c: Seq<char>, n: int) -> bool {
    &&& forall|i: int, j: int| #[trigger]
        text::word_at(c, i, j) ==> {
            let w = text::upper(c.subrange(i, j));
            &&& !leads_out(w)
            &&& i > 0 ==> !text::ends_with(w, "MATCH"@)
            &&& i >= n ==> w != "LOAD"@
            &&& i < n ==> w != "COUNT"@ && w != "COLLECT"@
        }
    &&& !text::contains(text::lower(c), "apoc."@) && !text::contains(text::lower(c), "db."@)
    &&& !text::contains(text::lower(c), "dbms."@) && !text::contains(text::lower(c), "gds."@)
    &&& !text::contains(text::lower(c), "spatial."@) && !text::contains(text::lower(c), "algo."@)
}

proof fn lemma_blanked_plain(s: Seq<char>, i: int)
    requires
        0 <= i <= s.len(),
        no_quotes(s, i, s.len() as int),
    ensures
        scope::blanked_from(s, i) == s.skip(i),
    decreases s.len() - i,
{
    if i < s.len() {
        assert(!scope::is_quote(s[i]));
        assert forall|k: int| i + 1 <= k < s.len() implies !scope::is_quote(#[trigger] s[k]) by {}
        lemma_blanked_plain(s, i + 1);
        assert(seq![s[i]] + s.skip(i + 1) =~= s.skip(i));
    } else {
        assert(s.skip(i) =~= Seq::<char>::empty());
    }
}

/// A character that can be read with certainty wherever it stands.
pub open spec fn is_certain(c: char) -> bool {
    ||| is_plain_sign(c) && c != '.'
    ||| c == '-' || c == '<' || c == '[' || c == ']' || c == '{' || c == '}' || c == '|'
}

/// All characters from `i` on are plain, and a dot stands between names alone.
pub open spec fn is_plain_from(s: Seq<char>, i: int) -> bool {
    forall|k: int|
        i <= k < s.len() ==> is_plain_sign(#[trigger] s[k]) && (s[k] == '.' ==> 0 < k < s.len() - 1
            && text::is_ascii_ident(s[k - 1]) && text::is_ascii_ident(s[k + 1]))
}

proof fn lemma_plain_is_no_oddity(s: Seq<char>, i: int)
    requires
        0 <= i <= s.len(),
        is_plain_from(s, i),
    ensures
        scope::oddity_from(s, i) is None,
    decreases s.len() - i,
{
    if i < s.len() {
        assert(is_plain_sign(s[i]));
        assert forall|k: int| i + 1 <= k < s.len() implies is_plain_sign(#[trigger] s[k]) && (s[k]
            == '.' ==> 0 < k < s.len() - 1 && text::is_ascii_ident(s[k - 1])
            && text::is_ascii_ident(s[k + 1])) by {}
        lemma_plain_is_no_oddity(s, i + 1);
        if s[i] == '.' {
            assert(scope::before_white(s, i) == i);
            assert(!scope::number_dot_match(s, i));
        }
    }
}

proof fn lemma_plain_next(s: Seq<char>, i: int)
    requires
        0 <= i,
        is_plain_from(s, i),
    ensures
        scope::next_char(s, i) != Some('-') && scope::next_char(s, i) != Some('<'),
    decreases s.len() - i,
{
    if i < s.len() {
        assert(is_plain_sign(s[i]));
        if text::is_white(s[i]) {
            assert forall|k: int| i + 1 <= k < s.len() implies is_plain_sign(#[trigger] s[k]) && (
            s[k] == '.' ==> 0 < k < s.len() - 1 && text::is_ascii_ident(s[k - 1])
                && text::is_ascii_ident(s[k + 1])) by {}
            lemma_plain_next(s, i + 1);
        }
    }
}

/// No piece is a node.
pub open spec fn no_nodes(ps: Seq<Piece>) -> bool {
    forall|k: int| 0 <= k < ps.len() ==> !((#[trigger] ps[k]) is Node)
}

proof fn lemma_no_nodes_ahead(t: Seq<char>, rest: Seq<Piece>)
    requires
        no_nodes(rest),
    ensures
        no_nodes(seq![Piece::Verbatim(t)] + rest),
{
    let all = seq![Piece::Verbatim(t)] + rest;
    assert forall|k: int| 0 <= k < all.len() implies !((#[trigger] all[k]) is Node) by {
        if k > 0 {
            assert(all[k] == rest[k - 1]);
        }
    }
}

/// Expressions are passed on: from `n` on the statement has no clause of patterns.
proof fn lemma_plain_tail(s: Seq<char>, n: int, i: int, depth: int, begins: bool)
    requires
        0 < n <= i <= s.len(),
        is_plain_from(s, n),
        has_plain_words(s, n),
        depth == level(s, i) - level(s, n),
        forall|k: int| n <= k <= s.len() ==> #[trigger] level(s, k) >= level(s, n),
        level(s, s.len() as int) == level(s, n),
        depth == 0 && 0 < i < s.len() && text::is_ident(s[i]) ==> !text::is_ident(s[i - 1]),
    ensures
        scope::pieces_from(s, i, Clause::Other, depth, begins) matches Ok(ps) && no_nodes(ps),
    decreases s.len() - i,
{
    if i < s.len() {
        assert(is_plain_sign(s[i]));
        if text::is_ident(s[i]) && depth == 0 {
            let end = text::word_end(s, i);
            text::lemma_word_end(s, i);
            assert(text::word_at(s, i, end));
            let word = s.subrange(i, end);
            let upper = text::upper(word);
            reveal_strlit("MATCH");
            reveal_strlit("OPTIONAL");
            assert(upper != "MATCH"@) by {
                if upper == "MATCH"@ {
                    assert(upper.subrange(0, 5) =~= "MATCH"@);
                    assert(text::ends_with(upper, "MATCH"@));
                }
            }
            assert(!scope::number_then_match(s, i, end)) by {
                if scope::number_then_match(s, i, end) {
                    let k = upper.len() - 5;
                    assert(upper.subrange(k, k + 5) =~= text::upper(s.subrange(end - 5, end)));
                    assert(text::ends_with(upper, "MATCH"@));
                }
            }
            assert(scope::clause_at(s, i, end, Clause::Other, begins) == Ok::<Clause, Seq<char>>(
                Clause::Other,
            ));
            lemma_level_over(s, i, end);
            lemma_plain_tail(s, n, end, depth, true);
            lemma_no_nodes_ahead(
                word,
                scope::pieces_from(s, end, Clause::Other, depth, true)->Ok_0,
            );
        } else {
            let d = depth + scope::nesting(s[i]);
            let b = scope::can_begin_after(s[i], begins);
            assert(level(s, i + 1) == level(s, i) + bracket(s[i]));
            assert(level(s, i + 1) >= level(s, n));
            assert(!scope::linked_paren_at(s, i)) by {
                assert forall|k: int| i + 1 <= k < s.len() implies is_plain_sign(#[trigger] s[k])
                    && (s[k] == '.' ==> 0 < k < s.len() - 1 && text::is_ascii_ident(s[k - 1])
                    && text::is_ascii_ident(s[k + 1])) by {}
                lemma_plain_next(s, i + 1);
            }
            assert(!scope::match_at(s, i)) by {
                if scope::match_at(s, i) {
                    let end = text::word_end(s, i);
                    text::lemma_word_end(s, i);
                    assert(text::word_at(s, i, end));
                    let upper = text::upper(s.subrange(i, end));
                    reveal_strlit("MATCH");
                    assert(upper.subrange(0, 5) =~= "MATCH"@);
                    assert(text::ends_with(upper, "MATCH"@));
                }
            }
            lemma_plain_tail(s, n, i + 1, d, b);
            lemma_no_nodes_ahead(
                seq![s[i]],
                scope::pieces_from(s, i + 1, Clause::Other, d, b)->Ok_0,
            );
        }
    }
}

proof fn lemma_level_over(s: Seq<char>, i: int, j: int)
    requires
        0 <= i <= j <= s.len(),
        forall|k: int| i <= k < j ==> text::is_ident(#[trigger] s[k]),
    ensures
        level(s, j) == level(s, i),
    decreases j - i,
{
    if i < j {
        lemma_level_over(s, i, j - 1);
        assert(text::is_ident(s[j - 1]));
    }
}

proof fn lemma_first_contained_none(s: Seq<char>)
    requires
        !text::contains(s, "apoc."@) && !text::contains(s, "db."@) && !text::contains(s, "dbms."@),
        !text::contains(s, "gds."@) && !text::contains(s, "spatial."@) && !text::contains(
            s,
            "algo."@,
        ),
    ensures
        scope::first_contained(s, scope::namespaces()) is None,
{
    let ns = scope::namespaces();
    assert(ns[0] == "apoc."@ && ns[1] == "db."@ && ns[2] == "dbms."@);
    assert(ns[3] == "gds."@ && ns[4] == "spatial."@ && ns[5] == "algo."@);
    reveal_with_fuel(scope::first_contained, 7);
    assert(ns.skip(1)[0] == ns[1]);
    assert(ns.skip(1).skip(1)[0] == ns[2]);
    assert(ns.skip(1).skip(1).skip(1)[0] == ns[3]);
    assert(ns.skip(1).skip(1).skip(1).skip(1)[0] == ns[4]);
    assert(ns.skip(1).skip(1).skip(1).skip(1).skip(1)[0] == ns[5]);
    assert(ns.skip(1).skip(1).skip(1).skip(1).skip(1).skip(1).len() == 0);
}

proof fn lemma_no_unscopable_word(ws: Seq<Seq<char>>)
    requires
        forall|k: int| 0 <= k < ws.len() ==> !leads_out(text::upper(#[trigger] ws[k])),
    ensures
        scope::first_unscopable(ws) is None,
    decreases ws.len(),
{
    if ws.len() > 0 {
        assert(!leads_out(text::upper(ws[0])));
        let rest = ws.skip(1);
        assert forall|k: int| 0 <= k < rest.len() implies !leads_out(
            text::upper(#[trigger] rest[k]),
        ) by {
            assert(rest[k] == ws[k + 1]);
        }
        lemma_no_unscopable_word(rest);
    }
}

proof fn lemma_certain_is_no_oddity(s: Seq<char>, i: int, j: int)
    requires
        0 <= i <= j <= s.len(),
        forall|k: int| i <= k < j ==> is_certain(#[trigger] s[k]),
        scope::oddity_from(s, j) is None,
    ensures
        scope::oddity_from(s, i) is None,
    decreases j - i,
{
    if i < j {
        assert(is_certain(s[i]));
        lemma_certain_is_no_oddity(s, i + 1, j);
    }
}

/// The closing brackets that are owed within `n` braces of a node.
pub open spec fn owed(n: int) -> Seq<char> {
    seq![')'] + Seq::new(n as nat, |k: int| '}')
}

/// A plain node is closed where it ends.
proof fn lemma_node_closes(c: Seq<char>, a: int, node: Seq<char>, k: int)
    requires
        0 <= a,
        is_plain_node(node),
        text::stands_at(c, node, a),
        a + node.len() < c.len(),
        c[a + node.len()] == ')',
        0 <= k <= node.len(),
    ensures
        scope::closing(c, a + k, owed(level(node, k))) == Some(a + node.len()),
    decreases node.len() - k,
{
    let n = level(node, k);
    let open = owed(n);
    assert(n >= 0);
    if k == node.len() {
        assert(open =~= seq![')']);
        assert(open.last() == ')');
    } else {
        assert(c.subrange(a, a + node.len())[k] == c[a + k]);
        let x = node[k];
        assert(c[a + k] == x);
        lemma_node_closes(c, a, node, k + 1);
        assert(level(node, k + 1) == n + bracket(x));
        if x == '{' {
            assert(open.push('}') =~= owed(n + 1));
        } else if x == '}' {
            assert(level(node, k + 1) >= 0);
            assert(open.last() == '}');
            assert(open.drop_last() =~= owed(n - 1));
        }
    }
}

proof fn lemma_plain_node(node: Seq<char>)
    requires
        is_plain_node(node),
    ensures
        scope::inner_refusal(node) is None,
        !scope::is_grouped(node),
{
    let n = node.len() as int;
    assert forall|k: int| 0 <= k < n implies is_certain(#[trigger] node[k]) && node[k] != '('
        && node[k] != ')' && node[k] != '&' && node[k] != '|' && node[k] != '!' && node[k]
        != '=' by {
        assert(text::is_ascii_ident(node[k]) || node[k] == ':' || node[k] == ' ' || node[k] == ','
            || node[k] == '$' || node[k] == '{' || node[k] == '}');
    }
    assert forall|k: int| 0 <= k < n implies !scope::is_quote(#[trigger] node[k]) by {
        assert(is_certain(node[k]));
    }
    lemma_blanked_plain(node, 0);
    assert(node.skip(0) =~= node);
    assert(scope::blanked(node) == node);
    if scope::has_linked_paren(node) {
        let k = choose|k: int| scope::linked_paren_at(node, k);
        assert(is_certain(node[k]));
    }
    let left = node.subrange(0, scope::map_start(node));
    assert(0 <= scope::map_start(node) <= n) by {
        lemma_brace_within(node, 0, 0);
    }
    assert forall|k: int| 0 <= k < left.len() implies !scope::is_quote(#[trigger] left[k])
        && left[k] != '=' by {
        assert(left[k] == node[k]);
        assert(is_certain(node[k]));
    }
    lemma_blanked_plain(left, 0);
    assert(left.skip(0) =~= left);
    if scope::has_equals_then_paren(left) {
        let k = choose|k: int| scope::equals_then_paren_at(left, k);
        assert(left[k] == '=');
    }
    let a = text::lemma_strip_start_at(node, Class::White);
    if a < n {
        assert(node.skip(a)[0] == node[a]);
        assert(is_certain(node[a]));
    }
}

proof fn lemma_brace_within(s: Seq<char>, i: int, depth: int)
    requires
        0 <= i <= s.len(),
    ensures
        scope::brace_from(s, i, depth) matches Some(k) ==> i <= k < s.len(),
    decreases s.len() - i,
{
    if i < s.len() {
        if scope::is_quote(s[i]) {
            scope::lemma_literal_end(s, i + 1, s[i]);
            lemma_brace_within(s, scope::literal_end(s, i + 1, s[i]), depth);
        } else if !(s[i] == '{' && depth == 0) {
            lemma_brace_within(s, i + 1, depth + scope::nesting(s[i]));
        }
    }
}

/// Patterns go on over a link.
proof fn lemma_plain_link(c: Seq<char>, a: int, link: Seq<char>, k: int, begins: bool)
    requires
        0 <= a,
        is_plain_link(link),
        text::stands_at(c, link, a),
        0 <= k <= link.len(),
        forall|i: int, j: int| #[trigger]
            text::word_at(c, i, j) && i > 0 ==> !text::ends_with(
                text::upper(c.subrange(i, j)),
                "MATCH"@,
            ),
        0 < a,
        scope::pieces_from(c, a + link.len(), Clause::Match, 0, true) is Ok,
        scope::pieces_from(c, a + link.len(), Clause::Match, 0, false) is Ok,
    ensures
        scope::pieces_from(c, a + k, Clause::Match, level(link, k), begins) is Ok,
    decreases link.len() - k,
{
    if k < link.len() {
        let i = a + k;
        assert(c.subrange(a, a + link.len())[k] == c[i]);
        let x = link[k];
        assert(c[i] == x);
        let d = level(link, k);
        assert(d >= 0);
        assert(level(link, k + 1) == d + bracket(x));
        assert(level(link, k + 1) >= 0);
        assert(x == '-' || x == '<' || x == '>' || x == ',' || x == ' ' || x == '[' || x == ']' || (
        d > 0 && (text::is_ascii_ident(x) || x == ':' || x == '*' || x == '|')));
        let b = scope::can_begin_after(x, begins);
        lemma_plain_link(c, a, link, k + 1, b);
        assert(!scope::match_at(c, i)) by {
            if scope::match_at(c, i) {
                let end = text::word_end(c, i);
                text::lemma_word_end(c, i);
                assert(text::word_at(c, i, end));
                let upper = text::upper(c.subrange(i, end));
                reveal_strlit("MATCH");
                assert(upper.subrange(0, 5) =~= "MATCH"@);
                assert(text::ends_with(upper, "MATCH"@));
            }
        }
        assert(!scope::is_quote(x));
        assert(!(text::is_ident(x) && d == 0));
    }
}

/// A plain pattern is accepted where what follows it is.
proof fn lemma_plain_pattern(
    c: Seq<char>,
    a: int,
    nodes: Seq<Seq<char>>,
    links: Seq<Seq<char>>,
    begins: bool,
)
    requires
        0 < a,
        !text::is_ident(c[a - 1]),
        is_plain_pattern(nodes, links),
        text::stands_at(c, pattern(nodes, links), a),
        forall|i: int, j: int| #[trigger]
            text::word_at(c, i, j) && i > 0 ==> !text::ends_with(
                text::upper(c.subrange(i, j)),
                "MATCH"@,
            ),
        scope::pieces_from(c, a + pattern(nodes, links).len(), Clause::Match, 0, true) is Ok,
    ensures
        scope::pieces_from(c, a, Clause::Match, 0, begins) is Ok,
    decreases nodes.len(),
{
    let p = pattern(nodes, links);
    let node = nodes[0];
    let n = node.len() as int;
    assert(is_plain_node(node));
    let shut = a + 1 + n;
    assert(c.subrange(a, a + p.len()) == p);
    assert(p[0] == '(' && p[n + 1] == ')' && p.subrange(1, n + 1) =~= node);
    assert(c[a] == p[0] && c[shut] == p[n + 1]);
    assert(c.subrange(a + 1, shut) =~= p.subrange(1, n + 1));
    assert(text::stands_at(c, node, a + 1));
    lemma_node_closes(c, a + 1, node, 0);
    assert(owed(0) =~= seq![')']);
    lemma_plain_node(node);
    assert(scope::node_at(c, a) == Ok::<Seq<char>, Seq<char>>(node));
    let next = a + 2 + n;
    if nodes.len() == 1 {
        assert(p.len() == n + 2);
    } else {
        let link = links[0];
        let rest = pattern(nodes.skip(1), links.skip(1));
        let m = link.len() as int;
        assert(is_plain_link(link));
        assert(p.len() == n + 2 + m + rest.len());
        assert(p.subrange(n + 2, n + 2 + m) =~= link);
        assert(p.subrange(n + 2 + m, p.len() as int) =~= rest);
        assert(c.subrange(next, next + m) =~= p.subrange(n + 2, n + 2 + m));
        assert(c.subrange(next + m, next + m + rest.len()) =~= p.subrange(
            n + 2 + m,
            p.len() as int,
        ));
        assert(c[next + m - 1] == c.subrange(next, next + m)[m - 1]);
        assert(is_plain_pattern(nodes.skip(1), links.skip(1))) by {
            assert forall|k: int| 0 <= k < nodes.len() - 1 implies is_plain_node(
                #[trigger] nodes.skip(1)[k],
            ) by {
                assert(nodes.skip(1)[k] == nodes[k + 1]);
            }
            assert forall|k: int| 0 <= k < links.len() - 1 implies is_plain_link(
                #[trigger] links.skip(1)[k],
            ) by {
                assert(links.skip(1)[k] == links[k + 1]);
            }
        }
        assert(!text::is_ident(c[next + m - 1])) by {
            lemma_link_last(link);
        }
        lemma_plain_pattern(c, next + m, nodes.skip(1), links.skip(1), true);
        lemma_plain_pattern(c, next + m, nodes.skip(1), links.skip(1), false);
        lemma_plain_link(c, next, link, 0, true);
    }
}

proof fn lemma_link_last(link: Seq<char>)
    requires
        is_plain_link(link),
    ensures
        !text::is_ident(link.last()),
{
    let k = link.len() - 1;
    let x = link[k];
    assert(x == '-' || x == '<' || x == '>' || x == ',' || x == ' ' || x == '[' || x == ']' || (
    level(link, k) > 0 && (text::is_ascii_ident(x) || x == ':' || x == '*' || x == '|')));
}

proof fn lemma_pattern_certain(nodes: Seq<Seq<char>>, links: Seq<Seq<char>>)
    requires
        is_plain_pattern(nodes, links),
    ensures
        pattern(nodes, links).len() > 0,
        pattern(nodes, links)[0] == '(',
        pattern(nodes, links).last() == ')',
        forall|k: int|
            0 <= k < pattern(nodes, links).len() ==> is_certain(#[trigger] pattern(nodes, links)[k])
                && (pattern(nodes, links)[k] == '[' ==> k + 1 < pattern(nodes, links).len()
                && pattern(nodes, links)[k + 1] != ' ' && pattern(nodes, links)[k + 1] != '('
                && pattern(nodes, links)[k + 1] != '\t' && !text::is_ascii_space(
                pattern(nodes, links)[k + 1],
            )),
    decreases nodes.len(),
{
    let p = pattern(nodes, links);
    let node = nodes[0];
    let n = node.len() as int;
    assert(is_plain_node(node));
    assert forall|k: int| 0 <= k < n implies is_certain(#[trigger] node[k]) && node[k] != '[' by {
        assert(text::is_ascii_ident(node[k]) || node[k] == ':' || node[k] == ' ' || node[k] == ','
            || node[k] == '$' || node[k] == '{' || node[k] == '}');
    }
    if nodes.len() > 1 {
        let link = links[0];
        let m = link.len() as int;
        assert(is_plain_link(link));
        let rest = pattern(nodes.skip(1), links.skip(1));
        assert(is_plain_pattern(nodes.skip(1), links.skip(1))) by {
            assert forall|k: int| 0 <= k < nodes.len() - 1 implies is_plain_node(
                #[trigger] nodes.skip(1)[k],
            ) by {
                assert(nodes.skip(1)[k] == nodes[k + 1]);
            }
            assert forall|k: int| 0 <= k < links.len() - 1 implies is_plain_link(
                #[trigger] links.skip(1)[k],
            ) by {
                assert(links.skip(1)[k] == links[k + 1]);
            }
        }
        lemma_pattern_certain(nodes.skip(1), links.skip(1));
        assert forall|k: int| 0 <= k < m implies is_certain(#[trigger] link[k]) && link[k] != '('
            && (link[k] == ' ' || !text::is_ascii_space(link[k])) by {
            let x = link[k];
            assert(x == '-' || x == '<' || x == '>' || x == ',' || x == ' ' || x == '[' || x == ']'
                || (level(link, k) > 0 && (text::is_ascii_ident(x) || x == ':' || x == '*' || x
                == '|')));
        }
        assert forall|k: int| 0 <= k < p.len() implies is_certain(#[trigger] p[k]) && (p[k] == '['
            ==> k + 1 < p.len() && p[k + 1] != ' ' && p[k + 1] != '(' && p[k + 1] != '\t'
            && !text::is_ascii_space(p[k + 1])) by {
            if k == 0 {
            } else if k < n + 1 {
                assert(p[k] == node[k - 1]);
            } else if k == n + 1 {
                assert(p[k] == ')');
            } else if k < n + 2 + m {
                assert(p[k] == link[k - n - 2]);
                if p[k] == '[' {
                    assert(link[k - n - 2] == '[');
                    assert(p[k + 1] == link[k - n - 1]);
                }
            } else {
                let j = k - n - 2 - m;
                assert(p[k] == rest[j]);
                if rest[j] == '[' {
                    assert(p[k + 1] == rest[j + 1]);
                }
            }
        }
        assert(p.last() == rest.last());
    } else {
        assert forall|k: int| 0 <= k < p.len() implies is_certain(#[trigger] p[k]) && p[k]
            != '[' by {
            if 0 < k < n + 1 {
                assert(p[k] == node[k - 1]);
            }
        }
    }
}

proof fn lemma_plain_is_scopable(c: Seq<char>, t: int)
    requires
        0 <= t <= c.len(),
        forall|k: int| 0 <= k < t ==> is_certain(#[trigger] c[k]),
        forall|k: int| t <= k < c.len() ==> is_plain_sign(#[trigger] c[k]),
        forall|k: int|
            0 <= k < t && #[trigger] c[k] == '[' ==> k + 1 < c.len() && c[k + 1] != '('
                && !text::is_ascii_space(c[k + 1]),
        has_plain_words(c, t),
    ensures
        scope::unscopable(c) is None,
{
    assert forall|k: int| 0 <= k < c.len() implies !scope::is_quote(#[trigger] c[k])
        && text::is_ascii_char(c[k]) by {
        if k < t {
            assert(is_certain(c[k]));
        } else {
            assert(is_plain_sign(c[k]));
        }
    }
    lemma_blanked_plain(c, 0);
    assert(c.skip(0) =~= c);
    assert(scope::blanked(c) == c);
    let low = text::lower(c);
    lemma_first_contained_none(low);
    let ws = text::words(c);
    assert forall|k: int| 0 <= k < ws.len() implies !leads_out(text::upper(#[trigger] ws[k])) by {
        text::law_words_are_the_longest_runs(c, ws[k]);
        assert(ws.contains(ws[k]));
        let (i, j) = choose|i: int, j: int| #[trigger]
            text::word_at(c, i, j) && ws[k] == c.subrange(i, j);
        assert(text::word_at(c, i, j));
    }
    lemma_no_unscopable_word(ws);
    lemma_no_subquery(c, t, "count"@);
    lemma_no_subquery(c, t, "collect"@);
    if scope::has_bracket_then_paren(c) {
        let k = choose|k: int| scope::bracket_then_paren_at(c, k);
        if k >= t {
            assert(is_plain_sign(c[k]));
        } else {
            assert(c[k] == '[');
            assert(scope::after_spaces(c, k + 1) == k + 1);
        }
    }
}

proof fn lemma_spaces_within(s: Seq<char>, i: int)
    requires
        0 <= i <= s.len(),
    ensures
        i <= scope::after_spaces(s, i) <= s.len(),
        i < scope::after_spaces(s, i) ==> text::is_ascii_space(s[i]),
    decreases s.len() - i,
{
    if i < s.len() && text::is_ascii_space(s[i]) {
        lemma_spaces_within(s, i + 1);
    }
}

proof fn lemma_no_subquery(c: Seq<char>, t: int, word: Seq<char>)
    requires
        0 <= t <= c.len(),
        word == "count"@ || word == "collect"@,
        forall|k: int| 0 <= k < c.len() ==> text::is_ascii_char(#[trigger] c[k]),
        forall|k: int| t <= k < c.len() ==> is_plain_sign(#[trigger] c[k]),
        has_plain_words(c, t),
    ensures
        !scope::has_word_then_brace(text::lower(c), word),
{
    let low = text::lower(c);
    if scope::has_word_then_brace(low, word) {
        let k = choose|k: int| scope::word_then_brace_at(low, word, k);
        let n = word.len() as int;
        let j = scope::after_spaces(low, k + n);
        lemma_spaces_within(low, k + n);
        assert(low[j] == '{');
        if j >= t {
            assert(is_plain_sign(c[j]));
        }
        reveal_strlit("count");
        reveal_strlit("collect");
        reveal_strlit("COUNT");
        reveal_strlit("COLLECT");
        assert forall|m: int| k <= m < k + n implies text::is_ident(#[trigger] c[m]) by {
            assert(low.subrange(k, k + n)[m - k] == low[m]);
            assert(text::is_ascii_char(c[m]));
            assert(text::is_lower(word[m - k]));
        }
        assert(text::word_at(c, k, k + n)) by {
            if k > 0 {
                assert(text::is_ascii_char(c[k - 1]));
                assert(!text::is_ascii_ident(low[k - 1]));
            }
            assert(k + n <= j);
            if k + n < c.len() {
                if k + n < j {
                    assert(text::is_ascii_space(low[k + n]));
                }
                assert(text::is_ascii_char(c[k + n]));
            }
        }
        let w = text::upper(c.subrange(k, k + n));
        assert forall|m: int| 0 <= m < n implies w[m] == text::upper_char(word[m]) by {
            assert(low.subrange(k, k + n)[m] == low[k + m]);
            assert(low[k + m] == text::lower_char(c[k + m]));
            assert(word[m] == text::lower_char(c[k + m]));
        }
        assert(w =~= "COUNT"@ || w =~= "COLLECT"@);
        assert(k < t);
    }
}

/// A plain statement is accepted, however many nodes and properties it has, and whatever
/// its labels, its relationships and its expressions are.
pub proof fn law_plain_statements_are_accepted(
    nodes: Seq<Seq<char>>,
    links: Seq<Seq<char>>,
    keyword: Seq<char>,
    list: Seq<char>,
    scope: Seq<char>,
)
    requires
        is_plain_pattern(nodes, links),
        keyword == "RETURN"@ || keyword == "WHERE"@ || keyword == "WITH"@,
        is_plain_list(list),
        has_plain_words(
            plain_statement(nodes, links, keyword, list),
            7 + pattern(nodes, links).len() as int + keyword.len(),
        ),
    ensures
        scope::scoped(plain_statement(nodes, links, keyword, list), scope) is Ok,
{
    let c = plain_statement(nodes, links, keyword, list);
    let p = pattern(nodes, links);
    let n = p.len() as int;
    let w = keyword.len() as int;
    let t = 7 + n + w;
    lemma_plain_layout(nodes, links, keyword, list);
    lemma_plain_is_scopable(c, t);
    lemma_plain_is_no_oddity(c, t);
    lemma_certain_is_no_oddity(c, 0, t);
    lemma_plain_keyword(nodes, links, keyword, list);
    assert(text::stands_at(c, p, 6));
    lemma_plain_pattern(c, 6, nodes, links, true);
    lemma_match_first(c);
}

/// A statement begins with a `MATCH` where its pattern can be read.
proof fn lemma_match_first(c: Seq<char>)
    requires
        c.len() > 6,
        c.subrange(0, 5) == "MATCH"@,
        c[5] == ' ' && c[6] == '(',
        scope::pieces_from(c, 6, Clause::Match, 0, true) is Ok,
    ensures
        scope::pieces_from(c, 0, Clause::Start, 0, true) is Ok,
{
    reveal_strlit("MATCH");
    assert(!scope::match_at(c, 5));
    assert(scope::pieces_from(c, 5, Clause::Match, 0, true) is Ok);
    assert forall|k: int| 0 <= k < 5 implies text::is_ident(#[trigger] c[k]) by {
        assert(c[k] == c.subrange(0, 5)[k]);
    }
    lemma_word_end_is(c, 0, 5);
    assert(scope::next_char(c, 5) == Some('(')) by {
        assert(scope::after_white(c, 6) == 6);
        assert(scope::after_white(c, 5) == 6);
    }
    assert(text::upper(c.subrange(0, 5)) =~= "MATCH"@);
    assert(scope::clause_at(c, 0, 5, Clause::Start, true) == Ok::<Clause, Seq<char>>(
        Clause::Match,
    ));
}

/// Where the parts of a plain statement stand.
proof fn lemma_plain_layout(
    nodes: Seq<Seq<char>>,
    links: Seq<Seq<char>>,
    keyword: Seq<char>,
    list: Seq<char>,
)
    requires
        is_plain_pattern(nodes, links),
        keyword == "RETURN"@ || keyword == "WHERE"@ || keyword == "WITH"@,
        is_plain_list(list),
    ensures
        ({
            let c = plain_statement(nodes, links, keyword, list);
            let p = pattern(nodes, links);
            let n = p.len() as int;
            let w = keyword.len() as int;
            let t = 7 + n + w;
            &&& c.len() == t + 1 + list.len()
            &&& c.subrange(0, 5) == "MATCH"@ && c[5] == ' ' && c[6] == '('
            &&& c.subrange(6, 6 + n) == p && c[6 + n] == ' '
            &&& c.subrange(7 + n, t) == keyword && c[t] == ' '
            &&& c.skip(t + 1) == list
            &&& forall|k: int| 0 <= k < t ==> is_certain(#[trigger] c[k])
            &&& forall|k: int|
                0 <= k < t && #[trigger] c[k] == '[' ==> k + 1 < c.len() && c[k + 1] != '('
                    && !text::is_ascii_space(c[k + 1])
            &&& forall|k: int| t <= k < c.len() ==> is_plain_sign(#[trigger] c[k])
            &&& is_plain_from(c, t)
            &&& forall|k: int| t <= k <= c.len() ==> #[trigger] level(c, k) >= level(c, t)
            &&& level(c, c.len() as int) == level(c, t)
        }),
{
    reveal_strlit("MATCH ");
    reveal_strlit(" ");
    reveal_strlit("MATCH");
    reveal_strlit("RETURN");
    reveal_strlit("WHERE");
    reveal_strlit("WITH");
    let c = plain_statement(nodes, links, keyword, list);
    let p = pattern(nodes, links);
    let n = p.len() as int;
    let w = keyword.len() as int;
    let t = 7 + n + w;
    lemma_pattern_certain(nodes, links);
    assert(c.subrange(0, 5) =~= "MATCH"@);
    assert(c.subrange(6, 6 + n) =~= p);
    assert(c[6] == p[0]);
    assert(c.subrange(7 + n, t) =~= keyword);
    assert(c.skip(t + 1) =~= list);
    assert forall|k: int| 0 <= k < t implies is_certain(#[trigger] c[k]) && (c[k] == '[' ==> k + 1
        < c.len() && c[k + 1] != '(' && !text::is_ascii_space(c[k + 1])) by {
        if k < 6 {
            assert(c[k] == "MATCH "@[k]);
        } else if k < 6 + n {
            assert(c[k] == p[k - 6]);
            if c[k] == '[' {
                assert(c[k + 1] == p[k - 5]);
            }
        } else if k > 6 + n {
            assert(c[k] == keyword[k - 7 - n]);
        }
    }
    assert forall|k: int| t <= k < c.len() implies is_plain_sign(#[trigger] c[k]) && (c[k] == '.'
        ==> 0 < k < c.len() - 1 && text::is_ascii_ident(c[k - 1]) && text::is_ascii_ident(
        c[k + 1],
    )) by {
        if k > t {
            let m = k - t - 1;
            assert(c[k] == list[m]);
            assert(is_plain_sign(list[m]));
            if list[m] == '.' {
                assert(c[k - 1] == list[m - 1] && c[k + 1] == list[m + 1]);
            }
        }
    }
    assert(level(c, t + 1) == level(c, t) + bracket(c[t]));
    assert forall|k: int| t <= k <= c.len() implies #[trigger] level(c, k) >= level(c, t) by {
        if k > t {
            lemma_level_moved(c, list, t + 1, k - t - 1);
            assert(level(list, k - t - 1) >= 0);
        }
    }
    lemma_level_moved(c, list, t + 1, list.len() as int);
}

proof fn lemma_level_moved(c: Seq<char>, list: Seq<char>, a: int, k: int)
    requires
        0 <= a <= c.len(),
        c.skip(a) == list,
        0 <= k <= list.len(),
    ensures
        level(c, a + k) == level(c, a) + level(list, k),
    decreases k,
{
    if k > 0 {
        lemma_level_moved(c, list, a, k - 1);
        assert(c[a + k - 1] == c.skip(a)[k - 1]);
    }
}

/// What follows the pattern of a plain statement is accepted.
proof fn lemma_plain_keyword(
    nodes: Seq<Seq<char>>,
    links: Seq<Seq<char>>,
    keyword: Seq<char>,
    list: Seq<char>,
)
    requires
        is_plain_pattern(nodes, links),
        keyword == "RETURN"@ || keyword == "WHERE"@ || keyword == "WITH"@,
        is_plain_list(list),
        has_plain_words(
            plain_statement(nodes, links, keyword, list),
            7 + pattern(nodes, links).len() as int + keyword.len(),
        ),
    ensures
        scope::pieces_from(
            plain_statement(nodes, links, keyword, list),
            6 + pattern(nodes, links).len() as int,
            Clause::Match,
            0,
            true,
        ) is Ok,
{
    let c = plain_statement(nodes, links, keyword, list);
    let n = pattern(nodes, links).len() as int;
    let t = 7 + n + keyword.len() as int;
    lemma_plain_layout(nodes, links, keyword, list);
    lemma_plain_tail(c, t, t, 0, true);
    assert(c[t + 1] == c.skip(t + 1)[0]);
    lemma_keyword_next(c, 6 + n, t, keyword);
}

/// The patterns end with a keyword where what follows it can be read.
proof fn lemma_keyword_next(c: Seq<char>, a: int, t: int, keyword: Seq<char>)
    requires
        0 <= a < t < c.len() - 1,
        keyword == "RETURN"@ || keyword == "WHERE"@ || keyword == "WITH"@,
        c[a] == ' ' && c.subrange(a + 1, t) == keyword && c[t] == ' ',
        text::is_ascii_ident(c[t + 1]),
        scope::pieces_from(c, t, Clause::Other, 0, true) is Ok,
    ensures
        scope::pieces_from(c, a, Clause::Match, 0, true) is Ok,
{
    reveal_strlit("MATCH");
    reveal_strlit("RETURN");
    reveal_strlit("WHERE");
    reveal_strlit("WITH");
    assert(t == a + 1 + keyword.len());
    assert forall|k: int| a + 1 <= k < t implies text::is_ident(#[trigger] c[k]) by {
        assert(c[k] == c.subrange(a + 1, t)[k - a - 1]);
    }
    lemma_word_end_is(c, a + 1, t);
    assert(scope::next_char(c, t) == Some(c[t + 1])) by {
        assert(scope::after_white(c, t + 1) == t + 1);
        assert(scope::after_white(c, t) == t + 1);
    }
    assert(text::upper(keyword) =~= keyword);
    assert("MATCH"@.len() == 5 && "WHERE"@.len() == 5 && "MATCH"@[0] == 'M' && "WHERE"@[0] == 'W');
    assert("RETURN"@.len() == 6 && "WITH"@.len() == 4);
    assert(keyword != "MATCH"@);
    assert(scope::clause_at(c, a + 1, t, Clause::Match, true) == Ok::<Clause, Seq<char>>(
        Clause::Other,
    ));
    assert(text::is_ident(c[a + 1]));
    assert(scope::pieces_from(c, a + 1, Clause::Match, 0, true) is Ok);
    assert(!scope::match_at(c, a));
    assert(!scope::linked_paren_at(c, a));
}

proof fn lemma_word_end_is(s: Seq<char>, i: int, j: int)
    requires
        0 <= i <= j < s.len(),
        forall|k: int| i <= k < j ==> text::is_ident(#[trigger] s[k]),
        !text::is_ident(s[j]),
    ensures
        text::word_end(s, i) == j,
    decreases j - i,
{
    if i < j {
        assert(text::is_ident(s[i]));
        lemma_word_end_is(s, i + 1, j);
    }
}

// ---------------------------------------------------------------------------
// Nothing is refused without a cause
// ---------------------------------------------------------------------------

/// Before it is read, a statement is refused only for a namespace, a word that leads out,
/// a subquery, or a `(` after a `[`, literals aside.
pub proof fn law_statements_are_refused_for_cause(c: Seq<char>)
    ensures
        scope::unscopable(c) is Some ==> ({
            let b = scope::blanked(c);
            let low = text::lower(b);
            ||| text::contains(low, "apoc."@) || text::contains(low, "db."@) || text::contains(
                low,
                "dbms."@,
            ) || text::contains(low, "gds."@) || text::contains(low, "spatial."@)
                || text::contains(low, "algo."@)
            ||| exists|k: int|
                0 <= k < text::words(b).len() && leads_out(text::upper(#[trigger] text::words(b)[k]))
            ||| scope::has_word_then_brace(low, "count"@) || scope::has_word_then_brace(
                low,
                "collect"@,
            )
            ||| scope::has_bracket_then_paren(b)
        }),
{
    let b = scope::blanked(c);
    let low = text::lower(b);
    if !text::contains(low, "apoc."@) && !text::contains(low, "db."@) && !text::contains(
        low,
        "dbms."@,
    ) && !text::contains(low, "gds."@) && !text::contains(low, "spatial."@) && !text::contains(
        low,
        "algo."@,
    ) {
        lemma_first_contained_none(low);
    }
    if forall|k: int|
        0 <= k < text::words(b).len() ==> !leads_out(text::upper(#[trigger] text::words(b)[k])) {
        lemma_no_unscopable_word(text::words(b));
    }
}

/// A node is refused only for a predicate in it, for the signs of label expressions, for
/// a pattern in it, or for a group; and a pattern that opens is refused only where it is
/// not closed, is glued to a word, or holds such a node.
pub proof fn law_nodes_are_refused_for_cause(c: Seq<char>, i: int, inner: Seq<char>)
    ensures
        scope::inner_refusal(inner) is Some <==> ({
            let b = scope::blanked(inner);
            ||| inner.contains('&') || inner.contains('|') || inner.contains('!')
            ||| text::words(text::lower(b)).contains("where"@)
            ||| scope::has_linked_paren(b)
            ||| scope::has_equals_then_paren(
                scope::blanked(inner.subrange(0, scope::map_start(inner))),
            )
        }),
        scope::node_at(c, i) is Err <==> ({
            let shut = scope::closing(c, i + 1, seq![')']);
            ||| shut is None
            ||| i > 0 && text::is_ident(c[i - 1]) && text::upper(
                c.subrange(scope::word_start(c, i), i),
            ) != "MATCH"@
            ||| scope::is_grouped(c.subrange(i + 1, shut->0))
            ||| scope::inner_refusal(c.subrange(i + 1, shut->0)) is Some
        }),
{
}

/// A string is refused only for an escape of a quote or of a backslash; a quoted
/// identifier only for a backslash, or where it names a namespace.
pub proof fn law_literals_are_refused_for_cause(c: Seq<char>, i: int, end: int)
    requires
        0 <= i < end <= c.len(),
    ensures
        ({
            let lit = c.subrange(i, end);
            let low = text::lower(lit);
            &&& c[i] != '`' ==> (scope::literal_refusal(c, i, end) is Some <==> text::contains(
                low,
                "\\u0022"@,
            ) || text::contains(low, "\\u0027"@) || text::contains(low, "\\u005c"@))
            &&& c[i] == '`' && !lit.contains('\\') && scope::next_char(c, end) != Some('(')
                && scope::next_char(c, end) != Some('.') ==> scope::literal_refusal(c, i, end)
                is None
        }),
{
}

/// Reading goes on over a literal, over a node that can be scoped, over a word that has
/// its place, and over any other character, unless it closes what is not open, has a
/// relationship after it, or begins patterns within brackets.
pub proof fn law_reading_goes_on(s: Seq<char>, i: int, clause: Clause, depth: int, begins: bool)
    requires
        0 <= i < s.len(),
    ensures
        scope::is_quote(s[i]) ==> (scope::pieces_from(s, i, clause, depth, begins) is Ok
            <==> scope::pieces_from(
            s,
            scope::literal_end(s, i + 1, s[i]),
            clause,
            depth,
            true,
        ) is Ok),
        s[i] == '(' && clause == Clause::Match && depth == 0 ==> (scope::pieces_from(
            s,
            i,
            clause,
            depth,
            begins,
        ) is Ok <==> scope::node_at(s, i) is Ok && scope::pieces_from(
            s,
            i + 2 + (scope::node_at(s, i)->Ok_0).len(),
            clause,
            depth,
            true,
        ) is Ok),
        text::is_ident(s[i]) && depth == 0 ==> ({
            let end = text::word_end(s, i);
            let next = scope::clause_at(s, i, end, clause, begins);
            scope::pieces_from(s, i, clause, depth, begins) is Ok <==> next is Ok
                && scope::pieces_from(s, end, next->Ok_0, depth, true) is Ok
        }),
        !scope::is_quote(s[i]) && !(s[i] == '(' && clause == Clause::Match && depth == 0) && !(
        text::is_ident(s[i]) && depth == 0) ==> (scope::pieces_from(s, i, clause, depth, begins)
            is Ok <==> !scope::linked_paren_at(s, i) && !scope::match_at(s, i) && depth + bracket(
            s[i],
        ) >= 0 && scope::pieces_from(
            s,
            i + 1,
            clause,
            depth + bracket(s[i]),
            if text::is_white(s[i]) {
                begins
            } else {
                !is_unfinished(s[i])
            },
        ) is Ok),
{
    if text::is_ident(s[i]) {
        lemma_ident_is_no_quote(s[i]);
    }
}

/// In a list of expressions a word is refused only if it is `MATCH`, has a `MATCH` at its
/// end behind a number, or loads a file; and in patterns a word that names a path never
/// is.
pub proof fn law_words_are_refused_for_cause(
    s: Seq<char>,
    i: int,
    begins: bool,
)
    requires
        0 <= i < s.len(),
        text::is_ident(s[i]),
        !text::ends_with(text::upper(s.subrange(i, text::word_end(s, i))), "MATCH"@),
    ensures
        text::upper(s.subrange(i, text::word_end(s, i))) != "LOAD"@ ==> scope::clause_at(
            s,
            i,
            text::word_end(s, i),
            Clause::Other,
            begins,
        ) == Ok::<Clause, Seq<char>>(Clause::Other),
        text::upper(s.subrange(i, text::word_end(s, i))) != "LOAD"@ && scope::next_char(
            s,
            text::word_end(s, i),
        ) == Some('=') ==> scope::clause_at(s, i, text::word_end(s, i), Clause::Match, begins)
            == Ok::<Clause, Seq<char>>(Clause::Match),
        is_expression_keyword(text::upper(s.subrange(i, text::word_end(s, i)))) && begins
            && scope::next_char(s, text::word_end(s, i)) != Some('=') ==> scope::clause_at(
            s,
            i,
            text::word_end(s, i),
            Clause::Match,
            begins,
        ) == Ok::<Clause, Seq<char>>(Clause::Other),
{
    let end = text::word_end(s, i);
    text::lemma_word_end(s, i);
    let upper = text::upper(s.subrange(i, end));
    reveal_strlit("MATCH");
    if upper == "MATCH"@ {
        assert(upper.subrange(0, 5) =~= "MATCH"@);
    }
    if scope::number_then_match(s, i, end) {
        let k = upper.len() - 5;
        assert(upper.subrange(k, k + 5) =~= text::upper(s.subrange(end - 5, end)));
    }
}

} // verus!
