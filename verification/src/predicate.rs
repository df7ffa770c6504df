//! Predicates on columns, and how they are written in the language of a store.
use vstd::prelude::*;

use crate::numeral;
use crate::numeral::{signed_decimal_text, text_of_bool};
use crate::text;
use crate::text::{chars_of, join};

verus! {

/// A literal of a query. A float is held as it is written.
#[derive(Debug)]
pub enum ScalarValue {
    Utf8(Option<String>),
    LargeUtf8(Option<String>),
    Int64(Option<i64>),
    Int32(Option<i32>),
    Float64(Option<String>),
    Float32(Option<String>),
    Boolean(Option<bool>),
    /// A literal of any other type.
    Other,
}

/// An operator between two expressions.
#[derive(Clone, Copy, Debug, PartialEq, Eq, Structural)]
pub enum Operator {
    Eq,
    NotEq,
    Lt,
    LtEq,
    Gt,
    GtEq,
    /// Any other operator.
    Other,
}

/// An expression of a query.
#[derive(Debug)]
pub enum Expr {
    /// A column, by its name.
    Column(String),
    Literal(ScalarValue),
    BinaryExpr { left: Box<Expr>, op: Operator, right: Box<Expr> },
    InList { expr: Box<Expr>, list: Vec<Expr>, negated: bool },
    /// Any other expression.
    Other,
}

/// Whether a predicate is applied by the store.
#[derive(Clone, Copy, Debug, PartialEq, Eq, Structural)]
pub enum PushDown {
    /// The store applies it, and nobody has to apply it again.
    Exact,
    /// The store does not apply it.
    Unsupported,
}

// ---------------------------------------------------------------------------
// Literals
// ---------------------------------------------------------------------------

/// `s` with a backslash before each backslash and each `q`.
pub open spec fn escaped(s: Seq<char>, q: char) -> Seq<char>
    decreases s.len(),
{
    if s.len() == 0 {
        seq![]
    } else if s.last() == '\\' || s.last() == q {
        escaped(s.drop_last(), q).push('\\').push(s.last())
    } else {
        escaped(s.drop_last(), q).push(s.last())
    }
}

/// `s` as a string literal between two `q`.
pub open spec fn quoted(s: Seq<char>, q: char) -> Seq<char> {
    seq![q] + escaped(s, q) + seq![q]
}

/// `s` as a string literal between two `q`.
pub fn string_literal(s: &str, q: char) -> (r: String)
    ensures
        r@ == quoted(s@, q),
{
    let cs = chars_of(s);
    let mut r = String::new();
    r.push(q);
    let mut i: usize = 0;
    assert(r@ == seq![q] + escaped(s@.take(0), q));
    while i < cs.len()
        invariant
            cs@ == s@,
            i <= cs.len(),
            r@ == seq![q] + escaped(s@.take(i as int), q),
        decreases cs.len() - i,
    {
        assert(s@.take(i + 1).drop_last() == s@.take(i as int));
        let c = cs[i];
        if c == '\\' || c == q {
            r.push('\\');
        }
        r.push(c);
        assert(r@ == seq![q] + escaped(s@.take(i + 1), q));
        i += 1;
    }
    assert(s@.take(i as int) == s@);
    r.push(q);
    assert(r@ == quoted(s@, q));
    r
}

/// The position after the string literal whose content begins at `i`: a backslash
/// takes the character after it along, and the first `q` that is left closes it.
pub open spec fn closing_quote(s: Seq<char>, i: int, q: char) -> Option<int>
    decreases s.len() - i,
{
    if i < 0 || i >= s.len() {
        None
    } else if s[i] == '\\' {
        if i + 1 < s.len() {
            closing_quote(s, i + 2, q)
        } else {
            None
        }
    } else if s[i] == q {
        Some(i + 1)
    } else {
        closing_quote(s, i + 1, q)
    }
}

proof fn lemma_escaped_first(s: Seq<char>, q: char)
    requires
        s.len() > 0,
    ensures
        escaped(s, q) == (if s[0] == '\\' || s[0] == q {
            seq!['\\', s[0]]
        } else {
            seq![s[0]]
        }) + escaped(s.skip(1), q),
    decreases s.len(),
{
    let front = s.drop_last();
    if s.len() > 1 {
        lemma_escaped_first(front, q);
        assert(s.skip(1).drop_last() == front.skip(1));
        assert(s.skip(1).last() == s.last());
        assert(front[0] == s[0]);
    } else {
        assert(s.skip(1).len() == 0);
        assert(front.len() == 0);
        assert(escaped(front, q) == Seq::<char>::empty());
        assert(escaped(s.skip(1), q) == Seq::<char>::empty());
    }
}

proof fn lemma_closing_quote(t: Seq<char>, from: int, s: Seq<char>, q: char)
    requires
        q != '\\',
        0 <= from,
        t.len() == from + escaped(s, q).len() + 1,
        t.skip(from) == escaped(s, q).push(q),
    ensures
        closing_quote(t, from, q) == Some(t.len() as int),
    decreases s.len(),
{
    let tail = t.skip(from);
    assert(t[from] == tail[0]);
    if s.len() == 0 {
        assert(escaped(s, q) == Seq::<char>::empty());
        assert(tail[0] == q);
    } else {
        let rest = s.skip(1);
        lemma_escaped_first(s, q);
        if s[0] == '\\' || s[0] == q {
            assert(tail[0] == '\\');
            assert(t.skip(from + 2) == escaped(rest, q).push(q)) by {
                assert(t.skip(from + 2) == tail.skip(2));
            }
            lemma_closing_quote(t, from + 2, rest, q);
        } else {
            assert(tail[0] == s[0]);
            assert(t.skip(from + 1) == escaped(rest, q).push(q)) by {
                assert(t.skip(from + 1) == tail.skip(1));
            }
            lemma_closing_quote(t, from + 1, rest, q);
        }
    }
}

/// No value leaves its string literal: whatever the text, the literal that holds
/// it is closed by its last character and by none before.
pub proof fn law_string_literals_are_closed(s: Seq<char>, q: char)
    requires
        q != '\\',
    ensures
        closing_quote(quoted(s, q), 1, q) == Some(quoted(s, q).len() as int),
{
    assert(quoted(s, q).skip(1) == escaped(s, q).push(q));
    lemma_closing_quote(quoted(s, q), 1, s, q);
}

/// A literal as it is written, with texts between two `q`; nothing for a null and
/// for a type that cannot be pushed down.
pub open spec fn literal(v: ScalarValue, q: char) -> Option<Seq<char>> {
    match v {
        ScalarValue::Utf8(Some(s)) => Some(quoted(s@, q)),
        ScalarValue::LargeUtf8(Some(s)) => Some(quoted(s@, q)),
        ScalarValue::Int64(Some(n)) => Some(numeral::signed_decimal(n as int)),
        ScalarValue::Int32(Some(n)) => Some(numeral::signed_decimal(n as int)),
        ScalarValue::Float64(Some(n)) => Some(n@),
        ScalarValue::Float32(Some(n)) => Some(n@),
        ScalarValue::Boolean(Some(b)) => Some(numeral::bool_text(b)),
        _ => None,
    }
}

/// A literal as it is written, with texts between two `q`.
pub fn literal_text(v: &ScalarValue, q: char) -> (r: Option<String>)
    ensures
        text::text_of(r) == literal(*v, q),
{
    match v {
        ScalarValue::Utf8(Some(s)) => Some(string_literal(s.as_str(), q)),
        ScalarValue::LargeUtf8(Some(s)) => Some(string_literal(s.as_str(), q)),
        ScalarValue::Int64(Some(n)) => Some(signed_decimal_text(*n)),
        ScalarValue::Int32(Some(n)) => Some(signed_decimal_text(*n as i64)),
        ScalarValue::Float64(Some(n)) => Some(n.clone()),
        ScalarValue::Float32(Some(n)) => Some(n.clone()),
        ScalarValue::Boolean(Some(b)) => Some(text_of_bool(*b)),
        _ => None,
    }
}

/// The literals of a list as they are written; nothing if one of its members is no
/// literal or cannot be written.
pub open spec fn literals(list: Seq<Expr>, q: char) -> Option<Seq<Seq<char>>>
    decreases list.len(),
{
    if list.len() == 0 {
        Some(seq![])
    } else {
        match (literals(list.drop_last(), q), list.last()) {
            (Some(front), Expr::Literal(v)) => match literal(v, q) {
                Some(l) => Some(front.push(l)),
                None => None,
            },
            _ => None,
        }
    }
}

proof fn lemma_literals_prefix(list: Seq<Expr>, k: int, q: char)
    requires
        0 <= k <= list.len(),
        literals(list.take(k), q) is None,
    ensures
        literals(list, q) is None,
    decreases list.len() - k,
{
    if k < list.len() {
        assert(list.take(k + 1).drop_last() == list.take(k));
        lemma_literals_prefix(list, k + 1, q);
    } else {
        assert(list.take(k) == list);
    }
}

/// The literals of a list as they are written.
pub fn literal_texts(list: &Vec<Expr>, q: char) -> (r: Option<Vec<String>>)
    ensures
        match r {
            Some(v) => literals(list@, q) == Some(text::texts(v@)),
            None => literals(list@, q) is None,
        },
{
    let mut r: Vec<String> = Vec::new();
    let mut i: usize = 0;
    assert(text::texts(r@) == Seq::<Seq<char>>::empty());
    while i < list.len()
        invariant
            i <= list.len(),
            literals(list@.take(i as int), q) == Some(text::texts(r@)),
        decreases list.len() - i,
    {
        assert(list@.take(i + 1).drop_last() == list@.take(i as int));
        let ghost before = text::texts(r@);
        let l = match &list[i] {
            Expr::Literal(v) => literal_text(v, q),
            _ => None,
        };
        match l {
            Some(l) => {
                r.push(l);
                assert(text::texts(r@) == before.push(l@));
            },
            None => {
                proof {
                    lemma_literals_prefix(list@, i + 1, q);
                }
                return None;
            },
        }
        i += 1;
    }
    assert(list@.take(i as int) == list@);
    Some(r)
}

// ---------------------------------------------------------------------------
// Predicates
// ---------------------------------------------------------------------------

/// The language that a predicate is written in.
#[derive(Clone, Copy, Debug, PartialEq, Eq, Structural)]
pub enum Dialect {
    Cypher,
    Milvus,
}

impl Dialect {
    /// The character around a string literal.
    pub open spec fn mark(self) -> char {
        match self {
            Dialect::Cypher => '\'',
            Dialect::Milvus => '"',
        }
    }

    pub fn quote(self) -> (r: char)
        ensures
            r == self.mark(),
    {
        match self {
            Dialect::Cypher => '\'',
            Dialect::Milvus => '"',
        }
    }

    /// A comparison as it is written; nothing for any other operator.
    pub open spec fn operator(self, op: Operator) -> Option<Seq<char>> {
        match (op, self) {
            (Operator::Eq, Dialect::Cypher) => Some("="@),
            (Operator::Eq, Dialect::Milvus) => Some("=="@),
            (Operator::NotEq, Dialect::Cypher) => Some("<>"@),
            (Operator::NotEq, Dialect::Milvus) => Some("!="@),
            (Operator::Lt, _) => Some("<"@),
            (Operator::LtEq, _) => Some("<="@),
            (Operator::Gt, _) => Some(">"@),
            (Operator::GtEq, _) => Some(">="@),
            (Operator::Other, _) => None,
        }
    }

    pub fn operator_text(self, op: Operator) -> (r: Option<&'static str>)
        ensures
            match r {
                Some(s) => self.operator(op) == Some(s@),
                None => self.operator(op) is None,
            },
    {
        match (op, self) {
            (Operator::Eq, Dialect::Cypher) => Some("="),
            (Operator::Eq, Dialect::Milvus) => Some("=="),
            (Operator::NotEq, Dialect::Cypher) => Some("<>"),
            (Operator::NotEq, Dialect::Milvus) => Some("!="),
            (Operator::Lt, _) => Some("<"),
            (Operator::LtEq, _) => Some("<="),
            (Operator::Gt, _) => Some(">"),
            (Operator::GtEq, _) => Some(">="),
            (Operator::Other, _) => None,
        }
    }

    /// The word for membership in a list.
    pub open spec fn membership(self) -> Seq<char> {
        match self {
            Dialect::Cypher => " IN ["@,
            Dialect::Milvus => " in ["@,
        }
    }
}

/// The column that a predicate compares with a literal, or looks for in a list.
pub open spec fn subject(e: Expr) -> Option<Seq<char>> {
    match e {
        Expr::BinaryExpr { left, op, right } => match (*left, *right) {
            (Expr::Column(c), Expr::Literal(_)) => Some(c@),
            _ => None,
        },
        Expr::InList { expr, list, negated: false } => match *expr {
            Expr::Column(c) => Some(c@),
            _ => None,
        },
        _ => None,
    }
}

/// What follows the column of a predicate: a comparison with a literal, or
/// membership in a list of literals that is not empty. Nothing for any other
/// predicate.
pub open spec fn condition(e: Expr, d: Dialect) -> Option<Seq<char>> {
    match e {
        Expr::BinaryExpr { left, op, right } => match (d.operator(op), *right) {
            (Some(o), Expr::Literal(v)) => match literal(v, d.mark()) {
                Some(l) => Some(" "@ + o + " "@ + l),
                None => None,
            },
            _ => None,
        },
        Expr::InList { expr, list, negated: false } => match literals(list@, d.mark()) {
            Some(ls) => if ls.len() > 0 {
                Some(d.membership() + text::joined(ls, ", "@) + "]"@)
            } else {
                None
            },
            None => None,
        },
        _ => None,
    }
}

/// The column that a predicate is about.
pub fn subject_of(e: &Expr) -> (r: Option<&str>)
    ensures
        match r {
            Some(c) => subject(*e) == Some(c@),
            None => subject(*e) is None,
        },
{
    match e {
        Expr::BinaryExpr { left, op, right } => match (&**left, &**right) {
            (Expr::Column(c), Expr::Literal(_)) => Some(c.as_str()),
            _ => None,
        },
        Expr::InList { expr, list, negated } => {
            if *negated {
                None
            } else {
                match &**expr {
                    Expr::Column(c) => Some(c.as_str()),
                    _ => None,
                }
            }
        },
        _ => None,
    }
}

/// What follows the column of a predicate.
pub fn condition_text(e: &Expr, d: Dialect) -> (r: Option<String>)
    ensures
        text::text_of(r) == condition(*e, d),
{
    match e {
        Expr::BinaryExpr { left, op, right } => {
            let o = match d.operator_text(*op) {
                Some(o) => o,
                None => {
                    return None;
                },
            };
            match &**right {
                Expr::Literal(v) => match literal_text(v, d.quote()) {
                    Some(l) => {
                        let mut r = " ".to_owned();
                        r.push_str(o);
                        r.push_str(" ");
                        r.push_str(l.as_str());
                        Some(r)
                    },
                    None => None,
                },
                _ => None,
            }
        },
        Expr::InList { expr, list, negated } => {
            if *negated {
                return None;
            }
            match literal_texts(list, d.quote()) {
                Some(ls) => {
                    if ls.len() > 0 {
                        let mut r = match d {
                            Dialect::Cypher => " IN [".to_owned(),
                            Dialect::Milvus => " in [".to_owned(),
                        };
                        r.push_str(join(&ls, ", ").as_str());
                        r.push_str("]");
                        Some(r)
                    } else {
                        None
                    }
                },
                None => None,
            }
        },
        _ => None,
    }
}

/// The texts that are there, in their order.
pub open spec fn present(parts: Seq<Option<Seq<char>>>) -> Seq<Seq<char>>
    decreases parts.len(),
{
    if parts.len() == 0 {
        seq![]
    } else {
        match parts.last() {
            Some(p) => present(parts.drop_last()).push(p),
            None => present(parts.drop_last()),
        }
    }
}

/// How a predicate is answered that the store does, or does not, apply.
pub open spec fn answer(applied: bool) -> PushDown {
    if applied {
        PushDown::Exact
    } else {
        PushDown::Unsupported
    }
}

// ---------------------------------------------------------------------------
// What a written predicate says
// ---------------------------------------------------------------------------

/// A text in which a backslash stands for the character after it.
pub open spec fn unescaped(s: Seq<char>) -> Seq<char>
    decreases s.len(),
{
    if s.len() == 0 {
        s
    } else if s[0] == '\\' && s.len() > 1 {
        seq![s[1]] + unescaped(s.skip(2))
    } else {
        seq![s[0]] + unescaped(s.skip(1))
    }
}

proof fn lemma_unescaped(s: Seq<char>, q: char)
    ensures
        unescaped(escaped(s, q)) == s,
    decreases s.len(),
{
    if s.len() > 0 {
        let rest = s.skip(1);
        let t = escaped(s, q);
        lemma_escaped_first(s, q);
        lemma_unescaped(rest, q);
        assert(seq![s[0]] + rest == s);
        if s[0] == '\\' || s[0] == q {
            assert(t[0] == '\\' && t[1] == s[0]);
            assert(t.skip(2) == escaped(rest, q));
        } else {
            assert(t[0] == s[0]);
            assert(t.skip(1) == escaped(rest, q));
        }
    }
}

/// What a written literal means: read back, it is the value. A text stands between two
/// quotes with its escapes, an integer is its numeral, a truth value its word, a float
/// what it was. A null and a value of another type are not written at all.
pub open spec fn is_written(v: ScalarValue, q: char, t: Option<Seq<char>>) -> bool {
    match v {
        ScalarValue::Utf8(Some(s)) => t matches Some(w) && is_string_of(w, q, s@),
        ScalarValue::LargeUtf8(Some(s)) => t matches Some(w) && is_string_of(w, q, s@),
        ScalarValue::Int64(Some(n)) => t matches Some(w) && is_numeral_of(w, n as int),
        ScalarValue::Int32(Some(n)) => t matches Some(w) && is_numeral_of(w, n as int),
        ScalarValue::Float64(Some(n)) => t == Some(n@),
        ScalarValue::Float32(Some(n)) => t == Some(n@),
        ScalarValue::Boolean(Some(true)) => t == Some("true"@),
        ScalarValue::Boolean(Some(false)) => t == Some("false"@),
        _ => t is None,
    }
}

/// `w` is a string literal between two `q` that holds `s`.
pub open spec fn is_string_of(w: Seq<char>, q: char, s: Seq<char>) -> bool {
    &&& w.len() >= 2
    &&& w[0] == q && w.last() == q
    &&& unescaped(w.subrange(1, w.len() - 1)) == s
}

/// `w` is the numeral of `n`.
pub open spec fn is_numeral_of(w: Seq<char>, n: int) -> bool {
    if n < 0 {
        w.len() > 0 && w[0] == '-' && numeral::numeral(w.skip(1)) == Some((-n) as nat)
    } else {
        numeral::numeral(w) == Some(n as nat)
    }
}

proof fn lemma_numeral_of(n: int)
    ensures
        is_numeral_of(numeral::signed_decimal(n), n),
{
    if n < 0 {
        numeral::law_numeral_round_trip((-n) as nat);
        assert(numeral::signed_decimal(n).skip(1) == numeral::decimal((-n) as nat));
    } else {
        numeral::law_numeral_round_trip(n as nat);
    }
}

/// A literal reads back as the value that was written.
pub proof fn law_literals_read_back(v: ScalarValue, q: char)
    ensures
        is_written(v, q, literal(v, q)),
{
    match v {
        ScalarValue::Utf8(Some(s)) => {
            lemma_unescaped(s@, q);
            assert(quoted(s@, q).subrange(1, quoted(s@, q).len() - 1) == escaped(s@, q));
        },
        ScalarValue::LargeUtf8(Some(s)) => {
            lemma_unescaped(s@, q);
            assert(quoted(s@, q).subrange(1, quoted(s@, q).len() - 1) == escaped(s@, q));
        },
        ScalarValue::Int64(Some(n)) => {
            lemma_numeral_of(n as int);
        },
        ScalarValue::Int32(Some(n)) => {
            lemma_numeral_of(n as int);
        },
        _ => {},
    }
}

/// A list is written if and only if each of its members is a literal that can be
/// written, and then all of them are, in their order.
pub proof fn law_lists_are_written_whole(list: Seq<Expr>, q: char)
    ensures
        match literals(list, q) {
            Some(ls) => ls.len() == list.len() && forall|i: int|
                0 <= i < list.len() ==> (#[trigger] list[i] matches Expr::Literal(v) && is_written(
                    v,
                    q,
                    Some(ls[i]),
                )),
            None => exists|i: int|
                0 <= i < list.len() && (#[trigger] list[i] matches Expr::Literal(v) ==> is_written(
                    v,
                    q,
                    None,
                )),
        },
    decreases list.len(),
{
    if list.len() > 0 {
        let front = list.drop_last();
        let n = list.len() - 1;
        law_lists_are_written_whole(front, q);
        if let Expr::Literal(v) = list.last() {
            law_literals_read_back(v, q);
        }
        match literals(list, q) {
            Some(ls) => {
                let before = literals(front, q)->0;
                assert forall|i: int| 0 <= i < list.len() implies (#[trigger] list[i]
                    matches Expr::Literal(v) && is_written(v, q, Some(ls[i]))) by {
                    if i < n {
                        assert(front[i] == list[i]);
                        assert(ls[i] == before[i]);
                    }
                }
            },
            None => {
                if literals(front, q) is None {
                    let i = choose|i: int|
                        0 <= i < front.len() && (#[trigger] front[i] matches Expr::Literal(v)
                            ==> is_written(v, q, None));
                    assert(list[i] == front[i]);
                } else {
                    assert(list[n] == list.last());
                }
            },
        }
    }
}

/// A column of a name, compared with or looked for in literals.
pub open spec fn is_about(e: Expr, c: Seq<char>) -> bool {
    match e {
        Expr::BinaryExpr { left, op, right } => (*left matches Expr::Column(n) && n@ == c)
            && *right is Literal,
        Expr::InList { expr, list, negated } => (*expr matches Expr::Column(n) && n@ == c)
            && !negated,
        _ => false,
    }
}

/// The sign between a column and a literal.
pub open spec fn sign(op: Operator, d: Dialect) -> Seq<char> {
    match (op, d) {
        (Operator::Eq, Dialect::Cypher) => " = "@,
        (Operator::Eq, Dialect::Milvus) => " == "@,
        (Operator::NotEq, Dialect::Cypher) => " <> "@,
        (Operator::NotEq, Dialect::Milvus) => " != "@,
        (Operator::Lt, _) => " < "@,
        (Operator::LtEq, _) => " <= "@,
        (Operator::Gt, _) => " > "@,
        (Operator::GtEq, _) => " >= "@,
        (Operator::Other, _) => ""@,
    }
}

/// The quote around a text.
pub open spec fn quote_of(d: Dialect) -> char {
    match d {
        Dialect::Cypher => '\'',
        Dialect::Milvus => '"',
    }
}

/// `k` says of a column what the predicate `e` says of it: it is compared by the sign
/// of the operator with the literal, or it is among all the literals of the list.
pub open spec fn is_said(e: Expr, d: Dialect, k: Seq<char>) -> bool {
    match e {
        Expr::BinaryExpr { left, op, right } => op != Operator::Other && (*right matches Expr::Literal(
            v,
        ) && text::starts_with(k, sign(op, d)) && is_written(
            v,
            quote_of(d),
            Some(k.skip(sign(op, d).len() as int)),
        )),
        Expr::InList { expr, list, negated } => !negated && list.len() > 0 && exists|
            ls: Seq<Seq<char>>,
        |
            is_said_list(list@, d, ls, k),
        _ => false,
    }
}

/// `k` says that a column is among the literals of a list, written as `ls`.
pub open spec fn is_said_list(list: Seq<Expr>, d: Dialect, ls: Seq<Seq<char>>, k: Seq<char>) -> bool {
    &&& ls.len() == list.len()
    &&& forall|i: int|
        0 <= i < list.len() ==> (#[trigger] list[i] matches Expr::Literal(v) && is_written(
            v,
            quote_of(d),
            Some(ls[i]),
        ))
    &&& k == (match d {
        Dialect::Cypher => " IN ["@,
        Dialect::Milvus => " in ["@,
    }) + text::joined(ls, ", "@) + "]"@
}

proof fn lemma_sign(op: Operator, d: Dialect)
    ensures
        match d.operator(op) {
            Some(o) => op != Operator::Other && " "@ + o + " "@ == sign(op, d),
            None => op == Operator::Other,
        },
{
    reveal_strlit(" ");
    reveal_strlit("=");
    reveal_strlit("==");
    reveal_strlit("<>");
    reveal_strlit("!=");
    reveal_strlit("<");
    reveal_strlit("<=");
    reveal_strlit(">");
    reveal_strlit(">=");
    reveal_strlit(" = ");
    reveal_strlit(" == ");
    reveal_strlit(" <> ");
    reveal_strlit(" != ");
    reveal_strlit(" < ");
    reveal_strlit(" <= ");
    reveal_strlit(" > ");
    reveal_strlit(" >= ");
    if let Some(o) = d.operator(op) {
        assert(" "@ + o + " "@ =~= sign(op, d));
    }
}

/// A predicate is written if and only if it compares with a literal that can be
/// written, or looks for a member of such literals, at least one; and what is written
/// says just that.
pub proof fn law_conditions_say_what_predicates_say(e: Expr, d: Dialect)
    ensures
        condition(e, d) matches Some(k) ==> is_said(e, d, k),
        (exists|k: Seq<char>| is_said(e, d, k)) ==> condition(e, d) is Some,
        subject(e) matches Some(c) ==> is_about(e, c),
        forall|c: Seq<char>| is_about(e, c) ==> subject(e) == Some(c),
{
    match e {
        Expr::BinaryExpr { left, op, right } => {
            lemma_sign(op, d);
            if let Expr::Literal(v) = *right {
                law_literals_read_back(v, d.mark());
                if let Some(k) = condition(e, d) {
                    let l = literal(v, d.mark())->0;
                    let s = sign(op, d);
                    assert(k == s + l);
                    assert(k.skip(s.len() as int) == l);
                    assert(k.subrange(0, s.len() as int) == s);
                }
            }
        },
        Expr::InList { expr, list, negated } => {
            law_lists_are_written_whole(list@, d.mark());
            if let Some(k) = condition(e, d) {
                let ls = literals(list@, d.mark())->0;
                assert(is_said_list(list@, d, ls, k));
            }
            if exists|k: Seq<char>| is_said(e, d, k) {
                let k = choose|k: Seq<char>| is_said(e, d, k);
                let ls = choose|ls: Seq<Seq<char>>| is_said_list(list@, d, ls, k);
                if literals(list@, d.mark()) is None {
                    let i = choose|i: int|
                        0 <= i < list.len() && (#[trigger] list[i] matches Expr::Literal(v)
                            ==> is_written(v, d.mark(), None));
                    assert(list@[i] matches Expr::Literal(v) && is_written(
                        v,
                        quote_of(d),
                        Some(ls[i]),
                    ));
                    assert(false);
                }
            }
        },
        _ => {},
    }
}

} // verus!
