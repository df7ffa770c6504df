//! A collection as a table.
//!
//! ```text
//! SELECT <scalar columns>, score
//! FROM <collection>
//! WHERE query_vector = '[0.01, -0.02, ...]'   -- the query embedding (JSON)
//!   AND <scalar_col> = <value>                -- optional, becomes a Milvus filter
//!   AND <scalar_col> IN (...)                 -- optional, becomes a Milvus filter
//! LIMIT 50                                    -- the number of hits
//! ```
//!
//! Comparisons with literals and memberships in lists of literals on any scalar
//! column become the filter of the search. What is consumed is reported as exact,
//! so nobody applies it again.
use vstd::prelude::*;

use crate::columns;
use crate::columns::{has_field, Field};
use crate::milvus::client::MilvusCollection;
use crate::predicate;
use crate::predicate::{
    condition_text, literal_text, string_literal, subject_of, Dialect, Expr, Operator, PushDown,
    ScalarValue,
};
use crate::text;
use crate::text::{join, same_text};

verus! {

/// The number of hits of a search without a limit.
pub const DEFAULT_TOP_K: usize = 50;

/// The text that a predicate `query_vector = '...'` holds.
pub open spec fn vector_text(e: Expr) -> Option<Seq<char>> {
    match e {
        Expr::BinaryExpr { left, op: Operator::Eq, right } => match (*left, *right) {
            (Expr::Column(c), Expr::Literal(ScalarValue::Utf8(Some(s)))) => if c@
                == "query_vector"@ {
                Some(s@)
            } else {
                None
            },
            _ => None,
        },
        _ => None,
    }
}

/// The text of the first predicate `query_vector = '...'`.
pub open spec fn query_vector(filters: Seq<Expr>) -> Option<Seq<char>>
    decreases filters.len(),
{
    if filters.len() == 0 {
        None
    } else if vector_text(filters[0]) is Some {
        vector_text(filters[0])
    } else {
        query_vector(filters.skip(1))
    }
}

fn vector_text_of(e: &Expr) -> (r: Option<&str>)
    ensures
        match r {
            Some(s) => vector_text(*e) == Some(s@),
            None => vector_text(*e) is None,
        },
{
    match e {
        Expr::BinaryExpr { left, op, right } => match op {
            Operator::Eq => match (&**left, &**right) {
                (Expr::Column(c), Expr::Literal(ScalarValue::Utf8(Some(s)))) => {
                    if same_text(c.as_str(), "query_vector") {
                        Some(s.as_str())
                    } else {
                        None
                    }
                },
                _ => None,
            },
            _ => None,
        },
        _ => None,
    }
}

/// The text of the first predicate `query_vector = '...'`: the embedding as JSON.
pub fn query_vector_literal(filters: &Vec<Expr>) -> (r: Option<&str>)
    ensures
        match r {
            Some(s) => query_vector(filters@) == Some(s@),
            None => query_vector(filters@) is None,
        },
{
    let mut i: usize = 0;
    assert(filters@.skip(0) == filters@);
    while i < filters.len()
        invariant
            i <= filters.len(),
            query_vector(filters@) == query_vector(filters@.skip(i as int)),
        decreases filters.len() - i,
    {
        assert(filters@.skip(i as int).skip(1) == filters@.skip(i + 1));
        if let Some(s) = vector_text_of(&filters[i]) {
            return Some(s);
        }
        i += 1;
    }
    None
}

/// A text as a Milvus string literal.
pub fn milvus_str(s: &str) -> (r: String)
    ensures
        r@ == predicate::quoted(s@, '"'),
{
    string_literal(s, '"')
}

/// A literal in a Milvus filter; nothing if it cannot be pushed down.
pub fn milvus_value(v: &ScalarValue) -> (r: Option<String>)
    ensures
        text::text_of(r) == predicate::literal(*v, '"'),
{
    literal_text(v, '"')
}

/// A comparison in a Milvus filter; nothing for any other operator.
pub fn milvus_op(op: Operator) -> (r: Option<&'static str>)
    ensures
        match r {
            Some(s) => Dialect::Milvus.operator(op) == Some(s@),
            None => Dialect::Milvus.operator(op) is None,
        },
{
    Dialect::Milvus.operator_text(op)
}

/// A column that a filter can be about: one of the table that is in the collection.
pub open spec fn filterable(name: Seq<char>, names: Seq<Seq<char>>) -> bool {
    name != "query_vector"@ && name != "score"@ && names.contains(name)
}

/// A column that a filter can be about.
pub fn is_filter_col(name: &str, schema: &Vec<Field>) -> (r: bool)
    ensures
        r == filterable(name@, columns::names(columns::models(schema@))),
{
    !same_text(name, "query_vector") && !same_text(name, "score") && has_field(schema, name)
}

/// A predicate as a Milvus filter: a comparison or a membership of a column of the
/// collection. Nothing for any other.
pub open spec fn milvus_predicate(e: Expr, names: Seq<Seq<char>>) -> Option<Seq<char>> {
    match (predicate::subject(e), predicate::condition(e, Dialect::Milvus)) {
        (Some(c), Some(k)) => if filterable(c, names) {
            Some(c + k)
        } else {
            None
        },
        _ => None,
    }
}

/// A predicate as a Milvus filter.
pub fn predicate_milvus(e: &Expr, schema: &Vec<Field>) -> (r: Option<String>)
    ensures
        text::text_of(r) == milvus_predicate(*e, columns::names(columns::models(schema@))),
{
    match (subject_of(e), condition_text(e, Dialect::Milvus)) {
        (Some(c), Some(k)) => {
            if is_filter_col(c, schema) {
                let mut r = c.to_owned();
                r.push_str(k.as_str());
                Some(r)
            } else {
                None
            }
        },
        _ => None,
    }
}

/// Each of `filters` as a Milvus filter.
pub open spec fn milvus_predicates(filters: Seq<Expr>, names: Seq<Seq<char>>) -> Seq<
    Option<Seq<char>>,
> {
    Seq::new(filters.len(), |i: int| milvus_predicate(filters[i], names))
}

/// The filter of a search: all predicates that can be written as one.
pub open spec fn milvus_filter(filters: Seq<Expr>, names: Seq<Seq<char>>) -> Option<Seq<char>> {
    let parts = predicate::present(milvus_predicates(filters, names));
    if parts.len() == 0 {
        None
    } else {
        Some(text::joined(parts, " and "@))
    }
}

/// The filter of a search.
pub fn extract_milvus_filter(filters: &Vec<Expr>, schema: &Vec<Field>) -> (r: Option<String>)
    ensures
        text::text_of(r) == milvus_filter(filters@, columns::names(columns::models(schema@))),
{
    let ghost all = milvus_predicates(filters@, columns::names(columns::models(schema@)));
    let mut parts: Vec<String> = Vec::new();
    let mut i: usize = 0;
    assert(text::texts(parts@) == predicate::present(all.take(0)));
    while i < filters.len()
        invariant
            i <= filters.len(),
            all == milvus_predicates(filters@, columns::names(columns::models(schema@))),
            text::texts(parts@) == predicate::present(all.take(i as int)),
        decreases filters.len() - i,
    {
        let ghost before = text::texts(parts@);
        assert(all.take(i + 1).drop_last() == all.take(i as int));
        if let Some(p) = predicate_milvus(&filters[i], schema) {
            parts.push(p);
            assert(text::texts(parts@) == before.push(p@));
        }
        i += 1;
    }
    assert(all.take(i as int) == all);
    if parts.len() == 0 {
        None
    } else {
        Some(join(&parts, " and "))
    }
}

/// A predicate `query_vector = ...`: the search takes it as what to search for.
pub open spec fn names_the_query(e: Expr) -> bool {
    match e {
        Expr::BinaryExpr { left, op: Operator::Eq, right } => match *left {
            Expr::Column(c) => c@ == "query_vector"@,
            _ => false,
        },
        _ => false,
    }
}

/// Whether the search consumes a predicate.
pub open spec fn consumed(e: Expr, names: Seq<Seq<char>>) -> bool {
    names_the_query(e) || milvus_predicate(e, names) is Some
}

/// Whether the search consumes a predicate.
pub fn is_pushable(e: &Expr, schema: &Vec<Field>) -> (r: bool)
    ensures
        r == consumed(*e, columns::names(columns::models(schema@))),
{
    let mut query = false;
    if let Expr::BinaryExpr { left, op, right } = e {
        if let Operator::Eq = op {
            if let Expr::Column(c) = &**left {
                query = same_text(c.as_str(), "query_vector");
            }
        }
    }
    query || predicate_milvus(e, schema).is_some()
}

/// A search: the embedding as JSON, the filter, and the number of hits.
#[derive(Debug)]
pub struct VectorScan {
    pub query_vector: String,
    pub filter: Option<String>,
    pub top_k: usize,
}

/// The number of hits that a limit asks for.
pub open spec fn hits_for(limit: Option<usize>) -> usize {
    match limit {
        Some(k) => k,
        None => DEFAULT_TOP_K,
    }
}

/// The refusal of a search without an embedding.
pub open spec fn missing_vector() -> Seq<char> {
    "milvus: a query embedding is required, e.g. WHERE query_vector = '[0.1, 0.2, ...]'"@
}

/// The refusal of an embedding that is no list of numbers, for a reason.
pub fn vector_refusal(reason: &str) -> (r: String)
    ensures
        r@
            == "milvus: query_vector must be a JSON array of floats matching the collection's vector dimension (e.g. '[0.1, 0.2]'): "@
            + reason@,
{
    let mut r = "milvus: query_vector must be a JSON array of floats matching the collection's vector dimension (e.g. '[0.1, 0.2]'): ".to_owned();
    r.push_str(reason);
    r
}

/// A collection as a table: `query_vector`, its scalar columns, and `score`.
#[derive(Debug)]
pub struct MilvusTableProvider {
    pub coll: MilvusCollection,
    pub schema: Vec<Field>,
}

impl MilvusTableProvider {
    pub fn new(coll: MilvusCollection, schema: Vec<Field>) -> (r: Self)
        ensures
            r == (MilvusTableProvider { coll, schema }),
    {
        MilvusTableProvider { coll, schema }
    }

    /// The names of the columns.
    pub open spec fn names(self) -> Seq<Seq<char>> {
        columns::names(columns::models(self.schema@))
    }

    /// Which of `filters` the search consumes.
    pub fn supports_filters_pushdown(&self, filters: &Vec<Expr>) -> (r: Vec<PushDown>)
        ensures
            r.len() == filters.len(),
            forall|i: int|
                0 <= i < filters.len() ==> #[trigger] r[i] == predicate::answer(
                    consumed(filters[i], self.names()),
                ),
    {
        let mut r: Vec<PushDown> = Vec::new();
        let mut i: usize = 0;
        while i < filters.len()
            invariant
                i <= filters.len(),
                r.len() == i,
                forall|k: int|
                    0 <= k < i ==> #[trigger] r[k] == predicate::answer(
                        consumed(filters[k], self.names()),
                    ),
            decreases filters.len() - i,
        {
            if is_pushable(&filters[i], &self.schema) {
                r.push(PushDown::Exact);
            } else {
                r.push(PushDown::Unsupported);
            }
            i += 1;
        }
        r
    }

    /// The search that reads the table. Fails without an embedding.
    pub fn scan(&self, filters: &Vec<Expr>, limit: Option<usize>) -> (r: Result<VectorScan, String>)
        ensures
            match (query_vector(filters@), r) {
                (Some(v), Ok(s)) => s.query_vector@ == v && text::text_of(s.filter)
                    == milvus_filter(filters@, self.names()) && s.top_k == hits_for(limit),
                (None, Err(e)) => e@ == missing_vector(),
                _ => false,
            },
    {
        match query_vector_literal(filters) {
            None => Err(
                "milvus: a query embedding is required, e.g. WHERE query_vector = '[0.1, 0.2, ...]'".to_owned(),
            ),
            Some(v) => Ok(
                VectorScan {
                    query_vector: v.to_owned(),
                    filter: extract_milvus_filter(filters, &self.schema),
                    top_k: match limit {
                        Some(k) => k,
                        None => DEFAULT_TOP_K,
                    },
                },
            ),
        }
    }
}

/// A predicate that is reported as exact is part of the filter, or it names the
/// query; one that is part of the filter is reported as exact and never names the
/// query.
pub proof fn law_exact_predicates_are_consumed(e: Expr, names: Seq<Seq<char>>)
    ensures
        predicate::answer(consumed(e, names)) == PushDown::Exact <==> (milvus_predicate(e, names)
            is Some || names_the_query(e)),
        milvus_predicate(e, names) is Some ==> !names_the_query(e),
        vector_text(e) is Some ==> names_the_query(e),
{
}

/// The embedding comes from a predicate that names the query, the first that holds
/// a text; there is none only if no predicate does.
pub proof fn law_query_comes_from_the_first_vector(filters: Seq<Expr>)
    ensures
        match query_vector(filters) {
            Some(v) => exists|i: int|
                0 <= i < filters.len() && vector_text(#[trigger] filters[i]) == Some(v) && forall|
                    k: int,
                |
                    0 <= k < i ==> vector_text(#[trigger] filters[k]) is None,
            None => forall|i: int|
                0 <= i < filters.len() ==> vector_text(#[trigger] filters[i]) is None,
        },
    decreases filters.len(),
{
    if filters.len() > 0 {
        let rest = filters.skip(1);
        law_query_comes_from_the_first_vector(rest);
        if vector_text(filters[0]) is None {
            match query_vector(rest) {
                Some(v) => {
                    let i = choose|i: int|
                        0 <= i < rest.len() && vector_text(#[trigger] rest[i]) == Some(v) && forall|
                            k: int,
                        |
                            0 <= k < i ==> vector_text(#[trigger] rest[k]) is None;
                    assert(vector_text(filters[i + 1]) == Some(v));
                    assert forall|k: int| 0 <= k < i + 1 implies vector_text(
                        #[trigger] filters[k],
                    ) is None by {
                        if k > 0 {
                            assert(rest[k - 1] == filters[k]);
                        }
                    }
                },
                None => {
                    assert forall|i: int| 0 <= i < filters.len() implies vector_text(
                        #[trigger] filters[i],
                    ) is None by {
                        if i > 0 {
                            assert(rest[i - 1] == filters[i]);
                        }
                    }
                },
            }
        } else {
            assert(vector_text(filters[0]) == query_vector(filters));
        }
    }
}

// ---------------------------------------------------------------------------
// What the filter of a search asks
// ---------------------------------------------------------------------------

/// `p` says of a field what the predicate `e` says of a column of the table that is a
/// field of the collection.
pub open spec fn says_in_milvus(e: Expr, names: Seq<Seq<char>>, p: Seq<char>) -> bool {
    exists|c: Seq<char>, k: Seq<char>|
        predicate::is_about(e, c) && names.contains(c) && c != "query_vector"@ && c != "score"@
            && predicate::is_said(e, Dialect::Milvus, k) && p == #[trigger] (c + k)
}

/// A predicate is part of the filter if and only if it compares a field with a literal
/// that can be written, or looks for it among such literals; and what is written says
/// just that.
pub proof fn law_filters_say_the_same(e: Expr, names: Seq<Seq<char>>)
    ensures
        milvus_predicate(e, names) matches Some(p) ==> says_in_milvus(e, names, p),
        (exists|p: Seq<char>| says_in_milvus(e, names, p)) ==> milvus_predicate(e, names) is Some,
{
    predicate::law_conditions_say_what_predicates_say(e, Dialect::Milvus);
    if let Some(p) = milvus_predicate(e, names) {
        let c = predicate::subject(e)->0;
        let k = predicate::condition(e, Dialect::Milvus)->0;
        assert(predicate::is_about(e, c));
        assert(p == c + k);
    }
    if exists|p: Seq<char>| says_in_milvus(e, names, p) {
        let p = choose|p: Seq<char>| says_in_milvus(e, names, p);
        let (c, k) = choose|c: Seq<char>, k: Seq<char>|
            predicate::is_about(e, c) && names.contains(c) && c != "query_vector"@ && c
                != "score"@ && predicate::is_said(e, Dialect::Milvus, k) && p == #[trigger] (c + k);
        assert(predicate::subject(e) == Some(c));
        assert(predicate::condition(e, Dialect::Milvus) is Some);
    }
}

/// `t` says that each of the predicates holds: they stand in it in their order, with
/// ` and ` between any two, and nothing else stands in it.
pub open spec fn is_conjunction(t: Seq<char>, predicates: Seq<Seq<char>>) -> bool {
    let n = predicates.len() as int;
    &&& t.len() == text::offset(predicates, 5, n) - 5
    &&& forall|i: int|
        0 <= i < n ==> text::stands_at(t, #[trigger] predicates[i], text::offset(predicates, 5, i))
    &&& forall|i: int|
        0 <= i < n - 1 ==> text::stands_at(
            t,
            " and "@,
            text::offset(predicates, 5, i) + (#[trigger] predicates[i]).len(),
        )
}

/// `ps` says what those of `filters` say that can be written, each once and in their
/// order: `at` gives for each the filter that it comes from.
pub open spec fn are_taken_from(
    ps: Seq<Seq<char>>,
    at: Seq<int>,
    filters: Seq<Expr>,
    names: Seq<Seq<char>>,
) -> bool {
    &&& at.len() == ps.len()
    &&& forall|i: int|
        0 <= i < ps.len() ==> 0 <= #[trigger] at[i] < filters.len() && says_in_milvus(
            filters[at[i]],
            names,
            ps[i],
        )
    &&& forall|i: int, j: int| 0 <= i < j < at.len() ==> #[trigger] at[i] < #[trigger] at[j]
    &&& forall|k: int|
        0 <= k < filters.len() ==> (exists|p: Seq<char>|
            says_in_milvus(#[trigger] filters[k], names, p)) ==> at.contains(k)
}

proof fn lemma_taken_from(filters: Seq<Expr>, names: Seq<Seq<char>>) -> (at: Seq<int>)
    ensures
        are_taken_from(predicate::present(milvus_predicates(filters, names)), at, filters, names),
    decreases filters.len(),
{
    let all = milvus_predicates(filters, names);
    let ps = predicate::present(all);
    if filters.len() == 0 {
        Seq::<int>::empty()
    } else {
        let front = filters.drop_last();
        let n = filters.len() - 1;
        let before = lemma_taken_from(front, names);
        assert(all.drop_last() == milvus_predicates(front, names));
        law_filters_say_the_same(filters[n], names);
        let old = predicate::present(milvus_predicates(front, names));
        let at = if all.last() is Some {
            before.push(n)
        } else {
            before
        };
        assert forall|i: int| 0 <= i < ps.len() implies 0 <= #[trigger] at[i] < filters.len()
            && says_in_milvus(filters[at[i]], names, ps[i]) by {
            if i < old.len() {
                assert(0 <= before[i] < front.len());
                assert(front[before[i]] == filters[before[i]]);
                assert(ps[i] == old[i]);
            }
        }
        assert forall|k: int|
            0 <= k < filters.len() && (exists|p: Seq<char>|
                says_in_milvus(#[trigger] filters[k], names, p)) implies at.contains(k) by {
            if k < n {
                assert(front[k] == filters[k]);
                assert(before.contains(k));
                let i = choose|i: int| 0 <= i < before.len() && before[i] == k;
                assert(at[i] == k);
            } else {
                assert(at[before.len() as int] == k);
            }
        }
        at
    }
}

/// A hit is returned only if it satisfies every predicate that is reported as exact and
/// is not the query: the filter says that each of them holds, in their order and no
/// others; without any there is no filter.
pub proof fn law_filter_is_the_conjunction(filters: Seq<Expr>, names: Seq<Seq<char>>) -> (taken: (
    Seq<Seq<char>>,
    Seq<int>,
))
    ensures
        are_taken_from(taken.0, taken.1, filters, names),
        match milvus_filter(filters, names) {
            Some(t) => taken.0.len() > 0 && is_conjunction(t, taken.0),
            None => taken.0.len() == 0,
        },
{
    let at = lemma_taken_from(filters, names);
    let ps = predicate::present(milvus_predicates(filters, names));
    reveal_strlit(" and ");
    text::law_joined_parts_stand_in_order(ps, " and "@);
    (ps, at)
}

/// The query is what a predicate `query_vector = '...'` compares the column with, and
/// nothing else is; a search returns as many hits as the limit says, 50 without one.
pub proof fn law_query_is_the_compared_text(e: Expr, limit: Option<usize>)
    ensures
        match vector_text(e) {
            Some(s) => e matches Expr::BinaryExpr { left, op, right } && op == Operator::Eq && (*left
                matches Expr::Column(c) && c@ == "query_vector"@) && (*right matches Expr::Literal(
                ScalarValue::Utf8(Some(t)),
            ) && t@ == s),
            None => !(e matches Expr::BinaryExpr { left, op, right } && op == Operator::Eq && (*left
                matches Expr::Column(c) && c@ == "query_vector"@) && (*right matches Expr::Literal(
                ScalarValue::Utf8(Some(t)),
            ))),
        },
        limit matches Some(k) ==> hits_for(limit) == k,
        limit is None ==> hits_for(limit) == 50,
{
}

/// A predicate names the query if and only if it compares `query_vector` for equality; it
/// is reported as exact, and so is one that is part of the filter, and no other.
pub proof fn law_exact_answers(e: Expr, names: Seq<Seq<char>>)
    ensures
        names_the_query(e) <==> (e matches Expr::BinaryExpr { left, op, right } && op == Operator::Eq
            && (*left matches Expr::Column(c) && c@ == "query_vector"@)),
        predicate::answer(consumed(e, names)) == PushDown::Exact <==> names_the_query(e) || exists|
            p: Seq<char>,
        |
            says_in_milvus(e, names, p),
{
    law_filters_say_the_same(e, names);
    if let Some(p) = milvus_predicate(e, names) {
        assert(says_in_milvus(e, names, p));
    }
}

} // verus!
