//! A node label, or the result of a statement, as a table.
//!
//! ```text
//! SELECT name, age FROM people WHERE age > 30 LIMIT 10
//!   -> MATCH (n:`Person`) WHERE n.`age` > 30 RETURN n.`name` AS name, n.`age` AS age LIMIT 10
//! ```
//!
//! Comparisons with literals and memberships in lists of literals become part of
//! the Cypher `WHERE`, the projection becomes the `RETURN`, and a limit is passed
//! on. What is pushed down is reported as exact, so nobody applies it again.
use vstd::prelude::*;

use crate::columns;
use crate::columns::{has_field, project_fields, Field, ProjectionError};
use crate::neo4j::exec::Neo4jExec;
use crate::neo4j::scope;
use crate::neo4j::scope::cypher_label;
use crate::numeral;
use crate::numeral::decimal_text;
use crate::predicate;
use crate::predicate::{
    condition_text, literal_text, string_literal, subject_of, Dialect, Expr, Operator, PushDown,
    ScalarValue,
};
use crate::text;
use crate::text::{ascii_ident, chars_of, join};

verus! {

// ---------------------------------------------------------------------------
// Predicates in Cypher
// ---------------------------------------------------------------------------

/// A name in backticks, with those it holds doubled.
pub fn cypher_ident(name: &str) -> (r: String)
    ensures
        r@ == scope::quoted_label(name@),
{
    cypher_label(name)
}

/// A text as a Cypher string literal.
pub fn cypher_str(s: &str) -> (r: String)
    ensures
        r@ == predicate::quoted(s@, '\''),
{
    string_literal(s, '\'')
}

/// A literal in Cypher; nothing if it cannot be pushed down.
pub fn scalar_to_cypher(v: &ScalarValue) -> (r: Option<String>)
    ensures
        text::text_of(r) == predicate::literal(*v, '\''),
{
    literal_text(v, '\'')
}

/// A comparison in Cypher; nothing for any other operator.
pub fn op_to_cypher(op: Operator) -> (r: Option<&'static str>)
    ensures
        match r {
            Some(s) => Dialect::Cypher.operator(op) == Some(s@),
            None => Dialect::Cypher.operator(op) is None,
        },
{
    Dialect::Cypher.operator_text(op)
}

/// A predicate in Cypher: a comparison or a membership of a column of the table.
/// Nothing for any other.
pub open spec fn cypher_predicate(e: Expr, names: Seq<Seq<char>>) -> Option<Seq<char>> {
    match (predicate::subject(e), predicate::condition(e, Dialect::Cypher)) {
        (Some(c), Some(k)) => if names.contains(c) {
            Some("n."@ + scope::quoted_label(c) + k)
        } else {
            None
        },
        _ => None,
    }
}

/// A predicate in Cypher.
pub fn predicate_cypher(e: &Expr, schema: &Vec<Field>) -> (r: Option<String>)
    ensures
        text::text_of(r) == cypher_predicate(*e, columns::names(columns::models(schema@))),
{
    match (subject_of(e), condition_text(e, Dialect::Cypher)) {
        (Some(c), Some(k)) => {
            if has_field(schema, c) {
                let mut r = "n.".to_owned();
                r.push_str(cypher_ident(c).as_str());
                r.push_str(k.as_str());
                Some(r)
            } else {
                None
            }
        },
        _ => None,
    }
}

/// Each of `filters` in Cypher.
pub open spec fn cypher_predicates(filters: Seq<Expr>, names: Seq<Seq<char>>) -> Seq<
    Option<Seq<char>>,
> {
    Seq::new(filters.len(), |i: int| cypher_predicate(filters[i], names))
}

/// The predicates of `filters` that can be written in Cypher, in order.
fn pushable(filters: &Vec<Expr>, schema: &Vec<Field>) -> (r: Vec<String>)
    ensures
        text::texts(r@) == predicate::present(
            cypher_predicates(filters@, columns::names(columns::models(schema@))),
        ),
{
    let ghost all = cypher_predicates(filters@, columns::names(columns::models(schema@)));
    let mut r: Vec<String> = Vec::new();
    let mut i: usize = 0;
    assert(text::texts(r@) == predicate::present(all.take(0)));
    while i < filters.len()
        invariant
            i <= filters.len(),
            all == cypher_predicates(filters@, columns::names(columns::models(schema@))),
            text::texts(r@) == predicate::present(all.take(i as int)),
        decreases filters.len() - i,
    {
        let ghost before = text::texts(r@);
        assert(all.take(i + 1).drop_last() == all.take(i as int));
        if let Some(p) = predicate_cypher(&filters[i], schema) {
            r.push(p);
            assert(text::texts(r@) == before.push(p@));
        }
        i += 1;
    }
    assert(all.take(i as int) == all);
    r
}

// ---------------------------------------------------------------------------
// The statement of a scan
// ---------------------------------------------------------------------------

/// The pattern of the nodes of a label, within a tenant's scope if there is one.
pub open spec fn node_pattern(label: Seq<char>, scope: Option<Seq<char>>) -> Seq<char> {
    "MATCH (n:"@ + scope::quoted_label(label) + match scope {
        Some(s) => ":"@ + scope::quoted_label(s),
        None => seq![],
    } + ")"@
}

/// The conditions, if there are any.
pub open spec fn where_clause(predicates: Seq<Seq<char>>) -> Seq<char> {
    if predicates.len() == 0 {
        seq![]
    } else {
        " WHERE "@ + text::joined(predicates, " AND "@)
    }
}

/// A name that needs no quotes in Cypher: ASCII letters, digits and `_`, with no
/// digit in front.
pub open spec fn is_plain(name: Seq<char>) -> bool {
    &&& name.len() > 0
    &&& !text::is_digit(name[0])
    &&& forall|i: int| 0 <= i < name.len() ==> text::is_ascii_ident(#[trigger] name[i])
}

/// The name of a returned column, in quotes where it needs them.
pub open spec fn alias(name: Seq<char>) -> Seq<char> {
    if is_plain(name) {
        name
    } else {
        scope::quoted_label(name)
    }
}

/// A property returned under its own name.
pub open spec fn returned(name: Seq<char>) -> Seq<char> {
    "n."@ + scope::quoted_label(name) + " AS "@ + alias(name)
}

/// The properties that are returned. Without any, a row for each node still is.
pub open spec fn return_clause(names: Seq<Seq<char>>) -> Seq<char> {
    if names.len() == 0 {
        "RETURN 1 AS _cnt"@
    } else {
        "RETURN "@ + text::joined(Seq::new(names.len(), |i: int| returned(names[i])), ", "@)
    }
}

/// The limit, if there is one.
pub open spec fn limit_clause(limit: Option<usize>) -> Seq<char> {
    match limit {
        Some(k) => " LIMIT "@ + numeral::decimal(k as nat),
        None => seq![],
    }
}

/// The statement that reads the nodes of a label.
pub open spec fn scan_statement(
    label: Seq<char>,
    scope: Option<Seq<char>>,
    predicates: Seq<Seq<char>>,
    names: Seq<Seq<char>>,
    limit: Option<usize>,
) -> Seq<char> {
    node_pattern(label, scope) + where_clause(predicates) + " "@ + return_clause(names)
        + limit_clause(limit)
}

fn where_text(predicates: &Vec<String>) -> (r: String)
    ensures
        r@ == where_clause(text::texts(predicates@)),
{
    if predicates.len() == 0 {
        String::new()
    } else {
        let mut r = " WHERE ".to_owned();
        r.push_str(join(predicates, " AND ").as_str());
        r
    }
}

/// The name of a returned column.
pub fn column_alias(name: &str) -> (r: String)
    ensures
        r@ == alias(name@),
{
    let cs = chars_of(name);
    if cs.len() == 0 || ('0' <= cs[0] && cs[0] <= '9') {
        return cypher_ident(name);
    }
    let mut i: usize = 0;
    while i < cs.len()
        invariant
            i <= cs.len(),
            cs@ == name@,
            forall|k: int| 0 <= k < i ==> text::is_ascii_ident(#[trigger] name@[k]),
        decreases cs.len() - i,
    {
        if !ascii_ident(cs[i]) {
            assert(!text::is_ascii_ident(name@[i as int]));
            return cypher_ident(name);
        }
        i += 1;
    }
    name.to_owned()
}

fn return_text(fields: &Vec<Field>) -> (r: String)
    ensures
        r@ == return_clause(columns::names(columns::models(fields@))),
{
    let ghost names = columns::names(columns::models(fields@));
    if fields.len() == 0 {
        return "RETURN 1 AS _cnt".to_owned();
    }
    let mut cols: Vec<String> = Vec::new();
    let mut i: usize = 0;
    let ghost all = Seq::new(names.len(), |i: int| returned(names[i]));
    while i < fields.len()
        invariant
            i <= fields.len(),
            names == columns::names(columns::models(fields@)),
            all == Seq::new(names.len(), |i: int| returned(names[i])),
            text::texts(cols@) == all.take(i as int),
        decreases fields.len() - i,
    {
        let ghost before = text::texts(cols@);
        let name = fields[i].name.as_str();
        let mut c = "n.".to_owned();
        c.push_str(cypher_ident(name).as_str());
        c.push_str(" AS ");
        c.push_str(column_alias(name).as_str());
        cols.push(c);
        assert(c@ == all[i as int]);
        assert(text::texts(cols@) == before.push(c@));
        i += 1;
    }
    assert(all.take(i as int) == all);
    let mut r = "RETURN ".to_owned();
    r.push_str(join(&cols, ", ").as_str());
    r
}

fn limit_text(limit: Option<usize>) -> (r: String)
    ensures
        r@ == limit_clause(limit),
{
    match limit {
        Some(k) => {
            let mut r = " LIMIT ".to_owned();
            r.push_str(decimal_text(k as u64).as_str());
            r
        },
        None => String::new(),
    }
}

/// What a scan asks for: the projected schema, or the projection's error.
pub open spec fn is_scan(
    r: Result<Neo4jExec, ProjectionError>,
    schema: Seq<columns::FieldModel>,
    projection: Option<Seq<usize>>,
    label: Seq<char>,
) -> bool {
    match (columns::projected(schema, projection), r) {
        (Ok(fields), Ok(exec)) => columns::models(exec.projected_schema@) == fields
            && exec.label@ == label,
        (Err(e), Err(got)) => got == e,
        _ => false,
    }
}

/// A node label as a table.
#[derive(Debug)]
pub struct Neo4jTableProvider {
    pub label: String,
    pub schema: Vec<Field>,
    /// The label that every node of the calling tenant carries.
    pub scope: Option<String>,
}

impl Neo4jTableProvider {
    pub fn new(label: String, schema: Vec<Field>, scope: Option<String>) -> (r: Self)
        ensures
            r == (Neo4jTableProvider { label, schema, scope }),
    {
        Neo4jTableProvider { label, schema, scope }
    }

    /// The names of the columns.
    pub open spec fn names(self) -> Seq<Seq<char>> {
        columns::names(columns::models(self.schema@))
    }

    /// Which of `filters` the scan applies: exactly those that can be written in
    /// Cypher.
    pub fn supports_filters_pushdown(&self, filters: &Vec<Expr>) -> (r: Vec<PushDown>)
        ensures
            r.len() == filters.len(),
            forall|i: int|
                0 <= i < filters.len() ==> #[trigger] r[i] == predicate::answer(
                    cypher_predicate(filters[i], self.names()) is Some,
                ),
    {
        let mut r: Vec<PushDown> = Vec::new();
        let mut i: usize = 0;
        while i < filters.len()
            invariant
                i <= filters.len(),
                r.len() == i,
                forall|k: int|
                    0 <= k < i ==> #[trigger] r[k] == predicate::answer(
                        cypher_predicate(filters[k], self.names()) is Some,
                    ),
            decreases filters.len() - i,
        {
            if predicate_cypher(&filters[i], &self.schema).is_some() {
                r.push(PushDown::Exact);
            } else {
                r.push(PushDown::Unsupported);
            }
            i += 1;
        }
        r
    }

    /// The query that reads the table. Fails if the projection asks for a column
    /// that is not there.
    pub fn scan(
        &self,
        projection: &Option<Vec<usize>>,
        filters: &Vec<Expr>,
        limit: Option<usize>,
    ) -> (r: Result<Neo4jExec, ProjectionError>)
        ensures
            is_scan(
                r,
                columns::models(self.schema@),
                columns::positions(*projection),
                self.label@,
            ),
            r matches Ok(exec) ==> exec.cypher@ == scan_statement(
                self.label@,
                text::text_of(self.scope),
                predicate::present(cypher_predicates(filters@, self.names())),
                columns::names(columns::models(exec.projected_schema@)),
                limit,
            ),
    {
        let fields = match project_fields(&self.schema, projection) {
            Ok(fields) => fields,
            Err(e) => {
                return Err(e);
            },
        };
        let mut cypher = "MATCH (n:".to_owned();
        cypher.push_str(cypher_ident(self.label.as_str()).as_str());
        let mut scoped = String::new();
        if let Some(s) = &self.scope {
            scoped.push_str(":");
            scoped.push_str(cypher_ident(s.as_str()).as_str());
            assert(scoped@ == ":"@ + scope::quoted_label(s@));
        }
        cypher.push_str(scoped.as_str());
        cypher.push_str(")");
        cypher.push_str(where_text(&pushable(filters, &self.schema)).as_str());
        cypher.push_str(" ");
        cypher.push_str(return_text(&fields).as_str());
        cypher.push_str(limit_text(limit).as_str());
        Ok(Neo4jExec::new(cypher, self.label.clone(), fields))
    }
}

proof fn lemma_present(parts: Seq<Option<Seq<char>>>)
    ensures
        forall|i: int|
            0 <= i < parts.len() && (#[trigger] parts[i]) is Some ==> predicate::present(
                parts,
            ).contains(parts[i]->0),
        forall|p: Seq<char>|
            predicate::present(parts).contains(p) ==> parts.contains(Some(p)),
    decreases parts.len(),
{
    if parts.len() > 0 {
        let front = parts.drop_last();
        let before = predicate::present(front);
        let all = predicate::present(parts);
        lemma_present(front);
        assert forall|i: int| 0 <= i < parts.len() && (#[trigger] parts[i]) is Some implies all.contains(
            parts[i]->0,
        ) by {
            if i < front.len() {
                assert(front[i] == parts[i]);
                assert(before.contains(parts[i]->0));
                let k = choose|k: int| 0 <= k < before.len() && before[k] == parts[i]->0;
                assert(all[k] == parts[i]->0);
            } else {
                assert(all[before.len() as int] == parts[i]->0);
            }
        }
        assert forall|p: Seq<char>| all.contains(p) implies parts.contains(Some(p)) by {
            let k = choose|k: int| 0 <= k < all.len() && all[k] == p;
            if k < before.len() {
                assert(before[k] == p);
                assert(before.contains(p));
                assert(front.contains(Some(p)));
                let m = choose|m: int| 0 <= m < front.len() && front[m] == Some(p);
                assert(parts[m] == Some(p));
            } else {
                assert(parts[parts.len() - 1] == Some(p));
            }
        }
    }
}

/// A predicate is reported as exact if and only if the scan applies it, so none is
/// lost and none is applied twice; and the scan applies nothing but the predicates
/// that it was given.
pub proof fn law_exact_predicates_are_applied(
    filters: Seq<Expr>,
    names: Seq<Seq<char>>,
    answers: Seq<PushDown>,
    applied: Seq<Seq<char>>,
)
    requires
        answers.len() == filters.len(),
        forall|i: int|
            0 <= i < filters.len() ==> #[trigger] answers[i] == predicate::answer(
                cypher_predicate(filters[i], names) is Some,
            ),
        applied == predicate::present(cypher_predicates(filters, names)),
    ensures
        forall|i: int|
            0 <= i < filters.len() ==> (#[trigger] answers[i] == PushDown::Exact <==> (
            cypher_predicate(filters[i], names) matches Some(p) && applied.contains(p))),
        forall|p: Seq<char>|
            applied.contains(p) ==> exists|i: int|
                0 <= i < filters.len() && cypher_predicate(#[trigger] filters[i], names) == Some(p),
{
    let all = cypher_predicates(filters, names);
    lemma_present(all);
    assert forall|i: int| 0 <= i < filters.len() implies (#[trigger] answers[i] == PushDown::Exact
        <==> (cypher_predicate(filters[i], names) matches Some(p) && applied.contains(p))) by {
        assert(all[i] == cypher_predicate(filters[i], names));
    }
    assert forall|p: Seq<char>| applied.contains(p) implies exists|i: int|
        0 <= i < filters.len() && cypher_predicate(#[trigger] filters[i], names) == Some(p) by {
        assert(all.contains(Some(p)));
        let i = choose|i: int| 0 <= i < all.len() && all[i] == Some(p);
        assert(cypher_predicate(filters[i], names) == Some(p));
    }
}

/// The result of a fixed statement as a table. The statement is opaque: nothing is
/// pushed into it, and only the projection is honoured.
#[derive(Debug)]
pub struct CypherTableProvider {
    pub cypher: String,
    pub schema: Vec<Field>,
}

impl CypherTableProvider {
    pub fn new(cypher: String, schema: Vec<Field>) -> (r: Self)
        ensures
            r == (CypherTableProvider { cypher, schema }),
    {
        CypherTableProvider { cypher, schema }
    }

    /// The query that reads the table. Fails if the projection asks for a column
    /// that is not there.
    pub fn scan(&self, projection: &Option<Vec<usize>>) -> (r: Result<Neo4jExec, ProjectionError>)
        ensures
            is_scan(
                r,
                columns::models(self.schema@),
                columns::positions(*projection),
                "cypher"@,
            ),
            r matches Ok(exec) ==> exec.cypher@ == self.cypher@,
    {
        match project_fields(&self.schema, projection) {
            Ok(fields) => Ok(
                Neo4jExec::new(self.cypher.clone(), "cypher".to_owned(), fields),
            ),
            Err(e) => Err(e),
        }
    }
}

// ---------------------------------------------------------------------------
// What the statement of a scan asks
// ---------------------------------------------------------------------------

/// `t` says that each of the predicates holds: they stand in it in their order, with
/// ` AND ` between any two, after ` WHERE `, and nothing else stands in it.
pub open spec fn is_conjunction(t: Seq<char>, predicates: Seq<Seq<char>>) -> bool {
    let n = predicates.len() as int;
    if n == 0 {
        t.len() == 0
    } else {
        &&& text::stands_at(t, " WHERE "@, 0)
        &&& t.len() == 7 + text::offset(predicates, 5, n) - 5
        &&& forall|i: int|
            0 <= i < n ==> text::stands_at(
                t,
                #[trigger] predicates[i],
                7 + text::offset(predicates, 5, i),
            )
        &&& forall|i: int|
            0 <= i < n - 1 ==> text::stands_at(
                t,
                " AND "@,
                7 + text::offset(predicates, 5, i) + (#[trigger] predicates[i]).len(),
            )
    }
}

/// `a` names a column in Cypher: it is the name itself, made of ASCII letters, digits
/// and `_` with no digit in front, or the name in backticks.
pub open spec fn is_name_of(a: Seq<char>, name: Seq<char>) -> bool {
    ||| a == scope::quoted_label(name)
    ||| {
        &&& a == name && name.len() > 0 && !('0' <= name[0] && name[0] <= '9')
        &&& forall|i: int|
            0 <= i < name.len() ==> (('0' <= (#[trigger] name[i]) && name[i] <= '9') || ('A'
                <= name[i] && name[i] <= 'Z') || ('a' <= name[i] && name[i] <= 'z') || name[i]
                == '_')
    }
}

/// `item` returns the property `name` under its own name.
pub open spec fn returns_property(item: Seq<char>, name: Seq<char>) -> bool {
    exists|a: Seq<char>|
        is_name_of(a, name) && item == #[trigger] ("n."@ + scope::quoted_label(name) + " AS "@ + a)
}

/// `t` returns the properties of the names, each once and in their order, with commas
/// between them; without any, a value for each node.
pub open spec fn is_listing(t: Seq<char>, names: Seq<Seq<char>>) -> bool {
    if names.len() == 0 {
        t == "RETURN 1 AS _cnt"@
    } else {
        exists|items: Seq<Seq<char>>|
            items.len() == names.len() && (forall|i: int|
                0 <= i < names.len() ==> returns_property(#[trigger] items[i], names[i])) && t
                == "RETURN "@ + #[trigger] text::joined(items, ", "@)
    }
}

/// `t` limits the rows to `limit`, if there is one.
pub open spec fn is_limit(t: Seq<char>, limit: Option<usize>) -> bool {
    match limit {
        Some(k) => text::starts_with(t, " LIMIT "@) && numeral::numeral(t.skip(7)) == Some(k as nat),
        None => t.len() == 0,
    }
}

/// The four parts of a statement that reads nodes.
pub struct ScanParts {
    pub pattern: Seq<char>,
    pub conditions: Seq<char>,
    pub listing: Seq<char>,
    pub limit: Seq<char>,
}

#[verifier::spinoff_prover]
proof fn lemma_conjunction(predicates: Seq<Seq<char>>)
    ensures
        is_conjunction(where_clause(predicates), predicates),
{
    let n = predicates.len() as int;
    let head = " WHERE "@;
    let sep = " AND "@;
    assert(head.len() == 7 && sep.len() == 5) by {
        reveal_strlit(" WHERE ");
        reveal_strlit(" AND ");
    }
    if n > 0 {
        let t = where_clause(predicates);
        let body = text::joined(predicates, sep);
        text::law_joined_parts_stand_in_order(predicates, sep);
        assert(t == head + body);
        text::law_parts_stand_in_the_whole(Seq::<char>::empty(), head, body);
        assert(text::stands_at(t, head, 0));
        assert forall|i: int| 0 <= i < n implies text::stands_at(
            t,
            #[trigger] predicates[i],
            7 + text::offset(predicates, 5, i),
        ) by {
            text::lemma_stands_behind(
                head,
                body,
                predicates[i],
                text::offset(predicates, 5, i),
            );
        }
        assert forall|i: int| 0 <= i < n - 1 implies text::stands_at(
            t,
            sep,
            7 + text::offset(predicates, 5, i) + (#[trigger] predicates[i]).len(),
        ) by {
            text::lemma_stands_behind(
                head,
                body,
                sep,
                text::offset(predicates, 5, i) + predicates[i].len(),
            );
        }
    }
}

proof fn lemma_listing(names: Seq<Seq<char>>)
    ensures
        is_listing(return_clause(names), names),
{
    if names.len() > 0 {
        let items = Seq::new(names.len(), |i: int| returned(names[i]));
        assert forall|i: int| 0 <= i < names.len() implies returns_property(
            #[trigger] items[i],
            names[i],
        ) by {
            let a = alias(names[i]);
            assert(is_name_of(a, names[i]));
            assert(items[i] == "n."@ + scope::quoted_label(names[i]) + " AS "@ + a);
        }
        assert(return_clause(names) == "RETURN "@ + text::joined(items, ", "@));
    }
}

/// A scan asks for the nodes of the label, and of the scope where there is one, that
/// satisfy every predicate; it returns the columns under their names, in their order,
/// and no more rows than the limit.
pub proof fn law_scan_asks_for_what_was_asked(
    label: Seq<char>,
    scope: Option<Seq<char>>,
    predicates: Seq<Seq<char>>,
    names: Seq<Seq<char>>,
    limit: Option<usize>,
) -> (parts: ScanParts)
    ensures
        scan_statement(label, scope, predicates, names, limit) == parts.pattern + parts.conditions
            + " "@ + parts.listing + parts.limit,
        scope is None ==> parts.pattern == "MATCH (n:"@ + scope::quoted_label(label) + ")"@,
        scope matches Some(s) ==> parts.pattern == "MATCH (n:"@ + scope::quoted_label(label) + ":"@
            + scope::quoted_label(s) + ")"@,
        is_conjunction(parts.conditions, predicates),
        is_listing(parts.listing, names),
        is_limit(parts.limit, limit),
{
    lemma_conjunction(predicates);
    lemma_listing(names);
    reveal_strlit(" LIMIT ");
    if let Some(k) = limit {
        numeral::law_numeral_round_trip(k as nat);
        assert(limit_clause(limit).skip(7) == numeral::decimal(k as nat));
        assert(limit_clause(limit).subrange(0, 7) == " LIMIT "@);
    }
    match scope {
        Some(s) => {
            assert(node_pattern(label, scope) == "MATCH (n:"@ + scope::quoted_label(label) + ":"@
                + scope::quoted_label(s) + ")"@);
        },
        None => {
            assert(node_pattern(label, scope) == "MATCH (n:"@ + scope::quoted_label(label)
                + ")"@);
        },
    }
    ScanParts {
        pattern: node_pattern(label, scope),
        conditions: where_clause(predicates),
        listing: return_clause(names),
        limit: limit_clause(limit),
    }
}

/// `p` says of a property what the predicate `e` says of a column of the table.
pub open spec fn says_in_cypher(e: Expr, names: Seq<Seq<char>>, p: Seq<char>) -> bool {
    exists|c: Seq<char>, k: Seq<char>|
        predicate::is_about(e, c) && names.contains(c) && predicate::is_said(e, Dialect::Cypher, k)
            && p == #[trigger] ("n."@ + scope::quoted_label(c) + k)
}

/// A predicate is pushed down if and only if it compares a column of the table with a
/// literal that can be written, or looks for it among such literals; and what is pushed
/// down says just that.
pub proof fn law_pushed_predicates_say_the_same(e: Expr, names: Seq<Seq<char>>)
    ensures
        cypher_predicate(e, names) matches Some(p) ==> says_in_cypher(e, names, p),
        (exists|p: Seq<char>| says_in_cypher(e, names, p)) ==> cypher_predicate(e, names) is Some,
{
    predicate::law_conditions_say_what_predicates_say(e, Dialect::Cypher);
    if let Some(p) = cypher_predicate(e, names) {
        let c = predicate::subject(e)->0;
        let k = predicate::condition(e, Dialect::Cypher)->0;
        assert(predicate::is_about(e, c));
        assert(p == "n."@ + scope::quoted_label(c) + k);
    }
    if exists|p: Seq<char>| says_in_cypher(e, names, p) {
        let p = choose|p: Seq<char>| says_in_cypher(e, names, p);
        let (c, k) = choose|c: Seq<char>, k: Seq<char>|
            predicate::is_about(e, c) && names.contains(c) && predicate::is_said(
                e,
                Dialect::Cypher,
                k,
            ) && p == #[trigger] ("n."@ + scope::quoted_label(c) + k);
        assert(predicate::subject(e) == Some(c));
        assert(predicate::condition(e, Dialect::Cypher) is Some);
    }
}

/// A scan returns the columns that its projection asks for, in that order, under the name
/// of its table; it fails only where the projection asks for a column that is not there.
pub proof fn law_scans_return_the_projection(
    r: Result<Neo4jExec, ProjectionError>,
    schema: Seq<columns::FieldModel>,
    idx: Seq<usize>,
    label: Seq<char>,
)
    ensures
        is_scan(r, schema, None, label) ==> (r matches Ok(e) && columns::models(e.projected_schema@)
            == schema && e.label@ == label),
        is_scan(r, schema, Some(idx), label) && (forall|i: int|
            0 <= i < idx.len() ==> (#[trigger] idx[i]) < schema.len()) ==> (r matches Ok(e)
            && e.label@ == label && e.projected_schema.len() == idx.len() && forall|i: int|
            0 <= i < idx.len() ==> (#[trigger] e.projected_schema[i])@ == schema[idx[i] as int]),
        is_scan(r, schema, Some(idx), label) && (exists|i: int|
            0 <= i < idx.len() && (#[trigger] idx[i]) >= schema.len()) ==> r is Err,
{
    columns::law_projections_choose(schema, idx);
    if let Ok(e) = r {
        let ms = columns::models(e.projected_schema@);
        assert(ms.len() == e.projected_schema.len());
        assert forall|i: int| 0 <= i < ms.len() implies (#[trigger] e.projected_schema[i])@
            == ms[i] by {}
        if is_scan(r, schema, Some(idx), label) {
            let fields = columns::projected(schema, Some(idx))->Ok_0;
            assert forall|i: int| 0 <= i < idx.len() implies fields[i] == schema[(
            #[trigger] idx[i]) as int] by {}
        }
    }
}

} // verus!
