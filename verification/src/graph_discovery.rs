//! What a Neo4j graph holds: its node labels, its relationship types, which labels
//! they connect, and the properties of the nodes.
//!
//! Labels and types cannot be guessed, so a model that writes Cypher is handed them.
//! They are discovered by statements that run through `graph_query`, so a tenant's
//! scope applies to them; the scope label itself, which every node carries, is left
//! out. Nothing is assumed of the graph. What was discovered is kept by dataset and
//! scope. Discovery of the properties is best effort.
use vstd::prelude::*;

use crate::batch;
use crate::order;
use crate::order::{comes_before, sort_texts};
use crate::predicate;
use crate::text;
use crate::text::{begins_with, chars_of, replace_char, same_text, skip_start, string_of, substring, to_lower, trimmed, Class};

verus! {

/// The labels that two kinds of nodes carry, and the type of a relationship between
/// them.
#[derive(Debug)]
pub struct OntologyTriple {
    pub subject: Vec<String>,
    pub rel: String,
    pub object: Vec<String>,
}

/// What an [`OntologyTriple`] says.
pub struct TripleModel {
    pub subject: Seq<Seq<char>>,
    pub rel: Seq<char>,
    pub object: Seq<Seq<char>>,
}

impl View for OntologyTriple {
    type V = TripleModel;

    open spec fn view(&self) -> TripleModel {
        TripleModel {
            subject: text::texts(self.subject@),
            rel: self.rel@,
            object: text::texts(self.object@),
        }
    }
}

/// What a list of triples says.
pub open spec fn triple_models(v: Seq<OntologyTriple>) -> Seq<TripleModel> {
    Seq::new(v.len(), |i: int| v[i]@)
}

/// The properties that nodes of a label have.
#[derive(Debug)]
pub struct LabelProperties {
    pub label: String,
    pub properties: Vec<String>,
}

/// What a graph holds.
#[derive(Debug)]
pub struct GraphSchema {
    pub node_labels: Vec<String>,
    pub relationship_types: Vec<String>,
    pub ontology: Vec<OntologyTriple>,
    pub node_properties: Vec<LabelProperties>,
}

impl Default for GraphSchema {
    fn default() -> (r: Self)
        ensures
            r.node_labels.len() == 0,
            r.relationship_types.len() == 0,
            r.ontology.len() == 0,
            r.node_properties.len() == 0,
    {
        GraphSchema {
            node_labels: Vec::new(),
            relationship_types: Vec::new(),
            ontology: Vec::new(),
            node_properties: Vec::new(),
        }
    }
}

/// Whether a dataset's source is Neo4j.
pub fn is_neo4j_from(from: &str) -> (r: bool)
    ensures
        r == text::starts_with(
            text::lower(text::strip_start(from@, Class::White)),
            "neo4j:"@,
        ),
{
    let cs = chars_of(from);
    assert(cs@.subrange(0, cs.len() as int) == from@);
    let a = skip_start(&cs, 0, cs.len(), Class::White);
    let rest = substring(&cs, a, cs.len());
    let low = string_of(&to_lower(&chars_of(rest.as_str())));
    begins_with(low.as_str(), "neo4j:")
}

// ---------------------------------------------------------------------------
// Statements and keys
// ---------------------------------------------------------------------------

/// The scope label that a setting holds; empty where there is none.
pub fn scope_of(value: &Option<String>) -> (r: String)
    ensures
        r@ == match *value {
            Some(s) => text::trim(s@),
            None => seq![],
        },
{
    match value {
        Some(s) => trimmed(s.as_str()),
        None => String::new(),
    }
}

/// The key under which what was discovered is kept.
pub open spec fn key(dataset: Seq<char>, scope: Seq<char>) -> Seq<char> {
    dataset + "\u{0}"@ + scope
}

/// The key under which what was discovered is kept.
pub fn schema_key(dataset: &str, scope: &str) -> (r: String)
    ensures
        r@ == key(dataset@, scope@),
{
    let mut r = dataset.to_owned();
    r.push_str("\u{0}");
    r.push_str(scope);
    r
}

/// What was discovered in one scope is never handed out in another, nor that of one
/// dataset for another, where no name of a dataset holds the null character.
pub proof fn law_schema_key_is_scoped(
    dataset1: Seq<char>,
    scope1: Seq<char>,
    dataset2: Seq<char>,
    scope2: Seq<char>,
)
    requires
        !dataset1.contains('\u{0}') && !dataset2.contains('\u{0}'),
        key(dataset1, scope1) == key(dataset2, scope2),
    ensures
        dataset1 == dataset2,
        scope1 == scope2,
{
    reveal_strlit("\u{0}");
    assert("\u{0}"@ == seq!['\u{0}']);
    text::lemma_split_once(dataset1, dataset2, scope1, scope2, '\u{0}');
}

/// The SQL that runs a statement on a dataset's graph.
pub open spec fn graph_sql(dataset: Seq<char>, cypher: Seq<char>, select: Seq<char>) -> Seq<char> {
    "SELECT "@ + select + " FROM graph_query('"@ + text::replaced(dataset, '\'', "''"@) + "', '"@
        + text::replaced(cypher, '\'', "''"@) + "')"@
}

/// The SQL that runs a statement on a dataset's graph.
pub fn graph_query_sql(dataset: &str, cypher: &str, select: &str) -> (r: String)
    ensures
        r@ == graph_sql(dataset@, cypher@, select@),
{
    let mut r = "SELECT ".to_owned();
    r.push_str(select);
    r.push_str(" FROM graph_query('");
    r.push_str(replace_char(dataset, '\'', "''").as_str());
    r.push_str("', '");
    r.push_str(replace_char(cypher, '\'', "''").as_str());
    r.push_str("')");
    r
}

/// Finds the labels of the nodes, as `v`.
pub const LABELS_CYPHER: &'static str = "MATCH (n) UNWIND labels(n) AS v RETURN DISTINCT v";

/// Finds the types of the relationships, as `v`.
pub const RELATIONSHIPS_CYPHER: &'static str = "MATCH ()-[r]->() RETURN DISTINCT type(r) AS v";

/// Finds which labels the relationships connect, as `s`, `r` and `o`.
pub const ONTOLOGY_CYPHER: &'static str = "MATCH (a)-[r]->(b) RETURN DISTINCT labels(a) AS s, type(r) AS r, labels(b) AS o";

/// Finds the properties of the nodes of each label, as `s` and `o`.
pub const PROPERTIES_CYPHER: &'static str = "MATCH (n) UNWIND labels(n) AS s UNWIND keys(n) AS o RETURN DISTINCT s AS s, o AS o";

// ---------------------------------------------------------------------------
// Labels
// ---------------------------------------------------------------------------

/// The labels but for the scope label; all of them where there is no scope.
pub open spec fn unscoped(labels: Seq<Seq<char>>, scope: Seq<char>) -> Seq<Seq<char>>
    decreases labels.len(),
{
    if scope.len() == 0 || labels.len() == 0 {
        labels
    } else if labels.last() == scope {
        unscoped(labels.drop_last(), scope)
    } else {
        unscoped(labels.drop_last(), scope).push(labels.last())
    }
}

/// Drops the scope label, which every node carries.
pub fn strip_scope(labels: &mut Vec<String>, scope: &str)
    ensures
        text::texts(final(labels)@) == unscoped(text::texts(old(labels)@), scope@),
{
    if scope.is_empty() {
        return ;
    }
    let ghost all = text::texts(labels@);
    let mut kept: Vec<String> = Vec::new();
    let mut i: usize = 0;
    assert(text::texts(kept@) == unscoped(all.take(0), scope@));
    while i < labels.len()
        invariant
            scope@.len() > 0,
            i <= labels.len(),
            all == text::texts(labels@),
            text::texts(kept@) == unscoped(all.take(i as int), scope@),
        decreases labels.len() - i,
    {
        let ghost before = text::texts(kept@);
        assert(all.take(i + 1).drop_last() == all.take(i as int));
        if !same_text(labels[i].as_str(), scope) {
            kept.push(labels[i].clone());
            assert(text::texts(kept@) == before.push(labels[i as int]@));
        }
        i += 1;
    }
    assert(all.take(i as int) == all);
    *labels = kept;
}

/// The scope label is not among the labels that are left, and every other label is.
pub proof fn law_scope_label_is_left_out(labels: Seq<Seq<char>>, scope: Seq<char>)
    ensures
        scope.len() > 0 ==> !unscoped(labels, scope).contains(scope),
        forall|l: Seq<char>|
            l != scope || scope.len() == 0 ==> (#[trigger] unscoped(labels, scope).contains(l)
                <==> labels.contains(l)),
    decreases labels.len(),
{
    if scope.len() > 0 && labels.len() > 0 {
        let front = labels.drop_last();
        let before = unscoped(front, scope);
        let all = unscoped(labels, scope);
        law_scope_label_is_left_out(front, scope);
        if all.contains(scope) {
            let k = choose|k: int| 0 <= k < all.len() && all[k] == scope;
            assert(before[k] == scope);
            assert(before.contains(scope));
        }
        assert forall|l: Seq<char>| l != scope || scope.len() == 0 implies (
        #[trigger] unscoped(labels, scope).contains(l) <==> labels.contains(l)) by {
            if all.contains(l) {
                let k = choose|k: int| 0 <= k < all.len() && all[k] == l;
                if k < before.len() {
                    assert(before[k] == l);
                    assert(before.contains(l));
                    let m = choose|m: int| 0 <= m < front.len() && front[m] == l;
                    assert(labels[m] == l);
                } else {
                    assert(labels[labels.len() - 1] == l);
                }
            }
            if labels.contains(l) {
                let m = choose|m: int| 0 <= m < labels.len() && labels[m] == l;
                if m < front.len() {
                    assert(front[m] == l);
                    assert(front.contains(l));
                    assert(before.contains(l));
                    let k = choose|k: int| 0 <= k < before.len() && before[k] == l;
                    assert(all[k] == l);
                } else {
                    assert(all[before.len() as int] == l);
                }
            }
        }
    }
}

/// The texts that a JSON list of texts holds; nothing for any other text.
pub uninterp spec fn json_texts(raw: Seq<char>) -> Option<Seq<Seq<char>>>;

/// `serde_json::from_str::<Vec<String>>`: the texts of a JSON list of texts, or nothing
/// where the text is none. What a text of JSON holds is left to the name of the result.
#[verifier::external_body]
fn parse_texts(raw: &str) -> (r: Option<Vec<String>>)
    ensures
        match r {
            Some(v) => json_texts(raw@) == Some(text::texts(v@)),
            None => json_texts(raw@) is None,
        },
{
    serde_json::from_str::<Vec<String>>(raw).ok()
}

/// The labels of a node but for the scope label; none where they could not be read.
pub open spec fn readable_labels(parsed: Option<Seq<Seq<char>>>, scope: Seq<char>) -> Seq<
    Seq<char>,
> {
    match parsed {
        Some(labels) => unscoped(labels, scope),
        None => seq![],
    }
}

/// The labels of a node but for the scope label.
pub fn labels_without_scope(parsed: Option<Vec<String>>, scope: &str) -> (r: Vec<String>)
    ensures
        text::texts(r@) == readable_labels(
            match parsed {
                Some(v) => Some(text::texts(v@)),
                None => None,
            },
            scope@,
        ),
{
    match parsed {
        Some(v) => {
            let mut labels = v;
            strip_scope(&mut labels, scope);
            labels
        },
        None => {
            let labels: Vec<String> = Vec::new();
            assert(text::texts(labels@) == Seq::<Seq<char>>::empty());
            labels
        },
    }
}

/// The labels of a node, which come as a JSON list, but for the scope label.
pub fn parse_label_set(raw: &str, scope: &str) -> (r: Vec<String>)
    ensures
        text::texts(r@) == readable_labels(json_texts(raw@), scope@),
{
    labels_without_scope(parse_texts(raw), scope)
}

/// The values that are there, in ascending order, each once.
pub fn distinct_strings(values: &Vec<Option<String>>) -> (r: Vec<String>)
    ensures
        text::texts(r@) == order::sorted(predicate::present(batch::optional_texts(values@))),
{
    let ghost all = batch::optional_texts(values@);
    let mut there: Vec<String> = Vec::new();
    let mut i: usize = 0;
    assert(text::texts(there@) == predicate::present(all.take(0)));
    while i < values.len()
        invariant
            i <= values.len(),
            all == batch::optional_texts(values@),
            text::texts(there@) == predicate::present(all.take(i as int)),
        decreases values.len() - i,
    {
        let ghost before = text::texts(there@);
        assert(all.take(i + 1).drop_last() == all.take(i as int));
        if let Some(s) = &values[i] {
            there.push(s.clone());
            assert(text::texts(there@) == before.push(s@));
        }
        i += 1;
    }
    assert(all.take(i as int) == all);
    sort_texts(&there)
}

// ---------------------------------------------------------------------------
// Triples
// ---------------------------------------------------------------------------

/// `a` comes before `b`: the first text in which they differ comes first, or `a` ends
/// first.
pub open spec fn list_before(a: Seq<Seq<char>>, b: Seq<Seq<char>>) -> bool
    decreases a.len(),
{
    if b.len() == 0 {
        false
    } else if a.len() == 0 {
        true
    } else if a[0] == b[0] {
        list_before(a.skip(1), b.skip(1))
    } else {
        order::before(a[0], b[0])
    }
}

/// Triples are ordered by subject, then by relationship, then by object.
pub open spec fn triple_before(a: TripleModel, b: TripleModel) -> bool {
    if a.subject != b.subject {
        list_before(a.subject, b.subject)
    } else if a.rel != b.rel {
        order::before(a.rel, b.rel)
    } else {
        list_before(a.object, b.object)
    }
}

/// Each triple comes before all that follow it.
pub open spec fn ascending(v: Seq<TripleModel>) -> bool {
    forall|i: int, j: int| 0 <= i < j < v.len() ==> triple_before(#[trigger] v[i], #[trigger] v[j])
}

proof fn lemma_list_total(a: Seq<Seq<char>>, b: Seq<Seq<char>>)
    ensures
        list_before(a, b) || list_before(b, a) || a == b,
        !(list_before(a, b) && list_before(b, a)),
        a == b ==> !list_before(a, b),
    decreases a.len(),
{
    if a.len() > 0 && b.len() > 0 {
        order::lemma_before_total(a[0], b[0]);
        if a[0] == b[0] {
            lemma_list_total(a.skip(1), b.skip(1));
            if a.skip(1) == b.skip(1) {
                assert(a == seq![a[0]] + a.skip(1));
                assert(b == seq![b[0]] + b.skip(1));
            }
        }
    } else if a.len() == 0 && b.len() == 0 {
        assert(a == b);
    }
}

proof fn lemma_list_transitive(a: Seq<Seq<char>>, b: Seq<Seq<char>>, c: Seq<Seq<char>>)
    requires
        list_before(a, b),
        list_before(b, c),
    ensures
        list_before(a, c),
    decreases a.len(),
{
    if a.len() > 0 && b.len() > 0 && c.len() > 0 {
        if a[0] == b[0] && b[0] == c[0] {
            lemma_list_transitive(a.skip(1), b.skip(1), c.skip(1));
        } else if a[0] != b[0] && b[0] != c[0] {
            order::lemma_before_transitive(a[0], b[0], c[0]);
            order::lemma_before_total(a[0], c[0]);
        }
    }
}

/// Of two triples one comes first, or they are the same.
pub proof fn lemma_triple_total(a: TripleModel, b: TripleModel)
    ensures
        triple_before(a, b) || triple_before(b, a) || a == b,
        !(triple_before(a, b) && triple_before(b, a)),
        a == b ==> !triple_before(a, b),
{
    lemma_list_total(a.subject, b.subject);
    lemma_list_total(a.object, b.object);
    order::lemma_before_total(a.rel, b.rel);
}

/// The order of triples is transitive.
pub proof fn lemma_triple_transitive(a: TripleModel, b: TripleModel, c: TripleModel)
    requires
        triple_before(a, b),
        triple_before(b, c),
    ensures
        triple_before(a, c),
{
    lemma_list_total(a.subject, c.subject);
    order::lemma_before_total(a.rel, c.rel);
    lemma_list_total(b.subject, c.subject);
    order::lemma_before_total(b.rel, c.rel);
    lemma_list_total(a.subject, b.subject);
    order::lemma_before_total(a.rel, b.rel);
    if a.subject != b.subject && b.subject != c.subject {
        lemma_list_transitive(a.subject, b.subject, c.subject);
    } else if a.subject == b.subject && b.subject == c.subject {
        if a.rel != b.rel && b.rel != c.rel {
            order::lemma_before_transitive(a.rel, b.rel, c.rel);
        } else if a.rel == b.rel && b.rel == c.rel {
            lemma_list_transitive(a.object, b.object, c.object);
        }
    }
}

/// Which of two lists of texts comes first.
enum Side {
    Left,
    Neither,
    Right,
}

fn earlier_list(a: &Vec<String>, b: &Vec<String>) -> (r: Side)
    ensures
        match r {
            Side::Left => list_before(text::texts(a@), text::texts(b@)),
            Side::Neither => text::texts(a@) == text::texts(b@),
            Side::Right => list_before(text::texts(b@), text::texts(a@)),
        },
{
    let ghost ta = text::texts(a@);
    let ghost tb = text::texts(b@);
    let mut i: usize = 0;
    assert(ta.skip(0) == ta && tb.skip(0) == tb);
    while i < a.len() && i < b.len() && same_text(a[i].as_str(), b[i].as_str())
        invariant
            i <= a.len(),
            i <= b.len(),
            ta == text::texts(a@),
            tb == text::texts(b@),
            forall|k: int| 0 <= k < i ==> ta[k] == tb[k],
            list_before(ta, tb) == list_before(ta.skip(i as int), tb.skip(i as int)),
            list_before(tb, ta) == list_before(tb.skip(i as int), ta.skip(i as int)),
        decreases a.len() - i,
    {
        assert(ta.skip(i as int)[0] == a[i as int]@);
        assert(tb.skip(i as int)[0] == b[i as int]@);
        assert(ta.skip(i as int).skip(1) == ta.skip(i + 1));
        assert(tb.skip(i as int).skip(1) == tb.skip(i + 1));
        i += 1;
    }
    if i < a.len() && i < b.len() {
        assert(ta.skip(i as int)[0] == a[i as int]@);
        assert(tb.skip(i as int)[0] == b[i as int]@);
        proof {
            order::lemma_before_total(a[i as int]@, b[i as int]@);
        }
        if comes_before(a[i].as_str(), b[i].as_str()) {
            Side::Left
        } else {
            Side::Right
        }
    } else if i < b.len() {
        Side::Left
    } else if i < a.len() {
        Side::Right
    } else {
        assert(ta == tb);
        Side::Neither
    }
}

fn earlier(a: &OntologyTriple, b: &OntologyTriple) -> (r: Side)
    ensures
        match r {
            Side::Left => triple_before(a@, b@),
            Side::Neither => a@ == b@,
            Side::Right => triple_before(b@, a@),
        },
{
    proof {
        lemma_list_total(a@.subject, b@.subject);
        order::lemma_before_total(a@.rel, b@.rel);
    }
    match earlier_list(&a.subject, &b.subject) {
        Side::Left => Side::Left,
        Side::Right => Side::Right,
        Side::Neither => {
            if same_text(a.rel.as_str(), b.rel.as_str()) {
                earlier_list(&a.object, &b.object)
            } else if comes_before(a.rel.as_str(), b.rel.as_str()) {
                Side::Left
            } else {
                Side::Right
            }
        },
    }
}

proof fn lemma_inserted(v: Seq<TripleModel>, i: int, t: TripleModel)
    requires
        ascending(v),
        0 <= i <= v.len(),
        forall|k: int| 0 <= k < i ==> triple_before(#[trigger] v[k], t),
        forall|k: int| i <= k < v.len() ==> triple_before(t, #[trigger] v[k]),
    ensures
        ascending(v.insert(i, t)),
        forall|u: TripleModel| #[trigger] v.insert(i, t).contains(u) <==> v.contains(u) || u == t,
{
    let w = v.insert(i, t);
    assert forall|a: int, b: int| 0 <= a < b < w.len() implies triple_before(
        #[trigger] w[a],
        #[trigger] w[b],
    ) by {
        let x = if a < i { a } else { a - 1 };
        let y = if b < i { b } else { b - 1 };
        if a == i {
            assert(w[b] == v[y]);
        } else if b == i {
            assert(w[a] == v[x]);
        } else {
            assert(w[a] == v[x]);
            assert(w[b] == v[y]);
        }
    }
    assert forall|u: TripleModel| #[trigger] w.contains(u) <==> v.contains(u) || u == t by {
        if w.contains(u) {
            let a = choose|a: int| 0 <= a < w.len() && w[a] == u;
            if a != i {
                assert(v[if a < i { a } else { a - 1 }] == u);
            }
        }
        if v.contains(u) {
            let a = choose|a: int| 0 <= a < v.len() && v[a] == u;
            assert(w[if a < i { a } else { a + 1 }] == u);
        }
        if u == t {
            assert(w[i] == u);
        }
    }
}

/// Puts a triple in its place, unless it is there.
fn place(v: &mut Vec<OntologyTriple>, t: OntologyTriple)
    requires
        ascending(triple_models(old(v)@)),
    ensures
        ascending(triple_models(final(v)@)),
        forall|u: TripleModel|
            #[trigger] triple_models(final(v)@).contains(u) <==> triple_models(old(v)@).contains(u)
                || u == t@,
{
    let ghost before = triple_models(v@);
    let mut i: usize = v.len();
    while i > 0
        invariant
            i <= v.len(),
            before == triple_models(v@),
            *v == *old(v),
            ascending(before),
            forall|k: int| i <= k < before.len() ==> triple_before(t@, #[trigger] before[k]),
        ensures
            *v == *old(v),
            i <= v.len(),
            before == triple_models(v@),
            forall|k: int| i <= k < before.len() ==> triple_before(t@, #[trigger] before[k]),
            i > 0 ==> triple_before(before[i - 1], t@),
        decreases i,
    {
        match earlier(&t, &v[i - 1]) {
            Side::Left => {
                assert(before[i - 1] == v[i - 1]@);
                i -= 1;
            },
            Side::Neither => {
                assert(before[i - 1] == t@);
                assert(before.contains(t@));
                return ;
            },
            Side::Right => {
                assert(before[i - 1] == v[i - 1]@);
                break ;
            },
        }
    }
    proof {
        assert forall|k: int| 0 <= k < i implies triple_before(#[trigger] before[k], t@) by {
            if k < i - 1 {
                lemma_triple_transitive(before[k], before[i - 1], t@);
            }
        }
        lemma_inserted(before, i as int, t@);
    }
    let ghost model = t@;
    v.insert(i, t);
    assert(triple_models(v@) == before.insert(i as int, model));
}

/// A row of the statement that finds triples: two lists of labels as JSON, and a type
/// between them.
#[derive(Debug)]
pub struct TripleRow {
    pub s: Option<String>,
    pub r: Option<String>,
    pub o: Option<String>,
}

/// The triple of a row; nothing where a value is missing.
pub open spec fn triple_of(row: TripleRow, scope: Seq<char>) -> Option<TripleModel> {
    match (row.s, row.r, row.o) {
        (Some(s), Some(r), Some(o)) => Some(
            TripleModel {
                subject: readable_labels(json_texts(s@), scope),
                rel: r@,
                object: readable_labels(json_texts(o@), scope),
            },
        ),
        _ => None,
    }
}

/// Some row holds a triple.
pub open spec fn found_in(rows: Seq<TripleRow>, scope: Seq<char>, t: TripleModel) -> bool {
    exists|i: int| 0 <= i < rows.len() && triple_of(#[trigger] rows[i], scope) == Some(t)
}

/// The triples of rows, in ascending order, each once.
pub fn triples(rows: &Vec<TripleRow>, scope: &str) -> (r: Vec<OntologyTriple>)
    ensures
        ascending(triple_models(r@)),
        forall|t: TripleModel|
            #[trigger] triple_models(r@).contains(t) <==> found_in(rows@, scope@, t),
{
    let mut r: Vec<OntologyTriple> = Vec::new();
    let mut i: usize = 0;
    while i < rows.len()
        invariant
            i <= rows.len(),
            ascending(triple_models(r@)),
            forall|t: TripleModel|
                #[trigger] triple_models(r@).contains(t) <==> found_in(
                    rows@.take(i as int),
                    scope@,
                    t,
                ),
        decreases rows.len() - i,
    {
        let ghost before = triple_models(r@);
        let ghost seen = rows@.take(i as int);
        let ghost more = rows@.take(i + 1);
        let ghost this = triple_of(rows[i as int], scope@);
        if let (Some(s), Some(rel), Some(o)) = (&rows[i].s, &rows[i].r, &rows[i].o) {
            let t = OntologyTriple {
                subject: parse_label_set(s.as_str(), scope),
                rel: rel.clone(),
                object: parse_label_set(o.as_str(), scope),
            };
            assert(this == Some(t@));
            place(&mut r, t);
        }
        proof {
            assert forall|t: TripleModel| #[trigger] triple_models(r@).contains(t) <==> found_in(
                more,
                scope@,
                t,
            ) by {
                if found_in(more, scope@, t) {
                    let k = choose|k: int|
                        0 <= k < more.len() && triple_of(#[trigger] more[k], scope@) == Some(t);
                    if k < i {
                        assert(triple_of(seen[k], scope@) == Some(t));
                    }
                }
                if found_in(seen, scope@, t) {
                    let k = choose|k: int|
                        0 <= k < seen.len() && triple_of(#[trigger] seen[k], scope@) == Some(t);
                    assert(triple_of(more[k], scope@) == Some(t));
                }
                if this == Some(t) {
                    assert(triple_of(more[i as int], scope@) == Some(t));
                }
                assert(before.contains(t) <==> found_in(seen, scope@, t));
            }
        }
        i += 1;
    }
    assert(rows@.take(i as int) == rows@);
    r
}

/// An ascending list of triples is known by the triples it holds, so what is
/// discovered depends on no order in which rows come.
pub proof fn law_ontology_ignores_row_order(a: Seq<TripleModel>, b: Seq<TripleModel>)
    requires
        ascending(a),
        ascending(b),
        forall|t: TripleModel| #[trigger] a.contains(t) <==> b.contains(t),
    ensures
        a == b,
    decreases a.len() + b.len(),
{
    if a.len() == 0 {
        if b.len() > 0 {
            assert(b.contains(b[0]));
            assert(a.contains(b[0]));
        }
        assert(a == b);
    } else if b.len() == 0 {
        assert(a.contains(a[0]));
        assert(b.contains(a[0]));
    } else {
        let x = a.last();
        let y = b.last();
        assert(a.contains(x));
        assert(b.contains(y));
        assert(b.contains(x));
        assert(a.contains(y));
        let i = choose|i: int| 0 <= i < b.len() && b[i] == x;
        let j = choose|j: int| 0 <= j < a.len() && a[j] == y;
        lemma_triple_total(x, y);
        if x != y {
            assert(i < b.len() - 1);
            assert(triple_before(b[i], b[b.len() - 1]));
            assert(j < a.len() - 1);
            assert(triple_before(a[j], a[a.len() - 1]));
            assert(false);
        }
        let fa = a.drop_last();
        let fb = b.drop_last();
        assert forall|t: TripleModel| #[trigger] fa.contains(t) <==> fb.contains(t) by {
            if fa.contains(t) {
                let k = choose|k: int| 0 <= k < fa.len() && fa[k] == t;
                assert(a[k] == t);
                assert(a.contains(t));
                assert(b.contains(t));
                let m = choose|m: int| 0 <= m < b.len() && b[m] == t;
                assert(triple_before(a[k], a[a.len() - 1]));
                lemma_triple_total(t, x);
                assert(m < b.len() - 1);
                assert(fb[m] == t);
            }
            if fb.contains(t) {
                let k = choose|k: int| 0 <= k < fb.len() && fb[k] == t;
                assert(b[k] == t);
                assert(b.contains(t));
                assert(a.contains(t));
                let m = choose|m: int| 0 <= m < a.len() && a[m] == t;
                assert(triple_before(b[k], b[b.len() - 1]));
                lemma_triple_total(t, x);
                assert(m < a.len() - 1);
                assert(fa[m] == t);
            }
        }
        assert forall|p: int, q: int| 0 <= p < q < fa.len() implies triple_before(
            #[trigger] fa[p],
            #[trigger] fa[q],
        ) by {
            assert(triple_before(a[p], a[q]));
        }
        assert forall|p: int, q: int| 0 <= p < q < fb.len() implies triple_before(
            #[trigger] fb[p],
            #[trigger] fb[q],
        ) by {
            assert(triple_before(b[p], b[q]));
        }
        law_ontology_ignores_row_order(fa, fb);
        assert(a == fa.push(x));
        assert(b == fb.push(y));
    }
}

// ---------------------------------------------------------------------------
// Properties
// ---------------------------------------------------------------------------

/// A row of the statement that finds properties: a label, and a property of a node
/// that carries it.
#[derive(Debug)]
pub struct PropertyRow {
    pub s: Option<String>,
    pub o: Option<String>,
}

/// A label, and a property of a node that carries it.
pub struct Sighting {
    pub label: Seq<char>,
    pub property: Seq<char>,
}

/// What a row reports; nothing where a value is missing, and nothing of the scope
/// label.
pub open spec fn sighting(row: PropertyRow, scope: Seq<char>) -> Option<Sighting> {
    match (row.s, row.o) {
        (Some(s), Some(o)) => if scope.len() > 0 && s@ == scope {
            None
        } else {
            Some(Sighting { label: s@, property: o@ })
        },
        _ => None,
    }
}

/// The labels that rows report, in order.
pub open spec fn reported_labels(rows: Seq<PropertyRow>, scope: Seq<char>) -> Seq<Seq<char>>
    decreases rows.len(),
{
    if rows.len() == 0 {
        seq![]
    } else {
        match sighting(rows.last(), scope) {
            Some(p) => reported_labels(rows.drop_last(), scope).push(p.label),
            None => reported_labels(rows.drop_last(), scope),
        }
    }
}

/// The properties that rows report of a label, in order.
pub open spec fn reported_properties(
    rows: Seq<PropertyRow>,
    scope: Seq<char>,
    label: Seq<char>,
) -> Seq<Seq<char>>
    decreases rows.len(),
{
    if rows.len() == 0 {
        seq![]
    } else {
        match sighting(rows.last(), scope) {
            Some(p) => if p.label == label {
                reported_properties(rows.drop_last(), scope, label).push(p.property)
            } else {
                reported_properties(rows.drop_last(), scope, label)
            },
            None => reported_properties(rows.drop_last(), scope, label),
        }
    }
}

fn reports(row: &PropertyRow, scope: &str) -> (r: bool)
    ensures
        r == (sighting(*row, scope@) is Some),
{
    match (&row.s, &row.o) {
        (Some(s), Some(_)) => scope.is_empty() || !same_text(s.as_str(), scope),
        _ => false,
    }
}

fn labels_reported(rows: &Vec<PropertyRow>, scope: &str) -> (r: Vec<String>)
    ensures
        text::texts(r@) == reported_labels(rows@, scope@),
{
    let mut r: Vec<String> = Vec::new();
    let mut i: usize = 0;
    assert(text::texts(r@) == reported_labels(rows@.take(0), scope@));
    while i < rows.len()
        invariant
            i <= rows.len(),
            text::texts(r@) == reported_labels(rows@.take(i as int), scope@),
        decreases rows.len() - i,
    {
        let ghost before = text::texts(r@);
        assert(rows@.take(i + 1).drop_last() == rows@.take(i as int));
        if reports(&rows[i], scope) {
            if let Some(s) = &rows[i].s {
                r.push(s.clone());
                assert(text::texts(r@) == before.push(s@));
            }
        }
        i += 1;
    }
    assert(rows@.take(i as int) == rows@);
    r
}

fn properties_reported(rows: &Vec<PropertyRow>, scope: &str, label: &str) -> (r: Vec<String>)
    ensures
        text::texts(r@) == reported_properties(rows@, scope@, label@),
{
    let mut r: Vec<String> = Vec::new();
    let mut i: usize = 0;
    assert(text::texts(r@) == reported_properties(rows@.take(0), scope@, label@));
    while i < rows.len()
        invariant
            i <= rows.len(),
            text::texts(r@) == reported_properties(rows@.take(i as int), scope@, label@),
        decreases rows.len() - i,
    {
        let ghost before = text::texts(r@);
        assert(rows@.take(i + 1).drop_last() == rows@.take(i as int));
        if reports(&rows[i], scope) {
            if let (Some(s), Some(o)) = (&rows[i].s, &rows[i].o) {
                if same_text(s.as_str(), label) {
                    r.push(o.clone());
                    assert(text::texts(r@) == before.push(o@));
                }
            }
        }
        i += 1;
    }
    assert(rows@.take(i as int) == rows@);
    r
}

/// The labels that rows report, in ascending order, each once, with their properties
/// in ascending order, each once.
pub open spec fn are_label_properties(
    v: Seq<LabelProperties>,
    rows: Seq<PropertyRow>,
    scope: Seq<char>,
) -> bool {
    let labels = order::sorted(reported_labels(rows, scope));
    v.len() == labels.len() && forall|i: int|
        0 <= i < v.len() ==> (#[trigger] v[i]).label@ == labels[i] && text::texts(v[i].properties@)
            == order::sorted(reported_properties(rows, scope, labels[i]))
}

/// The properties of the nodes of each label.
pub fn label_properties(rows: &Vec<PropertyRow>, scope: &str) -> (r: Vec<LabelProperties>)
    ensures
        are_label_properties(r@, rows@, scope@),
{
    let labels = sort_texts(&labels_reported(rows, scope));
    let ghost all = text::texts(labels@);
    let mut r: Vec<LabelProperties> = Vec::new();
    let mut i: usize = 0;
    while i < labels.len()
        invariant
            i <= labels.len(),
            all == text::texts(labels@),
            all == order::sorted(reported_labels(rows@, scope@)),
            r.len() == i,
            forall|k: int|
                0 <= k < i ==> (#[trigger] r[k]).label@ == all[k] && text::texts(r[k].properties@)
                    == order::sorted(reported_properties(rows@, scope@, all[k])),
        decreases labels.len() - i,
    {
        let label = labels[i].clone();
        let properties = sort_texts(&properties_reported(rows, scope, label.as_str()));
        r.push(LabelProperties { label, properties });
        i += 1;
    }
    r
}

// ---------------------------------------------------------------------------
// The schema of a graph
// ---------------------------------------------------------------------------

/// What the statements found, each nothing if it failed.
#[derive(Debug)]
pub struct Discovery {
    pub labels: Option<Vec<Option<String>>>,
    pub relationships: Option<Vec<Option<String>>>,
    pub triples: Option<Vec<TripleRow>>,
    pub properties: Option<Vec<PropertyRow>>,
}

/// The distinct values of a column, in ascending order.
pub open spec fn distinct_values(values: Seq<Option<String>>) -> Seq<Seq<char>> {
    order::sorted(predicate::present(batch::optional_texts(values)))
}

/// What a graph holds, from what the statements found. Fails if labels,
/// relationships or triples were not found; without properties, it names none.
pub fn neo4j_graph_schema(found: &Discovery, scope: &str) -> (r: Result<GraphSchema, &'static str>)
    ensures
        match (found.labels, found.relationships, found.triples, r) {
            (None, _, _, Err(e)) => e@ == "node-label discovery failed"@,
            (Some(_), None, _, Err(e)) => e@ == "relationship-type discovery failed"@,
            (Some(_), Some(_), None, Err(e)) => e@ == "ontology discovery failed"@,
            (Some(labels), Some(types), Some(rows), Ok(g)) => text::texts(g.node_labels@)
                == unscoped(distinct_values(labels@), scope@) && text::texts(g.relationship_types@)
                == distinct_values(types@) && ascending(triple_models(g.ontology@)) && (forall|
                t: TripleModel,
            |
                #[trigger] triple_models(g.ontology@).contains(t) <==> found_in(rows@, scope@, t))
                && match found.properties {
                Some(props) => are_label_properties(g.node_properties@, props@, scope@),
                None => g.node_properties.len() == 0,
            },
            _ => false,
        },
{
    let mut node_labels = match &found.labels {
        Some(v) => distinct_strings(v),
        None => {
            return Err("node-label discovery failed");
        },
    };
    strip_scope(&mut node_labels, scope);
    let relationship_types = match &found.relationships {
        Some(v) => distinct_strings(v),
        None => {
            return Err("relationship-type discovery failed");
        },
    };
    let ontology = match &found.triples {
        Some(rows) => triples(rows, scope),
        None => {
            return Err("ontology discovery failed");
        },
    };
    let node_properties = match &found.properties {
        Some(rows) => label_properties(rows, scope),
        None => Vec::new(),
    };
    Ok(GraphSchema { node_labels, relationship_types, ontology, node_properties })
}

// ---------------------------------------------------------------------------
// What is discovered
// ---------------------------------------------------------------------------

/// The SQL that runs a statement hands it on as it is: the dataset and the statement
/// stand in string literals that read back as them.
pub proof fn law_sql_hands_the_statement_on(
    dataset: Seq<char>,
    cypher: Seq<char>,
    select: Seq<char>,
) -> (args: (Seq<char>, Seq<char>))
    ensures
        graph_sql(dataset, cypher, select) == "SELECT "@ + select + " FROM graph_query('"@ + args.0
            + "', '"@ + args.1 + "')"@,
        text::undoubled(args.0, '\'') == dataset,
        text::undoubled(args.1, '\'') == cypher,
        !dataset.contains('\'') ==> args.0 == dataset,
        !cypher.contains('\'') ==> args.1 == cypher,
{
    reveal_strlit("''");
    assert("''"@ =~= seq!['\'', '\'']);
    text::law_doubled_reads_back(dataset, '\'');
    text::law_doubled_reads_back(cypher, '\'');
    (text::replaced(dataset, '\'', "''"@), text::replaced(cypher, '\'', "''"@))
}

/// A row is a triple where it has all three parts: the labels that its ends have besides
/// the scope, and its relationship as it is.
pub proof fn law_triples_are_read(row: TripleRow, scope: Seq<char>)
    ensures
        triple_of(row, scope) is Some <==> row.s is Some && row.r is Some && row.o is Some,
        triple_of(row, scope) matches Some(t) ==> {
            &&& t.rel == (row.r->0)@
            &&& are_labels(t.subject, json_texts((row.s->0)@), scope)
            &&& are_labels(t.object, json_texts((row.o->0)@), scope)
        },
{
    if row.s is Some {
        lemma_readable(json_texts((row.s->0)@), scope);
    }
    if row.o is Some {
        lemma_readable(json_texts((row.o->0)@), scope);
    }
}

/// `got` is what `parsed` holds besides the scope; nothing where nothing could be read.
pub open spec fn are_labels(
    got: Seq<Seq<char>>,
    parsed: Option<Seq<Seq<char>>>,
    scope: Seq<char>,
) -> bool {
    match parsed {
        Some(all) => (scope.len() == 0 ==> got == all) && (!all.contains(scope) ==> got == all)
            && forall|l: Seq<char>|
            got.contains(l) <==> all.contains(l) && (l != scope || scope.len() == 0),
        None => got.len() == 0,
    }
}

proof fn lemma_readable(parsed: Option<Seq<Seq<char>>>, scope: Seq<char>)
    ensures
        are_labels(readable_labels(parsed, scope), parsed, scope),
{
    if let Some(all) = parsed {
        law_scope_label_is_left_out(all, scope);
        if !all.contains(scope) {
            lemma_without_scope(all, scope);
        }
        let got = readable_labels(parsed, scope);
        assert forall|l: Seq<char>| got.contains(l) <==> all.contains(l) && (l != scope
            || scope.len() == 0) by {
            assert(unscoped(all, scope).contains(l) == got.contains(l));
        }
    }
}

proof fn lemma_without_scope(labels: Seq<Seq<char>>, scope: Seq<char>)
    requires
        !labels.contains(scope),
    ensures
        unscoped(labels, scope) == labels,
    decreases labels.len(),
{
    if labels.len() > 0 && scope.len() > 0 {
        let front = labels.drop_last();
        if front.contains(scope) {
            let k = choose|k: int| 0 <= k < front.len() && front[k] == scope;
            assert(labels[k] == scope);
        }
        lemma_without_scope(front, scope);
        assert(labels[labels.len() - 1] == labels.last());
        assert(front.push(labels.last()) =~= labels);
    }
}

/// A label or a property is reported if and only if a row reports it, under a label that
/// is not the scope.
pub proof fn law_properties_are_those_of_the_rows(
    rows: Seq<PropertyRow>,
    scope: Seq<char>,
    label: Seq<char>,
    property: Seq<char>,
)
    ensures
        reported_labels(rows, scope).contains(label) <==> exists|i: int, p: Seq<char>|
            0 <= i < rows.len() && #[trigger] reports_property(rows[i], scope, label, p),
        reported_properties(rows, scope, label).contains(property) <==> exists|i: int|
            0 <= i < rows.len() && reports_property(#[trigger] rows[i], scope, label, property),
    decreases rows.len(),
{
    if rows.len() > 0 {
        let front = rows.drop_last();
        let n = rows.len() - 1;
        law_properties_are_those_of_the_rows(front, scope, label, property);
        let old = reported_labels(front, scope);
        let all = reported_labels(rows, scope);
        if all.contains(label) {
            let k = choose|k: int| 0 <= k < all.len() && all[k] == label;
            if k < old.len() {
                assert(old[k] == label);
                assert(old.contains(label));
                let (i, p) = choose|i: int, p: Seq<char>|
                    0 <= i < front.len() && #[trigger] reports_property(front[i], scope, label, p);
                assert(reports_property(rows[i], scope, label, p));
            } else {
                let p = sighting(rows[n], scope)->0.property;
                assert(reports_property(rows[n], scope, label, p));
            }
        }
        if exists|i: int, p: Seq<char>|
            0 <= i < rows.len() && #[trigger] reports_property(rows[i], scope, label, p) {
            let (i, p) = choose|i: int, p: Seq<char>|
                0 <= i < rows.len() && #[trigger] reports_property(rows[i], scope, label, p);
            if i < n {
                assert(reports_property(front[i], scope, label, p));
                assert(old.contains(label));
                let k = choose|k: int| 0 <= k < old.len() && old[k] == label;
                assert(all[k] == label);
            } else {
                assert(all[old.len() as int] == label);
            }
        }
        let old_ps = reported_properties(front, scope, label);
        let ps = reported_properties(rows, scope, label);
        if ps.contains(property) {
            let k = choose|k: int| 0 <= k < ps.len() && ps[k] == property;
            if k < old_ps.len() {
                assert(old_ps[k] == property);
                assert(old_ps.contains(property));
                let i = choose|i: int|
                    0 <= i < front.len() && reports_property(
                        #[trigger] front[i],
                        scope,
                        label,
                        property,
                    );
                assert(rows[i] == front[i]);
            } else {
                assert(reports_property(rows[n], scope, label, property));
            }
        }
        if exists|i: int|
            0 <= i < rows.len() && reports_property(#[trigger] rows[i], scope, label, property) {
            let i = choose|i: int|
                0 <= i < rows.len() && reports_property(
                    #[trigger] rows[i],
                    scope,
                    label,
                    property,
                );
            if i < n {
                assert(front[i] == rows[i]);
                assert(old_ps.contains(property));
                let k = choose|k: int| 0 <= k < old_ps.len() && old_ps[k] == property;
                assert(ps[k] == property);
            } else {
                assert(ps[old_ps.len() as int] == property);
            }
        }
    }
}

/// A row says that nodes of a label, which is not the scope, have a property.
pub open spec fn reports_property(
    row: PropertyRow,
    scope: Seq<char>,
    label: Seq<char>,
    property: Seq<char>,
) -> bool {
    &&& row.s matches Some(s) && s@ == label
    &&& row.o matches Some(o) && o@ == property
    &&& scope.len() > 0 ==> label != scope
}

/// The distinct values of a column are its values but the nulls, each once, in ascending
/// order.
pub proof fn law_distinct_values_are_the_values(values: Seq<Option<String>>, v: Seq<char>)
    ensures
        order::ascending(distinct_values(values)),
        distinct_values(values).contains(v) <==> exists|i: int|
            0 <= i < values.len() && ((#[trigger] values[i]) matches Some(s) && s@ == v),
{
    let ts = batch::optional_texts(values);
    let ps = predicate::present(ts);
    order::law_sorted_is_ascending(ps);
    lemma_present(ts, v);
    if distinct_values(values).contains(v) {
        assert(ps.contains(v));
        let i = choose|i: int| 0 <= i < ts.len() && #[trigger] ts[i] == Some(v);
        assert(values[i] matches Some(s) && s@ == v);
    }
    if exists|i: int| 0 <= i < values.len() && ((#[trigger] values[i]) matches Some(s) && s@ == v) {
        let i = choose|i: int|
            0 <= i < values.len() && ((#[trigger] values[i]) matches Some(s) && s@ == v);
        assert(ts[i] == Some(v));
        assert(ps.contains(v));
        assert(order::sorted(ps).contains(v));
    }
}

proof fn lemma_present(parts: Seq<Option<Seq<char>>>, v: Seq<char>)
    ensures
        predicate::present(parts).contains(v) <==> exists|i: int|
            0 <= i < parts.len() && #[trigger] parts[i] == Some(v),
    decreases parts.len(),
{
    if parts.len() > 0 {
        let front = parts.drop_last();
        let n = parts.len() - 1;
        lemma_present(front, v);
        let old = predicate::present(front);
        let all = predicate::present(parts);
        if all.contains(v) {
            let k = choose|k: int| 0 <= k < all.len() && all[k] == v;
            if k < old.len() {
                assert(old[k] == v);
                assert(old.contains(v));
                let i = choose|i: int| 0 <= i < front.len() && #[trigger] front[i] == Some(v);
                assert(parts[i] == Some(v));
            } else {
                assert(parts[n] == Some(v));
            }
        }
        if exists|i: int| 0 <= i < parts.len() && #[trigger] parts[i] == Some(v) {
            let i = choose|i: int| 0 <= i < parts.len() && #[trigger] parts[i] == Some(v);
            if i < n {
                assert(front[i] == Some(v));
                assert(old.contains(v));
                let k = choose|k: int| 0 <= k < old.len() && old[k] == v;
                assert(all[k] == v);
            } else {
                assert(all[old.len() as int] == v);
            }
        }
    }
}

/// Triples are ordered by their subjects, then by their relationships, then by their
/// objects.
pub proof fn law_triples_are_ordered_by_their_parts(a: TripleModel, b: TripleModel)
    ensures
        a.subject != b.subject && list_before(a.subject, b.subject) ==> triple_before(a, b),
        a.subject == b.subject && a.rel != b.rel && order::before(a.rel, b.rel) ==> triple_before(
            a,
            b,
        ),
        a.subject == b.subject && a.rel == b.rel && list_before(a.object, b.object)
            ==> triple_before(a, b),
        a.subject.len() > 0 && b.subject.len() > 0 && order::before(a.subject[0], b.subject[0])
            ==> triple_before(a, b),
{
    if a.subject.len() > 0 && b.subject.len() > 0 && order::before(a.subject[0], b.subject[0]) {
        order::law_order_is_that_of_a_dictionary(
            a.subject[0],
            a.subject[0],
            a.subject[0].len() as int,
        );
    }
}

} // verus!
