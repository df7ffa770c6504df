//! Neo4j over its HTTP transactional Cypher API: where to send a statement, how to
//! read the reply, and how the types of properties and columns are inferred.
//!
//! Neo4j takes Cypher statements at `POST /db/<database>/tx/commit` and answers
//! with rows by column. Failures of the transport and of the server are retried;
//! an error of the statement itself is returned at once.
use vstd::prelude::*;

use crate::endpoint;
use crate::endpoint::server_url;
use crate::json;
use crate::json::{JsonNumber, JsonValue, Row};
use crate::numeral;
use crate::numeral::decimal_text;
use crate::retry::{Retry, TransportError};
use crate::text;
use crate::text::{chars_of, same_text, skip_end, trimmed, trimmed_range, Class};

verus! {

/// How to reach Neo4j.
#[derive(Debug)]
pub struct ConnectionConfig {
    pub host: String,
    pub port: u16,
    pub secure: bool,
    pub database: String,
    /// HTTP Basic credentials. Without a user name there is no authentication.
    pub username: Option<String>,
    pub password: Option<String>,
    pub timeout_ms: u64,
    pub connect_timeout_ms: u64,
    pub max_retries: u32,
    /// Skip the verification of TLS certificates (development only).
    pub tls_skip_verify: bool,
    /// Path of a PEM certificate of an authority to trust.
    pub tls_ca_cert_path: Option<String>,
}

/// A property, or a column of a result, with its Neo4j type (`String`, `Long`,
/// `Double`, `Boolean`).
#[derive(Debug)]
pub struct PropertyField {
    pub name: String,
    pub neo4j_type: String,
}

/// What a [`PropertyField`] says.
pub struct PropertyModel {
    pub name: Seq<char>,
    pub neo4j_type: Seq<char>,
}

impl View for PropertyField {
    type V = PropertyModel;

    open spec fn view(&self) -> PropertyModel {
        PropertyModel { name: self.name@, neo4j_type: self.neo4j_type@ }
    }
}

/// What a list of property fields says.
pub open spec fn property_models(v: Seq<PropertyField>) -> Seq<PropertyModel> {
    Seq::new(v.len(), |i: int| v[i]@)
}

/// Why a query failed.
#[derive(Debug)]
pub enum Neo4jError {
    /// The client could not be built.
    Build { message: String },
    /// The request failed on its way.
    Http { source: TransportError },
    /// The server refused the statement.
    Api { code: String, message: String },
    /// The reply could not be read.
    Decode { message: String },
}

impl Neo4jError {
    /// Whether another try may succeed: only after a failure of the transport that
    /// may pass.
    pub open spec fn retryable(self) -> bool {
        match self {
            Neo4jError::Http { source } => source.transient(),
            _ => false,
        }
    }

    pub fn is_retryable(&self) -> (r: bool)
        ensures
            r == self.retryable(),
    {
        match self {
            Neo4jError::Http { source } => source.is_transient(),
            _ => false,
        }
    }

    /// The error in words.
    pub open spec fn words(self) -> Seq<char> {
        match self {
            Neo4jError::Build { message } => "neo4j client build error: "@ + message@,
            Neo4jError::Http { source } => "neo4j http error: "@ + source.message@,
            Neo4jError::Api { code, message } => "neo4j api error "@ + code@ + ": "@ + message@,
            Neo4jError::Decode { message } => "neo4j decode error: "@ + message@,
        }
    }

    pub fn text(&self) -> (r: String)
        ensures
            r@ == self.words(),
    {
        match self {
            Neo4jError::Build { message } => {
                let mut r = "neo4j client build error: ".to_owned();
                r.push_str(message.as_str());
                r
            },
            Neo4jError::Http { source } => {
                let mut r = "neo4j http error: ".to_owned();
                r.push_str(source.message.as_str());
                r
            },
            Neo4jError::Api { code, message } => {
                let mut r = "neo4j api error ".to_owned();
                r.push_str(code.as_str());
                r.push_str(": ");
                r.push_str(message.as_str());
                r
            },
            Neo4jError::Decode { message } => {
                let mut r = "neo4j decode error: ".to_owned();
                r.push_str(message.as_str());
                r
            },
        }
    }
}

// ---------------------------------------------------------------------------
// Inferred types
// ---------------------------------------------------------------------------

/// A type inferred from values or from Neo4j type names.
#[derive(Clone, Copy, Debug, PartialEq, Eq, Structural)]
pub enum InferredType {
    Bool,
    Int,
    Float,
    Str,
}

impl InferredType {
    /// The type of a value that is not null. Texts, lists and objects are texts.
    pub open spec fn of_value(v: JsonValue) -> InferredType {
        match v {
            JsonValue::Bool(_) => InferredType::Bool,
            JsonValue::Number(JsonNumber::Float(_)) => InferredType::Float,
            JsonValue::Number(_) => InferredType::Int,
            _ => InferredType::Str,
        }
    }

    pub fn from_value(v: &JsonValue) -> (r: Self)
        ensures
            r == InferredType::of_value(*v),
    {
        match v {
            JsonValue::Bool(_) => InferredType::Bool,
            JsonValue::Number(JsonNumber::Float(_)) => InferredType::Float,
            JsonValue::Number(_) => InferredType::Int,
            _ => InferredType::Str,
        }
    }

    /// The type that a Neo4j type name stands for. All but numbers and truth
    /// values are texts.
    pub open spec fn of_name(name: Seq<char>) -> InferredType {
        if name == "Long"@ || name == "Integer"@ {
            InferredType::Int
        } else if name == "Double"@ || name == "Float"@ {
            InferredType::Float
        } else if name == "Boolean"@ {
            InferredType::Bool
        } else {
            InferredType::Str
        }
    }

    pub fn from_neo4j_name(name: &str) -> (r: Self)
        ensures
            r == InferredType::of_name(name@),
    {
        if same_text(name, "Long") || same_text(name, "Integer") {
            InferredType::Int
        } else if same_text(name, "Double") || same_text(name, "Float") {
            InferredType::Float
        } else if same_text(name, "Boolean") {
            InferredType::Bool
        } else {
            InferredType::Str
        }
    }

    /// The narrowest type that holds both.
    pub open spec fn both(self, other: InferredType) -> InferredType {
        if self == other {
            self
        } else if self.is_number() && other.is_number() {
            InferredType::Float
        } else {
            InferredType::Str
        }
    }

    pub open spec fn is_number(self) -> bool {
        self == InferredType::Int || self == InferredType::Float
    }

    pub fn merge(self, other: Self) -> (r: Self)
        ensures
            r == self.both(other),
    {
        match (self, other) {
            (InferredType::Bool, InferredType::Bool) => InferredType::Bool,
            (InferredType::Int, InferredType::Int) => InferredType::Int,
            (InferredType::Float, InferredType::Float) => InferredType::Float,
            (InferredType::Int, InferredType::Float) => InferredType::Float,
            (InferredType::Float, InferredType::Int) => InferredType::Float,
            _ => InferredType::Str,
        }
    }

    /// The Neo4j name of the type.
    pub open spec fn name(self) -> Seq<char> {
        match self {
            InferredType::Bool => "Boolean"@,
            InferredType::Int => "Long"@,
            InferredType::Float => "Double"@,
            InferredType::Str => "String"@,
        }
    }

    pub fn neo4j_name(self) -> (r: &'static str)
        ensures
            r@ == self.name(),
    {
        match self {
            InferredType::Bool => "Boolean",
            InferredType::Int => "Long",
            InferredType::Float => "Double",
            InferredType::Str => "String",
        }
    }
}

/// All of `ts` are `t`.
pub open spec fn all_are(ts: Seq<InferredType>, t: InferredType) -> bool {
    forall|i: int| 0 <= i < ts.len() ==> #[trigger] ts[i] == t
}

/// All of `ts` are numbers.
pub open spec fn all_numbers(ts: Seq<InferredType>) -> bool {
    forall|i: int| 0 <= i < ts.len() ==> (#[trigger] ts[i]).is_number()
}

/// The narrowest type that holds all of `ts`: the one that all of them are, else
/// `Float` for numbers, else `Str`.
pub open spec fn common(ts: Seq<InferredType>) -> Option<InferredType> {
    if ts.len() == 0 {
        None
    } else if all_are(ts, ts[0]) {
        Some(ts[0])
    } else if all_numbers(ts) {
        Some(InferredType::Float)
    } else {
        Some(InferredType::Str)
    }
}

/// One more type widens the common type by that one.
pub proof fn lemma_common_push(ts: Seq<InferredType>, t: InferredType)
    ensures
        common(ts.push(t)) == Some(
            match common(ts) {
                Some(c) => c.both(t),
                None => t,
            },
        ),
{
    let us = ts.push(t);
    if ts.len() > 0 {
        assert(us[0] == ts[0]);
        assert(us[ts.len() as int] == t);
        if all_are(us, us[0]) {
            assert forall|i: int| 0 <= i < ts.len() implies #[trigger] ts[i] == ts[0] by {
                assert(us[i] == us[0]);
            }
        }
        if all_numbers(us) {
            assert forall|i: int| 0 <= i < ts.len() implies (#[trigger] ts[i]).is_number() by {
                assert(us[i].is_number());
            }
        }
        assert forall|i: int| 0 <= i < us.len() implies us[i] == if i < ts.len() {
            ts[i]
        } else {
            t
        } by {}
        if all_are(ts, ts[0]) && t == ts[0] {
            assert(all_are(us, us[0]));
        }
        if all_numbers(ts) && t.is_number() {
            assert(all_numbers(us));
        }
        if all_are(ts, ts[0]) && ts[0].is_number() {
            assert(all_numbers(ts));
        }
    }
}

/// Widening does not depend on the order or the grouping of the types, and a type
/// widened by itself stays.
pub proof fn law_merge_is_a_join(a: InferredType, b: InferredType, c: InferredType)
    ensures
        a.both(b) == b.both(a),
        a.both(b).both(c) == a.both(b.both(c)),
        a.both(a) == a,
{
}

/// The type of a column depends on which types were seen, not on their order nor
/// on how often each was seen.
pub proof fn law_common_type_ignores_order(ts: Seq<InferredType>, us: Seq<InferredType>)
    requires
        forall|t: InferredType| ts.contains(t) <==> us.contains(t),
    ensures
        common(ts) == common(us),
{
    if ts.len() > 0 {
        assert(ts.contains(ts[0]));
    }
    if us.len() > 0 {
        assert(us.contains(us[0]));
    }
    assert forall|i: int| 0 <= i < ts.len() implies us.contains(#[trigger] ts[i]) by {
        assert(ts.contains(ts[i]));
    }
    assert forall|i: int| 0 <= i < us.len() implies ts.contains(#[trigger] us[i]) by {
        assert(us.contains(us[i]));
    }
}

// ---------------------------------------------------------------------------
// Describing a label
// ---------------------------------------------------------------------------

/// The types that the texts among `items` name, in order.
pub open spec fn named_types(items: Seq<JsonValue>) -> Seq<InferredType>
    decreases items.len(),
{
    if items.len() == 0 {
        seq![]
    } else {
        match items.last().string() {
            Some(name) => named_types(items.drop_last()).push(InferredType::of_name(name)),
            None => named_types(items.drop_last()),
        }
    }
}

/// The common type of a list of type names: `Str` where none is named.
pub open spec fn listed_type(v: Option<JsonValue>) -> InferredType {
    match v {
        Some(JsonValue::Array { items, rendering }) => match common(named_types(items@)) {
            Some(t) => t,
            None => InferredType::Str,
        },
        _ => InferredType::Str,
    }
}

/// A property as one row of the introspection reports it.
pub struct Sighting {
    pub name: Seq<char>,
    pub ty: InferredType,
}

/// The property that a row of the introspection reports, if it reports one.
pub open spec fn sighting(row: Map<Seq<char>, JsonValue>) -> Option<Sighting> {
    match json::value(row, "propertyName"@) {
        Some(JsonValue::Text(name)) => Some(
            Sighting { name: name@, ty: listed_type(json::value(row, "propertyTypes"@)) },
        ),
        _ => None,
    }
}

/// The properties that rows of the introspection report, in order.
pub open spec fn sightings(rows: Seq<Row>) -> Seq<Sighting>
    decreases rows.len(),
{
    if rows.len() == 0 {
        seq![]
    } else {
        match sighting(rows.last()@) {
            Some(s) => sightings(rows.drop_last()).push(s),
            None => sightings(rows.drop_last()),
        }
    }
}

/// The names of `ss`, each once, in the order in which they first appear.
pub open spec fn first_seen(ss: Seq<Sighting>) -> Seq<Seq<char>>
    decreases ss.len(),
{
    if ss.len() == 0 {
        seq![]
    } else {
        let front = first_seen(ss.drop_last());
        if front.contains(ss.last().name) {
            front
        } else {
            front.push(ss.last().name)
        }
    }
}

/// The types with which a name is seen, in order.
pub open spec fn seen_types(ss: Seq<Sighting>, name: Seq<char>) -> Seq<InferredType>
    decreases ss.len(),
{
    if ss.len() == 0 {
        seq![]
    } else if ss.last().name == name {
        seen_types(ss.drop_last(), name).push(ss.last().ty)
    } else {
        seen_types(ss.drop_last(), name)
    }
}

/// The Neo4j name of the common type of `ts`: `String` where there is none.
pub open spec fn neo4j_type(ts: Seq<InferredType>) -> Seq<char> {
    match common(ts) {
        Some(t) => t.name(),
        None => "String"@,
    }
}

/// The properties of a label: each name once, in the order in which they first
/// appear, with the common type of all its sightings.
pub open spec fn label_properties(ss: Seq<Sighting>) -> Seq<PropertyModel> {
    let names = first_seen(ss);
    Seq::new(
        names.len(),
        |i: int| PropertyModel { name: names[i], neo4j_type: neo4j_type(seen_types(ss, names[i])) },
    )
}

/// A name stands among the first seen if and only if it was seen, and stands there
/// once.
pub proof fn lemma_first_seen(ss: Seq<Sighting>)
    ensures
        first_seen(ss).no_duplicates(),
        forall|n: Seq<char>|
            first_seen(ss).contains(n) <==> exists|i: int|
                0 <= i < ss.len() && (#[trigger] ss[i]).name == n,
    decreases ss.len(),
{
    if ss.len() > 0 {
        let front = ss.drop_last();
        let names = first_seen(front);
        lemma_first_seen(front);
        assert forall|n: Seq<char>| first_seen(ss).contains(n) <==> exists|i: int|
            0 <= i < ss.len() && (#[trigger] ss[i]).name == n by {
            if first_seen(ss).contains(n) {
                if names.contains(n) {
                    let i = choose|i: int| 0 <= i < front.len() && (#[trigger] front[i]).name == n;
                    assert(ss[i].name == n);
                } else {
                    assert(n == ss.last().name);
                    assert(ss[ss.len() - 1].name == n);
                }
            }
            if exists|i: int| 0 <= i < ss.len() && (#[trigger] ss[i]).name == n {
                let i = choose|i: int| 0 <= i < ss.len() && (#[trigger] ss[i]).name == n;
                if i < front.len() {
                    assert(front[i].name == n);
                    assert(names.contains(n));
                    let k = choose|k: int| 0 <= k < names.len() && names[k] == n;
                    assert(first_seen(ss)[k] == n);
                } else if !names.contains(n) {
                    assert(first_seen(ss)[names.len() as int] == n);
                }
            }
        }
    }
}

/// A label's schema names no property twice, however many combinations of labels
/// report it, and names every property that is reported.
pub proof fn law_label_properties_are_distinct(ss: Seq<Sighting>)
    ensures
        forall|i: int, j: int|
            0 <= i < j < label_properties(ss).len() ==> (#[trigger] label_properties(ss)[i]).name
                != (#[trigger] label_properties(ss)[j]).name,
        forall|k: int|
            0 <= k < ss.len() ==> exists|i: int|
                0 <= i < label_properties(ss).len() && (#[trigger] label_properties(ss)[i]).name
                    == (#[trigger] ss[k]).name,
{
    lemma_first_seen(ss);
    assert forall|k: int| 0 <= k < ss.len() implies exists|i: int|
        0 <= i < label_properties(ss).len() && (#[trigger] label_properties(ss)[i]).name == (
        #[trigger] ss[k]).name by {
        assert(first_seen(ss).contains(ss[k].name));
        let i = choose|i: int| 0 <= i < first_seen(ss).len() && first_seen(ss)[i] == ss[k].name;
        assert(label_properties(ss)[i].name == ss[k].name);
    }
}

/// The common type of a list of type names.
fn type_of_list(v: Option<&JsonValue>) -> (r: InferredType)
    ensures
        r == listed_type(
            match v {
                Some(j) => Some(*j),
                None => None,
            },
        ),
{
    match v {
        Some(JsonValue::Array { items, rendering }) => {
            let mut merged: Option<InferredType> = None;
            let mut i: usize = 0;
            while i < items.len()
                invariant
                    i <= items.len(),
                    merged == common(named_types(items@.take(i as int))),
                decreases items.len() - i,
            {
                assert(items@.take(i + 1).drop_last() == items@.take(i as int));
                if let Some(name) = items[i].as_str() {
                    let t = InferredType::from_neo4j_name(name);
                    proof {
                        lemma_common_push(named_types(items@.take(i as int)), t);
                    }
                    merged = Some(
                        match merged {
                            Some(m) => m.merge(t),
                            None => t,
                        },
                    );
                }
                i += 1;
            }
            assert(items@.take(i as int) == items@);
            match merged {
                Some(t) => t,
                None => InferredType::Str,
            }
        },
        _ => InferredType::Str,
    }
}

/// The names and types that were seen so far.
struct Seen {
    names: Vec<String>,
    types: Vec<InferredType>,
}

impl Seen {
    spec fn holds(self, ss: Seq<Sighting>) -> bool {
        &&& text::texts(self.names@) == first_seen(ss)
        &&& self.types.len() == self.names.len()
        &&& forall|i: int|
            0 <= i < self.names.len() ==> common(seen_types(ss, (#[trigger] self.names[i])@))
                == Some(self.types[i])
    }

    /// Takes in one more sighting.
    fn see(&mut self, name: &str, ty: InferredType, Ghost(ss): Ghost<Seq<Sighting>>)
        requires
            old(self).holds(ss),
        ensures
            final(self).holds(ss.push(Sighting { name: name@, ty })),
    {
        let ghost more = ss.push(Sighting { name: name@, ty });
        let ghost before = text::texts(self.names@);
        assert(more.drop_last() == ss);
        let mut i: usize = 0;
        while i < self.names.len() && !same_text(self.names[i].as_str(), name)
            invariant
                i <= self.names.len(),
                forall|k: int| 0 <= k < i ==> (#[trigger] self.names[k])@ != name@,
            decreases self.names.len() - i,
        {
            i += 1;
        }
        if i < self.names.len() {
            let merged = self.types[i].merge(ty);
            proof {
                lemma_common_push(seen_types(ss, name@), ty);
                assert(before[i as int] == name@);
                assert(first_seen(ss).contains(name@));
            }
            self.types.set(i, merged);
            proof {
                lemma_first_seen(ss);
                assert forall|k: int| 0 <= k < self.names.len() implies common(
                    seen_types(more, (#[trigger] self.names[k])@),
                ) == Some(self.types[k]) by {
                    assert(before[k] == self.names[k]@);
                }
            }
        } else {
            self.names.push(name.to_owned());
            self.types.push(ty);
            proof {
                assert(text::texts(self.names@) == before.push(name@));
                if before.contains(name@) {
                    let k = choose|k: int| 0 <= k < before.len() && before[k] == name@;
                    assert(self.names[k]@ == name@);
                }
                lemma_unseen(ss, name@);
                lemma_common_push(seen_types(ss, name@), ty);
                assert forall|k: int| 0 <= k < self.names.len() implies common(
                    seen_types(more, (#[trigger] self.names[k])@),
                ) == Some(self.types[k]) by {
                    if k < before.len() {
                        assert(before[k] == self.names[k]@);
                    }
                }
            }
        }
    }
}

/// A name that is not among the first seen was seen with no type.
proof fn lemma_unseen(ss: Seq<Sighting>, name: Seq<char>)
    requires
        !first_seen(ss).contains(name),
    ensures
        seen_types(ss, name) == Seq::<InferredType>::empty(),
    decreases ss.len(),
{
    if ss.len() > 0 {
        let front = ss.drop_last();
        if first_seen(front).contains(name) {
            let k = choose|k: int| 0 <= k < first_seen(front).len() && first_seen(front)[k] == name;
            assert(first_seen(ss)[k] == name);
        }
        if ss.last().name == name {
            assert(first_seen(ss)[first_seen(front).len() as int] == name);
        }
        lemma_unseen(front, name);
    }
}

// ---------------------------------------------------------------------------
// Describing a statement
// ---------------------------------------------------------------------------

/// The number of rows from which the columns of a statement are inferred.
pub const SCHEMA_SAMPLE_ROWS: u64 = 200;

/// A statement without the separators and the white space around it.
pub open spec fn bare(cypher: Seq<char>) -> Seq<char> {
    text::trim(text::strip_end(text::trim(cypher), Class::Only(';')))
}

/// A statement without the separators and the white space around it.
pub fn bare_statement(cypher: &str) -> (r: String)
    ensures
        r@ == bare(cypher@),
{
    let outer = trimmed(cypher);
    let cs = chars_of(outer.as_str());
    assert(cs@.subrange(0, cs.len() as int) == outer@);
    let end = skip_end(&cs, 0, cs.len(), Class::Only(';'));
    trimmed_range(&cs, 0, end)
}

/// A statement wrapped so that it returns at most `rows` rows.
pub open spec fn capped(cypher: Seq<char>, rows: nat) -> Seq<char> {
    "CALL { "@ + bare(cypher) + " } RETURN * LIMIT "@ + numeral::decimal(rows)
}

/// A statement wrapped so that it returns at most `rows` rows, with its columns.
pub fn with_limit(cypher: &str, rows: u64) -> (r: String)
    ensures
        r@ == capped(cypher@, rows as nat),
{
    let mut r = "CALL { ".to_owned();
    r.push_str(bare_statement(cypher).as_str());
    r.push_str(" } RETURN * LIMIT ");
    r.push_str(decimal_text(rows).as_str());
    r
}

/// The types of the values that rows hold under a name, nulls left out, in order.
pub open spec fn value_types(rows: Seq<Row>, name: Seq<char>) -> Seq<InferredType>
    decreases rows.len(),
{
    if rows.len() == 0 {
        seq![]
    } else {
        match json::value(rows.last()@, name) {
            None => value_types(rows.drop_last(), name),
            Some(JsonValue::Null) => value_types(rows.drop_last(), name),
            Some(v) => value_types(rows.drop_last(), name).push(InferredType::of_value(v)),
        }
    }
}

/// The columns of a sample, each with the common type of its values.
pub open spec fn sampled_columns(columns: Seq<Seq<char>>, rows: Seq<Row>) -> Seq<PropertyModel> {
    Seq::new(
        columns.len(),
        |i: int|
            PropertyModel { name: columns[i], neo4j_type: neo4j_type(value_types(rows, columns[i])) },
    )
}

/// The common type of the values that rows hold under a name.
fn sampled_type(rows: &Vec<Row>, name: &str) -> (r: Option<InferredType>)
    ensures
        r == common(value_types(rows@, name@)),
{
    let mut merged: Option<InferredType> = None;
    let mut i: usize = 0;
    while i < rows.len()
        invariant
            i <= rows.len(),
            merged == common(value_types(rows@.take(i as int), name@)),
        decreases rows.len() - i,
    {
        assert(rows@.take(i + 1).drop_last() == rows@.take(i as int));
        if let Some(v) = rows[i].get(name) {
            if !v.is_null() {
                let t = InferredType::from_value(v);
                proof {
                    lemma_common_push(value_types(rows@.take(i as int), name@), t);
                }
                merged = Some(
                    match merged {
                        Some(m) => m.merge(t),
                        None => t,
                    },
                );
            }
        }
        i += 1;
    }
    assert(rows@.take(i as int) == rows@);
    merged
}

// ---------------------------------------------------------------------------
// Replies
// ---------------------------------------------------------------------------

/// The reply to a transaction.
#[derive(Debug)]
pub struct TxResponse {
    pub results: Vec<TxResult>,
    pub errors: Vec<TxError>,
}

/// The result of one statement: its columns, and its rows by position.
#[derive(Debug)]
pub struct TxResult {
    pub columns: Vec<String>,
    pub data: Vec<Vec<JsonValue>>,
}

/// An error of the server.
#[derive(Debug)]
pub struct TxError {
    pub code: String,
    pub message: String,
}

/// The first `n` values of a row by the names of their columns. A value beyond
/// the columns, and a column beyond the values, is left out; of two columns of one
/// name the last counts.
pub open spec fn named_values(
    columns: Seq<Seq<char>>,
    values: Seq<JsonValue>,
    n: nat,
) -> Map<Seq<char>, JsonValue>
    decreases n,
{
    if n == 0 {
        Map::empty()
    } else {
        named_values(columns, values, (n - 1) as nat).insert(columns[n - 1], values[n - 1])
    }
}

/// A row by the names of its columns.
pub open spec fn named_row(columns: Seq<Seq<char>>, values: Seq<JsonValue>) -> Map<
    Seq<char>,
    JsonValue,
> {
    named_values(
        columns,
        values,
        if columns.len() <= values.len() {
            columns.len()
        } else {
            values.len()
        },
    )
}

/// A row by the names of its columns.
fn name_values(columns: &Vec<String>, values: Vec<JsonValue>) -> (r: Row)
    ensures
        r@ == named_row(text::texts(columns@), values@),
{
    let mut row = Row::new();
    let mut i: usize = 0;
    let ghost all = values@;
    let ghost names = text::texts(columns@);
    let n: usize = if columns.len() <= values.len() {
        columns.len()
    } else {
        values.len()
    };
    for v in it: values
        invariant
            it.seq() == all,
            i == if it.index() <= n {
                it.index() as int
            } else {
                n as int
            },
            n <= columns.len(),
            n <= all.len(),
            names == text::texts(columns@),
            row@ == named_values(names, all, i as nat),
    {
        if i < n {
            row.insert(columns[i].clone(), v);
            i += 1;
        }
    }
    row
}

// ---------------------------------------------------------------------------
// The connection
// ---------------------------------------------------------------------------

/// Where and as whom statements are sent.
#[derive(Debug)]
pub struct Neo4jConnection {
    pub base_url: String,
    pub database: String,
    /// User name and password.
    pub auth: Option<(String, String)>,
    pub max_retries: u32,
}

/// The credentials to send: those of the user, with an empty password where none
/// is given; none without a user.
pub open spec fn credentials(
    username: Option<Seq<char>>,
    password: Option<Seq<char>>,
) -> Option<(Seq<char>, Seq<char>)> {
    match (username, password) {
        (Some(u), Some(p)) => Some((u, p)),
        (Some(u), None) => Some((u, seq![])),
        _ => None,
    }
}

impl Neo4jConnection {
    /// The user name and the password.
    pub open spec fn login(self) -> Option<(Seq<char>, Seq<char>)> {
        match self.auth {
            Some((u, p)) => Some((u@, p@)),
            None => None,
        }
    }

    pub fn new(cfg: &ConnectionConfig) -> (r: Self)
        ensures
            r.base_url@ == endpoint::url(cfg.secure, cfg.host@, cfg.port),
            r.database@ == cfg.database@,
            r.login() == credentials(text::text_of(cfg.username), text::text_of(cfg.password)),
            r.max_retries == cfg.max_retries,
    {
        let auth = match (&cfg.username, &cfg.password) {
            (Some(u), Some(p)) => Some((u.clone(), p.clone())),
            (Some(u), None) => Some((u.clone(), String::new())),
            _ => None,
        };
        Neo4jConnection {
            base_url: server_url(cfg.secure, cfg.host.as_str(), cfg.port),
            database: cfg.database.clone(),
            auth,
            max_retries: cfg.max_retries,
        }
    }

    /// Where a transaction of one statement is sent.
    pub fn commit_url(&self) -> (r: String)
        ensures
            r@ == self.base_url@ + "/db/"@ + self.database@ + "/tx/commit"@,
    {
        let mut r = self.base_url.clone();
        r.push_str("/db/");
        r.push_str(self.database.as_str());
        r.push_str("/tx/commit");
        r
    }

    /// The tries of one query, before the first.
    pub fn tries(&self) -> (r: Retry)
        ensures
            r == (Retry { attempt: 0, max_retries: self.max_retries }),
    {
        Retry::new(self.max_retries)
    }

    /// The introspection of the label that the parameter `label` names.
    pub fn label_query() -> (r: &'static str)
        ensures
            r@
                == "CALL db.schema.nodeTypeProperties() YIELD nodeLabels, propertyName, propertyTypes WHERE $label IN nodeLabels RETURN propertyName, propertyTypes"@,
    {
        "CALL db.schema.nodeTypeProperties() YIELD nodeLabels, propertyName, propertyTypes WHERE $label IN nodeLabels RETURN propertyName, propertyTypes"
    }

    /// The properties of a label, from the rows of its introspection.
    pub fn describe_label(rows: &Vec<Row>) -> (r: Vec<PropertyField>)
        ensures
            property_models(r@) == label_properties(sightings(rows@)),
    {
        let mut seen = Seen { names: Vec::new(), types: Vec::new() };
        let mut i: usize = 0;
        assert(text::texts(seen.names@) == first_seen(sightings(rows@.take(0))));
        while i < rows.len()
            invariant
                i <= rows.len(),
                seen.holds(sightings(rows@.take(i as int))),
            decreases rows.len() - i,
        {
            assert(rows@.take(i + 1).drop_last() == rows@.take(i as int));
            if let Some(v) = rows[i].get("propertyName") {
                if let Some(name) = v.as_str() {
                    let ty = type_of_list(rows[i].get("propertyTypes"));
                    seen.see(name, ty, Ghost(sightings(rows@.take(i as int))));
                }
            }
            i += 1;
        }
        assert(rows@.take(i as int) == rows@);
        let ghost ss = sightings(rows@);
        let mut r: Vec<PropertyField> = Vec::new();
        let mut k: usize = 0;
        while k < seen.names.len()
            invariant
                k <= seen.names.len(),
                seen.holds(ss),
                property_models(r@) == label_properties(ss).take(k as int),
            decreases seen.names.len() - k,
        {
            let ghost before = property_models(r@);
            assert(text::texts(seen.names@)[k as int] == seen.names[k as int]@);
            assert(common(seen_types(ss, seen.names[k as int]@)) == Some(seen.types[k as int]));
            let p = PropertyField {
                name: seen.names[k].clone(),
                neo4j_type: seen.types[k].neo4j_name().to_owned(),
            };
            assert(p@ == label_properties(ss)[k as int]);
            r.push(p);
            assert(property_models(r@) == before.push(p@));
            k += 1;
        }
        assert(label_properties(ss).take(k as int) == label_properties(ss));
        r
    }

    /// The statement that samples the columns of a statement.
    pub fn cypher_probe(cypher: &str) -> (r: String)
        ensures
            r@ == capped(cypher@, SCHEMA_SAMPLE_ROWS as nat),
    {
        with_limit(cypher, SCHEMA_SAMPLE_ROWS)
    }

    /// The columns of a statement, from a sample of its rows.
    pub fn describe_cypher(columns: &Vec<String>, rows: &Vec<Row>) -> (r: Vec<PropertyField>)
        ensures
            property_models(r@) == sampled_columns(text::texts(columns@), rows@),
    {
        let ghost all = sampled_columns(text::texts(columns@), rows@);
        let mut r: Vec<PropertyField> = Vec::new();
        let mut i: usize = 0;
        while i < columns.len()
            invariant
                i <= columns.len(),
                all == sampled_columns(text::texts(columns@), rows@),
                property_models(r@) == all.take(i as int),
            decreases columns.len() - i,
        {
            let ghost before = property_models(r@);
            let neo4j_type = match sampled_type(rows, columns[i].as_str()) {
                Some(t) => t.neo4j_name(),
                None => "String",
            };
            let p = PropertyField { name: columns[i].clone(), neo4j_type: neo4j_type.to_owned() };
            assert(p@ == all[i as int]);
            r.push(p);
            assert(property_models(r@) == before.push(p@));
            i += 1;
        }
        assert(all.take(i as int) == all);
        r
    }

    /// The columns and the rows of a reply: its first error, if it holds one; no
    /// rows, if it holds no result; else the first result with each row by the
    /// names of the columns.
    pub fn read_reply(reply: TxResponse) -> (r: Result<(Vec<String>, Vec<Row>), Neo4jError>)
        ensures
            match r {
                Err(e) => reply.errors.len() > 0 && (e matches Neo4jError::Api { code, message }
                    && code == reply.errors[0].code && message == reply.errors[0].message),
                Ok((columns, rows)) => reply.errors.len() == 0 && if reply.results.len() == 0 {
                    columns.len() == 0 && rows.len() == 0
                } else {
                    let result = reply.results[0];
                    columns == result.columns && rows.len() == result.data.len() && forall|i: int|
                        0 <= i < rows.len() ==> (#[trigger] rows[i])@ == named_row(
                            text::texts(result.columns@),
                            result.data[i]@,
                        )
                },
            },
    {
        let mut errors = reply.errors;
        let mut results = reply.results;
        if errors.len() > 0 {
            let first = errors.swap_remove(0);
            return Err(Neo4jError::Api { code: first.code, message: first.message });
        }
        if results.len() == 0 {
            return Ok((Vec::new(), Vec::new()));
        }
        let result = results.swap_remove(0);
        let columns = result.columns;
        let data = result.data;
        let ghost all = data@;
        let mut rows: Vec<Row> = Vec::new();
        for values in it: data
            invariant
                it.seq() == all,
                rows.len() == it.index(),
                forall|i: int|
                    0 <= i < rows.len() ==> (#[trigger] rows[i])@ == named_row(
                        text::texts(columns@),
                        all[i]@,
                    ),
        {
            rows.push(name_values(&columns, values));
        }
        Ok((columns, rows))
    }
}

// ---------------------------------------------------------------------------
// What is inferred and read
// ---------------------------------------------------------------------------

/// The types of JSON values and of names: whole numbers are `Long`, other numbers are
/// `Double`, truth values are `Boolean`, all else is `String`.
pub proof fn law_types_are_named(v: JsonValue, name: Seq<char>)
    ensures
        v matches JsonValue::Bool(_) ==> InferredType::of_value(v).name() == "Boolean"@,
        v matches JsonValue::Number(n) ==> InferredType::of_value(v).name() == if n is Float {
            "Double"@
        } else {
            "Long"@
        },
        !(v is Bool) && !(v is Number) ==> InferredType::of_value(v).name() == "String"@,
        name == "Long"@ || name == "Integer"@ ==> InferredType::of_name(name).name() == "Long"@,
        name == "Double"@ || name == "Float"@ ==> InferredType::of_name(name).name() == "Double"@,
        name == "Boolean"@ ==> InferredType::of_name(name).name() == "Boolean"@,
        name != "Long"@ && name != "Integer"@ && name != "Double"@ && name != "Float"@ && name
            != "Boolean"@ ==> InferredType::of_name(name).name() == "String"@,
{
    reveal_strlit("Long");
    reveal_strlit("Integer");
    reveal_strlit("Double");
    reveal_strlit("Float");
    reveal_strlit("Boolean");
    assert("Integer"@[0] == 'I' && "Boolean"@[0] == 'B');
}

/// The common type of several is theirs if they agree, `Double` if they are whole and
/// other numbers, and else `String`, which is that of none too.
pub proof fn law_common_type(ts: Seq<InferredType>, t: InferredType)
    ensures
        ts.len() == 0 ==> neo4j_type(ts) == "String"@,
        ts.len() > 0 && (forall|i: int| 0 <= i < ts.len() ==> #[trigger] ts[i] == t) ==> neo4j_type(
            ts,
        ) == t.name(),
        ts.contains(InferredType::Int) && ts.contains(InferredType::Float) && (forall|i: int|
            0 <= i < ts.len() ==> (#[trigger] ts[i]) is Int || ts[i] is Float) ==> neo4j_type(ts)
            == "Double"@,
        ts.contains(InferredType::Str) ==> neo4j_type(ts) == "String"@,
        ts.contains(InferredType::Bool) && ts.contains(t) && !(t is Bool) ==> neo4j_type(ts)
            == "String"@,
{
    if ts.len() > 0 {
        if all_are(ts, ts[0]) && ts.contains(t) {
            let k = choose|k: int| 0 <= k < ts.len() && ts[k] == t;
            assert(ts[k] == ts[0]);
        }
        if ts.contains(InferredType::Str) {
            let k = choose|k: int| 0 <= k < ts.len() && ts[k] == InferredType::Str;
            if all_numbers(ts) {
                assert(ts[k].is_number());
            }
            if all_are(ts, ts[0]) {
                assert(ts[k] == ts[0]);
            }
        }
        if ts.contains(InferredType::Bool) {
            let k = choose|k: int| 0 <= k < ts.len() && ts[k] == InferredType::Bool;
            if all_numbers(ts) {
                assert(ts[k].is_number());
            }
            if all_are(ts, ts[0]) {
                assert(ts[k] == ts[0]);
            }
        }
        if ts.contains(InferredType::Int) && ts.contains(InferredType::Float) {
            let k = choose|k: int| 0 <= k < ts.len() && ts[k] == InferredType::Int;
            let l = choose|l: int| 0 <= l < ts.len() && ts[l] == InferredType::Float;
            if all_are(ts, ts[0]) {
                assert(ts[k] == ts[0] && ts[l] == ts[0]);
            }
            if forall|i: int| 0 <= i < ts.len() ==> (#[trigger] ts[i]) is Int || ts[i] is Float {
                assert forall|i: int| 0 <= i < ts.len() implies (
                #[trigger] ts[i]).is_number() by {}
            }
        }
    }
}

/// A row holds a value other than null under a name, of a type.
pub open spec fn holds_type(row: Map<Seq<char>, JsonValue>, name: Seq<char>, t: InferredType) -> bool {
    row.dom().contains(name) && !(row[name] is Null) && InferredType::of_value(row[name]) == t
}

/// The type of a column is inferred from the values of all its rows but the nulls.
pub proof fn law_sampled_types_are_those_of_the_values(rows: Seq<Row>, name: Seq<char>)
    ensures
        forall|t: InferredType|
            value_types(rows, name).contains(t) <==> exists|i: int|
                0 <= i < rows.len() && holds_type((#[trigger] rows[i])@, name, t),
    decreases rows.len(),
{
    if rows.len() > 0 {
        let front = rows.drop_last();
        let n = rows.len() - 1;
        law_sampled_types_are_those_of_the_values(front, name);
        let old = value_types(front, name);
        let all = value_types(rows, name);
        assert forall|t: InferredType| all.contains(t) <==> exists|i: int|
            0 <= i < rows.len() && holds_type((#[trigger] rows[i])@, name, t) by {
            if all.contains(t) {
                let k = choose|k: int| 0 <= k < all.len() && all[k] == t;
                if k < old.len() {
                    assert(old[k] == t);
                    assert(old.contains(t));
                    let i = choose|i: int|
                        0 <= i < front.len() && holds_type((#[trigger] front[i])@, name, t);
                    assert(rows[i] == front[i]);
                } else {
                    assert(holds_type(rows[n]@, name, t));
                }
            }
            if exists|i: int| 0 <= i < rows.len() && holds_type((#[trigger] rows[i])@, name, t) {
                let i = choose|i: int|
                    0 <= i < rows.len() && holds_type((#[trigger] rows[i])@, name, t);
                if i < n {
                    assert(front[i] == rows[i]);
                    assert(old.contains(t));
                    let k = choose|k: int| 0 <= k < old.len() && old[k] == t;
                    assert(all[k] == t);
                } else {
                    assert(all[old.len() as int] == t);
                }
            }
        }
    }
}

/// A described statement has its columns, in their order.
pub proof fn law_described_columns_are_the_columns(columns: Seq<Seq<char>>, rows: Seq<Row>, i: int)
    requires
        0 <= i < columns.len(),
    ensures
        sampled_columns(columns, rows).len() == columns.len(),
        sampled_columns(columns, rows)[i].name == columns[i],
        sampled_columns(columns, rows)[i].neo4j_type == neo4j_type(value_types(rows, columns[i])),
{
}

/// A sighting is of a type among those that were seen under its name, and no others are.
pub proof fn law_seen_types_are_those_of_the_name(ss: Seq<Sighting>, name: Seq<char>)
    ensures
        forall|t: InferredType|
            seen_types(ss, name).contains(t) <==> exists|i: int|
                0 <= i < ss.len() && (#[trigger] ss[i]).name == name && ss[i].ty == t,
    decreases ss.len(),
{
    if ss.len() > 0 {
        let front = ss.drop_last();
        let n = ss.len() - 1;
        law_seen_types_are_those_of_the_name(front, name);
        let old = seen_types(front, name);
        let all = seen_types(ss, name);
        assert forall|t: InferredType| all.contains(t) <==> exists|i: int|
            0 <= i < ss.len() && (#[trigger] ss[i]).name == name && ss[i].ty == t by {
            if all.contains(t) {
                let k = choose|k: int| 0 <= k < all.len() && all[k] == t;
                if k < old.len() {
                    assert(old[k] == t);
                    assert(old.contains(t));
                    let i = choose|i: int|
                        0 <= i < front.len() && (#[trigger] front[i]).name == name && front[i].ty
                            == t;
                    assert(ss[i] == front[i]);
                } else {
                    assert(ss[n].name == name && ss[n].ty == t);
                }
            }
            if exists|i: int| 0 <= i < ss.len() && (#[trigger] ss[i]).name == name && ss[i].ty
                == t {
                let i = choose|i: int|
                    0 <= i < ss.len() && (#[trigger] ss[i]).name == name && ss[i].ty == t;
                if i < n {
                    assert(front[i] == ss[i]);
                    assert(old.contains(t));
                    let k = choose|k: int| 0 <= k < old.len() && old[k] == t;
                    assert(all[k] == t);
                } else {
                    assert(all[old.len() as int] == t);
                }
            }
        }
    }
}

/// Each property of a label has the common type of all that was seen under its name.
pub proof fn law_label_properties_have_their_types(ss: Seq<Sighting>, k: int)
    requires
        0 <= k < label_properties(ss).len(),
    ensures
        label_properties(ss)[k].neo4j_type == neo4j_type(
            seen_types(ss, label_properties(ss)[k].name),
        ),
        exists|i: int| 0 <= i < ss.len() && (#[trigger] ss[i]).name == label_properties(ss)[k].name,
{
    lemma_names_are_seen(ss);
    assert(first_seen(ss)[k] == label_properties(ss)[k].name);
}

proof fn lemma_names_are_seen(ss: Seq<Sighting>)
    ensures
        forall|k: int|
            0 <= k < first_seen(ss).len() ==> exists|i: int|
                0 <= i < ss.len() && (#[trigger] ss[i]).name == #[trigger] first_seen(ss)[k],
    decreases ss.len(),
{
    if ss.len() > 0 {
        let front = ss.drop_last();
        let old = first_seen(front);
        let all = first_seen(ss);
        lemma_names_are_seen(front);
        assert forall|k: int| 0 <= k < all.len() implies exists|i: int|
            0 <= i < ss.len() && (#[trigger] ss[i]).name == #[trigger] all[k] by {
            if k < old.len() {
                assert(all[k] == old[k]);
                let i = choose|i: int|
                    0 <= i < front.len() && (#[trigger] front[i]).name == old[k];
                assert(ss[i] == front[i]);
            } else {
                assert(ss[ss.len() - 1].name == all[k]);
            }
        }
    }
}

/// A row of an introspection names a property and lists its types; a row without a name
/// is passed over.
pub proof fn law_sightings_are_read(row: Map<Seq<char>, JsonValue>)
    ensures
        sighting(row) is Some <==> row.dom().contains("propertyName"@) && row["propertyName"@]
            is Text,
        sighting(row) matches Some(s) ==> (row["propertyName"@] matches JsonValue::Text(t) && t@
            == s.name),
        sighting(row) matches Some(s) ==> (!row.dom().contains("propertyTypes"@) ==> s.ty
            == InferredType::Str),
{
}

/// A row has the value of each column under its name, the last of a name counting, and
/// nothing else.
pub proof fn law_rows_hold_their_values(columns: Seq<Seq<char>>, values: Seq<JsonValue>, i: int)
    ensures
        ({
            let n = if columns.len() <= values.len() {
                columns.len() as int
            } else {
                values.len() as int
            };
            let row = named_row(columns, values);
            &&& 0 <= i < n ==> row.dom().contains(columns[i])
            &&& 0 <= i < n && (forall|k: int| i < k < n ==> #[trigger] columns[k] != columns[i])
                ==> row[columns[i]] == values[i]
            &&& forall|name: Seq<char>|
                row.dom().contains(name) ==> exists|k: int| 0 <= k < n && #[trigger] columns[k] == name
        }),
{
    let n = if columns.len() <= values.len() {
        columns.len()
    } else {
        values.len()
    };
    lemma_named_values(columns, values, n, i);
}

proof fn lemma_named_values(columns: Seq<Seq<char>>, values: Seq<JsonValue>, n: nat, i: int)
    requires
        n <= columns.len() && n <= values.len(),
    ensures
        ({
            let row = named_values(columns, values, n);
            &&& 0 <= i < n ==> row.dom().contains(columns[i])
            &&& 0 <= i < n && (forall|k: int| i < k < n ==> #[trigger] columns[k] != columns[i])
                ==> row[columns[i]] == values[i]
            &&& forall|name: Seq<char>|
                row.dom().contains(name) ==> exists|k: int| 0 <= k < n && #[trigger] columns[k] == name
        }),
    decreases n,
{
    if n > 0 {
        let m = (n - 1) as nat;
        lemma_named_values(columns, values, m, i);
        let row = named_values(columns, values, n);
        let old = named_values(columns, values, m);
        assert forall|name: Seq<char>| row.dom().contains(name) implies exists|k: int|
            0 <= k < n && #[trigger] columns[k] == name by {
            if old.dom().contains(name) {
                let k = choose|k: int| 0 <= k < m && #[trigger] columns[k] == name;
                assert(columns[k] == name);
            } else {
                assert(columns[n - 1] == name);
            }
        }
        if 0 <= i < m && (forall|k: int| i < k < n ==> #[trigger] columns[k] != columns[i]) {
            assert(columns[n - 1] != columns[i]);
        }
    }
}

/// What is taken from a statement before it runs is white space at its ends and
/// semicolons at its end.
pub proof fn law_bare_statement_is_the_statement(cypher: Seq<char>) -> (cut: (int, int))
    ensures
        0 <= cut.0 <= cut.1 <= cypher.len(),
        bare(cypher) == cypher.subrange(cut.0, cut.1),
        forall|i: int| 0 <= i < cut.0 ==> text::is_white(#[trigger] cypher[i]),
        forall|i: int|
            cut.1 <= i < cypher.len() ==> text::is_white(#[trigger] cypher[i]) || cypher[i] == ';',
        cut.0 < cut.1 ==> !text::is_white(cypher[cut.0]) && !text::is_white(cypher[cut.1 - 1]),
        cypher.len() > 0 && !text::is_white(cypher[0]) && !text::is_white(cypher.last())
            && cypher.last() != ';' ==> bare(cypher) == cypher,
{
    let (a, b) = text::law_trim_takes_white_space_alone(cypher);
    let t = text::trim(cypher);
    let n = text::lemma_strip_end_at(t, Class::Only(';'));
    let u = t.take(n);
    let (c, d) = text::law_trim_takes_white_space_alone(u);
    assert(u.subrange(c, d) =~= cypher.subrange(a + c, a + d));
    assert forall|i: int| 0 <= i < a + c implies text::is_white(#[trigger] cypher[i]) by {
        if i >= a {
            assert(u[i - a] == cypher[i]);
        }
    }
    assert forall|i: int| a + d <= i < cypher.len() implies text::is_white(#[trigger] cypher[i])
        || cypher[i] == ';' by {
        if i < a + n {
            assert(u[i - a] == cypher[i]);
        } else if i < b {
            assert(t[i - a] == cypher[i]);
            assert(Class::Only(';').has(t[i - a]));
        }
    }
    if c < d {
        assert(u[c] == cypher[a + c] && u[d - 1] == cypher[a + d - 1]);
    }
    if cypher.len() > 0 && !text::is_white(cypher[0]) && !text::is_white(cypher.last())
        && cypher.last() != ';' {
        assert(text::trim(cypher) == cypher);
        assert(!Class::Only(';').has(cypher.last()));
    }
    (a + c, a + d)
}

/// A capped statement runs the statement itself and returns all its columns, and no more
/// rows than the cap.
pub proof fn law_capped_statement_runs_the_statement(cypher: Seq<char>, rows: nat)
    ensures
        text::starts_with(capped(cypher, rows), "CALL { "@),
        text::stands_at(capped(cypher, rows), bare(cypher), 7),
        text::stands_at(capped(cypher, rows), " } RETURN * LIMIT "@, 7 + bare(cypher).len() as int),
        numeral::numeral(capped(cypher, rows).skip(25 + bare(cypher).len() as int)) == Some(rows),
{
    reveal_strlit("CALL { ");
    reveal_strlit(" } RETURN * LIMIT ");
    numeral::law_numeral_round_trip(rows);
    let t = capped(cypher, rows);
    let n = bare(cypher).len() as int;
    assert(t.subrange(0, 7) =~= "CALL { "@);
    assert(t.subrange(7, 7 + n) =~= bare(cypher));
    assert(t.subrange(7 + n, 25 + n) =~= " } RETURN * LIMIT "@);
    assert(t.skip(25 + n) =~= numeral::decimal(rows));
}

/// One logs in where there is a username, with an empty password where there is none;
/// and a failure is worth another try only if it is one of the transport.
pub proof fn law_login_and_retries(
    u: Seq<char>,
    p: Option<Seq<char>>,
    e: Neo4jError,
)
    ensures
        p matches Some(q) ==> credentials(Some(u), p) == Some((u, q)),
        p is None ==> credentials(Some(u), p) == Some((u, Seq::<char>::empty())),
        credentials(None, p) is None,
        e.retryable() ==> (e matches Neo4jError::Http { source } && (source.timeout
            || source.connect || source.request || (source.status matches Some(s) && 500 <= s && s
            < 600))),
        e matches Neo4jError::Http { source } ==> (source.timeout || source.connect
            || source.request || (source.status matches Some(s) && 500 <= s && s < 600))
            ==> e.retryable(),
{
}

/// The listed types of a property are those that its texts name; what is no list has
/// none, and counts as text.
pub proof fn law_listed_types_are_those_named(items: Seq<JsonValue>, t: InferredType)
    ensures
        named_types(items).contains(t) <==> exists|i: int|
            0 <= i < items.len() && ((#[trigger] items[i]) matches JsonValue::Text(name)
                && InferredType::of_name(name@) == t),
        listed_type(None) is Str,
    decreases items.len(),
{
    if items.len() > 0 {
        let front = items.drop_last();
        let n = items.len() - 1;
        law_listed_types_are_those_named(front, t);
        let old = named_types(front);
        let all = named_types(items);
        if all.contains(t) {
            let k = choose|k: int| 0 <= k < all.len() && all[k] == t;
            if k < old.len() {
                assert(old[k] == t);
                assert(old.contains(t));
                let i = choose|i: int|
                    0 <= i < front.len() && ((#[trigger] front[i]) matches JsonValue::Text(name)
                        && InferredType::of_name(name@) == t);
                assert(items[i] == front[i]);
            } else {
                assert(items[n] matches JsonValue::Text(name) && InferredType::of_name(name@) == t);
            }
        }
        if exists|i: int|
            0 <= i < items.len() && ((#[trigger] items[i]) matches JsonValue::Text(name)
                && InferredType::of_name(name@) == t) {
            let i = choose|i: int|
                0 <= i < items.len() && ((#[trigger] items[i]) matches JsonValue::Text(name)
                    && InferredType::of_name(name@) == t);
            if i < n {
                assert(front[i] == items[i]);
                assert(old.contains(t));
                let k = choose|k: int| 0 <= k < old.len() && old[k] == t;
                assert(all[k] == t);
            } else {
                assert(all[old.len() as int] == t);
            }
        }
    }
}

/// A property is described by the list of its types, where there is one.
pub proof fn law_sighted_type_is_that_of_the_list(
    row: Map<Seq<char>, JsonValue>,
    items: Vec<JsonValue>,
    rendering: String,
    t: InferredType,
)
    requires
        row.dom().contains("propertyTypes"@),
        row["propertyTypes"@] == (JsonValue::Array { items, rendering }),
        exists|i: int| 0 <= i < items.len() && (#[trigger] items[i]) is Text,
        forall|i: int|
            0 <= i < items.len() ==> ((#[trigger] items[i]) matches JsonValue::Text(name)
                ==> InferredType::of_name(name@) == t),
    ensures
        sighting(row) matches Some(s) ==> s.ty == t,
{
    let ts = named_types(items@);
    assert forall|i: int| 0 <= i < ts.len() implies #[trigger] ts[i] == t by {
        law_listed_types_are_those_named(items@, ts[i]);
        assert(ts.contains(ts[i]));
    }
    let i = choose|i: int| 0 <= i < items.len() && (#[trigger] items[i]) is Text;
    law_listed_types_are_those_named(items@, t);
    assert(items@[i] matches JsonValue::Text(name) && InferredType::of_name(name@) == t);
    assert(ts.contains(t));
}

/// The sightings are those of the rows, and all of them.
pub proof fn law_sightings_are_those_of_the_rows(rows: Seq<Row>, s: Sighting)
    ensures
        sightings(rows).contains(s) <==> exists|i: int|
            0 <= i < rows.len() && sighting((#[trigger] rows[i])@) == Some(s),
    decreases rows.len(),
{
    if rows.len() > 0 {
        let front = rows.drop_last();
        let n = rows.len() - 1;
        law_sightings_are_those_of_the_rows(front, s);
        let old = sightings(front);
        let all = sightings(rows);
        if all.contains(s) {
            let k = choose|k: int| 0 <= k < all.len() && all[k] == s;
            if k < old.len() {
                assert(old[k] == s);
                assert(old.contains(s));
                let i = choose|i: int|
                    0 <= i < front.len() && sighting((#[trigger] front[i])@) == Some(s);
                assert(rows[i] == front[i]);
            } else {
                assert(sighting(rows[n]@) == Some(s));
            }
        }
        if exists|i: int| 0 <= i < rows.len() && sighting((#[trigger] rows[i])@) == Some(s) {
            let i = choose|i: int| 0 <= i < rows.len() && sighting((#[trigger] rows[i])@) == Some(s);
            if i < n {
                assert(front[i] == rows[i]);
                assert(old.contains(s));
                let k = choose|k: int| 0 <= k < old.len() && old[k] == s;
                assert(all[k] == s);
            } else {
                assert(all[old.len() as int] == s);
            }
        }
    }
}

/// Properties stand in the order in which they were first seen: what is seen later comes
/// behind all that was seen before.
pub proof fn law_properties_stand_as_first_seen(ss: Seq<Sighting>, s: Sighting)
    ensures
        first_seen(ss).contains(s.name) ==> first_seen(ss.push(s)) == first_seen(ss),
        !first_seen(ss).contains(s.name) ==> first_seen(ss.push(s)) == first_seen(ss).push(s.name),
{
    assert(ss.push(s).drop_last() =~= ss);
}

} // verus!
