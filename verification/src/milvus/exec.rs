//! One Milvus search, and the columns that its hits become.
//!
//! The schema comes from the description of a collection; each column is read by
//! its type under its name. `query_vector` only carries the query in, and `score`
//! is how close a hit is.
use vstd::prelude::*;

use crate::batch;
use crate::batch::{read_column, Batch, ColumnData, Score};
use crate::columns;
use crate::columns::{check_projection, project_fields, DataType, Field, ProjectionError};
use crate::json;
use crate::json::JsonValue;
use crate::milvus::client;
use crate::milvus::client::{Hit, MilvusCollection};
use crate::text;
use crate::text::same_text;

verus! {

/// The column type of a Milvus type. What is no number and no truth value is a text.
pub open spec fn column_type(milvus_type: Seq<char>) -> DataType {
    if milvus_type == "Bool"@ {
        DataType::Boolean
    } else if milvus_type == "Int8"@ || milvus_type == "Int16"@ || milvus_type == "Int32"@ {
        DataType::Int32
    } else if milvus_type == "Int64"@ {
        DataType::Int64
    } else if milvus_type == "Float"@ {
        DataType::Float32
    } else if milvus_type == "Double"@ {
        DataType::Float64
    } else {
        DataType::Utf8
    }
}

/// The column type of a Milvus type.
pub fn arrow_type_for(milvus_type: &str) -> (r: DataType)
    ensures
        r == column_type(milvus_type@),
{
    if same_text(milvus_type, "Bool") {
        DataType::Boolean
    } else if same_text(milvus_type, "Int8") || same_text(milvus_type, "Int16") || same_text(
        milvus_type,
        "Int32",
    ) {
        DataType::Int32
    } else if same_text(milvus_type, "Int64") {
        DataType::Int64
    } else if same_text(milvus_type, "Float") {
        DataType::Float32
    } else if same_text(milvus_type, "Double") {
        DataType::Float64
    } else {
        DataType::Utf8
    }
}

// ---------------------------------------------------------------------------
// Columns
// ---------------------------------------------------------------------------

/// The values that hits hold under a name.
pub open spec fn values_under(hits: Seq<Hit>, name: Seq<char>) -> Seq<Option<JsonValue>> {
    Seq::new(hits.len(), |i: int| json::value(hits[i].fields@, name))
}

/// The scores of hits.
pub open spec fn scores(hits: Seq<Hit>) -> Seq<batch::ScoreModel> {
    Seq::new(hits.len(), |i: int| hits[i].score@)
}

/// As many nulls as there are hits.
pub open spec fn nulls(hits: Seq<Hit>) -> Seq<Option<Seq<char>>> {
    Seq::new(hits.len(), |i: int| None)
}

/// The column that hits hold for a field: nothing for `query_vector`, the scores
/// for `score`, and the values under its name for any other.
pub open spec fn column_for(field: columns::FieldModel, hits: Seq<Hit>) -> batch::ColumnModel {
    if field.name == "query_vector"@ {
        batch::ColumnModel::Utf8(nulls(hits))
    } else if field.name == "score"@ {
        batch::ColumnModel::Scores(scores(hits))
    } else {
        batch::column(field.data_type, values_under(hits, field.name))
    }
}

/// The columns that hits hold for a schema.
pub open spec fn columns_for(schema: Seq<columns::FieldModel>, hits: Seq<Hit>) -> Seq<
    batch::ColumnModel,
> {
    Seq::new(schema.len(), |i: int| column_for(schema[i], hits))
}

/// As many nulls as there are hits.
pub fn null_texts(hits: &Vec<Hit>) -> (r: Vec<Option<String>>)
    ensures
        batch::optional_texts(r@) == nulls(hits@),
{
    let mut r: Vec<Option<String>> = Vec::new();
    let mut i: usize = 0;
    while i < hits.len()
        invariant
            i <= hits.len(),
            r.len() == i,
            forall|k: int| 0 <= k < i ==> (#[trigger] r[k]) is None,
        decreases hits.len() - i,
    {
        r.push(None);
        i += 1;
    }
    r
}

/// The scores of hits.
pub fn scores_of(hits: &Vec<Hit>) -> (r: Vec<Score>)
    ensures
        batch::score_models(r@) == scores(hits@),
{
    let mut r: Vec<Score> = Vec::new();
    let mut i: usize = 0;
    while i < hits.len()
        invariant
            i <= hits.len(),
            r.len() == i,
            forall|k: int| 0 <= k < i ==> (#[trigger] r[k])@ == hits[k].score@,
        decreases hits.len() - i,
    {
        r.push(hits[i].score.copy());
        i += 1;
    }
    r
}

/// The values that hits hold under a name, read as a column of a type.
pub fn column_of_hits(ty: DataType, hits: &Vec<Hit>, name: &str) -> (r: ColumnData)
    ensures
        r@ == batch::column(ty, values_under(hits@, name@)),
{
    let mut values: Vec<Option<&JsonValue>> = Vec::new();
    let mut i: usize = 0;
    while i < hits.len()
        invariant
            i <= hits.len(),
            values.len() == i,
            forall|k: int|
                0 <= k < i ==> batch::found(#[trigger] values[k]) == json::value(
                    hits[k].fields@,
                    name@,
                ),
        decreases hits.len() - i,
    {
        values.push(hits[i].fields.get(name));
        i += 1;
    }
    assert(batch::all_found(values@) == values_under(hits@, name@));
    read_column(ty, &values)
}

// ---------------------------------------------------------------------------
// Searches
// ---------------------------------------------------------------------------

/// The names of `names` that are not among `out`, in order.
pub open spec fn without(names: Seq<Seq<char>>, out: Seq<Seq<char>>) -> Seq<Seq<char>>
    decreases names.len(),
{
    if names.len() == 0 {
        seq![]
    } else if out.contains(names.last()) {
        without(names.drop_last(), out)
    } else {
        without(names.drop_last(), out).push(names.last())
    }
}

/// The columns that a vector search does not fetch: one carries the query in, the
/// other is computed.
pub open spec fn synthetic() -> Seq<Seq<char>> {
    seq!["query_vector"@, "score"@]
}

/// The column that a text search does not fetch.
pub open spec fn computed() -> Seq<Seq<char>> {
    seq!["score"@]
}

/// The names of fields that are not `score`, nor `query_vector` where `vector` holds.
fn fetched(fields: &Vec<Field>, vector: bool) -> (r: Vec<String>)
    ensures
        text::texts(r@) == without(
            columns::names(columns::models(fields@)),
            if vector {
                synthetic()
            } else {
                computed()
            },
        ),
{
    let ghost names = columns::names(columns::models(fields@));
    let ghost out = if vector {
        synthetic()
    } else {
        computed()
    };
    let mut r: Vec<String> = Vec::new();
    let mut i: usize = 0;
    assert(text::texts(r@) == without(names.take(0), out));
    proof {
        assert(synthetic()[0] == "query_vector"@ && synthetic()[1] == "score"@);
        assert(computed()[0] == "score"@);
    }
    while i < fields.len()
        invariant
            i <= fields.len(),
            names == columns::names(columns::models(fields@)),
            out == if vector {
                synthetic()
            } else {
                computed()
            },
            synthetic()[0] == "query_vector"@ && synthetic()[1] == "score"@,
            computed()[0] == "score"@,
            text::texts(r@) == without(names.take(i as int), out),
        decreases fields.len() - i,
    {
        let ghost before = text::texts(r@);
        assert(names.take(i + 1).drop_last() == names.take(i as int));
        let name = fields[i].name.as_str();
        assert(names.take(i + 1).last() == name@);
        let left_out = same_text(name, "score") || (vector && same_text(name, "query_vector"));
        assert(left_out == out.contains(name@)) by {
            if out.contains(name@) {
                let k = choose|k: int| 0 <= k < out.len() && out[k] == name@;
            }
            if name@ == "score"@ {
                assert(out[out.len() - 1] == name@);
            }
            if vector && name@ == "query_vector"@ {
                assert(out[0] == name@);
            }
        }
        if !left_out {
            r.push(fields[i].name.clone());
            assert(text::texts(r@) == before.push(name@));
        }
        i += 1;
    }
    assert(names.take(i as int) == names);
    r
}

/// A collection of which only some fields are fetched.
pub open spec fn narrowed(
    coll: client::CollectionModel,
    output_fields: Seq<Seq<char>>,
) -> client::CollectionModel {
    client::CollectionModel {
        collection: coll.collection,
        vector_field: coll.vector_field,
        metric: coll.metric,
        output_fields,
        partition: coll.partition,
    }
}

fn narrow(coll: MilvusCollection, output_fields: Vec<String>) -> (r: MilvusCollection)
    ensures
        r@ == narrowed(coll@, text::texts(output_fields@)),
{
    MilvusCollection {
        collection: coll.collection,
        vector_field: coll.vector_field,
        metric: coll.metric,
        output_fields,
        partition: coll.partition,
    }
}

/// The hits that are closest to a query vector.
#[derive(Debug)]
pub struct MilvusExec<V> {
    pub coll: MilvusCollection,
    pub query_vector: V,
    pub filter: Option<String>,
    pub limit: usize,
    /// Every column of the table.
    pub full_schema: Vec<Field>,
    /// The columns that the search returns.
    pub projected_schema: Vec<Field>,
    pub projection: Option<Vec<usize>>,
}

impl<V> MilvusExec<V> {
    /// The search, which fetches only the fields that it returns. Fails if the
    /// projection asks for a column that is not there.
    pub fn new(
        coll: MilvusCollection,
        full_schema: Vec<Field>,
        query_vector: V,
        filter: Option<String>,
        limit: usize,
        projection: Option<Vec<usize>>,
    ) -> (r: Result<Self, ProjectionError>)
        ensures
            match (columns::projected(columns::models(full_schema@), columns::positions(projection)), r) {
                (Ok(fields), Ok(exec)) => columns::models(exec.projected_schema@) == fields
                    && exec.coll@ == narrowed(coll@, without(columns::names(fields), synthetic()))
                    && exec.query_vector == query_vector && exec.filter == filter && exec.limit
                    == limit && exec.full_schema == full_schema && exec.projection == projection,
                (Err(e), Err(got)) => got == e,
                _ => false,
            },
    {
        match project_fields(&full_schema, &projection) {
            Err(e) => Err(e),
            Ok(projected_schema) => {
                let coll = narrow(coll, fetched(&projected_schema, true));
                Ok(
                    MilvusExec {
                        coll,
                        query_vector,
                        filter,
                        limit,
                        full_schema,
                        projected_schema,
                        projection,
                    },
                )
            },
        }
    }
}

/// The column that hits hold for a field.
pub fn build_column(field: &Field, hits: &Vec<Hit>) -> (r: ColumnData)
    ensures
        r@ == column_for(field@, hits@),
{
    let name = field.name.as_str();
    if same_text(name, "query_vector") {
        ColumnData::Utf8(null_texts(hits))
    } else if same_text(name, "score") {
        ColumnData::Scores(scores_of(hits))
    } else {
        column_of_hits(field.data_type, hits, name)
    }
}

/// The columns that hits hold for a schema, or those of a projection. Fails if the
/// projection asks for a column that is not there.
pub fn build_batch(
    full_schema: &Vec<Field>,
    projection: &Option<Vec<usize>>,
    hits: &Vec<Hit>,
) -> (r: Result<Batch, ProjectionError>)
    ensures
        match (
            columns::projected(
                columns_for(columns::models(full_schema@), hits@),
                columns::positions(*projection),
            ),
            r,
        ) {
            (Ok(cols), Ok(b)) => batch::column_models(b.columns@) == cols && b.rows == hits.len(),
            (Err(e), Err(got)) => got == e,
            _ => false,
        },
{
    let ghost all = columns_for(columns::models(full_schema@), hits@);
    let mut cols: Vec<ColumnData> = Vec::new();
    let mut i: usize = 0;
    match projection {
        None => {
            while i < full_schema.len()
                invariant
                    i <= full_schema.len(),
                    all == columns_for(columns::models(full_schema@), hits@),
                    batch::column_models(cols@) == all.take(i as int),
                decreases full_schema.len() - i,
            {
                let ghost before = batch::column_models(cols@);
                let c = build_column(&full_schema[i], hits);
                cols.push(c);
                assert(batch::column_models(cols@) == before.push(c@));
                i += 1;
            }
            assert(all.take(i as int) == all);
        },
        Some(idx) => {
            if let Err(e) = check_projection(idx, full_schema.len()) {
                return Err(e);
            }
            let ghost some = columns::chosen(all, idx@);
            while i < idx.len()
                invariant
                    i <= idx.len(),
                    forall|k: int| 0 <= k < idx.len() ==> (#[trigger] idx[k]) < full_schema.len(),
                    all == columns_for(columns::models(full_schema@), hits@),
                    some == columns::chosen(all, idx@),
                    batch::column_models(cols@) == some.take(i as int),
                decreases idx.len() - i,
            {
                let ghost before = batch::column_models(cols@);
                let c = build_column(&full_schema[idx[i]], hits);
                cols.push(c);
                assert(batch::column_models(cols@) == before.push(c@));
                i += 1;
            }
            assert(some.take(i as int) == some);
        },
    }
    Ok(Batch { columns: cols, rows: hits.len() })
}

/// The hits that fit a query text best. What is searched for is the text itself,
/// not a vector.
#[derive(Debug)]
pub struct MilvusTextExec {
    pub coll: MilvusCollection,
    pub query: String,
    pub filter: Option<String>,
    pub limit: usize,
    pub full_schema: Vec<Field>,
    pub projected_schema: Vec<Field>,
    pub projection: Option<Vec<usize>>,
}

impl MilvusTextExec {
    /// The search, which fetches only the fields that it returns. Fails if the
    /// projection asks for a column that is not there.
    pub fn new(
        coll: MilvusCollection,
        full_schema: Vec<Field>,
        query: String,
        filter: Option<String>,
        limit: usize,
        projection: Option<Vec<usize>>,
    ) -> (r: Result<Self, ProjectionError>)
        ensures
            match (columns::projected(columns::models(full_schema@), columns::positions(projection)), r) {
                (Ok(fields), Ok(exec)) => columns::models(exec.projected_schema@) == fields
                    && exec.coll@ == narrowed(coll@, without(columns::names(fields), computed()))
                    && exec.query == query && exec.filter == filter && exec.limit == limit
                    && exec.full_schema == full_schema && exec.projection == projection,
                (Err(e), Err(got)) => got == e,
                _ => false,
            },
    {
        match project_fields(&full_schema, &projection) {
            Err(e) => Err(e),
            Ok(projected_schema) => {
                let coll = narrow(coll, fetched(&projected_schema, false));
                Ok(
                    MilvusTextExec {
                        coll,
                        query,
                        filter,
                        limit,
                        full_schema,
                        projected_schema,
                        projection,
                    },
                )
            },
        }
    }
}

/// A search fetches a field if and only if it returns it as a column of the
/// collection, and it fetches none of the columns that it computes or that only
/// carry the query in.
pub proof fn law_fetched_fields_are_the_returned_ones(names: Seq<Seq<char>>, out: Seq<Seq<char>>)
    ensures
        forall|n: Seq<char>|
            without(names, out).contains(n) <==> names.contains(n) && !out.contains(n),
    decreases names.len(),
{
    if names.len() > 0 {
        let front = names.drop_last();
        law_fetched_fields_are_the_returned_ones(front, out);
        let before = without(front, out);
        let all = without(names, out);
        assert forall|n: Seq<char>| all.contains(n) <==> names.contains(n) && !out.contains(n) by {
            if all.contains(n) {
                let k = choose|k: int| 0 <= k < all.len() && all[k] == n;
                if k < before.len() {
                    assert(before[k] == n);
                    assert(before.contains(n));
                    assert(front.contains(n));
                    let m = choose|m: int| 0 <= m < front.len() && front[m] == n;
                    assert(names[m] == n);
                } else {
                    assert(names[names.len() - 1] == n);
                }
            }
            if names.contains(n) && !out.contains(n) {
                let m = choose|m: int| 0 <= m < names.len() && names[m] == n;
                if m < front.len() {
                    assert(front[m] == n);
                    assert(front.contains(n));
                    assert(before.contains(n));
                    let k = choose|k: int| 0 <= k < before.len() && before[k] == n;
                    assert(all[k] == n);
                } else {
                    assert(all[before.len() as int] == n);
                }
            }
        }
    }
}

// ---------------------------------------------------------------------------
// What the columns hold
// ---------------------------------------------------------------------------

/// The value that a hit holds under a name.
pub open spec fn value_of(hit: Hit, name: Seq<char>) -> Option<JsonValue> {
    if hit.fields@.dom().contains(name) {
        Some(hit.fields@[name])
    } else {
        None
    }
}

/// Row `i` of a column holds what hit `i` holds under the name of the field, read by
/// the type of the field. Only `query_vector` is null throughout, and `score` is how
/// close the hit is.
pub proof fn law_columns_hold_the_hits(field: columns::FieldModel, hits: Seq<Hit>, i: int)
    requires
        0 <= i < hits.len(),
    ensures
        batch::rows_of(column_for(field, hits)) == hits.len(),
        field.name == "query_vector"@ ==> (column_for(field, hits) matches batch::ColumnModel::Utf8(
            col,
        ) && col[i] is None),
        field.name == "score"@ ==> (column_for(field, hits) matches batch::ColumnModel::Scores(col)
            && col[i] == hits[i].score@),
        field.name != "query_vector"@ && field.name != "score"@ ==> batch::holds_value(
            column_for(field, hits),
            field.data_type,
            i,
            value_of(hits[i], field.name),
        ),
{
    reveal_strlit("query_vector");
    reveal_strlit("score");
    assert("query_vector"@.len() != "score"@.len());
    let values = values_under(hits, field.name);
    batch::law_columns_hold_the_values(field.data_type, values, i);
    assert(values[i] == value_of(hits[i], field.name));
}

/// In particular, where a hit holds a text under the name of a text field, that text is
/// in the column.
pub proof fn law_texts_are_passed_through(
    field: columns::FieldModel,
    hits: Seq<Hit>,
    i: int,
    t: String,
)
    requires
        0 <= i < hits.len(),
        field.data_type == DataType::Utf8,
        field.name != "query_vector"@ && field.name != "score"@,
        value_of(hits[i], field.name) == Some(JsonValue::Text(t)),
    ensures
        column_for(field, hits) matches batch::ColumnModel::Utf8(col) && col[i] == Some(t@),
{
    law_columns_hold_the_hits(field, hits, i);
}

/// The columns of a schema are those of its fields, in their order.
pub proof fn law_every_field_has_its_column(
    schema: Seq<columns::FieldModel>,
    hits: Seq<Hit>,
    k: int,
)
    requires
        0 <= k < schema.len(),
    ensures
        columns_for(schema, hits).len() == schema.len(),
        columns_for(schema, hits)[k] == column_for(schema[k], hits),
{
}

/// Each type of Milvus has a column type that can hold its values; all that is no number
/// and no truth value is read as a text.
pub proof fn law_milvus_types(ty: Seq<char>)
    ensures
        column_type(ty) == DataType::Boolean <==> ty == "Bool"@,
        column_type(ty) == DataType::Int32 <==> ty == "Int8"@ || ty == "Int16"@ || ty == "Int32"@,
        column_type(ty) == DataType::Int64 <==> ty == "Int64"@,
        column_type(ty) == DataType::Float32 <==> ty == "Float"@,
        column_type(ty) == DataType::Float64 <==> ty == "Double"@,
        ty == "VarChar"@ || ty == "JSON"@ || ty == "Array"@ ==> column_type(ty) == DataType::Utf8,
{
    reveal_strlit("Bool");
    reveal_strlit("Int8");
    reveal_strlit("Int16");
    reveal_strlit("Int32");
    reveal_strlit("Int64");
    reveal_strlit("Float");
    reveal_strlit("Double");
    reveal_strlit("VarChar");
    reveal_strlit("JSON");
    reveal_strlit("Array");
    if ty.len() == 5 {
        assert("Int16"@[3] == '1' && "Int32"@[3] == '3' && "Int64"@[3] == '6');
        assert("Float"@[0] == 'F' && "Array"@[0] == 'A');
    }
    if ty.len() == 4 {
        assert("Bool"@[0] == 'B' && "Int8"@[0] == 'I' && "JSON"@[0] == 'J');
    }
}

/// A search that fetches only some fields is the same search: the collection, the vector
/// field, the metric and the partition stay, and neither `query_vector` nor `score` is
/// fetched.
pub proof fn law_narrowed_search_is_the_same(
    coll: client::CollectionModel,
    names: Seq<Seq<char>>,
)
    ensures
        ({
            let vector = narrowed(coll, without(names, synthetic()));
            let by_text = narrowed(coll, without(names, computed()));
            &&& vector.collection == coll.collection && by_text.collection == coll.collection
            &&& vector.vector_field == coll.vector_field && by_text.vector_field
                == coll.vector_field
            &&& vector.metric == coll.metric && by_text.metric == coll.metric
            &&& vector.partition == coll.partition && by_text.partition == coll.partition
            &&& forall|n: Seq<char>|
                vector.output_fields.contains(n) <==> names.contains(n) && n != "query_vector"@ && n
                    != "score"@
            &&& forall|n: Seq<char>|
                by_text.output_fields.contains(n) <==> names.contains(n) && n != "score"@
        }),
{
    law_fetched_fields_are_the_returned_ones(names, synthetic());
    law_fetched_fields_are_the_returned_ones(names, computed());
    assert(synthetic()[0] == "query_vector"@ && synthetic()[1] == "score"@);
    assert(computed()[0] == "score"@);
    assert forall|n: Seq<char>| synthetic().contains(n) <==> n == "query_vector"@ || n
        == "score"@ by {
        if n == "query_vector"@ {
            assert(synthetic()[0] == n);
        }
        if n == "score"@ {
            assert(synthetic()[1] == n);
        }
    }
    assert forall|n: Seq<char>| computed().contains(n) <==> n == "score"@ by {
        if n == "score"@ {
            assert(computed()[0] == n);
        }
    }
}

} // verus!
