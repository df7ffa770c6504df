//! Searches of a collection of documents with a fixed layout.
//!
//! `query_vector` only carries the query in and is null in every row.
use vstd::prelude::*;

use crate::batch;
use crate::batch::{Batch, ColumnData};
use crate::columns;
use crate::columns::{project_fields, DataType, Field, FieldModel, ProjectionError};
use crate::json;
use crate::milvus::client::{Hit, MilvusCollection};
use crate::milvus::exec;
use crate::milvus::exec::{column_of_hits, null_texts, scores_of};
use crate::text;

verus! {

/// A nullable column.
pub open spec fn nullable(name: Seq<char>, data_type: DataType) -> FieldModel {
    FieldModel { name, data_type, nullable: true }
}

/// The columns of the documents.
pub open spec fn layout() -> Seq<FieldModel> {
    seq![
        nullable("query_vector"@, DataType::Utf8),
        nullable("doc_type"@, DataType::Utf8),
        nullable("source_id"@, DataType::Int64),
        nullable("product_id"@, DataType::Int64),
        nullable("title"@, DataType::Utf8),
        nullable("text"@, DataType::Utf8),
        nullable("score"@, DataType::Float32),
    ]
}

/// The columns of the documents.
pub fn table_schema() -> (r: Vec<Field>)
    ensures
        columns::models(r@) == layout(),
{
    let mut r: Vec<Field> = Vec::new();
    r.push(Field::new("query_vector", DataType::Utf8, true));
    r.push(Field::new("doc_type", DataType::Utf8, true));
    r.push(Field::new("source_id", DataType::Int64, true));
    r.push(Field::new("product_id", DataType::Int64, true));
    r.push(Field::new("title", DataType::Utf8, true));
    r.push(Field::new("text", DataType::Utf8, true));
    r.push(Field::new("score", DataType::Float32, true));
    assert(columns::models(r@) == layout());
    r
}

/// The texts that hits hold under a name; what is no text is null.
pub open spec fn texts_under(hits: Seq<Hit>, name: Seq<char>) -> Seq<Option<Seq<char>>> {
    Seq::new(
        hits.len(),
        |i: int|
            match json::value(hits[i].fields@, name) {
                Some(v) => v.string(),
                None => None,
            },
    )
}

/// The columns of documents that were hit.
pub open spec fn document_columns(hits: Seq<Hit>) -> Seq<batch::ColumnModel> {
    seq![
        batch::ColumnModel::Utf8(exec::nulls(hits)),
        batch::ColumnModel::Utf8(texts_under(hits, "doc_type"@)),
        batch::column(DataType::Int64, exec::values_under(hits, "source_id"@)),
        batch::column(DataType::Int64, exec::values_under(hits, "product_id"@)),
        batch::ColumnModel::Utf8(texts_under(hits, "title"@)),
        batch::ColumnModel::Utf8(texts_under(hits, "text"@)),
        batch::ColumnModel::Scores(exec::scores(hits)),
    ]
}

fn texts_of(hits: &Vec<Hit>, name: &str) -> (r: Vec<Option<String>>)
    ensures
        batch::optional_texts(r@) == texts_under(hits@, name@),
{
    let mut r: Vec<Option<String>> = Vec::new();
    let mut i: usize = 0;
    while i < hits.len()
        invariant
            i <= hits.len(),
            r.len() == i,
            forall|k: int|
                0 <= k < i ==> text::text_of(#[trigger] r[k]) == texts_under(hits@, name@)[k],
        decreases hits.len() - i,
    {
        let t = match hits[i].fields.get(name) {
            Some(v) => match v.as_str() {
                Some(s) => Some(s.to_owned()),
                None => None,
            },
            None => None,
        };
        r.push(t);
        i += 1;
    }
    r
}

fn document_column(hits: &Vec<Hit>, at: usize) -> (r: ColumnData)
    requires
        at < 7,
    ensures
        r@ == document_columns(hits@)[at as int],
{
    if at == 0 {
        ColumnData::Utf8(null_texts(hits))
    } else if at == 1 {
        ColumnData::Utf8(texts_of(hits, "doc_type"))
    } else if at == 2 {
        column_of_hits(DataType::Int64, hits, "source_id")
    } else if at == 3 {
        column_of_hits(DataType::Int64, hits, "product_id")
    } else if at == 4 {
        ColumnData::Utf8(texts_of(hits, "title"))
    } else if at == 5 {
        ColumnData::Utf8(texts_of(hits, "text"))
    } else {
        ColumnData::Scores(scores_of(hits))
    }
}

/// A search of the documents.
#[derive(Debug)]
pub struct MilvusExec<V> {
    pub coll: MilvusCollection,
    pub query_vector: V,
    pub filter: Option<String>,
    pub limit: usize,
    pub projected_schema: Vec<Field>,
    pub projection: Option<Vec<usize>>,
}

impl<V> MilvusExec<V> {
    /// Fails if the projection asks for a column that is not there.
    pub fn new(
        coll: MilvusCollection,
        query_vector: V,
        filter: Option<String>,
        limit: usize,
        projection: Option<Vec<usize>>,
    ) -> (r: Result<Self, ProjectionError>)
        ensures
            match (columns::projected(layout(), columns::positions(projection)), r) {
                (Ok(fields), Ok(exec)) => columns::models(exec.projected_schema@) == fields
                    && exec.coll == coll && exec.query_vector == query_vector && exec.filter
                    == filter && exec.limit == limit && exec.projection == projection,
                (Err(e), Err(got)) => got == e,
                _ => false,
            },
    {
        match project_fields(&table_schema(), &projection) {
            Ok(projected_schema) => Ok(
                MilvusExec { coll, query_vector, filter, limit, projected_schema, projection },
            ),
            Err(e) => Err(e),
        }
    }
}

/// The columns of documents that were hit, or those of a projection.
pub fn build_batch(projection: &Option<Vec<usize>>, hits: &Vec<Hit>) -> (r: Batch)
    requires
        projection matches Some(idx) ==> forall|i: int|
            0 <= i < idx.len() ==> (#[trigger] idx[i]) < 7,
    ensures
        r.rows == hits.len(),
        batch::column_models(r.columns@) == match columns::positions(*projection) {
            Some(idx) => columns::chosen(document_columns(hits@), idx),
            None => document_columns(hits@),
        },
{
    let ghost all = document_columns(hits@);
    let mut cols: Vec<ColumnData> = Vec::new();
    let mut i: usize = 0;
    match projection {
        None => {
            while i < 7
                invariant
                    i <= 7,
                    all == document_columns(hits@),
                    batch::column_models(cols@) == all.take(i as int),
                decreases 7 - i,
            {
                let ghost before = batch::column_models(cols@);
                let c = document_column(hits, i);
                cols.push(c);
                assert(batch::column_models(cols@) == before.push(c@));
                i += 1;
            }
            assert(all.take(i as int) == all);
        },
        Some(idx) => {
            let ghost some = columns::chosen(all, idx@);
            while i < idx.len()
                invariant
                    i <= idx.len(),
                    forall|k: int| 0 <= k < idx.len() ==> (#[trigger] idx[k]) < 7,
                    all == document_columns(hits@),
                    some == columns::chosen(all, idx@),
                    batch::column_models(cols@) == some.take(i as int),
                decreases idx.len() - i,
            {
                let ghost before = batch::column_models(cols@);
                let c = document_column(hits, idx[i]);
                cols.push(c);
                assert(batch::column_models(cols@) == before.push(c@));
                i += 1;
            }
            assert(some.take(i as int) == some);
        },
    }
    Batch { columns: cols, rows: hits.len() }
}

/// A column of documents holds in row `i` what hit `i` holds under the name of the field
/// at its place: texts as texts, numbers as integers, null throughout for the query, and
/// how close the hit is for the score.
pub proof fn law_document_columns_hold_the_hits(hits: Seq<Hit>, k: int, i: int)
    requires
        0 <= i < hits.len(),
        0 <= k < 7,
    ensures
        layout().len() == 7 && document_columns(hits).len() == 7,
        batch::rows_of(document_columns(hits)[k]) == hits.len(),
        ({
            let name = layout()[k].name;
            let v = exec::value_of(hits[i], name);
            match document_columns(hits)[k] {
                batch::ColumnModel::Utf8(col) => layout()[k].data_type == DataType::Utf8 && (k == 0
                    ==> name == "query_vector"@ && col[i] is None) && (k > 0 ==> col[i] == match v {
                    Some(json::JsonValue::Text(t)) => Some(t@),
                    _ => None,
                }),
                batch::ColumnModel::Int64(col) => layout()[k].data_type == DataType::Int64
                    && batch::is_integer(col[i], v),
                batch::ColumnModel::Scores(col) => name == "score"@ && k == 6 && col[i]
                    == hits[i].score@,
                _ => false,
            }
        }),
        layout()[1].name == "doc_type"@ && layout()[2].name == "source_id"@ && layout()[3].name
            == "product_id"@ && layout()[4].name == "title"@ && layout()[5].name == "text"@,
{
    let name = layout()[k].name;
    let v = exec::value_of(hits[i], name);
    let values = exec::values_under(hits, name);
    assert(values[i] == v);
    batch::law_columns_hold_the_values(DataType::Int64, values, i);
}

} // verus!
