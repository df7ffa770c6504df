//! One Cypher query, and the columns that its rows become.
//!
//! The schema comes from the introspection of a label or of a statement; each
//! column is read by its type under its name.
use vstd::prelude::*;

use crate::batch;
use crate::batch::{column_of_rows, Batch, ColumnData};
use crate::columns;
use crate::columns::{DataType, Field};
use crate::json::Row;
use crate::neo4j::client;
use crate::neo4j::client::PropertyField;
use crate::text::same_text;

verus! {

/// The column type of a Neo4j type. What is no number and no truth value is a text.
pub open spec fn column_type(neo4j_type: Seq<char>) -> DataType {
    if neo4j_type == "Long"@ || neo4j_type == "Integer"@ {
        DataType::Int64
    } else if neo4j_type == "Double"@ || neo4j_type == "Float"@ {
        DataType::Float64
    } else if neo4j_type == "Boolean"@ {
        DataType::Boolean
    } else {
        DataType::Utf8
    }
}

/// The column type of a Neo4j type.
pub fn arrow_type_for(neo4j_type: &str) -> (r: DataType)
    ensures
        r == column_type(neo4j_type@),
{
    if same_text(neo4j_type, "Long") || same_text(neo4j_type, "Integer") {
        DataType::Int64
    } else if same_text(neo4j_type, "Double") || same_text(neo4j_type, "Float") {
        DataType::Float64
    } else if same_text(neo4j_type, "Boolean") {
        DataType::Boolean
    } else {
        DataType::Utf8
    }
}

/// The schema of described properties: a nullable column for each.
pub open spec fn schema(props: Seq<client::PropertyModel>) -> Seq<columns::FieldModel> {
    Seq::new(
        props.len(),
        |i: int|
            columns::FieldModel {
                name: props[i].name,
                data_type: column_type(props[i].neo4j_type),
                nullable: true,
            },
    )
}

/// The schema of described properties.
pub fn to_schema(props: &Vec<PropertyField>) -> (r: Vec<Field>)
    ensures
        columns::models(r@) == schema(client::property_models(props@)),
{
    let ghost all = schema(client::property_models(props@));
    let mut r: Vec<Field> = Vec::new();
    let mut i: usize = 0;
    while i < props.len()
        invariant
            i <= props.len(),
            all == schema(client::property_models(props@)),
            columns::models(r@) == all.take(i as int),
        decreases props.len() - i,
    {
        let ghost before = columns::models(r@);
        let f = Field::new(
            props[i].name.as_str(),
            arrow_type_for(props[i].neo4j_type.as_str()),
            true,
        );
        r.push(f);
        assert(columns::models(r@) == before.push(f@));
        i += 1;
    }
    assert(all.take(i as int) == all);
    r
}

/// The type that a label is described with is the type that its columns get: both
/// put a Neo4j type into the same class.
pub proof fn law_types_agree(name: Seq<char>)
    ensures
        column_type(client::InferredType::of_name(name).name()) == column_type(name),
{
    reveal_strlit("Long");
    reveal_strlit("Integer");
    reveal_strlit("Double");
    reveal_strlit("Float");
    reveal_strlit("Boolean");
    reveal_strlit("String");
    assert("String"@[0] == 'S');
    assert("Long"@[0] == 'L');
    assert("Integer"@[0] == 'I');
    assert("Double"@[0] == 'D');
    assert("Float"@[0] == 'F');
    assert("Boolean"@[0] == 'B');
}

/// The type that a column is read with: numbers of 64 bits and truth values as
/// they are, anything else as a text.
pub open spec fn read_as(ty: DataType) -> DataType {
    match ty {
        DataType::Int64 => DataType::Int64,
        DataType::Float64 => DataType::Float64,
        DataType::Boolean => DataType::Boolean,
        _ => DataType::Utf8,
    }
}

/// The column that rows hold for a field.
pub open spec fn column_for(field: columns::FieldModel, rows: Seq<Row>) -> batch::ColumnModel {
    batch::column(read_as(field.data_type), batch::values_under(rows, field.name))
}

/// A Cypher query: its statement, the label or name it is shown under, and the
/// schema of its rows.
#[derive(Debug)]
pub struct Neo4jExec {
    pub cypher: String,
    pub label: String,
    pub projected_schema: Vec<Field>,
}

impl Neo4jExec {
    pub fn new(cypher: String, label: String, projected_schema: Vec<Field>) -> (r: Self)
        ensures
            r == (Neo4jExec { cypher, label, projected_schema }),
    {
        Neo4jExec { cypher, label, projected_schema }
    }

    /// The column that rows hold for a field.
    pub fn build_column(field: &Field, rows: &Vec<Row>) -> (r: ColumnData)
        ensures
            r@ == column_for(field@, rows@),
    {
        let ty = match field.data_type {
            DataType::Int64 => DataType::Int64,
            DataType::Float64 => DataType::Float64,
            DataType::Boolean => DataType::Boolean,
            _ => DataType::Utf8,
        };
        column_of_rows(ty, rows, field.name.as_str())
    }

    /// The columns of a schema, and the number of rows, which holds without columns
    /// too.
    pub fn build_batch(schema: &Vec<Field>, rows: &Vec<Row>) -> (r: Batch)
        ensures
            r.rows == rows.len(),
            r.columns.len() == schema.len(),
            forall|i: int|
                0 <= i < schema.len() ==> (#[trigger] r.columns[i])@ == column_for(
                    schema[i]@,
                    rows@,
                ),
    {
        let mut columns: Vec<ColumnData> = Vec::new();
        let mut i: usize = 0;
        while i < schema.len()
            invariant
                i <= schema.len(),
                columns.len() == i,
                forall|k: int|
                    0 <= k < i ==> (#[trigger] columns[k])@ == column_for(schema[k]@, rows@),
            decreases schema.len() - i,
        {
            columns.push(Self::build_column(&schema[i], rows));
            i += 1;
        }
        Batch { columns, rows: rows.len() }
    }
}

/// The value that a row holds under a name.
pub open spec fn value_of(row: Row, name: Seq<char>) -> Option<crate::json::JsonValue> {
    if row@.dom().contains(name) {
        Some(row@[name])
    } else {
        None
    }
}

/// Row `i` of a column holds what row `i` of the result holds under the name of the
/// field, read by the type of the field; a type that no property has is read as text.
pub proof fn law_columns_hold_the_rows(field: columns::FieldModel, rows: Seq<Row>, i: int)
    requires
        0 <= i < rows.len(),
    ensures
        batch::rows_of(column_for(field, rows)) == rows.len(),
        batch::holds_value(
            column_for(field, rows),
            match field.data_type {
                DataType::Int32 | DataType::Float32 | DataType::Other(_) => DataType::Utf8,
                t => t,
            },
            i,
            value_of(rows[i], field.name),
        ),
{
    let values = batch::values_under(rows, field.name);
    batch::law_columns_hold_the_values(read_as(field.data_type), values, i);
    assert(values[i] == value_of(rows[i], field.name));
}

/// A schema has a column for each property, in their order: whole numbers for `Long`
/// and `Integer`, other numbers for `Double` and `Float`, truth values for `Boolean`, and
/// texts for all else.
pub proof fn law_schema_has_the_properties(props: Seq<client::PropertyModel>, i: int)
    requires
        0 <= i < props.len(),
    ensures
        schema(props).len() == props.len(),
        schema(props)[i].name == props[i].name && schema(props)[i].nullable,
        ({
            let t = props[i].neo4j_type;
            let c = schema(props)[i].data_type;
            &&& c == DataType::Int64 <==> t == "Long"@ || t == "Integer"@
            &&& c == DataType::Float64 <==> t == "Double"@ || t == "Float"@
            &&& c == DataType::Boolean <==> t == "Boolean"@
            &&& c == DataType::Utf8 || c == DataType::Int64 || c == DataType::Float64 || c
                == DataType::Boolean
        }),
{
    reveal_strlit("Long");
    reveal_strlit("Integer");
    reveal_strlit("Double");
    reveal_strlit("Float");
    reveal_strlit("Boolean");
    assert("Integer"@[0] == 'I' && "Boolean"@[0] == 'B');
    assert("Long"@.len() == 4 && "Integer"@.len() == 7 && "Double"@.len() == 6);
    assert("Float"@.len() == 5 && "Boolean"@.len() == 7);
    let t = props[i].neo4j_type;
    assert(schema(props)[i].data_type == column_type(t));
}

} // verus!
