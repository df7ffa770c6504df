use spice_connectors::batch::ColumnData;
use spice_connectors::columns::{DataType, Field, ProjectionError};
use spice_connectors::json::{JsonNumber, JsonValue, Row};
use spice_connectors::neo4j::client::{
    bare_statement, ConnectionConfig, InferredType, Neo4jConnection, Neo4jError, PropertyField,
    TxError, TxResponse, TxResult,
};
use spice_connectors::neo4j::connector::{
    factory, Neo4jConnector, Neo4jFactory, Provider, Source, CONNECTOR_NAME,
};
use spice_connectors::neo4j::exec::{arrow_type_for, Neo4jExec};
use spice_connectors::neo4j::graph_query::{
    ensure_read_only, max_rows, string_arg, with_row_cap, GraphQueryTableFunc, Lookup,
    DEFAULT_MAX_ROWS, GRAPH_QUERY_UDTF_NAME,
};
use spice_connectors::neo4j::table_provider::{
    column_alias, cypher_ident, cypher_str, op_to_cypher, predicate_cypher, scalar_to_cypher,
    CypherTableProvider, Neo4jTableProvider,
};
use spice_connectors::params::Parameters;
use spice_connectors::predicate::{Expr, Operator, PushDown, ScalarValue};
use spice_connectors::retry::{RetryStep, TransportError};

fn txt(s: &str) -> JsonValue {
    JsonValue::Text(s.to_string())
}

fn num(n: u64) -> JsonValue {
    JsonValue::Number(JsonNumber::PosInt(n))
}

fn float(s: &str) -> JsonValue {
    JsonValue::Number(JsonNumber::Float(s.to_string()))
}

fn list(items: Vec<JsonValue>, rendering: &str) -> JsonValue {
    JsonValue::Array { items, rendering: rendering.to_string() }
}

fn row(entries: Vec<(&str, JsonValue)>) -> Row {
    let mut r = Row::new();
    for (name, value) in entries {
        r.insert(name.to_string(), value);
    }
    r
}

fn reply(columns: Vec<&str>, data: Vec<Vec<JsonValue>>) -> TxResponse {
    TxResponse {
        results: vec![TxResult {
            columns: columns.into_iter().map(str::to_string).collect(),
            data,
        }],
        errors: vec![],
    }
}

fn config(username: Option<&str>, password: Option<&str>, max_retries: u32) -> ConnectionConfig {
    ConnectionConfig {
        host: "localhost".to_string(),
        port: 7474,
        secure: false,
        database: "neo4j".to_string(),
        username: username.map(str::to_string),
        password: password.map(str::to_string),
        timeout_ms: 5000,
        connect_timeout_ms: 2000,
        max_retries,
        tls_skip_verify: false,
        tls_ca_cert_path: None,
    }
}

fn status(code: u16) -> Neo4jError {
    Neo4jError::Http {
        source: TransportError {
            timeout: false,
            connect: false,
            request: false,
            status: Some(code),
            message: format!("status {code}"),
        },
    }
}

fn schema() -> Vec<Field> {
    vec![
        Field::new("name", DataType::Utf8, true),
        Field::new("age", DataType::Int64, true),
    ]
}

fn column(name: &str) -> Box<Expr> {
    Box::new(Expr::Column(name.to_string()))
}

fn lit_str(s: &str) -> Expr {
    Expr::Literal(ScalarValue::Utf8(Some(s.to_string())))
}

fn lit_int(n: i64) -> Expr {
    Expr::Literal(ScalarValue::Int64(Some(n)))
}

fn binary(name: &str, op: Operator, right: Expr) -> Expr {
    Expr::BinaryExpr { left: column(name), op, right: Box::new(right) }
}

fn in_list(name: &str, list: Vec<Expr>, negated: bool) -> Expr {
    Expr::InList { expr: column(name), list, negated }
}

// ---- graph_query ----

#[test]
fn read_only_accepts_reads() {
    for q in [
        "MATCH (a:Chunk)-[:NEXT*1..3]->(b) RETURN a.idx, b.idx",
        "CALL db.relationshipTypes() YIELD relationshipType RETURN relationshipType",
        "MATCH (n) WHERE n.created_at > 0 RETURN n.set_value AS v LIMIT 5",
        "MATCH (a)-[r]->(b) RETURN type(r), count(*)",
    ] {
        assert!(ensure_read_only(q).is_ok(), "should be read-only: {q}");
    }
}

#[test]
fn read_only_rejects_writes() {
    for q in [
        "MATCH (a) CREATE (a)-[:R]->(b)",
        "MERGE (n:X {id: 1})",
        "MATCH (n) DELETE n",
        "MATCH (n) DETACH DELETE n",
        "MATCH (n) SET n.x = 1",
        "MATCH (n) REMOVE n.x",
        "CALL apoc.create.node(['X'], {})",
        "LOAD CSV FROM 'file:///x.csv' AS row RETURN row",
    ] {
        assert!(ensure_read_only(q).is_err(), "should be rejected: {q}");
    }
}

#[test]
fn row_cap_wraps_and_strips_semicolon() {
    let out = with_row_cap("MATCH (n) RETURN n.id AS id ;", 100);
    assert_eq!(out, "CALL { MATCH (n) RETURN n.id AS id } RETURN * LIMIT 100");
}

#[test]
fn row_cap_zero_disables_wrap() {
    assert_eq!(with_row_cap("MATCH (n) RETURN n", 0), "MATCH (n) RETURN n");
}

#[test]
fn read_only_names_the_clause_it_refuses() {
    assert_eq!(
        ensure_read_only("MATCH (n) dEtAcH DELETE n").unwrap_err(),
        "graph_query(): only read-only Cypher is allowed; found write clause 'dEtAcH'"
    );
    // in a string literal too
    assert!(ensure_read_only("RETURN 'drop it'").is_err());
    // a letter outside ASCII belongs to a word
    assert!(ensure_read_only("RETURN éset").is_ok());
    assert!(ensure_read_only("RETURN \u{2014}set").is_err());
}

#[test]
fn max_rows_reads_its_setting() {
    assert_eq!(max_rows(&None), DEFAULT_MAX_ROWS);
    assert_eq!(max_rows(&Some("25".to_string())), 25);
    assert_eq!(max_rows(&Some("0".to_string())), 0);
    assert_eq!(max_rows(&Some("-1".to_string())), 10_000);
    assert_eq!(max_rows(&Some("many".to_string())), 10_000);
}

#[test]
fn separators_and_white_space_around_a_statement_go() {
    assert_eq!(bare_statement("  MATCH (n) RETURN n ;; \n"), "MATCH (n) RETURN n");
    assert_eq!(bare_statement(";"), "");
}

#[test]
fn string_arguments_are_string_literals() {
    assert_eq!(string_arg(&lit_str("kg"), "first").unwrap(), "kg");
    let large = Expr::Literal(ScalarValue::LargeUtf8(Some("kg".to_string())));
    assert_eq!(string_arg(&large, "first").unwrap(), "kg");
    assert_eq!(
        string_arg(&lit_int(1), "second (Cypher query)").unwrap_err(),
        "graph_query(): the second (Cypher query) argument must be a string literal"
    );
    assert!(string_arg(&Expr::Literal(ScalarValue::Utf8(None)), "first").is_err());
}

#[test]
fn a_call_is_checked_scoped_and_capped() {
    let args = vec![lit_str("kg"), lit_str("MATCH (n:Chunk) RETURN n.id AS id;")];
    let call = GraphQueryTableFunc::<u8>::prepare(&args, &Some("asst_x".to_string()), 10).unwrap();
    assert_eq!(call.dataset, "kg");
    assert_eq!(call.cypher, "CALL { MATCH (n:Chunk:`asst_x`) RETURN n.id AS id } RETURN * LIMIT 10");
    let call = GraphQueryTableFunc::<u8>::prepare(&args, &None, 0).unwrap();
    assert_eq!(call.cypher, "MATCH (n:Chunk) RETURN n.id AS id");
}

#[test]
fn a_call_is_refused_with_a_reason() {
    let scope = Some("asst_x".to_string());
    assert_eq!(
        GraphQueryTableFunc::<u8>::prepare(&vec![lit_str("kg")], &scope, 10).unwrap_err(),
        "graph_query(neo4j_dataset, cypher) expects 2 string arguments, got 1"
    );
    let writes = vec![lit_str("kg"), lit_str("MATCH (n) DELETE n")];
    assert!(GraphQueryTableFunc::<u8>::prepare(&writes, &None, 10).is_err());
    let escapes = vec![lit_str("kg"), lit_str("CALL db.labels() YIELD label RETURN label")];
    assert!(GraphQueryTableFunc::<u8>::prepare(&escapes, &None, 10).is_ok());
    assert!(GraphQueryTableFunc::<u8>::prepare(&escapes, &scope, 10).is_err());
    assert_eq!(
        GraphQueryTableFunc::<u8>::locate("kg", Lookup::Missing).unwrap_err(),
        "graph_query(): dataset 'kg' not found; pass a registered neo4j dataset name"
    );
    assert_eq!(
        GraphQueryTableFunc::<u8>::locate("kg", Lookup::NotNeo4j).unwrap_err(),
        "graph_query(): dataset 'kg' is not a neo4j dataset"
    );
    assert_eq!(
        GraphQueryTableFunc::<u8>::locate("kg", Lookup::EngineDropped).unwrap_err(),
        "graph_query(): DataFusion instance has been dropped"
    );
    assert!(GraphQueryTableFunc::<u8>::locate("kg", Lookup::Found).is_ok());
}

#[test]
fn a_call_becomes_a_table_of_the_described_columns() {
    assert_eq!(GRAPH_QUERY_UDTF_NAME, "graph_query");
    assert_eq!(GraphQueryTableFunc::new(7u8).df, 7);
    let described = Ok(vec![
        PropertyField { name: "n".to_string(), neo4j_type: "Long".to_string() },
        PropertyField { name: "t".to_string(), neo4j_type: "String".to_string() },
    ]);
    let table = GraphQueryTableFunc::<u8>::table("RETURN 1 AS n".to_string(), described).unwrap();
    assert_eq!(table.cypher, "RETURN 1 AS n");
    assert_eq!(table.schema[0].data_type, DataType::Int64);
    assert_eq!(table.schema[1].data_type, DataType::Utf8);
    assert_eq!(
        GraphQueryTableFunc::<u8>::table("c".to_string(), Ok(vec![])).unwrap_err(),
        "graph_query(): the Cypher returned no columns to infer a schema"
    );
    let failed = Err(Neo4jError::Decode { message: "bad".to_string() });
    assert_eq!(
        GraphQueryTableFunc::<u8>::table("c".to_string(), failed).unwrap_err(),
        "graph_query(): failed to describe Cypher: neo4j decode error: bad"
    );
}

// ---- client ----

#[test]
fn inferred_type_merge_is_order_independent_and_widens() {
    let it = |v: JsonValue| InferredType::from_value(&v);
    // Int then Float, and Float then Int, both widen to Double (no data lost).
    assert_eq!(it(num(1)).merge(it(float("2.5"))).neo4j_name(), "Double");
    assert_eq!(it(float("2.5")).merge(it(num(1))).neo4j_name(), "Double");
    // Same type is stable.
    assert_eq!(it(num(1)).merge(it(num(2))).neo4j_name(), "Long");
    assert_eq!(it(JsonValue::Bool(true)).merge(it(JsonValue::Bool(false))).neo4j_name(), "Boolean");
    // Incompatible mix (number + string, or a node/list) collapses to String.
    assert_eq!(it(num(1)).merge(it(txt("x"))).neo4j_name(), "String");
    assert_eq!(it(JsonValue::Object { rendering: "{\"a\":1}".to_string() }).neo4j_name(), "String");
    assert_eq!(it(list(vec![num(1), num(2)], "[1,2]")).neo4j_name(), "String");
}

#[test]
fn maps_columns_to_named_rows() {
    let r = reply(
        vec!["name", "age"],
        vec![vec![txt("Alice"), num(30)], vec![txt("Bob"), num(25)]],
    );
    let (columns, rows) = Neo4jConnection::read_reply(r).unwrap();
    assert_eq!(columns, vec!["name", "age"]);
    assert_eq!(rows.len(), 2);
    assert_eq!(rows[0].get("name").and_then(JsonValue::as_str), Some("Alice"));
    assert_eq!(rows[0].get("age").and_then(JsonValue::as_i64), Some(30));
    assert_eq!(rows[1].get("name").and_then(JsonValue::as_str), Some("Bob"));
}

#[test]
fn a_row_may_be_shorter_or_longer_than_its_columns() {
    let r = reply(vec!["a", "b"], vec![vec![num(1)], vec![num(1), num(2), num(3)]]);
    let (_, rows) = Neo4jConnection::read_reply(r).unwrap();
    assert!(rows[0].get("b").is_none());
    assert_eq!(rows[1].get("b").and_then(JsonValue::as_i64), Some(2));
    let empty = TxResponse { results: vec![], errors: vec![] };
    let (columns, rows) = Neo4jConnection::read_reply(empty).unwrap();
    assert!(columns.is_empty() && rows.is_empty());
}

#[test]
fn basic_auth_is_sent() {
    let conn = Neo4jConnection::new(&config(Some("neo4j"), Some("secret"), 0));
    assert_eq!(conn.auth, Some(("neo4j".to_string(), "secret".to_string())));
    let conn = Neo4jConnection::new(&config(Some("neo4j"), None, 0));
    assert_eq!(conn.auth, Some(("neo4j".to_string(), String::new())));
    let conn = Neo4jConnection::new(&config(None, Some("secret"), 0));
    assert_eq!(conn.auth, None);
    assert_eq!(conn.commit_url(), "http://localhost:7474/db/neo4j/tx/commit");
}

#[test]
fn cypher_error_is_not_retried() {
    let r = TxResponse {
        results: vec![],
        errors: vec![
            TxError {
                code: "Neo.ClientError.Statement.SyntaxError".to_string(),
                message: "bad cypher".to_string(),
            },
            TxError { code: "second".to_string(), message: "unread".to_string() },
        ],
    };
    let err = Neo4jConnection::read_reply(r).unwrap_err();
    assert!(matches!(err, Neo4jError::Api { .. }));
    assert_eq!(
        err.text(),
        "neo4j api error Neo.ClientError.Statement.SyntaxError: bad cypher"
    );
    let mut tries = Neo4jConnection::new(&config(None, None, 3)).tries();
    assert_eq!(tries.after_failure(err.is_retryable(), 0), RetryStep::GiveUp);
}

#[test]
fn neo4j_transient_5xx_is_retried_then_succeeds() {
    let mut tries = Neo4jConnection::new(&config(None, None, 3)).tries();
    assert_eq!(
        tries.after_failure(status(503).is_retryable(), 0),
        RetryStep::Again { after_ms: 200 }
    );
    assert_eq!(
        tries.after_failure(status(503).is_retryable(), 17),
        RetryStep::Again { after_ms: 417 }
    );
    let (_, rows) = Neo4jConnection::read_reply(reply(vec![], vec![])).unwrap();
    assert!(rows.is_empty());
}

#[test]
fn neo4j_malformed_json_is_decode_error() {
    let err = Neo4jError::Decode { message: "expected value".to_string() };
    assert!(!err.is_retryable());
    assert_eq!(err.text(), "neo4j decode error: expected value");
    assert_eq!(
        Neo4jError::Build { message: "m".to_string() }.text(),
        "neo4j client build error: m"
    );
    assert_eq!(status(404).text(), "neo4j http error: status 404");
    assert!(!status(404).is_retryable());
}

#[test]
fn describe_label_parses_properties() {
    let rows = vec![
        row(vec![("propertyName", txt("name")), ("propertyTypes", list(vec![txt("String")], "[\"String\"]"))]),
        row(vec![("propertyName", txt("age")), ("propertyTypes", list(vec![txt("Long")], "[\"Long\"]"))]),
    ];
    let props = Neo4jConnection::describe_label(&rows);
    assert_eq!(props.len(), 2);
    assert_eq!(props[0].name, "name");
    assert_eq!(props[0].neo4j_type, "String");
    assert_eq!(props[1].name, "age");
    assert_eq!(props[1].neo4j_type, "Long");
}

#[test]
fn describe_label_dedupes_multi_label_properties_and_merges_types() {
    let reported = |name: &str, ty: &str| {
        row(vec![("propertyName", txt(name)), ("propertyTypes", list(vec![txt(ty)], "[]"))])
    };
    let rows = vec![
        reported("id", "String"),
        reported("name", "String"),
        reported("frequency", "Long"),
        reported("id", "String"),
        reported("name", "String"),
        reported("frequency", "Double"),
        reported("created_at", "DateTime"),
    ];
    let props = Neo4jConnection::describe_label(&rows);
    let names: Vec<&str> = props.iter().map(|p| p.name.as_str()).collect();
    assert_eq!(names, vec!["id", "name", "frequency", "created_at"]);
    assert_eq!(props[2].neo4j_type, "Double");
    assert_eq!(props[3].neo4j_type, "String");
}

#[test]
fn describe_label_reads_several_types_and_skips_nameless_rows() {
    let rows = vec![
        row(vec![("propertyTypes", list(vec![txt("Long")], "[]"))]),
        row(vec![("propertyName", txt("n")), ("propertyTypes", list(vec![txt("Long"), num(1), txt("Float")], "[]"))]),
        row(vec![("propertyName", txt("m"))]),
    ];
    let props = Neo4jConnection::describe_label(&rows);
    assert_eq!(props.len(), 2);
    assert_eq!(props[0].neo4j_type, "Double");
    assert_eq!(props[1].neo4j_type, "String");
}

#[test]
fn describe_cypher_infers_columns_and_types() {
    let (columns, rows) = Neo4jConnection::read_reply(reply(
        vec!["person", "friends"],
        vec![vec![txt("Alice"), num(3)]],
    ))
    .unwrap();
    let props = Neo4jConnection::describe_cypher(&columns, &rows);
    assert_eq!(props.len(), 2);
    assert_eq!(props[0].name, "person");
    assert_eq!(props[0].neo4j_type, "String");
    assert_eq!(props[1].name, "friends");
    assert_eq!(props[1].neo4j_type, "Long");
}

#[test]
fn nulls_do_not_decide_the_type_of_a_column() {
    let (columns, rows) = Neo4jConnection::read_reply(reply(
        vec!["a", "b", "c"],
        vec![
            vec![JsonValue::Null, num(1), JsonValue::Null],
            vec![num(2), float("1.5"), JsonValue::Null],
        ],
    ))
    .unwrap();
    let types: Vec<String> = Neo4jConnection::describe_cypher(&columns, &rows)
        .into_iter()
        .map(|p| p.neo4j_type)
        .collect();
    assert_eq!(types, vec!["Long", "Double", "String"]);
    assert_eq!(
        Neo4jConnection::cypher_probe(" MATCH (n) RETURN n; "),
        "CALL { MATCH (n) RETURN n } RETURN * LIMIT 200"
    );
    assert!(Neo4jConnection::label_query().contains("WHERE $label IN nodeLabels"));
}

// ---- table provider ----

#[test]
fn eq_predicate_pushes_down() {
    assert_eq!(
        predicate_cypher(&binary("name", Operator::Eq, lit_str("Alice")), &schema()),
        Some("n.`name` = 'Alice'".to_string())
    );
}

#[test]
fn comparison_predicate_pushes_down() {
    assert_eq!(
        predicate_cypher(&binary("age", Operator::Gt, lit_int(30)), &schema()),
        Some("n.`age` > 30".to_string())
    );
}

#[test]
fn in_list_pushes_down() {
    assert_eq!(
        predicate_cypher(&in_list("name", vec![lit_str("A"), lit_str("B")], false), &schema()),
        Some("n.`name` IN ['A', 'B']".to_string())
    );
}

#[test]
fn unknown_column_not_pushable() {
    assert_eq!(predicate_cypher(&binary("missing", Operator::Eq, lit_str("x")), &schema()), None);
}

#[test]
fn string_literals_are_escaped() {
    assert_eq!(
        predicate_cypher(&binary("name", Operator::Eq, lit_str("O'Brien")), &schema()),
        Some("n.`name` = 'O\\'Brien'".to_string())
    );
}

#[test]
fn what_cannot_be_written_in_cypher_is_not_pushed_down() {
    let s = schema();
    assert_eq!(predicate_cypher(&in_list("name", vec![lit_str("A")], true), &s), None);
    assert_eq!(predicate_cypher(&in_list("name", vec![], false), &s), None);
    assert_eq!(predicate_cypher(&in_list("name", vec![lit_str("A"), Expr::Other], false), &s), None);
    assert_eq!(predicate_cypher(&binary("name", Operator::Other, lit_str("A")), &s), None);
    assert_eq!(
        predicate_cypher(&binary("name", Operator::Eq, Expr::Literal(ScalarValue::Utf8(None))), &s),
        None
    );
    assert_eq!(predicate_cypher(&Expr::Other, &s), None);
    // a literal on the left
    let turned = Expr::BinaryExpr {
        left: Box::new(lit_int(30)),
        op: Operator::Lt,
        right: column("age"),
    };
    assert_eq!(predicate_cypher(&turned, &s), None);
}

#[test]
fn names_literals_and_operators_in_cypher() {
    assert_eq!(cypher_ident("a`b"), "`a``b`");
    assert_eq!(cypher_str(r"a\b'c"), r"'a\\b\'c'");
    assert_eq!(scalar_to_cypher(&ScalarValue::Int32(Some(-5))), Some("-5".to_string()));
    assert_eq!(scalar_to_cypher(&ScalarValue::Int64(Some(i64::MIN))), Some("-9223372036854775808".to_string()));
    assert_eq!(scalar_to_cypher(&ScalarValue::Float64(Some("1.5".to_string()))), Some("1.5".to_string()));
    assert_eq!(scalar_to_cypher(&ScalarValue::Boolean(Some(true))), Some("true".to_string()));
    assert_eq!(scalar_to_cypher(&ScalarValue::Other), None);
    assert_eq!(op_to_cypher(Operator::NotEq), Some("<>"));
    assert_eq!(op_to_cypher(Operator::LtEq), Some("<="));
    assert_eq!(op_to_cypher(Operator::GtEq), Some(">="));
    assert_eq!(op_to_cypher(Operator::Other), None);
}

#[test]
fn a_scan_is_one_statement() {
    let t = Neo4jTableProvider::new("Person".to_string(), schema(), None);
    let filters = vec![binary("age", Operator::Gt, lit_int(30)), Expr::Other];
    let exec = t.scan(&None, &filters, Some(10)).unwrap();
    assert_eq!(
        exec.cypher,
        "MATCH (n:`Person`) WHERE n.`age` > 30 RETURN n.`name` AS name, n.`age` AS age LIMIT 10"
    );
    assert_eq!(exec.label, "Person");
    let exec = t.scan(&Some(vec![1]), &vec![], None).unwrap();
    assert_eq!(exec.cypher, "MATCH (n:`Person`) RETURN n.`age` AS age");
    let exec = t.scan(&Some(vec![]), &vec![], None).unwrap();
    assert_eq!(exec.cypher, "MATCH (n:`Person`) RETURN 1 AS _cnt");
    assert_eq!(
        t.scan(&Some(vec![0, 2]), &vec![], None).unwrap_err(),
        ProjectionError { index: 2, columns: 2 }
    );
    assert_eq!(
        t.supports_filters_pushdown(&filters),
        vec![PushDown::Exact, PushDown::Unsupported]
    );
}

#[test]
fn a_returned_column_is_quoted_where_it_has_to_be() {
    assert_eq!(column_alias("first_name2"), "first_name2");
    assert_eq!(column_alias("2nd"), "`2nd`");
    assert_eq!(column_alias("first name"), "`first name`");
    assert_eq!(column_alias("a`b"), "`a``b`");
    assert_eq!(column_alias("é"), "`é`");
    assert_eq!(column_alias(""), "``");
}

#[test]
fn a_scan_stays_in_its_scope() {
    let t = Neo4jTableProvider::new("Person".to_string(), schema(), Some("asst_x".to_string()));
    let exec = t.scan(&Some(vec![0]), &vec![], None).unwrap();
    assert_eq!(exec.cypher, "MATCH (n:`Person`:`asst_x`) RETURN n.`name` AS name");
}

#[test]
fn a_statement_is_read_as_it_stands() {
    let t = CypherTableProvider::new("RETURN 1 AS age".to_string(), schema());
    let exec = t.scan(&Some(vec![1])).unwrap();
    assert_eq!(exec.cypher, "RETURN 1 AS age");
    assert_eq!(exec.label, "cypher");
    assert_eq!(exec.projected_schema.len(), 1);
    assert!(t.scan(&Some(vec![5])).is_err());
}

// ---- exec ----

#[test]
fn rows_become_typed_columns() {
    let fields = vec![
        Field::new("s", DataType::Utf8, true),
        Field::new("i", DataType::Int64, true),
        Field::new("f", DataType::Float64, true),
        Field::new("b", DataType::Boolean, true),
    ];
    let rows = vec![
        row(vec![("s", txt("x")), ("i", num(7)), ("f", float("2.5")), ("b", JsonValue::Bool(true))]),
        row(vec![("s", num(3)), ("i", txt("7")), ("f", num(2)), ("b", JsonValue::Null)]),
        row(vec![("s", list(vec![], "[1,2]")), ("i", JsonValue::Number(JsonNumber::PosInt(u64::MAX)))]),
    ];
    let batch = Neo4jExec::build_batch(&fields, &rows);
    assert_eq!(batch.rows, 3);
    let some = |s: &str| Some(s.to_string());
    match &batch.columns[0] {
        ColumnData::Utf8(v) => assert_eq!(v, &vec![some("x"), some("3"), some("[1,2]")]),
        other => panic!("{other:?}"),
    }
    match &batch.columns[1] {
        ColumnData::Int64(v) => assert_eq!(v, &vec![Some(7), None, None]),
        other => panic!("{other:?}"),
    }
    match &batch.columns[2] {
        ColumnData::Float64(v) => assert_eq!(v, &vec![some("2.5"), some("2"), None]),
        other => panic!("{other:?}"),
    }
    match &batch.columns[3] {
        ColumnData::Boolean(v) => assert_eq!(v, &vec![Some(true), None, None]),
        other => panic!("{other:?}"),
    }
    let counted = Neo4jExec::build_batch(&vec![], &rows);
    assert_eq!(counted.rows, 3);
    assert!(counted.columns.is_empty());
}

#[test]
fn neo4j_types_have_columns() {
    assert_eq!(arrow_type_for("Long"), DataType::Int64);
    assert_eq!(arrow_type_for("Integer"), DataType::Int64);
    assert_eq!(arrow_type_for("Double"), DataType::Float64);
    assert_eq!(arrow_type_for("Float"), DataType::Float64);
    assert_eq!(arrow_type_for("Boolean"), DataType::Boolean);
    assert_eq!(arrow_type_for("String"), DataType::Utf8);
    assert_eq!(arrow_type_for("DateTime"), DataType::Utf8);
}

// ---- connector ----

fn settings(entries: Vec<(&str, &str)>) -> Parameters {
    let mut p = Parameters::new();
    for (k, v) in entries {
        p.set(k.to_string(), v.to_string());
    }
    p
}

#[test]
fn neo4j_settings_have_defaults() {
    let c = Neo4jFactory::new().create(&settings(vec![])).unwrap();
    assert_eq!(c.config.host, "localhost");
    assert_eq!(c.config.port, 7474);
    assert!(!c.config.secure);
    assert_eq!(c.config.database, "neo4j");
    assert_eq!(c.config.timeout_ms, 10_000);
    assert_eq!(c.config.connect_timeout_ms, 3_000);
    assert_eq!(c.config.max_retries, 2);
    assert_eq!(c.conn.base_url, "http://localhost:7474");
    assert_eq!(c.cypher, None);
}

#[test]
fn neo4j_settings_are_read() {
    let c = factory()
        .create(&settings(vec![
            ("host", "db"),
            ("port", "80"),
            ("secure", "yes"),
            ("database", ""),
            ("username", "u"),
            ("timeout_ms", "soon"),
            ("max_retries", "4294967297"),
            ("tls_skip_verify", "1"),
            ("tls_ca_cert", "/ca.pem"),
            ("cypher", "RETURN 1 AS x"),
        ]))
        .unwrap();
    assert_eq!(c.conn.base_url, "https://db:80");
    assert_eq!(c.config.database, "neo4j");
    assert_eq!(c.conn.auth, Some(("u".to_string(), String::new())));
    assert_eq!(c.config.timeout_ms, 10_000);
    assert_eq!(c.config.max_retries, 1);
    assert!(c.config.tls_skip_verify);
    assert_eq!(c.config.tls_ca_cert_path, Some("/ca.pem".to_string()));
    assert_eq!(c.cypher, Some("RETURN 1 AS x".to_string()));
}

#[test]
fn a_port_that_is_none_is_refused() {
    let error = |port: &str| Neo4jFactory::new().create(&settings(vec![("port", port)])).unwrap_err();
    assert_eq!(error("http"), "invalid port: invalid digit found in string");
    assert_eq!(error("65536"), "invalid port: number too large to fit in target type");
    assert!(Neo4jFactory::new().create(&settings(vec![("port", "+80")])).is_ok());
}

#[test]
fn neo4j_parameters_are_listed() {
    let f = Neo4jFactory::default();
    assert_eq!(f.prefix(), "neo4j");
    assert_eq!(CONNECTOR_NAME, "neo4j");
    assert_eq!(*Neo4jFactory::new_arc(), f);
    let params = f.parameters();
    assert_eq!(params.len(), 12);
    assert_eq!(params[1].name, "port");
    assert_eq!(params[1].default, Some("7474"));
    assert!(params[5].secret);
    assert_eq!(params[11].name, "cypher");
}

fn connector(cypher: Option<&str>) -> Neo4jConnector {
    let entries = match cypher {
        Some(c) => vec![("cypher", c)],
        None => vec![],
    };
    Neo4jFactory::new().create(&settings(entries)).unwrap()
}

#[test]
fn a_dataset_is_a_label_or_a_statement() {
    assert!(matches!(connector(None).source("Person"), Source::Label(l) if l == "Person"));
    assert!(matches!(connector(Some("RETURN 1 AS x")).source("knows"), Source::Cypher(c) if c == "RETURN 1 AS x"));
    let props = || Ok(vec![PropertyField { name: "age".to_string(), neo4j_type: "Long".to_string() }]);
    let scope = Some("asst_x".to_string());
    match Neo4jConnector::read_provider(Source::Label("Person".to_string()), props(), scope).unwrap() {
        Provider::Label(t) => {
            assert_eq!(t.label, "Person");
            assert_eq!(t.scope, Some("asst_x".to_string()));
            assert_eq!(t.schema[0].data_type, DataType::Int64);
        }
        other => panic!("{other:?}"),
    }
    match Neo4jConnector::read_provider(Source::Cypher("c".to_string()), props(), None).unwrap() {
        Provider::Cypher(t) => assert_eq!(t.cypher, "c"),
        other => panic!("{other:?}"),
    }
}

#[test]
fn a_dataset_without_columns_is_refused() {
    let label = || Source::Label("P".to_string());
    let cypher = || Source::Cypher("c".to_string());
    let fail = || Err(Neo4jError::Decode { message: "m".to_string() });
    assert_eq!(
        Neo4jConnector::read_provider(label(), Ok(vec![]), None).unwrap_err(),
        "label 'P' has no introspectable properties (unknown label, or the database has no nodes with it?)"
    );
    assert_eq!(
        Neo4jConnector::read_provider(label(), fail(), None).unwrap_err(),
        "describe label 'P': neo4j decode error: m"
    );
    assert_eq!(
        Neo4jConnector::read_provider(cypher(), Ok(vec![]), None).unwrap_err(),
        "cypher returned no columns to infer a schema"
    );
    assert_eq!(
        Neo4jConnector::read_provider(cypher(), fail(), None).unwrap_err(),
        "describe cypher: neo4j decode error: m"
    );
}
