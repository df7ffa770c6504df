use spice_connectors::batch::ColumnData;
use spice_connectors::columns::{DataType, Field, ProjectionError};
use spice_connectors::json::{JsonNumber, JsonValue, Row};
use spice_connectors::milvus::client::{
    CollectionField, ConnectionConfig, DescribeField, DescribeResponse, Hit, MilvusCollection,
    MilvusConnection, MilvusError, SearchResponse,
};
use spice_connectors::milvus::connector::{factory, MilvusFactory, CONNECTOR_NAME};
use spice_connectors::milvus::documents;
use spice_connectors::milvus::exec::{arrow_type_for, build_batch, MilvusExec, MilvusTextExec};
use spice_connectors::milvus::index::{
    configured_dimension, connection_config_from_params, parameters, require_partition_enabled,
    try_from_table, try_text_index_from_table, Findings, IndexKind, IndexTarget, MilvusTextIndex,
    MilvusVector, MilvusVectorsTable, Projected,
};
use spice_connectors::milvus::query_table::{CachedQueryVector, Embedding, MilvusQueryTable};
use spice_connectors::milvus::table_provider::{
    extract_milvus_filter, is_pushable, milvus_op, milvus_str, milvus_value, query_vector_literal,
    vector_refusal, MilvusTableProvider,
};
use spice_connectors::params::Parameters;
use spice_connectors::predicate::{Expr, Operator, PushDown, ScalarValue};
use spice_connectors::retry::{RetryStep, TransportError};

fn txt(s: &str) -> JsonValue {
    JsonValue::Text(s.to_string())
}

fn num(n: u64) -> JsonValue {
    JsonValue::Number(JsonNumber::PosInt(n))
}

fn float(s: &str) -> JsonValue {
    JsonValue::Number(JsonNumber::Float(s.to_string()))
}

fn row(entries: Vec<(&str, JsonValue)>) -> Row {
    let mut r = Row::new();
    for (name, value) in entries {
        r.insert(name.to_string(), value);
    }
    r
}

fn config(token: Option<&str>, max_retries: u32) -> ConnectionConfig {
    ConnectionConfig {
        host: "localhost".to_string(),
        port: 19530,
        secure: false,
        token: token.map(str::to_string),
        timeout_ms: 5000,
        connect_timeout_ms: 2000,
        max_retries,
        tls_skip_verify: false,
        tls_ca_cert_path: None,
    }
}

fn coll(metric: &str) -> MilvusCollection {
    MilvusCollection {
        collection: "c".to_string(),
        vector_field: "embedding".to_string(),
        metric: metric.to_string(),
        output_fields: vec!["title".to_string()],
        partition: None,
    }
}

fn found(code: i64, message: &str, data: Vec<Row>) -> SearchResponse {
    SearchResponse { code, message: message.to_string(), data }
}

fn status(code: u16) -> MilvusError {
    MilvusError::Http(TransportError {
        timeout: false,
        connect: false,
        request: false,
        status: Some(code),
        message: format!("status {code}"),
    })
}

/// The score of a hit as a number.
fn score(h: &Hit) -> f32 {
    let raw: f64 = h.score.number.as_deref().map_or(0.0, |s| s.parse().unwrap());
    if h.score.negated {
        -(raw as f32)
    } else {
        raw as f32
    }
}

fn schema() -> Vec<Field> {
    vec![
        Field::new("query_vector", DataType::Utf8, true),
        Field::new("category", DataType::Utf8, true),
        Field::new("year", DataType::Int64, true),
        Field::new("score", DataType::Float32, true),
    ]
}

fn column(name: &str) -> Box<Expr> {
    Box::new(Expr::Column(name.to_string()))
}

fn lit_str(s: &str) -> Expr {
    Expr::Literal(ScalarValue::Utf8(Some(s.to_string())))
}

fn lit_int(n: i64) -> Expr {
    Expr::Literal(ScalarValue::Int64(Some(n)))
}

fn binary(name: &str, op: Operator, right: Expr) -> Expr {
    Expr::BinaryExpr { left: column(name), op, right: Box::new(right) }
}

fn eq(name: &str, right: Expr) -> Expr {
    binary(name, Operator::Eq, right)
}

fn in_list(name: &str, list: Vec<Expr>) -> Expr {
    Expr::InList { expr: column(name), list, negated: false }
}

fn extract_query_vector(filters: &Vec<Expr>) -> Option<Vec<f32>> {
    query_vector_literal(filters).and_then(|s| serde_json::from_str(s).ok())
}

// ---- client ----

#[test]
fn cosine_score_is_passed_through() {
    let c = coll("COSINE");
    let reply = found(0, "", vec![row(vec![("title", txt("x")), ("distance", float("0.9"))])]);
    let hits = MilvusConnection::read_hits(reply, c.is_distance_metric()).unwrap();
    assert_eq!(hits.len(), 1);
    assert!((score(&hits[0]) - 0.9).abs() < 1e-6);
    assert_eq!(hits[0].fields.get("title").and_then(JsonValue::as_str), Some("x"));
    assert!(hits[0].fields.get("distance").is_none());
}

#[test]
fn l2_score_is_negated_higher_is_better() {
    let reply = found(0, "", vec![row(vec![("distance", float("4.0"))])]);
    let hits = MilvusConnection::read_hits(reply, coll("L2").is_distance_metric()).unwrap();
    assert!((score(&hits[0]) - (-4.0)).abs() < 1e-6);
    assert!(coll("l2").is_distance_metric());
    assert!(!coll("IP").is_distance_metric());
}

#[test]
fn a_score_stands_in_for_a_missing_distance() {
    let rows = vec![
        row(vec![("score", num(2)), ("a", num(1))]),
        row(vec![("a", num(1))]),
        row(vec![("distance", txt("near")), ("score", num(2))]),
    ];
    let hits = MilvusConnection::read_hits(found(0, "", rows), false).unwrap();
    assert_eq!(hits[0].score.number, Some("2".to_string()));
    assert!(hits[0].fields.get("score").is_none());
    assert_eq!(hits[1].score.number, None);
    assert_eq!(score(&hits[1]), 0.0);
    // a distance that is no number counts as zero, and the score stays where it is
    assert_eq!(hits[2].score.number, None);
    assert!(hits[2].fields.get("score").is_some());
}

#[test]
fn api_error_code_is_not_retried() {
    let err = MilvusConnection::read_hits(found(100, "collection not found", vec![]), false).unwrap_err();
    assert!(matches!(err, MilvusError::Api { code: 100, .. }));
    assert_eq!(err.text(), "milvus api error 100: collection not found");
    let mut tries = MilvusConnection::new(&config(None, 3)).tries();
    assert_eq!(tries.after_failure(err.is_retryable(), 0), RetryStep::GiveUp);
}

#[test]
fn milvus_transient_5xx_is_retried_then_succeeds() {
    let mut tries = MilvusConnection::new(&config(None, 3)).tries();
    assert_eq!(
        tries.after_failure(status(503).is_retryable(), 0),
        RetryStep::Again { after_ms: 200 }
    );
    assert_eq!(
        tries.after_failure(status(503).is_retryable(), 0),
        RetryStep::Again { after_ms: 400 }
    );
    let hits = MilvusConnection::read_hits(found(0, "", vec![]), false).unwrap();
    assert!(hits.is_empty());
}

#[test]
fn bearer_token_is_sent() {
    let conn = MilvusConnection::new(&config(Some("secret-token"), 0));
    assert_eq!(conn.token, Some("secret-token".to_string()));
    assert_eq!(conn.search_url(), "http://localhost:19530/v2/vectordb/entities/search");
    assert_eq!(conn.describe_url(), "http://localhost:19530/v2/vectordb/collections/describe");
}

#[test]
fn milvus_malformed_json_is_decode_error() {
    let err = MilvusError::Decode("expected value".to_string());
    assert!(!err.is_retryable());
    assert_eq!(err.text(), "milvus decode error: expected value");
    assert_eq!(MilvusError::Build("b".to_string()).text(), "milvus client build error: b");
    assert_eq!(status(400).text(), "milvus http error: status 400");
    assert!(!status(400).is_retryable());
}

#[test]
fn describe_parses_fields_and_flags_vector() {
    let field = |name: &str, ty: &str| DescribeField {
        name: name.to_string(),
        milvus_type: ty.to_string(),
    };
    let reply = DescribeResponse {
        code: 0,
        message: String::new(),
        fields: vec![field("id", "Int64"), field("title", "VarChar"), field("embedding", "FloatVector")],
    };
    let fields = MilvusConnection::describe_collection(reply).unwrap();
    assert_eq!(fields.len(), 3);
    assert!(fields.iter().find(|f| f.name == "embedding").unwrap().is_vector);
    assert!(!fields.iter().find(|f| f.name == "id").unwrap().is_vector);
    let refused = DescribeResponse { code: -1, message: "no".to_string(), fields: vec![] };
    assert_eq!(
        MilvusConnection::describe_collection(refused).unwrap_err().text(),
        "milvus api error -1: no"
    );
    // outside ASCII, letters have lower-case forms of their own
    let odd = DescribeResponse {
        code: 0,
        message: String::new(),
        fields: vec![field("a", "ÄVECTOR"), field("b", "VECTO\u{130}")],
    };
    let fields = MilvusConnection::describe_collection(odd).unwrap();
    assert!(fields[0].is_vector);
    assert!(!fields[1].is_vector);
}

#[test]
fn a_search_asks_for_what_the_collection_says() {
    let mut c = coll("IP");
    c.partition = Some("tenant".to_string());
    let body = MilvusConnection::search(&c, vec![0.5f32, 0.25], 7, Some("year > 1".to_string()));
    assert_eq!(body.collection_name, "c");
    assert_eq!(body.data, vec![vec![0.5f32, 0.25]]);
    assert_eq!(body.anns_field, "embedding");
    assert_eq!(body.limit, 7);
    assert_eq!(body.output_fields, vec!["title"]);
    assert_eq!(body.filter, Some("year > 1".to_string()));
    assert_eq!(body.metric_type, "IP");
    assert_eq!(body.partition_names, vec!["tenant"]);
    assert!(MilvusConnection::search(&coll("IP"), 1u8, 7, None).partition_names.is_empty());
}

// ---- table provider ----

#[test]
fn extracts_query_vector_from_predicate() {
    let filters = vec![eq("query_vector", lit_str("[0.1,0.2,0.3]"))];
    assert_eq!(extract_query_vector(&filters), Some(vec![0.1, 0.2, 0.3]));
}

#[test]
fn no_query_vector_returns_none() {
    let filters = vec![eq("year", lit_int(3))];
    assert_eq!(extract_query_vector(&filters), None);
}

#[test]
fn builds_filter_from_eq_predicates_on_any_scalar_column() {
    let filters = vec![
        eq("query_vector", lit_str("[0.1]")), // the search vector -- not a filter
        eq("year", lit_int(3)),
        eq("category", lit_str("news")),
    ];
    assert_eq!(
        extract_milvus_filter(&filters, &schema()),
        Some(r#"year == 3 and category == "news""#.to_string())
    );
}

#[test]
fn comparison_operators_push_down() {
    assert_eq!(
        extract_milvus_filter(&vec![binary("year", Operator::Gt, lit_int(2000))], &schema()),
        Some("year > 2000".to_string())
    );
}

#[test]
fn builds_in_list_filter() {
    let filters = vec![in_list("category", vec![lit_str("news"), lit_str("blog")])];
    assert_eq!(
        extract_milvus_filter(&filters, &schema()),
        Some(r#"category in ["news", "blog"]"#.to_string())
    );
}

#[test]
fn pushdown_classification() {
    let s = schema();
    assert!(is_pushable(&eq("query_vector", lit_str("[0.1]")), &s));
    assert!(is_pushable(&eq("year", lit_int(3)), &s)); // any scalar column
    assert!(is_pushable(&in_list("category", vec![lit_str("news")]), &s));
    assert!(!is_pushable(&eq("missing", lit_str("x")), &s)); // not in the schema
    let one = Expr::Literal(ScalarValue::Float32(Some("1".to_string())));
    assert!(!is_pushable(&eq("score", one), &s)); // synthetic column
}

#[test]
fn a_search_needs_an_embedding() {
    let t = MilvusTableProvider::new(coll("COSINE"), schema());
    assert_eq!(
        t.scan(&vec![eq("year", lit_int(3))], None).unwrap_err(),
        "milvus: a query embedding is required, e.g. WHERE query_vector = '[0.1, 0.2, ...]'"
    );
    let filters = vec![
        eq("query_vector", lit_int(1)),
        eq("query_vector", lit_str("[1]")),
        eq("query_vector", lit_str("[2]")),
        binary("year", Operator::LtEq, lit_int(3)),
        Expr::Other,
    ];
    let s = t.scan(&filters, None).unwrap();
    assert_eq!(s.query_vector, "[1]");
    assert_eq!(s.filter, Some("year <= 3".to_string()));
    assert_eq!(s.top_k, 50);
    assert_eq!(t.scan(&filters, Some(5)).unwrap().top_k, 5);
    assert_eq!(
        t.supports_filters_pushdown(&filters),
        vec![PushDown::Exact, PushDown::Exact, PushDown::Exact, PushDown::Exact, PushDown::Unsupported]
    );
    assert_eq!(
        vector_refusal("bad"),
        "milvus: query_vector must be a JSON array of floats matching the collection's vector dimension (e.g. '[0.1, 0.2]'): bad"
    );
}

#[test]
fn literals_and_operators_in_a_filter() {
    assert_eq!(milvus_str(r#"a"b\c"#), r#""a\"b\\c""#);
    assert_eq!(milvus_value(&ScalarValue::Boolean(Some(false))), Some("false".to_string()));
    assert_eq!(milvus_value(&ScalarValue::Int64(None)), None);
    assert_eq!(milvus_op(Operator::Eq), Some("=="));
    assert_eq!(milvus_op(Operator::NotEq), Some("!="));
    assert_eq!(milvus_op(Operator::Other), None);
}

// ---- exec ----

fn hit(fields: Vec<(&str, JsonValue)>) -> Hit {
    let mut data = fields;
    data.push(("distance", float("0.5")));
    MilvusConnection::read_hits(found(0, "", vec![row(data)]), true).unwrap().pop().unwrap()
}

#[test]
fn milvus_types_have_columns() {
    assert_eq!(arrow_type_for("Bool"), DataType::Boolean);
    assert_eq!(arrow_type_for("Int8"), DataType::Int32);
    assert_eq!(arrow_type_for("Int16"), DataType::Int32);
    assert_eq!(arrow_type_for("Int32"), DataType::Int32);
    assert_eq!(arrow_type_for("Int64"), DataType::Int64);
    assert_eq!(arrow_type_for("Float"), DataType::Float32);
    assert_eq!(arrow_type_for("Double"), DataType::Float64);
    assert_eq!(arrow_type_for("VarChar"), DataType::Utf8);
}

#[test]
fn hits_become_typed_columns() {
    let full = vec![
        Field::new("query_vector", DataType::Utf8, true),
        Field::new("n", DataType::Int32, true),
        Field::new("f", DataType::Float32, true),
        Field::new("score", DataType::Float32, true),
    ];
    let hits = vec![
        hit(vec![("n", num(4294967297)), ("f", float("1.5"))]),
        hit(vec![("n", num(2147483648)), ("query_vector", txt("[1]"))]),
        hit(vec![("n", JsonValue::Number(JsonNumber::NegInt(-1)))]),
    ];
    let batch = build_batch(&full, &None, &hits).unwrap();
    assert_eq!(batch.rows, 3);
    match &batch.columns[0] {
        ColumnData::Utf8(v) => assert_eq!(v, &vec![None, None, None]),
        other => panic!("{other:?}"),
    }
    match &batch.columns[1] {
        ColumnData::Int32(v) => assert_eq!(v, &vec![Some(1), Some(i32::MIN), Some(-1)]),
        other => panic!("{other:?}"),
    }
    match &batch.columns[2] {
        ColumnData::Float32(v) => assert_eq!(v, &vec![Some("1.5".to_string()), None, None]),
        other => panic!("{other:?}"),
    }
    match &batch.columns[3] {
        ColumnData::Scores(v) => {
            assert!(v[0].negated);
            assert_eq!(v[0].number, Some("0.5".to_string()));
        }
        other => panic!("{other:?}"),
    }
    let some = build_batch(&full, &Some(vec![3, 1]), &hits).unwrap();
    assert_eq!(some.columns.len(), 2);
    assert!(matches!(some.columns[0], ColumnData::Scores(_)));
    assert!(matches!(some.columns[1], ColumnData::Int32(_)));
    assert_eq!(
        build_batch(&full, &Some(vec![4]), &hits).unwrap_err(),
        ProjectionError { index: 4, columns: 4 }
    );
}

#[test]
fn a_search_fetches_only_what_it_returns() {
    let e = MilvusExec::new(coll("IP"), schema(), 1u8, None, 3, Some(vec![0, 2, 3])).unwrap();
    assert_eq!(e.coll.output_fields, vec!["year"]);
    assert_eq!(e.projected_schema.len(), 3);
    assert_eq!(e.full_schema.len(), 4);
    let e = MilvusExec::new(coll("IP"), schema(), 1u8, None, 3, None).unwrap();
    assert_eq!(e.coll.output_fields, vec!["category", "year"]);
    assert!(MilvusExec::new(coll("IP"), schema(), 1u8, None, 3, Some(vec![9])).is_err());
    let t = MilvusTextExec::new(coll("BM25"), schema(), "q".to_string(), None, 3, Some(vec![0, 3])).unwrap();
    assert_eq!(t.coll.output_fields, vec!["query_vector"]);
    assert_eq!(t.query, "q");
    assert!(MilvusTextExec::new(coll("BM25"), schema(), "q".to_string(), None, 3, Some(vec![9])).is_err());
}

#[test]
fn documents_have_a_fixed_layout() {
    let names: Vec<String> = documents::table_schema().into_iter().map(|f| f.name).collect();
    assert_eq!(
        names,
        vec!["query_vector", "doc_type", "source_id", "product_id", "title", "text", "score"]
    );
    let hits = vec![hit(vec![("title", txt("t")), ("text", num(5)), ("source_id", num(9))])];
    let batch = documents::build_batch(&Some(vec![4, 5, 2]), &hits);
    match (&batch.columns[0], &batch.columns[1], &batch.columns[2]) {
        (ColumnData::Utf8(a), ColumnData::Utf8(b), ColumnData::Int64(c)) => {
            assert_eq!(a, &vec![Some("t".to_string())]);
            assert_eq!(b, &vec![None]); // no text
            assert_eq!(c, &vec![Some(9)]);
        }
        other => panic!("{other:?}"),
    }
    assert_eq!(documents::build_batch(&None, &hits).columns.len(), 7);
    let e = documents::MilvusExec::new(coll("IP"), 1u8, None, 3, Some(vec![6])).unwrap();
    assert_eq!(e.projected_schema[0].name, "score");
    assert!(documents::MilvusExec::new(coll("IP"), 1u8, None, 3, Some(vec![7])).is_err());
}

// ---- connector ----

fn settings(entries: Vec<(&str, &str)>) -> Parameters {
    let mut p = Parameters::new();
    for (k, v) in entries {
        p.set(k.to_string(), v.to_string());
    }
    p
}

fn field(name: &str, ty: &str, is_vector: bool) -> CollectionField {
    CollectionField { name: name.to_string(), milvus_type: ty.to_string(), is_vector }
}

fn fields() -> Vec<CollectionField> {
    vec![
        field("id", "Int64", false),
        field("dense", "FloatVector", true),
        field("text", "VarChar", false),
        field("sparse", "SparseFloatVector", true),
    ]
}

#[test]
fn milvus_settings_have_defaults() {
    let c = MilvusFactory::new().create(&settings(vec![])).unwrap();
    assert_eq!(c.conn.base_url, "http://localhost:19530");
    assert_eq!(c.config.token, None);
    assert_eq!(c.config.timeout_ms, 10_000);
    assert_eq!(c.config.max_retries, 2);
    assert_eq!(c.metric, "COSINE");
    assert_eq!(c.vector_field, "");
    assert!(c.output_fields.is_empty());
}

#[test]
fn milvus_settings_are_read() {
    let c = factory()
        .create(&settings(vec![
            ("username", "u"),
            ("password", "p"),
            ("metric", "L2"),
            ("output_fields", " a ,, b,"),
            ("tls_skip_verify", "true"),
            ("tls_ca_cert", "/ca.pem"),
        ]))
        .unwrap();
    assert_eq!(c.conn.token, Some("u:p".to_string()));
    assert_eq!(c.metric, "L2");
    assert_eq!(c.output_fields, vec!["a", "b"]);
    assert!(c.config.tls_skip_verify);
    assert_eq!(c.config.tls_ca_cert_path, Some("/ca.pem".to_string()));
    let c = MilvusFactory::new()
        .create(&settings(vec![("token", "t"), ("username", "u"), ("password", "p")]))
        .unwrap();
    assert_eq!(c.conn.token, Some("t".to_string()));
    assert_eq!(
        MilvusFactory::new().create(&settings(vec![("port", "x")])).unwrap_err(),
        "invalid port: invalid digit found in string"
    );
}

#[test]
fn milvus_parameters_are_listed() {
    let f = MilvusFactory::default();
    assert_eq!(f.prefix(), "milvus");
    assert_eq!(CONNECTOR_NAME, "milvus");
    assert_eq!(*MilvusFactory::new_arc(), f);
    let names: Vec<&str> = f.parameters().iter().map(|p| p.name).collect();
    assert!(names.contains(&"tls_ca_cert") && names.contains(&"tls_skip_verify"));
    assert_eq!(names.len(), 14);
}

#[test]
fn a_collection_becomes_a_table() {
    let c = MilvusFactory::new().create(&settings(vec![])).unwrap();
    let t = c.read_provider("docs".to_string(), Ok(fields())).unwrap();
    assert_eq!(t.coll.collection, "docs");
    assert_eq!(t.coll.vector_field, "dense");
    assert_eq!(t.coll.output_fields, vec!["id", "text"]);
    let names: Vec<&str> = t.schema.iter().map(|f| f.name.as_str()).collect();
    assert_eq!(names, vec!["query_vector", "id", "text", "score"]);
    assert_eq!(t.schema[1].data_type, DataType::Int64);
    let set = MilvusFactory::new()
        .create(&settings(vec![("vector_field", "sparse"), ("output_fields", "text,missing")]))
        .unwrap();
    let t = set.read_provider("docs".to_string(), Ok(fields())).unwrap();
    assert_eq!(t.coll.vector_field, "sparse");
    assert_eq!(t.schema[2].name, "missing");
    assert_eq!(t.schema[2].data_type, DataType::Utf8);
}

#[test]
fn a_collection_that_cannot_be_searched_is_refused() {
    let c = MilvusFactory::new().create(&settings(vec![])).unwrap();
    assert_eq!(
        c.read_provider("docs".to_string(), Ok(vec![field("id", "Int64", false)])).unwrap_err(),
        "collection 'docs' has no vector field"
    );
    assert_eq!(
        c.read_provider("docs".to_string(), Err(status(404))).unwrap_err(),
        "describe collection 'docs': milvus http error: status 404"
    );
}

// ---- indexes ----

fn base() -> Vec<Field> {
    vec![Field::new("id", DataType::Int64, false), Field::new("body", DataType::Utf8, true)]
}

fn target(keys: Vec<&str>, schema: &Vec<Field>) -> IndexTarget {
    IndexTarget::new(
        "ds".to_string(),
        "body".to_string(),
        None,
        keys.into_iter().map(str::to_string).collect(),
        schema,
    )
}

fn findings() -> Findings {
    Findings { connected: Ok(()), described: Ok(fields()) }
}

fn vector(t: IndexTarget, s: &Parameters, process: Option<&str>) -> Result<MilvusVector, String> {
    try_from_table(t, "m", true, s, &process.map(str::to_string), findings(), Some(4), Ok(8))
}

#[test]
fn a_vector_index_returns_the_key_and_the_score() {
    let s = settings(vec![("collection", "docs"), ("partition", "p")]);
    let v = vector(target(vec!["id", "missing"], &base()), &s, None).unwrap();
    assert_eq!(v.table.coll.vector_field, "dense");
    assert_eq!(v.table.coll.metric, "COSINE");
    assert_eq!(v.table.coll.output_fields, vec!["id"]);
    assert_eq!(v.table.coll.partition, Some("p".to_string()));
    let names: Vec<&str> = v.table.schema.iter().map(|f| f.name.as_str()).collect();
    assert_eq!(names, vec!["id", "score"]);
    assert!(!v.table.schema[1].nullable);
    assert_eq!(v.dimension(), 4);
    assert_eq!(v.name(), "milvus_vector_index");
    assert_eq!(v.required_columns(), vec!["id", "body"]);
    assert_eq!(v.search_column(), "body");
    assert_eq!(v.primary_fields().len(), 1);
    assert!(v.derived_columns().is_empty());
    let p = v.query_projection();
    assert!(matches!(&p[0], Projected::Column(c) if c == "id"));
    assert!(matches!(&p[1], Projected::Score));
}

#[test]
fn a_milvus_table_returns_every_scalar_field() {
    let s = settings(vec![("collection", "docs"), ("sparse_field", "sp")]);
    let mut schema = base();
    schema.push(Field::new("query_vector", DataType::Utf8, true));
    let v = vector(target(vec!["id"], &schema), &s, None).unwrap();
    assert_eq!(v.table.coll.output_fields, vec!["id", "text"]);
    let t = try_text_index_from_table(target(vec!["id"], &schema), &s, &None, findings(), None)
        .unwrap()
        .unwrap();
    assert_eq!(t.table.coll.vector_field, "sp");
    assert_eq!(t.table.coll.metric, "BM25");
    assert_eq!(t.table.coll.output_fields, vec!["id", "text"]);
    let p = t.query_projection();
    assert_eq!(p.len(), 3);
    assert!(matches!(&p[1], Projected::Column(c) if c == "text"));
    assert!(matches!(&p[2], Projected::Score));
    assert_eq!(t.name(), "milvus_text_index");
    assert_eq!(t.required_columns(), vec!["id", "body"]);
    assert_eq!(t.search_column(), "body");
    assert_eq!(t.primary_fields().len(), 1);
}

#[test]
fn a_required_partition_fails_closed() {
    let open = settings(vec![("collection", "docs"), ("sparse_field", "sp"), ("partition", "")]);
    let closed = settings(vec![
        ("collection", "docs"),
        ("sparse_field", "sp"),
        ("require_partition", "true"),
    ]);
    assert!(vector(target(vec!["id"], &base()), &open, None).is_ok());
    let refused = "Milvus vector index for table 'ds' requires `milvus_partition` (require_partition / SPICE_MILVUS_REQUIRE_PARTITION set) but it is empty — refusing to serve an unscoped (whole-collection) vector_search";
    assert_eq!(vector(target(vec!["id"], &base()), &closed, None).unwrap_err(), refused);
    assert_eq!(vector(target(vec!["id"], &base()), &open, Some("1")).unwrap_err(), refused);
    assert_eq!(
        try_text_index_from_table(target(vec!["id"], &base()), &closed, &None, findings(), None).unwrap_err(),
        "Milvus full-text index for table 'ds' requires `milvus_partition` (require_partition / SPICE_MILVUS_REQUIRE_PARTITION set) but it is empty — refusing to serve an unscoped (whole-collection) text_search"
    );
    assert!(require_partition_enabled(&closed, &None));
    assert!(!require_partition_enabled(&open, &Some("no".to_string())));
}

#[test]
fn what_stands_against_an_index_is_named() {
    let s = settings(vec![("collection", "docs")]);
    let none = settings(vec![]);
    assert_eq!(
        vector(target(vec![], &base()), &s, None).unwrap_err(),
        "Cannot make a Milvus vector index for table 'ds' column 'body': no primary key. Set `row_ids` on the embedding, or a primary key on the dataset."
    );
    assert_eq!(
        try_from_table(target(vec!["id"], &base()), "m", false, &s, &None, findings(), None, Ok(8)).unwrap_err(),
        "Cannot make a Milvus vector index for table 'ds' column 'body': embedding model 'm' is not defined in the Spicepod or failed to load."
    );
    assert_eq!(
        vector(target(vec!["id"], &base()), &none, None).unwrap_err(),
        "Milvus vector index for table 'ds' requires `milvus_collection`."
    );
    assert_eq!(
        target(vec!["id"], &base()).collection(IndexKind::FullText, &none).unwrap_err(),
        "Milvus full-text index for table 'ds' requires `milvus_collection`."
    );
    let with = |f: Findings, size: Option<usize>, inferred: Result<i32, String>| {
        try_from_table(target(vec!["id"], &base()), "m", true, &s, &None, f, size, inferred)
    };
    let unreached = Findings { connected: Err(MilvusError::Build("b".to_string())), described: Ok(vec![]) };
    assert_eq!(with(unreached, None, Ok(1)).unwrap_err(), "milvus client build error: b");
    let undescribed = Findings { connected: Ok(()), described: Err(status(500)) };
    assert_eq!(with(undescribed, None, Ok(1)).unwrap_err(), "milvus http error: status 500");
    let vectorless = Findings { connected: Ok(()), described: Ok(vec![field("id", "Int64", false)]) };
    assert_eq!(
        with(vectorless, None, Ok(1)).unwrap_err(),
        "No vector field found in Milvus collection 'docs'. Set `milvus_vector_field`."
    );
    assert_eq!(with(findings(), None, Err("no size".to_string())).unwrap_err(), "no size");
    assert_eq!(with(findings(), None, Ok(8)).unwrap().dimension, 8);
}

#[test]
fn a_text_index_is_left_out_where_it_cannot_be() {
    let s = settings(vec![("collection", "docs")]);
    let with = |t: IndexTarget, discovered: Option<&str>| {
        try_text_index_from_table(t, &s, &None, findings(), discovered.map(str::to_string)).unwrap()
    };
    assert!(with(target(vec![], &base()), Some("sp")).is_none());
    assert!(with(target(vec!["id"], &base()), None).is_none());
    let found = with(target(vec!["id"], &base()), Some("sp")).unwrap();
    assert_eq!(found.table.coll.vector_field, "sp");
    assert_eq!(found.table.dimension, 0);
}

#[test]
fn row_ids_come_before_the_primary_key() {
    let t = IndexTarget::new(
        "ds".to_string(),
        "c".to_string(),
        Some(vec!["body".to_string()]),
        vec!["id".to_string()],
        &base(),
    );
    assert_eq!(t.primary_key.len(), 1);
    assert_eq!(t.primary_key[0].name, "body");
    assert!(!t.milvus_only);
}

#[test]
fn index_settings_are_read_as_they_stand() {
    let c = connection_config_from_params(&settings(vec![("host", ""), ("port", "x"), ("max_retries", "9")]));
    assert_eq!(c.host, "");
    assert_eq!(c.port, 19530);
    assert_eq!(c.max_retries, 9);
    assert_eq!(connection_config_from_params(&settings(vec![("port", "65535")])).port, 65535);
    assert_eq!(parameters().len(), 17);
    assert_eq!(configured_dimension(Some(5_000_000_000)), Some(i32::MAX));
    assert_eq!(configured_dimension(Some(768)), Some(768));
    assert_eq!(configured_dimension(None), None);
}

fn table() -> MilvusVectorsTable {
    MilvusVectorsTable::new(coll("IP"), schema(), 3)
}

#[test]
fn indexes_cannot_be_written() {
    assert_eq!(
        MilvusVector::write_refusal(),
        "milvus_vector_index: write/ingestion is not implemented; populate the Milvus collection out-of-band"
    );
    assert_eq!(
        MilvusTextIndex::write_refusal(),
        "milvus_text_index: write/ingestion is not implemented; populate the Milvus collection out-of-band"
    );
    assert_eq!(
        MilvusVector::list_refusal(),
        "milvus_vector_index: list_table_provider is not implemented"
    );
    let v = MilvusVector::new(table(), "c".to_string(), vec![], i64::MAX);
    assert_eq!(v.dimension(), i32::MAX);
}

#[test]
fn an_embedding_is_computed_once() {
    let mut c: CachedQueryVector<Vec<f32>> = CachedQueryVector::new("q".to_string());
    assert!(matches!(c.compute_vector("q"), Embedding::Unknown));
    assert!(matches!(
        c.compute_vector("other"),
        Embedding::Refused("CachedQueryVector called with different query than it was constructed with")
    ));
    c.keep(Ok(vec![1.0]));
    c.keep(Ok(vec![2.0]));
    assert!(matches!(c.compute_vector("q"), Embedding::Known(Ok(v)) if v == &vec![1.0]));
}

#[test]
fn a_query_table_searches_without_a_filter() {
    let t = MilvusQueryTable::new(table(), "q".to_string());
    let e = t.scan(Some(vec![2]), vec![1.0f32], None).unwrap();
    assert_eq!(e.limit, 50);
    assert_eq!(e.filter, None);
    assert_eq!(e.coll.output_fields, vec!["year"]);
    assert!(t.scan(Some(vec![9]), vec![1.0f32], Some(1)).is_err());
    assert_eq!(t.supports_filters_pushdown(&vec![Expr::Other]), vec![PushDown::Unsupported]);
}
