use spice_connectors::graph_discovery::{
    distinct_strings, graph_query_sql, is_neo4j_from, label_properties, labels_without_scope,
    neo4j_graph_schema, parse_label_set, schema_key, scope_of, strip_scope, triples, Discovery,
    GraphSchema, PropertyRow, TripleRow, LABELS_CYPHER, ONTOLOGY_CYPHER, PROPERTIES_CYPHER,
    RELATIONSHIPS_CYPHER,
};
use spice_connectors::neo4j::graph_query::safe_statement;

fn some(s: &str) -> Option<String> {
    Some(s.to_string())
}

#[test]
fn is_neo4j_from_matches_only_the_neo4j_connector() {
    assert!(is_neo4j_from("neo4j:Chunk"));
    assert!(is_neo4j_from("  NEO4J:Entity"));
    assert!(!is_neo4j_from("milvus:pixer_lite"));
    assert!(!is_neo4j_from("postgres:public.foo"));
}

#[test]
fn parse_label_set_drops_the_tenant_label() {
    assert_eq!(
        parse_label_set(r#"["Entity","patient","asst_42"]"#, "asst_42"),
        vec!["Entity".to_string(), "patient".to_string()]
    );
    // No scope configured -> nothing stripped.
    assert_eq!(parse_label_set(r#"["Chunk"]"#, ""), vec!["Chunk".to_string()]);
    // Malformed input is tolerated (best-effort discovery).
    assert!(parse_label_set("not json", "asst_42").is_empty());
}

#[test]
fn strip_scope_is_a_noop_without_a_scope() {
    let mut labels = vec!["Entity".to_string(), "asst_42".to_string()];
    strip_scope(&mut labels, "");
    assert_eq!(labels.len(), 2);
    strip_scope(&mut labels, "asst_42");
    assert_eq!(labels, vec!["Entity".to_string()]);
}

#[test]
fn labels_that_could_not_be_read_are_none() {
    assert!(labels_without_scope(None, "asst_42").is_empty());
    assert_eq!(labels_without_scope(Some(vec!["a".to_string()]), ""), vec!["a"]);
    assert!(parse_label_set("[1]", "").is_empty());
    assert!(parse_label_set(r#"{"a": "b"}"#, "").is_empty());
    assert_eq!(parse_label_set(r#"["é"]"#, ""), vec!["é"]);
}

#[test]
fn distinct_values_are_sorted() {
    assert_eq!(
        distinct_strings(&vec![some("b"), None, some("a"), some("b"), some("B"), some("ab")]),
        vec!["B", "a", "ab", "b"]
    );
}

fn triple(s: &str, r: &str, o: &str) -> TripleRow {
    TripleRow { s: some(s), r: some(r), o: some(o) }
}

#[test]
fn triples_are_sorted_and_distinct() {
    let rows = vec![
        triple(r#"["Entity","x"]"#, "R", r#"["B"]"#),
        triple(r#"["Entity"]"#, "R", r#"["B","asst"]"#),
        TripleRow { s: some("[]"), r: None, o: some("[]") },
        triple(r#"["Entity","asst"]"#, "R", r#"["B"]"#),
        triple(r#"["Entity"]"#, "Q", r#"["C"]"#),
        triple(r#"["Entity"]"#, "R", r#"["A"]"#),
    ];
    let found: Vec<(Vec<String>, String, Vec<String>)> =
        triples(&rows, "asst").into_iter().map(|t| (t.subject, t.rel, t.object)).collect();
    let one = |v: &[&str]| v.iter().map(|s| s.to_string()).collect::<Vec<String>>();
    assert_eq!(
        found,
        vec![
            (one(&["Entity"]), "Q".to_string(), one(&["C"])),
            (one(&["Entity"]), "R".to_string(), one(&["A"])),
            (one(&["Entity"]), "R".to_string(), one(&["B"])),
            (one(&["Entity", "x"]), "R".to_string(), one(&["B"])),
        ]
    );
}

#[test]
fn properties_are_grouped_by_label() {
    let row = |s: Option<String>, o: Option<String>| PropertyRow { s, o };
    let rows = vec![
        row(some("patient"), some("name")),
        row(some("Entity"), some("id")),
        row(some("asst"), some("id")),
        row(some("Entity"), None),
        row(some("patient"), some("age")),
        row(some("patient"), some("name")),
    ];
    let found: Vec<(String, Vec<String>)> =
        label_properties(&rows, "asst").into_iter().map(|l| (l.label, l.properties)).collect();
    assert_eq!(
        found,
        vec![
            ("Entity".to_string(), vec!["id".to_string()]),
            ("patient".to_string(), vec!["age".to_string(), "name".to_string()]),
        ]
    );
    assert_eq!(label_properties(&rows, "").len(), 3);
}

#[test]
fn a_schema_needs_all_but_the_properties() {
    let full = || Discovery {
        labels: Some(vec![some("asst"), some("Entity")]),
        relationships: Some(vec![some("R")]),
        triples: Some(vec![triple(r#"["Entity"]"#, "R", r#"["Entity"]"#)]),
        properties: None,
    };
    let g = neo4j_graph_schema(&full(), "asst").unwrap();
    assert_eq!(g.node_labels, vec!["Entity"]);
    assert_eq!(g.relationship_types, vec!["R"]);
    assert_eq!(g.ontology.len(), 1);
    assert!(g.node_properties.is_empty());
    let mut d = full();
    d.triples = None;
    assert_eq!(neo4j_graph_schema(&d, "").unwrap_err(), "ontology discovery failed");
    d.relationships = None;
    assert_eq!(neo4j_graph_schema(&d, "").unwrap_err(), "relationship-type discovery failed");
    d.labels = None;
    assert_eq!(neo4j_graph_schema(&d, "").unwrap_err(), "node-label discovery failed");
    assert!(GraphSchema::default().node_labels.is_empty());
}

#[test]
fn discovery_runs_through_graph_query() {
    assert_eq!(
        graph_query_sql("o'brien", "RETURN 'x' AS v", "v"),
        "SELECT v FROM graph_query('o''brien', 'RETURN ''x'' AS v')"
    );
    let scope = some("asst_x");
    let scoped = |c: &str| safe_statement(c, &scope, 0).unwrap();
    assert_eq!(scoped(LABELS_CYPHER), "MATCH (n:`asst_x`) UNWIND labels(n) AS v RETURN DISTINCT v");
    assert_eq!(
        scoped(RELATIONSHIPS_CYPHER),
        "MATCH (:`asst_x`)-[r]->(:`asst_x`) RETURN DISTINCT type(r) AS v"
    );
    assert!(safe_statement(ONTOLOGY_CYPHER, &scope, 0).is_ok());
    assert!(safe_statement(PROPERTIES_CYPHER, &scope, 0).is_ok());
}

#[test]
fn what_was_discovered_is_kept_by_dataset_and_scope() {
    assert_eq!(schema_key("kg", "asst_x"), "kg\u{0}asst_x");
    assert_eq!(scope_of(&some(" asst_x\n")), "asst_x");
    assert_eq!(scope_of(&None), "");
}
