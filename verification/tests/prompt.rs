use spice_connectors::nsql::prompt::{
    create_prompt, failed_attempts_formatted, FailedAttempt, QueryGenerationContext,
};

#[test]
fn prompt_omits_vector_search_without_semantic_tables() {
    let prompt = create_prompt("any question", &QueryGenerationContext::default());
    assert!(!prompt.contains("vector_search"));
    assert!(!prompt.contains("Semantic search"));
}

#[test]
fn prompt_injects_vector_search_with_bare_identifier_guidance() {
    let ctx = QueryGenerationContext {
        semantic_search_tables: vec!["ihi_search".to_string()],
        ..Default::default()
    };
    let prompt = create_prompt("text about ED overcrowding", &ctx);

    // It names the searchable table and steers the model to vector_search.
    assert!(prompt.contains("Semantic search"));
    assert!(prompt.contains("ihi_search"));
    assert!(prompt.contains("vector_search"));
    // The two failure modes seen with smaller models are called out:
    // (1) the first arg must be a BARE identifier, not a quoted string;
    assert!(prompt.contains("BARE, UNQUOTED identifier"));
    // (2) use LIMIT for top-k, never TOP.
    assert!(prompt.contains("never TOP"));
    // And the result contract (a `_score` column) is documented.
    assert!(prompt.contains("_score"));
    // The worked example uses the table as a bare identifier.
    assert!(prompt.contains("vector_search(ihi_search, 'the search phrase', 5)"));
    // ...and must NOT pass it as a string literal.
    assert!(!prompt.contains("vector_search('ihi_search'"));
}

#[test]
fn prompt_lists_all_semantic_tables_and_examples_with_the_first() {
    let ctx = QueryGenerationContext {
        semantic_search_tables: vec!["docs_hybrid".to_string(), "other_search".to_string()],
        ..Default::default()
    };
    let prompt = create_prompt("q", &ctx);
    assert!(prompt.contains("docs_hybrid, other_search"));
    // the example uses the FIRST table as the bare identifier
    assert!(prompt.contains("vector_search(docs_hybrid,"));
}

#[test]
fn prompt_combines_failed_attempts_and_semantic_tables() {
    let ctx = QueryGenerationContext {
        failed_attempts: vec![FailedAttempt::new(
            "SELECT TOP 5 * FROM t".to_string(),
            "syntax error near TOP".to_string(),
        )],
        semantic_search_tables: vec!["ihi_search".to_string()],
        ..Default::default()
    };
    let prompt = create_prompt("q", &ctx);
    assert!(prompt.contains("syntax error near TOP")); // failed-attempt feedback
    assert!(prompt.contains("vector_search")); // and the semantic instruction
}

// --- rerank prompt injection ---------------------------------------------
// When a reranker is registered AND there are semantic tables, `/v1/nsql`
// steers the model to wrap vector_search in rerank(...) for better ranking.

#[test]
fn prompt_injects_rerank_when_reranker_and_semantic_tables_present() {
    let ctx = QueryGenerationContext {
        semantic_search_tables: vec!["ihi_search".to_string()],
        reranker: Some("reranker".to_string()),
        ..Default::default()
    };
    let prompt = create_prompt("best passages about ED crowding", &ctx);
    assert!(prompt.contains("Reranking for higher precision"));
    // the worked example wraps vector_search in rerank with the reranker name
    assert!(prompt.contains(
        "rerank(vector_search(ihi_search, 'the search phrase', 30), document => text, model => 'reranker', limit => 5)"
    ));
    // the rerank output contract is documented
    assert!(prompt.contains("rerank_score"));
}

#[test]
fn prompt_omits_rerank_when_no_reranker() {
    // semantic tables but NO reranker -> vector_search yes, rerank no.
    let ctx = QueryGenerationContext {
        semantic_search_tables: vec!["ihi_search".to_string()],
        ..Default::default()
    };
    let prompt = create_prompt("q", &ctx);
    assert!(prompt.contains("vector_search"));
    assert!(!prompt.contains("Reranking for higher precision"));
    assert!(!prompt.contains("rerank("));
}

#[test]
fn prompt_omits_rerank_without_semantic_tables_even_if_reranker_set() {
    // a reranker with no semantic tables -> no vector_search, no rerank.
    let ctx = QueryGenerationContext {
        reranker: Some("reranker".to_string()),
        ..Default::default()
    };
    let prompt = create_prompt("q", &ctx);
    assert!(!prompt.contains("Reranking for higher precision"));
    assert!(!prompt.contains("rerank("));
}

// --- search-only (Milvus) prompt injection -------------------------------
#[test]
fn prompt_omits_search_only_block_without_search_only_tables() {
    let prompt = create_prompt("q", &QueryGenerationContext::default());
    assert!(!prompt.contains("Search-only tables"));
}

#[test]
fn prompt_forbids_scanning_search_only_tables() {
    let ctx = QueryGenerationContext {
        search_only_tables: vec!["chunks".to_string()],
        ..Default::default()
    };
    let prompt = create_prompt("q", &ctx);
    assert!(prompt.contains("Search-only tables"));
    // names the table and steers to vector_search as the only access path
    assert!(prompt.contains("chunks"));
    assert!(prompt.contains("vector_search(chunks,"));
    // the actual failure this prevents: a silent 0 reported as a real count
    assert!(prompt.contains("never COUNT(*)"));
}

// --- graph_query (knowledge graph) prompt injection ----------------------
// The engine populates `graph_datasets` from datasets whose source is
// `neo4j:`, so `/v1/nsql` instructs the model to emit `graph_query(...)`.
#[test]
fn prompt_omits_graph_query_without_graph_datasets() {
    let prompt = create_prompt("q", &QueryGenerationContext::default());
    assert!(!prompt.contains("graph_query"));
    assert!(!prompt.contains("Knowledge graph"));
}

#[test]
fn prompt_injects_graph_query_with_dataset_name_and_readonly_guidance() {
    let ctx = QueryGenerationContext {
        graph_datasets: vec!["graph".to_string()],
        ..Default::default()
    };
    let prompt = create_prompt("q", &ctx);
    assert!(prompt.contains("Knowledge graph"));
    assert!(prompt.contains("graph_query"));
    // names the dataset and uses it in the worked example
    assert!(prompt.contains("graph_query('graph',"));
    // steers the model away from writes
    assert!(prompt.contains("NEVER CREATE"));
    // the base prompt tells the model to schema-qualify TABLE names; make sure
    // it is told not to apply that to the table FUNCTION (observed live as
    // `spice.public.graph_query(...)` -> "table function 'spice' not found").
    assert!(prompt.contains("spice.public.graph_query(...)` is WRONG"));
}

#[test]
fn prompt_appends_graph_hint_when_present() {
    let ctx = QueryGenerationContext {
        graph_datasets: vec!["graph".to_string()],
        graph_hint: Some("nodes carry :asst_x; anchors are (:Entity {canonical_name})".to_string()),
        ..Default::default()
    };
    let prompt = create_prompt("q", &ctx);
    assert!(prompt.contains("GRAPH SHAPE"));
    assert!(prompt.contains(":Entity {canonical_name}"));
}

#[test]
fn prompt_omits_graph_hint_without_graph_datasets() {
    // a hint with no graph datasets -> no graph block at all.
    let ctx = QueryGenerationContext {
        graph_hint: Some("some shape".to_string()),
        ..Default::default()
    };
    let prompt = create_prompt("q", &ctx);
    assert!(!prompt.contains("Knowledge graph"));
    assert!(!prompt.contains("GRAPH SHAPE"));
}


#[test]
fn failed_attempts_are_listed_in_order() {
    let attempts = vec![
        FailedAttempt::new("SELECT 1".to_string(), "one".to_string()),
        FailedAttempt::new("SELECT 2".to_string(), "two".to_string()),
    ];
    assert_eq!(
        failed_attempts_formatted(&attempts),
        "sql: `SELECT 1`\nerror: `one`\n\nsql: `SELECT 2`\nerror: `two`\n\n"
    );
    assert_eq!(failed_attempts_formatted(&vec![]), "");
}

#[test]
fn prompt_states_the_question_and_the_rules() {
    let prompt = create_prompt("how many?", &QueryGenerationContext::default());
    assert!(prompt.starts_with(
        r#"Task: Write a SQL query to answer this question: _\"how many?\"_. Instruction: Return only valid SQL code"#
    ));
    assert!(prompt.ends_with("array_agg, or json_agg (those functions do not exist here)."));
}

#[test]
fn prompt_parts_stand_in_order() {
    let ctx = QueryGenerationContext {
        failed_attempts: vec![FailedAttempt::new("q".to_string(), "e".to_string())],
        semantic_search_tables: vec!["docs".to_string()],
        reranker: Some("rr".to_string()),
        graph_datasets: vec!["kg".to_string()],
        graph_hint: Some("shape".to_string()),
        search_only_tables: vec!["chunks".to_string()],
    };
    let prompt = create_prompt("q", &ctx);
    let at = |s: &str| prompt.find(s).expect(s);
    assert!(at("\nUse incorrectly written SQL") < at("\n\nSemantic search: these tables"));
    assert!(at("\n\nSemantic search") < at("\n\nReranking for higher precision: a reranker named `rr`"));
    assert!(at("\n\nReranking") < at("\n\nSearch-only tables: chunks are vector indexes"));
    assert!(at("\n\nSearch-only tables") < at("\n\nKnowledge graph: these datasets"));
    // braces that the wording itself holds
    assert!(prompt.contains("Expression in CALL { RETURN ... } must be aliased"));
    assert!(prompt.contains("no LATERAL {...}"));
    assert!(prompt.ends_with(" GRAPH SHAPE (use these exact conventions): shape"));
}
