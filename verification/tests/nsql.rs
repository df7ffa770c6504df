use spice_connectors::nsql::prompt::QueryGenerationContext;
use spice_connectors::nsql::request::{
    accept_request, accepted_tables, cache_entry, check_datasets, compatible_nsql_model_names,
    default_sample_data_enabled, generation_context, invalid_datasets, missing_model, nsql_cache_key, resolve_nsql_model_name,
    resolve_nsql_model_name_from_app, return_sql_only, sample_plan, select_tables,
    table_allowlist, table_names, Candidate, DatasetEntry, ModelEntry, ModelType, Request,
    SampleMethod,
};
use spice_connectors::nsql::run::{nsql_cancel_outcome, Action, Event, NsqlRun};
use spice_connectors::nsql::settings::{
    nsql_budget, nsql_concurrency, nsql_max_retries, nsql_sample_cache_ttl,
};
use spice_connectors::nsql::sql::clean_model_based_sql;

fn model(name: &str, model_type: Option<ModelType>) -> ModelEntry {
    ModelEntry { name: name.to_string(), model_type, datasets: vec![] }
}

fn refs(names: &[&str]) -> Vec<String> {
    table_names(&names.iter().map(|s| s.to_string()).collect())
}

#[test]
fn request_defaults_to_no_model_and_no_sample_data() {
    let request = Request::new("show total sales".to_string());
    assert_eq!(request.query, "show total sales");
    assert_eq!(request.model, None);
    assert!(!request.sample_data_enabled);
    assert!(!request.stream);
    assert!(!default_sample_data_enabled());
}

#[test]
fn omitted_model_uses_single_compatible_model() {
    let models = vec![model("llm_model", Some(ModelType::Llm))];
    let model_name = resolve_nsql_model_name_from_app(&models)
        .expect("single compatible model should be selected");
    assert_eq!(model_name, "llm_model");
}

#[test]
fn omitted_model_ignores_non_llm_models() {
    let models = vec![
        model("ml_model", Some(ModelType::Ml)),
        model("llm_model", Some(ModelType::Llm)),
        model("unknown", None),
    ];
    let model_name = resolve_nsql_model_name_from_app(&models)
        .expect("single compatible model should be selected");
    assert_eq!(model_name, "llm_model");
    assert_eq!(compatible_nsql_model_names(&models), vec!["llm_model"]);
}

#[test]
fn omitted_model_errors_when_no_compatible_model_exists() {
    let error = resolve_nsql_model_name_from_app(&vec![])
        .expect_err("omitted model should fail without compatible models");
    assert_eq!(
        error,
        "No model specified and no compatible LLM model is configured. Add exactly one LLM model to the Spicepod or include the 'model' field in the request."
    );
}

#[test]
fn omitted_model_errors_when_multiple_compatible_models_exist() {
    let models = vec![
        model("first_model", Some(ModelType::Llm)),
        model("second_model", Some(ModelType::Llm)),
    ];
    let error = resolve_nsql_model_name_from_app(&models)
        .expect_err("omitted model should fail with multiple compatible models");
    assert_eq!(
        error,
        "No model specified and multiple compatible LLM models are configured (first_model, second_model). Include the 'model' field in the request."
    );
}

#[test]
fn cache_key_is_order_independent_and_scoped() {
    let t1 = refs(&["spice.public.a", "spice.public.b"]);
    let t2 = refs(&["spice.public.b", "spice.public.a"]);

    // Same table set in any order -> identical key (so equivalent requests share an entry).
    assert_eq!(nsql_cache_key("sample", "m1", &t1), nsql_cache_key("sample", "m1", &t2));

    // kind, model, and the table set each scope the key.
    assert_ne!(nsql_cache_key("schema", "m1", &t1), nsql_cache_key("sample", "m1", &t1));
    assert_ne!(nsql_cache_key("sample", "m1", &t1), nsql_cache_key("sample", "m2", &t1));
    assert_ne!(
        nsql_cache_key("sample", "m1", &t1),
        nsql_cache_key("sample", "m1", &refs(&["spice.public.a"]))
    );
}

#[test]
fn cache_key_is_spelled_out() {
    let tables = vec!["b".to_string(), "a".to_string(), "b".to_string()];
    assert_eq!(nsql_cache_key("schema", "m", &tables), "schema\u{0}m\u{0}a\u{1}b");
    assert_eq!(cache_entry(0, "schema", "m", &tables), None);
    assert_eq!(cache_entry(1, "schema", "m", &vec![]), Some("schema\u{0}m\u{0}".to_string()));
}

#[test]
fn table_names_are_read_as_the_engine_reads_them() {
    assert_eq!(
        refs(&["Lake.\"94Def\".My_Table", "plain", "a.b.c.d"]),
        vec!["lake.94Def.my_table", "plain", "a.b.c.d"]
    );
}

#[test]
fn a_named_model_is_used_as_it_is() {
    let app = Some(vec![model("llm_model", Some(ModelType::Llm))]);
    assert_eq!(resolve_nsql_model_name(Some("x".to_string()), &None).unwrap(), "x");
    assert_eq!(resolve_nsql_model_name(None, &app).unwrap(), "llm_model");
    let unprepared = resolve_nsql_model_name(None, &None).unwrap_err();
    assert_eq!(unprepared.status, 500);
    assert_eq!(unprepared.body, "Unexpected internal error. App not prepared in runtime.");
    assert_eq!(resolve_nsql_model_name(None, &Some(vec![])).unwrap_err().status, 400);
    assert_eq!(missing_model("x").body, "Model x not found");
    assert_eq!(missing_model("x").status, 400);
}

#[test]
fn a_model_may_be_confined_to_datasets() {
    let mut confined = model("m", Some(ModelType::Llm));
    confined.datasets = vec!["spice.public.*".to_string()];
    let app = Some(vec![model("other", None), confined, model("m", None)]);
    assert_eq!(table_allowlist("m", &app).unwrap(), Some(vec!["spice.public.*".to_string()]));
    assert_eq!(table_allowlist("other", &app).unwrap(), None);
    assert_eq!(table_allowlist("absent", &app).unwrap(), None);
    assert_eq!(
        table_allowlist("m", &None).unwrap_err(),
        "Unexpected internal error. App not prepared in runtime."
    );
    assert_eq!(
        invalid_datasets("m"),
        "Unexpected internal error. Model 'm' datasets are invalid."
    );
}

fn candidate(name: &str, allowed: bool) -> Candidate {
    Candidate { name: name.to_string(), allowed }
}

#[test]
fn a_forbidden_dataset_is_not_found() {
    assert!(check_datasets(&vec![candidate("a", true)]).is_ok());
    let reply = check_datasets(&vec![candidate("a", true), candidate("b", false), candidate("c", false)])
        .unwrap_err();
    assert_eq!(reply.status, 400);
    assert_eq!(reply.body, "Dataset 'b' not found");
}

#[test]
fn all_allowed_tables_are_shown_unless_some_are_named() {
    let user = vec![candidate("a", true), candidate("b", false), candidate("c", true)];
    assert_eq!(select_tables(&None, &user), vec!["a", "c"]);
    assert_eq!(select_tables(&Some(vec!["B".to_string()]), &user), vec!["b"]);
}

#[test]
fn each_table_is_sampled_twice() {
    let plan = sample_plan(&vec!["a".to_string(), "b".to_string()]);
    assert_eq!(plan.len(), 4);
    assert_eq!(plan[2].table, "b");
    assert_eq!(plan[2].method, SampleMethod::DistinctColumns);
    assert_eq!(plan[3].method, SampleMethod::RandomSample);
    assert_eq!(plan[3].limit, 3);
}

#[test]
fn sql_is_returned_where_nothing_else_is_accepted() {
    assert!(!return_sql_only(&None));
    assert!(return_sql_only(&Some(vec!["text/csv".to_string(), "application/sql".to_string()])));
    assert!(!return_sql_only(&Some(vec!["application/json".to_string()])));
}

#[test]
fn limits_are_read_from_settings() {
    let set = |s: &str| Some(s.to_string());
    assert_eq!(nsql_max_retries(&None), 3);
    assert_eq!(nsql_max_retries(&set("0")), 0);
    assert_eq!(nsql_max_retries(&set("256")), 3);
    assert_eq!(nsql_budget(&None), 45);
    assert_eq!(nsql_budget(&set("0")), 45);
    assert_eq!(nsql_budget(&set("90")), 90);
    assert_eq!(nsql_concurrency(&set("5"), Some(64)), 5);
    assert_eq!(nsql_concurrency(&set("0"), Some(64)), 32);
    assert_eq!(nsql_concurrency(&None, Some(1)), 2);
    assert_eq!(nsql_concurrency(&None, None), 2);
    assert_eq!(nsql_sample_cache_ttl(&None), 3600);
    assert_eq!(nsql_sample_cache_ttl(&set("0")), 0);
    assert_eq!(nsql_sample_cache_ttl(&set(" 5")), 3600);
}

#[test]
fn sql_is_freed_of_its_wrapping() {
    assert_eq!(clean_model_based_sql("SELECT 1"), "SELECT 1");
    assert_eq!(clean_model_based_sql("--SELECT 1; DROP TABLE t"), "SELECT 1");
    assert_eq!(clean_model_based_sql("```sql\nSELECT 1\n```"), "SELECT 1");
    assert_eq!(clean_model_based_sql("```SQL SELECT 1```"), "SELECT 1");
    assert_eq!(clean_model_based_sql("{ SELECT '}' AS a\n}\n"), "SELECT '}' AS a");
    assert_eq!(clean_model_based_sql("\u{3000}SELECT 'é' }"), "SELECT 'é'");
    assert_eq!(clean_model_based_sql("; SELECT 1"), "");
    // A semicolon in quoted text ends no statement.
    assert_eq!(clean_model_based_sql("SELECT 'a;b' AS x; SELECT 2"), "SELECT 'a;b' AS x");
    assert_eq!(clean_model_based_sql("SELECT 'it''s;' AS \"c;d\";"), "SELECT 'it''s;' AS \"c;d\"");
    assert_eq!(
        clean_model_based_sql("```sql\nSELECT graph('MATCH (n) RETURN n;');\n```"),
        "SELECT graph('MATCH (n) RETURN n;')"
    );
    // A quote that is not closed, or that stands in a comment, opens none.
    assert_eq!(clean_model_based_sql("it's: SELECT 1; SELECT 2"), "it's: SELECT 1");
    assert_eq!(
        clean_model_based_sql("SELECT 1 -- it's\n, 'x'; SELECT 'y'"),
        "SELECT 1 -- it's\n, 'x'"
    );
    assert_eq!(
        clean_model_based_sql("SELECT 1 /* it's */ , 'x'; SELECT 'y'"),
        "SELECT 1 /* it's */ , 'x'"
    );
    assert_eq!(clean_model_based_sql(""), "");
}

#[test]
fn the_model_is_told_what_there_is() {
    let dataset = |name: &str, from: &str| DatasetEntry {
        name: name.to_string(),
        from: from.to_string(),
    };
    let app = Some(vec![
        dataset("kg", "neo4j:Chunk"),
        dataset("chunks", "milvus:docs"),
        dataset("sales", "postgres:sales"),
    ]);
    let hint = Some("labels".to_string());
    let ctx = generation_context(Some(vec!["chunks".to_string()]), Some("rr".to_string()), &app, hint);
    assert_eq!(ctx.semantic_search_tables, vec!["chunks"]);
    assert_eq!(ctx.reranker, Some("rr".to_string()));
    assert_eq!(ctx.graph_datasets, vec!["kg"]);
    assert_eq!(ctx.graph_hint, Some("labels".to_string()));
    assert_eq!(ctx.search_only_tables, vec!["chunks"]);
    // a reranker without tables and a hint without a graph are left out
    let ctx = generation_context(None, Some("rr".to_string()), &None, Some("labels".to_string()));
    assert_eq!(ctx.reranker, None);
    assert_eq!(ctx.graph_hint, None);
    let blank = generation_context(None, None, &app, Some(" \n".to_string()));
    assert_eq!(blank.graph_hint, None);
}

fn run(max_retries: u8, sql_only: bool) -> NsqlRun {
    NsqlRun::new(QueryGenerationContext::default(), max_retries, 45, sql_only)
}

fn reply(a: Action) -> (u16, String) {
    match a {
        Action::Respond(r) => (r.status, r.body),
        other => panic!("{other:?}"),
    }
}

fn failed(q: &str, e: &str) -> Event {
    Event::QueryFailed { query: q.to_string(), error: e.to_string() }
}

#[test]
fn a_failed_statement_is_written_anew_until_retries_run_out() {
    let mut r = run(2, false);
    assert!(matches!(r.step(Event::Generated("SELECT 1;".to_string())), Action::Run(s) if s == "SELECT 1"));
    assert!(matches!(r.step(failed("q1", "e1")), Action::AskModel));
    assert!(matches!(r.step(failed("q2", "e2")), Action::AskModel));
    assert_eq!(r.num_retries, 2);
    assert_eq!(r.context.failed_attempts[1].attempted_query, "q2");
    assert_eq!(r.context.failed_attempts[1].error_message, "e2");
    assert_eq!(reply(r.step(failed("q3", "e3"))), (400, "e3".to_string()));
    assert_eq!(r.context.failed_attempts.len(), 2);
    assert_eq!(reply(run(0, false).step(failed("q", "e"))), (400, "e".to_string()));
}

#[test]
fn every_other_failure_ends_the_request() {
    let mut r = run(3, true);
    assert_eq!(reply(r.step(Event::Generated("{SELECT 1}".to_string()))), (200, "SELECT 1".to_string()));
    assert_eq!(
        reply(r.step(Event::RequestFailed)),
        (500, "Error preparing data for NQL model".to_string())
    );
    assert_eq!(reply(r.step(Event::ModelFailed("m".to_string()))), (500, "m".to_string()));
    assert_eq!(
        reply(r.step(Event::NoQuery)),
        (500, "No query produced from NSQL model".to_string())
    );
    assert_eq!(reply(r.step(Event::ResponseRejected("p".to_string()))), (500, "p".to_string()));
    assert_eq!(
        reply(r.step(Event::Cancelled { past_deadline: true })),
        (504, "NSQL request exceeded its 45s time budget (SPICE_NSQL_BUDGET_SECS)".to_string())
    );
    assert_eq!(nsql_cancel_outcome(false, 45).status, 499);
    assert_eq!(nsql_cancel_outcome(false, 45).body, "NSQL request cancelled");
}

#[test]
fn a_request_is_accepted_with_its_model() {
    let mut only = model("m", Some(ModelType::Llm));
    only.datasets = vec!["a".to_string(), "b.*".to_string()];
    let app = Some(vec![only, model("ml", Some(ModelType::Ml))]);
    let accepted = accept_request(None, &app).unwrap();
    assert_eq!(accepted.model, "m");
    assert_eq!(accepted.patterns, Some(vec!["a".to_string(), "b.*".to_string()]));
    let named = accept_request(Some("ml".to_string()), &app).unwrap();
    assert_eq!(named.model, "ml");
    assert_eq!(named.patterns, None);
    let unready = accept_request(Some("m".to_string()), &None).unwrap_err();
    assert_eq!(unready.status, 500);
    assert_eq!(unready.body, "Unexpected internal error. App not prepared in runtime.");
    assert_eq!(accept_request(None, &None).unwrap_err().status, 500);
    assert_eq!(accept_request(None, &Some(vec![])).unwrap_err().status, 400);
}

#[test]
fn a_request_is_shown_the_tables_it_may_use() {
    let user = vec![candidate("a", true), candidate("b", false)];
    assert_eq!(accepted_tables("m", true, &None, &user).unwrap(), vec!["a"]);
    let named = Some(vec![candidate("Spice.A", true)]);
    assert_eq!(accepted_tables("m", true, &named, &user).unwrap(), vec!["spice.a"]);
    let forbidden = Some(vec![candidate("a", true), candidate("b", false)]);
    let reply = accepted_tables("m", true, &forbidden, &user).unwrap_err();
    assert_eq!((reply.status, reply.body.as_str()), (400, "Dataset 'b' not found"));
    let reply = accepted_tables("m", false, &named, &user).unwrap_err();
    assert_eq!(
        (reply.status, reply.body.as_str()),
        (500, "Unexpected internal error. Model 'm' datasets are invalid.")
    );
}
