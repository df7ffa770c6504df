//! A text-to-SQL request: what it asks for, the model and the tables it uses, and
//! what the model is told.
use vstd::prelude::*;

use crate::nsql::prompt::QueryGenerationContext;
use crate::nsql::run::Reply;
use crate::order;
use crate::order::sort_texts;
use crate::text;
use crate::text::{begins_with, has_text, join, same_text, trimmed};

verus! {

/// A request for SQL.
#[derive(Debug)]
pub struct Request {
    /// The question, in natural language.
    pub query: String,
    /// The model that writes the SQL; the only one that can if none is named.
    pub model: Option<String>,
    /// Whether the reply is streamed.
    pub stream: bool,
    /// Whether the model is shown samples of the data.
    pub sample_data_enabled: bool,
    /// The datasets that the model is shown; all of them if none are named.
    pub datasets: Option<Vec<String>>,
    /// A key for the prompt cache of the model's provider.
    pub prompt_cache_key: Option<String>,
}

/// Whether samples are shown where a request does not say so.
pub fn default_sample_data_enabled() -> (r: bool)
    ensures
        r == false,
{
    false
}

impl Request {
    /// A request that leaves everything but the question open.
    pub fn new(query: String) -> (r: Self)
        ensures
            r.query == query,
            r.model is None,
            !r.stream,
            !r.sample_data_enabled,
            r.datasets is None,
            r.prompt_cache_key is None,
    {
        Request {
            query,
            model: None,
            stream: false,
            sample_data_enabled: default_sample_data_enabled(),
            datasets: None,
            prompt_cache_key: None,
        }
    }
}

/// Whether a request accepts nothing but SQL, so that no statement is run.
pub fn return_sql_only(accepted: &Option<Vec<String>>) -> (r: bool)
    ensures
        r == (accepted matches Some(types) && text::texts(types@).contains("application/sql"@)),
{
    match accepted {
        Some(types) => has_text(types, "application/sql"),
        None => false,
    }
}

// ---------------------------------------------------------------------------
// The model
// ---------------------------------------------------------------------------

/// What a model is for.
#[derive(Clone, Copy, Debug, PartialEq, Eq, Structural)]
pub enum ModelType {
    Llm,
    Ml,
}

/// A model of the app.
#[derive(Debug)]
pub struct ModelEntry {
    pub name: String,
    pub model_type: Option<ModelType>,
    /// Patterns of the datasets that the model may use; all of them if there are none.
    pub datasets: Vec<String>,
}

/// The names of the language models, in order.
pub open spec fn compatible(models: Seq<ModelEntry>) -> Seq<Seq<char>>
    decreases models.len(),
{
    if models.len() == 0 {
        seq![]
    } else if models.last().model_type == Some(ModelType::Llm) {
        compatible(models.drop_last()).push(models.last().name@)
    } else {
        compatible(models.drop_last())
    }
}

/// The names of the language models, in order.
pub fn compatible_nsql_model_names(models: &Vec<ModelEntry>) -> (r: Vec<String>)
    ensures
        text::texts(r@) == compatible(models@),
{
    let mut r: Vec<String> = Vec::new();
    let mut i: usize = 0;
    assert(text::texts(r@) == compatible(models@.take(0)));
    while i < models.len()
        invariant
            i <= models.len(),
            text::texts(r@) == compatible(models@.take(i as int)),
        decreases models.len() - i,
    {
        let ghost before = text::texts(r@);
        assert(models@.take(i + 1).drop_last() == models@.take(i as int));
        if let Some(ModelType::Llm) = models[i].model_type {
            r.push(models[i].name.clone());
            assert(text::texts(r@) == before.push(models[i as int].name@));
        }
        i += 1;
    }
    assert(models@.take(i as int) == models@);
    r
}

/// The model that a request uses which names none: the only language model there is.
pub open spec fn default_model(models: Seq<ModelEntry>) -> Result<Seq<char>, Seq<char>> {
    let names = compatible(models);
    if names.len() == 0 {
        Err(
            "No model specified and no compatible LLM model is configured. Add exactly one LLM model to the Spicepod or include the 'model' field in the request."@,
        )
    } else if names.len() == 1 {
        Ok(names[0])
    } else {
        Err(
            "No model specified and multiple compatible LLM models are configured ("@
                + text::joined(names, ", "@)
                + "). Include the 'model' field in the request."@,
        )
    }
}

/// The model that a request uses which names none.
pub fn resolve_nsql_model_name_from_app(models: &Vec<ModelEntry>) -> (r: Result<String, String>)
    ensures
        match (default_model(models@), r) {
            (Ok(m), Ok(got)) => got@ == m,
            (Err(e), Err(got)) => got@ == e,
            _ => false,
        },
{
    let names = compatible_nsql_model_names(models);
    if names.len() == 0 {
        Err(
            "No model specified and no compatible LLM model is configured. Add exactly one LLM model to the Spicepod or include the 'model' field in the request.".to_owned(),
        )
    } else if names.len() == 1 {
        Ok(names[0].clone())
    } else {
        let mut m = "No model specified and multiple compatible LLM models are configured (".to_owned();
        m.push_str(join(&names, ", ").as_str());
        m.push_str("). Include the 'model' field in the request.");
        Err(m)
    }
}

/// The reply where the app is not ready.
pub open spec fn unprepared() -> Seq<char> {
    "Unexpected internal error. App not prepared in runtime."@
}

/// The model of a request: the one that it names, else the only language model.
pub fn resolve_nsql_model_name(requested: Option<String>, app: &Option<Vec<ModelEntry>>) -> (r:
    Result<String, Reply>)
    ensures
        match (requested, *app) {
            (Some(m), _) => r matches Ok(got) && got == m,
            (None, None) => r matches Err(e) && e.status == 500 && e.body@ == unprepared(),
            (None, Some(models)) => match (default_model(models@), r) {
                (Ok(m), Ok(got)) => got@ == m,
                (Err(m), Err(e)) => e.status == 400 && e.body@ == m,
                _ => false,
            },
        },
{
    if let Some(m) = requested {
        return Ok(m);
    }
    match app {
        None => Err(
            Reply {
                status: 500,
                body: "Unexpected internal error. App not prepared in runtime.".to_owned(),
            },
        ),
        Some(models) => match resolve_nsql_model_name_from_app(models) {
            Ok(m) => Ok(m),
            Err(m) => Err(Reply { status: 400, body: m }),
        },
    }
}

/// The patterns of the datasets that the first model of a name may use.
pub open spec fn model_datasets(models: Seq<ModelEntry>, name: Seq<char>) -> Seq<Seq<char>>
    decreases models.len(),
{
    if models.len() == 0 {
        seq![]
    } else if models[0].name@ == name {
        text::texts(models[0].datasets@)
    } else {
        model_datasets(models.skip(1), name)
    }
}

/// The patterns of the datasets that a model may use; nothing if it may use all.
/// Fails where the app is not ready.
pub fn table_allowlist(model: &str, app: &Option<Vec<ModelEntry>>) -> (r: Result<
    Option<Vec<String>>,
    String,
>)
    ensures
        match (*app, r) {
            (None, Err(e)) => e@ == unprepared(),
            (Some(models), Ok(None)) => model_datasets(models@, model@).len() == 0,
            (Some(models), Ok(Some(patterns))) => patterns.len() > 0 && text::texts(patterns@)
                == model_datasets(models@, model@),
            _ => false,
        },
{
    let models = match app {
        None => {
            return Err("Unexpected internal error. App not prepared in runtime.".to_owned());
        },
        Some(models) => models,
    };
    let mut i: usize = 0;
    assert(models@.skip(0) == models@);
    while i < models.len()
        invariant
            i <= models.len(),
            *app == Some(*models),
            model_datasets(models@, model@) == model_datasets(models@.skip(i as int), model@),
        decreases models.len() - i,
    {
        assert(models@.skip(i as int).skip(1) == models@.skip(i + 1));
        if same_text(models[i].name.as_str(), model) {
            if models[i].datasets.len() == 0 {
                return Ok(None);
            }
            let patterns = text::copy_texts(&models[i].datasets);
            assert(text::texts(patterns@).len() == models[i as int].datasets.len());
            return Ok(Some(patterns));
        }
        i += 1;
    }
    Ok(None)
}

/// The reply where the patterns of a model are invalid.
pub fn invalid_datasets(model: &str) -> (r: String)
    ensures
        r@ == "Unexpected internal error. Model '"@ + model@ + "' datasets are invalid."@,
{
    let mut r = "Unexpected internal error. Model '".to_owned();
    r.push_str(model);
    r.push_str("' datasets are invalid.");
    r
}

/// The reply where a model is not loaded.
pub fn missing_model(model: &str) -> (r: Reply)
    ensures
        r.status == 400,
        r.body@ == "Model "@ + model@ + " not found"@,
{
    let mut body = "Model ".to_owned();
    body.push_str(model);
    body.push_str(" not found");
    Reply { status: 400, body }
}

// ---------------------------------------------------------------------------
// The tables
// ---------------------------------------------------------------------------

/// A table, and whether the model may use it.
#[derive(Debug)]
pub struct Candidate {
    pub name: String,
    pub allowed: bool,
}

/// The first table that the model may not use.
pub open spec fn first_forbidden(tables: Seq<Candidate>) -> Option<Seq<char>>
    decreases tables.len(),
{
    if tables.len() == 0 {
        None
    } else if !tables[0].allowed {
        Some(tables[0].name@)
    } else {
        first_forbidden(tables.skip(1))
    }
}

/// Refuses a request that names a dataset which its model may not use, as if the
/// dataset were not there.
pub fn check_datasets(requested: &Vec<Candidate>) -> (r: Result<(), Reply>)
    ensures
        match (first_forbidden(requested@), r) {
            (None, Ok(_)) => true,
            (Some(name), Err(e)) => e.status == 400 && e.body@ == "Dataset '"@ + name
                + "' not found"@,
            _ => false,
        },
{
    let mut i: usize = 0;
    assert(requested@.skip(0) == requested@);
    while i < requested.len()
        invariant
            i <= requested.len(),
            first_forbidden(requested@) == first_forbidden(requested@.skip(i as int)),
        decreases requested.len() - i,
    {
        assert(requested@.skip(i as int).skip(1) == requested@.skip(i + 1));
        if !requested[i].allowed {
            let mut body = "Dataset '".to_owned();
            body.push_str(requested[i].name.as_str());
            body.push_str("' not found");
            return Err(Reply { status: 400, body });
        }
        i += 1;
    }
    Ok(())
}

/// What a request is refused for is forbidden, and a request that is not refused
/// names nothing forbidden.
pub proof fn law_forbidden_datasets_are_refused(requested: Seq<Candidate>)
    ensures
        first_forbidden(requested) is None <==> forall|i: int|
            0 <= i < requested.len() ==> (#[trigger] requested[i]).allowed,
    decreases requested.len(),
{
    if requested.len() > 0 {
        let rest = requested.skip(1);
        law_forbidden_datasets_are_refused(rest);
        if first_forbidden(requested) is None {
            assert forall|i: int| 0 <= i < requested.len() implies (
            #[trigger] requested[i]).allowed by {
                if i > 0 {
                    assert(rest[i - 1] == requested[i]);
                }
            }
        } else if requested[0].allowed {
            let i = choose|i: int| 0 <= i < rest.len() && !(#[trigger] rest[i]).allowed;
            assert(!requested[i + 1].allowed);
        }
    }
}

/// A name as `datafusion` reads and writes it: parsed as a table reference, whose
/// unquoted parts are in lower case, and shown again without quotes.
pub uninterp spec fn table_reference_text(name: Seq<char>) -> Seq<char>;

/// `TableReference::parse_str` and the `Display` of its result: the name of a table
/// as the engine reads it. Which name that is, is left to the name of this result.
#[verifier::external_body]
fn normalized_table_name(name: &str) -> (r: String)
    ensures
        r@ == table_reference_text(name@),
{
    datafusion::common::TableReference::parse_str(name).to_string()
}

/// The names of the tables that the model may use, in order.
pub open spec fn allowed_names(tables: Seq<Candidate>) -> Seq<Seq<char>>
    decreases tables.len(),
{
    if tables.len() == 0 {
        seq![]
    } else if tables.last().allowed {
        allowed_names(tables.drop_last()).push(tables.last().name@)
    } else {
        allowed_names(tables.drop_last())
    }
}

/// The names of the tables that the model may use, in order.
pub fn allowed_tables(tables: &Vec<Candidate>) -> (r: Vec<String>)
    ensures
        text::texts(r@) == allowed_names(tables@),
{
    let mut r: Vec<String> = Vec::new();
    let mut i: usize = 0;
    assert(text::texts(r@) == allowed_names(tables@.take(0)));
    while i < tables.len()
        invariant
            i <= tables.len(),
            text::texts(r@) == allowed_names(tables@.take(i as int)),
        decreases tables.len() - i,
    {
        let ghost before = text::texts(r@);
        assert(tables@.take(i + 1).drop_last() == tables@.take(i as int));
        if tables[i].allowed {
            r.push(tables[i].name.clone());
            assert(text::texts(r@) == before.push(tables[i as int].name@));
        }
        i += 1;
    }
    assert(tables@.take(i as int) == tables@);
    r
}

/// The names of datasets as the engine reads them.
pub fn table_names(datasets: &Vec<String>) -> (r: Vec<String>)
    ensures
        r.len() == datasets.len(),
        forall|i: int|
            0 <= i < r.len() ==> (#[trigger] r[i])@ == table_reference_text(datasets[i]@),
{
    let mut r: Vec<String> = Vec::new();
    let mut i: usize = 0;
    while i < datasets.len()
        invariant
            i <= datasets.len(),
            r.len() == i,
            forall|k: int| 0 <= k < i ==> (#[trigger] r[k])@ == table_reference_text(datasets[k]@),
        decreases datasets.len() - i,
    {
        r.push(normalized_table_name(datasets[i].as_str()));
        i += 1;
    }
    r
}

/// The tables that the model is shown: those that the request names, else all that
/// the model may use.
pub fn select_tables(requested: &Option<Vec<String>>, user_tables: &Vec<Candidate>) -> (r: Vec<
    String,
>)
    ensures
        match *requested {
            Some(ds) => r.len() == ds.len() && forall|i: int|
                0 <= i < r.len() ==> (#[trigger] r[i])@ == table_reference_text(ds[i]@),
            None => text::texts(r@) == allowed_names(user_tables@),
        },
{
    match requested {
        Some(ds) => table_names(ds),
        None => allowed_tables(user_tables),
    }
}

// ---------------------------------------------------------------------------
// Admission
// ---------------------------------------------------------------------------

/// The model of a request: the one that it names, else the only language model; or
/// the status and the text of the refusal.
pub open spec fn chosen_model(requested: Option<Seq<char>>, app: Option<Seq<ModelEntry>>) -> Result<
    Seq<char>,
    (u16, Seq<char>),
> {
    match (requested, app) {
        (Some(m), _) => Ok(m),
        (None, None) => Err((500, unprepared())),
        (None, Some(models)) => match default_model(models) {
            Ok(m) => Ok(m),
            Err(e) => Err((400, e)),
        },
    }
}

/// The models of the app, once it is ready.
pub open spec fn entries(app: Option<Vec<ModelEntry>>) -> Option<Seq<ModelEntry>> {
    match app {
        Some(models) => Some(models@),
        None => None,
    }
}

/// A request whose model is known.
#[derive(Debug)]
pub struct Admission {
    pub model: String,
    /// The patterns of the datasets that the model may use; nothing if it may use
    /// all.
    pub patterns: Option<Vec<String>>,
}

/// What a request is admitted with: the model, and the patterns of its datasets. A
/// request that names a model is refused, too, where the app is not ready.
pub open spec fn admission(requested: Option<Seq<char>>, app: Option<Seq<ModelEntry>>) -> Result<
    (Seq<char>, Seq<Seq<char>>),
    (u16, Seq<char>),
> {
    match chosen_model(requested, app) {
        Err(e) => Err(e),
        Ok(m) => match app {
            None => Err((500, unprepared())),
            Some(models) => Ok((m, model_datasets(models, m))),
        },
    }
}

/// Accepts a request, or answers it.
pub fn accept_request(requested: Option<String>, app: &Option<Vec<ModelEntry>>) -> (r: Result<
    Admission,
    Reply,
>)
    ensures
        match (admission(text::text_of(requested), entries(*app)), r) {
            (Ok((m, patterns)), Ok(a)) => a.model@ == m && match a.patterns {
                Some(ps) => patterns.len() > 0 && text::texts(ps@) == patterns,
                None => patterns.len() == 0,
            },
            (Err((status, body)), Err(e)) => e.status == status && e.body@ == body,
            _ => false,
        },
{
    let model = match resolve_nsql_model_name(requested, app) {
        Ok(model) => model,
        Err(reply) => {
            return Err(reply);
        },
    };
    match table_allowlist(model.as_str(), app) {
        Ok(patterns) => Ok(Admission { model, patterns }),
        Err(body) => Err(Reply { status: 500, body }),
    }
}

/// The tables that the model of an admitted request is shown; or the reply, where the
/// patterns of the model are invalid or where the request names a dataset that its
/// model may not use. `requested` are the datasets that the request names.
pub fn accepted_tables(
    model: &str,
    patterns_valid: bool,
    requested: &Option<Vec<Candidate>>,
    user_tables: &Vec<Candidate>,
) -> (r: Result<Vec<String>, Reply>)
    ensures
        if !patterns_valid {
            r matches Err(e) && e.status == 500 && e.body@ == "Unexpected internal error. Model '"@
                + model@ + "' datasets are invalid."@
        } else {
            match *requested {
                None => r matches Ok(tables) && text::texts(tables@) == allowed_names(user_tables@),
                Some(ds) => match (first_forbidden(ds@), r) {
                    (Some(name), Err(e)) => e.status == 400 && e.body@ == "Dataset '"@ + name
                        + "' not found"@,
                    (None, Ok(tables)) => tables.len() == ds.len() && forall|i: int|
                        0 <= i < ds.len() ==> (#[trigger] tables[i])@ == table_reference_text(
                            ds[i].name@,
                        ),
                    _ => false,
                },
            }
        },
        r matches Ok(tables) ==> patterns_valid && are_used(tables@, *requested, user_tables@),
{
    if !patterns_valid {
        return Err(Reply { status: 500, body: invalid_datasets(model) });
    }
    match requested {
        None => Ok(select_tables(&None, user_tables)),
        Some(ds) => {
            if let Err(reply) = check_datasets(ds) {
                return Err(reply);
            }
            proof {
                law_forbidden_datasets_are_refused(ds@);
            }
            let names = allowed_tables(ds);
            proof {
                lemma_all_allowed(ds@);
            }
            let tables = select_tables(&Some(names), user_tables);
            assert forall|i: int| 0 <= i < ds.len() implies (#[trigger] tables[i])@
                == table_reference_text(ds[i].name@) by {
                assert(text::texts(names@)[i] == ds[i].name@);
            }
            Ok(tables)
        },
    }
}

proof fn lemma_all_allowed(tables: Seq<Candidate>)
    requires
        forall|i: int| 0 <= i < tables.len() ==> (#[trigger] tables[i]).allowed,
    ensures
        allowed_names(tables).len() == tables.len(),
        forall|i: int|
            0 <= i < tables.len() ==> #[trigger] allowed_names(tables)[i] == tables[i].name@,
    decreases tables.len(),
{
    if tables.len() > 0 {
        lemma_all_allowed(tables.drop_last());
        assert(tables.last() == tables[tables.len() - 1]);
    }
}

// ---------------------------------------------------------------------------
// Samples
// ---------------------------------------------------------------------------

/// How a table is sampled.
#[derive(Clone, Copy, Debug, PartialEq, Eq, Structural)]
pub enum SampleMethod {
    DistinctColumns,
    RandomSample,
}

/// A sampling of a table.
#[derive(Debug)]
pub struct SampleParams {
    pub table: String,
    pub method: SampleMethod,
    pub limit: usize,
}

/// The number of rows of a sample.
pub const SAMPLE_LIMIT: usize = 3;

/// The samplings of tables: of each its distinct values and a random choice.
pub fn sample_plan(tables: &Vec<String>) -> (r: Vec<SampleParams>)
    ensures
        r.len() == 2 * tables.len(),
        forall|i: int|
            0 <= i < r.len() ==> (#[trigger] r[i]).table@ == tables[i / 2]@ && r[i].limit
                == SAMPLE_LIMIT && r[i].method == if i % 2 == 0 {
                SampleMethod::DistinctColumns
            } else {
                SampleMethod::RandomSample
            },
        are_samples(r@, text::texts(tables@)),
{
    let mut r: Vec<SampleParams> = Vec::new();
    let mut i: usize = 0;
    while i < tables.len()
        invariant
            i <= tables.len(),
            r.len() == 2 * i,
            forall|k: int|
                0 <= k < r.len() ==> (#[trigger] r[k]).table@ == tables[k / 2]@ && r[k].limit
                    == SAMPLE_LIMIT && r[k].method == if k % 2 == 0 {
                    SampleMethod::DistinctColumns
                } else {
                    SampleMethod::RandomSample
                },
        decreases tables.len() - i,
    {
        r.push(
            SampleParams {
                table: tables[i].clone(),
                method: SampleMethod::DistinctColumns,
                limit: SAMPLE_LIMIT,
            },
        );
        r.push(
            SampleParams {
                table: tables[i].clone(),
                method: SampleMethod::RandomSample,
                limit: SAMPLE_LIMIT,
            },
        );
        i += 1;
    }
    r
}

// ---------------------------------------------------------------------------
// The cache key
// ---------------------------------------------------------------------------

/// The key under which messages of a kind, for a model and a set of tables, are
/// kept.
pub open spec fn cache_key(kind: Seq<char>, model: Seq<char>, tables: Seq<Seq<char>>) -> Seq<
    char,
> {
    kind + "\u{0}"@ + model + "\u{0}"@ + text::joined(order::sorted(tables), "\u{1}"@)
}

/// The key under which messages of a kind, for a model and a set of tables, are
/// kept.
pub fn nsql_cache_key(kind: &str, model: &str, tables: &Vec<String>) -> (r: String)
    ensures
        r@ == cache_key(kind@, model@, text::texts(tables@)),
{
    let mut r = kind.to_owned();
    r.push_str("\u{0}");
    r.push_str(model);
    r.push_str("\u{0}");
    r.push_str(join(&sort_texts(tables), "\u{1}").as_str());
    r
}

/// The key, unless messages are not kept at all.
pub fn cache_entry(ttl_secs: u64, kind: &str, model: &str, tables: &Vec<String>) -> (r: Option<
    String,
>)
    ensures
        text::text_of(r) == if ttl_secs == 0 {
            None
        } else {
            Some(cache_key(kind@, model@, text::texts(tables@)))
        },
{
    if ttl_secs == 0 {
        None
    } else {
        Some(nsql_cache_key(kind, model, tables))
    }
}

/// The key depends on which tables there are, not on their order nor on how often
/// each is named.
pub proof fn law_cache_key_ignores_order(
    kind: Seq<char>,
    model: Seq<char>,
    a: Seq<Seq<char>>,
    b: Seq<Seq<char>>,
)
    requires
        forall|t: Seq<char>| #[trigger] a.contains(t) <==> b.contains(t),
    ensures
        cache_key(kind, model, a) == cache_key(kind, model, b),
{
    order::law_sorted_is_order_independent(a, b);
}

/// Joined texts, the first apart.
proof fn lemma_joined_first(v: Seq<Seq<char>>, sep: Seq<char>)
    requires
        v.len() >= 2,
    ensures
        text::joined(v, sep) == v[0] + sep + text::joined(v.skip(1), sep),
    decreases v.len(),
{
    let front = v.drop_last();
    if v.len() == 2 {
        assert(front.len() == 1 && front[0] == v[0]);
        assert(v.skip(1).len() == 1 && v.skip(1)[0] == v[1]);
        assert(text::joined(front, sep) == v[0]);
        assert(text::joined(v.skip(1), sep) == v[1]);
    } else {
        lemma_joined_first(front, sep);
        assert(v.skip(1).drop_last() == front.skip(1));
        assert(v.skip(1).last() == v.last());
        assert(text::joined(v.skip(1), sep) == text::joined(front.skip(1), sep) + sep + v.last());
        assert(v[0] + sep + text::joined(front.skip(1), sep) + sep + v.last() == v[0] + sep + (
        text::joined(front.skip(1), sep) + sep + v.last()));
    }
}

/// Texts that are not empty and do not hold the separator are told apart when they
/// are joined.
proof fn lemma_joined_injective(a: Seq<Seq<char>>, b: Seq<Seq<char>>, c: char)
    requires
        forall|i: int| 0 <= i < a.len() ==> (#[trigger] a[i]).len() > 0 && !a[i].contains(c),
        forall|i: int| 0 <= i < b.len() ==> (#[trigger] b[i]).len() > 0 && !b[i].contains(c),
        text::joined(a, seq![c]) == text::joined(b, seq![c]),
    ensures
        a == b,
    decreases a.len(),
{
    let sep = seq![c];
    let j = text::joined(a, sep);
    if a.len() >= 2 {
        lemma_joined_first(a, sep);
    }
    if b.len() >= 2 {
        lemma_joined_first(b, sep);
    }
    if a.len() == 0 || b.len() == 0 {
        if a.len() == 0 && b.len() > 0 {
            assert(j.len() == 0);
            assert(b[0].len() > 0);
            assert(text::joined(b, sep).len() > 0);
        }
        if b.len() == 0 && a.len() > 0 {
            assert(text::joined(b, sep).len() == 0);
            assert(a[0].len() > 0);
            assert(j.len() > 0);
        }
        assert(a == b);
    } else if a.len() == 1 && b.len() == 1 {
        assert(a == b);
    } else if a.len() == 1 {
        let rest = text::joined(b.skip(1), sep);
        assert((b[0] + sep + rest)[b[0].len() as int] == c);
        assert(a[0].contains(c));
        assert(false);
    } else if b.len() == 1 {
        let rest = text::joined(a.skip(1), sep);
        assert((a[0] + sep + rest)[a[0].len() as int] == c);
        assert(b[0].contains(c));
        assert(false);
    } else {
        let x = text::joined(a.skip(1), sep);
        let y = text::joined(b.skip(1), sep);
        text::lemma_split_once(a[0], b[0], x, y, c);
        assert forall|i: int| 0 <= i < a.skip(1).len() implies (#[trigger] a.skip(1)[i]).len() > 0
            && !a.skip(1)[i].contains(c) by {
            assert(a.skip(1)[i] == a[i + 1]);
        }
        assert forall|i: int| 0 <= i < b.skip(1).len() implies (#[trigger] b.skip(1)[i]).len() > 0
            && !b.skip(1)[i].contains(c) by {
            assert(b.skip(1)[i] == b[i + 1]);
        }
        lemma_joined_injective(a.skip(1), b.skip(1), c);
        assert(a == seq![a[0]] + a.skip(1));
        assert(b == seq![b[0]] + b.skip(1));
    }
}

/// Two keys are the same only for the same kind, the same model and the same set of
/// tables, where no part holds the characters that set the parts off and no table's
/// name is empty.
pub proof fn law_cache_key_is_scoped(
    kind1: Seq<char>,
    model1: Seq<char>,
    tables1: Seq<Seq<char>>,
    kind2: Seq<char>,
    model2: Seq<char>,
    tables2: Seq<Seq<char>>,
)
    requires
        !kind1.contains('\u{0}') && !kind2.contains('\u{0}'),
        !model1.contains('\u{0}') && !model2.contains('\u{0}'),
        forall|t: Seq<char>| #[trigger] tables1.contains(t) ==> t.len() > 0 && !t.contains('\u{1}'),
        forall|t: Seq<char>| #[trigger] tables2.contains(t) ==> t.len() > 0 && !t.contains('\u{1}'),
        cache_key(kind1, model1, tables1) == cache_key(kind2, model2, tables2),
    ensures
        kind1 == kind2,
        model1 == model2,
        forall|t: Seq<char>| #[trigger] tables1.contains(t) <==> tables2.contains(t),
{
    reveal_strlit("\u{0}");
    reveal_strlit("\u{1}");
    assert("\u{0}"@ == seq!['\u{0}']);
    assert("\u{1}"@ == seq!['\u{1}']);
    let s1 = order::sorted(tables1);
    let s2 = order::sorted(tables2);
    let j1 = text::joined(s1, "\u{1}"@);
    let j2 = text::joined(s2, "\u{1}"@);
    let z = seq!['\u{0}'];
    let rest1 = model1 + z + j1;
    let rest2 = model2 + z + j2;
    assert(cache_key(kind1, model1, tables1) == kind1 + z + rest1);
    assert(cache_key(kind2, model2, tables2) == kind2 + z + rest2);
    text::lemma_split_once(kind1, kind2, rest1, rest2, '\u{0}');
    text::lemma_split_once(model1, model2, j1, j2, '\u{0}');
    order::law_sorted_is_ascending(tables1);
    order::law_sorted_is_ascending(tables2);
    assert forall|i: int| 0 <= i < s1.len() implies (#[trigger] s1[i]).len() > 0
        && !s1[i].contains('\u{1}') by {
        assert(s1.contains(s1[i]));
        assert(tables1.contains(s1[i]));
    }
    assert forall|i: int| 0 <= i < s2.len() implies (#[trigger] s2[i]).len() > 0
        && !s2[i].contains('\u{1}') by {
        assert(s2.contains(s2[i]));
        assert(tables2.contains(s2[i]));
    }
    lemma_joined_injective(s1, s2, '\u{1}');
    assert forall|t: Seq<char>| #[trigger] tables1.contains(t) <==> tables2.contains(t) by {
        assert(s1.contains(t) <==> tables1.contains(t));
        assert(s2.contains(t) <==> tables2.contains(t));
    }
}

// ---------------------------------------------------------------------------
// What the model is told
// ---------------------------------------------------------------------------

/// A dataset of the app, and where its data come from.
#[derive(Debug)]
pub struct DatasetEntry {
    pub name: String,
    pub from: String,
}

/// The names of the datasets whose source begins with a prefix, in order.
pub open spec fn names_from(datasets: Seq<DatasetEntry>, prefix: Seq<char>) -> Seq<Seq<char>>
    decreases datasets.len(),
{
    if datasets.len() == 0 {
        seq![]
    } else if text::starts_with(datasets.last().from@, prefix) {
        names_from(datasets.drop_last(), prefix).push(datasets.last().name@)
    } else {
        names_from(datasets.drop_last(), prefix)
    }
}

/// The names of the datasets of an app, if it is ready, whose source begins with a
/// prefix.
pub open spec fn app_names_from(app: Option<Vec<DatasetEntry>>, prefix: Seq<char>) -> Seq<
    Seq<char>,
> {
    match app {
        Some(datasets) => names_from(datasets@, prefix),
        None => seq![],
    }
}

fn datasets_from(app: &Option<Vec<DatasetEntry>>, prefix: &str) -> (r: Vec<String>)
    ensures
        text::texts(r@) == app_names_from(*app, prefix@),
{
    let mut r: Vec<String> = Vec::new();
    assert(text::texts(r@) == Seq::<Seq<char>>::empty());
    if let Some(datasets) = app {
        let mut i: usize = 0;
        assert(text::texts(r@) == names_from(datasets@.take(0), prefix@));
        while i < datasets.len()
            invariant
                i <= datasets.len(),
                text::texts(r@) == names_from(datasets@.take(i as int), prefix@),
            decreases datasets.len() - i,
        {
            let ghost before = text::texts(r@);
            assert(datasets@.take(i + 1).drop_last() == datasets@.take(i as int));
            if begins_with(datasets[i].from.as_str(), prefix) {
                r.push(datasets[i].name.clone());
                assert(text::texts(r@) == before.push(datasets[i as int].name@));
            }
            i += 1;
        }
        assert(datasets@.take(i as int) == datasets@);
    }
    r
}

/// A setting, unless it is blank.
pub open spec fn unless_blank(v: Option<Seq<char>>) -> Option<Seq<char>> {
    match v {
        Some(s) => if text::trim(s).len() == 0 {
            None
        } else {
            Some(s)
        },
        None => None,
    }
}

/// What the model is told before the first attempt: the tables that can be searched
/// by meaning and, if there are any, a reranker; the datasets that are graphs and, if
/// there are any, what the operator says of their shape; and the tables of Milvus,
/// which can only be searched.
pub fn generation_context(
    searchable: Option<Vec<String>>,
    reranker: Option<String>,
    app: &Option<Vec<DatasetEntry>>,
    hint: Option<String>,
) -> (r: QueryGenerationContext)
    ensures
        r.failed_attempts.len() == 0,
        text::texts(r.semantic_search_tables@) == match searchable {
            Some(tables) => text::texts(tables@),
            None => seq![],
        },
        r.reranker == if r.semantic_search_tables.len() == 0 {
            None
        } else {
            reranker
        },
        text::texts(r.graph_datasets@) == app_names_from(*app, "neo4j:"@),
        text::text_of(r.graph_hint) == if r.graph_datasets.len() == 0 {
            None
        } else {
            unless_blank(text::text_of(hint))
        },
        text::texts(r.search_only_tables@) == app_names_from(*app, "milvus:"@),
        is_told(r, searchable, reranker, *app, text::text_of(hint)),
{
    let semantic_search_tables = match searchable {
        Some(tables) => tables,
        None => Vec::new(),
    };
    assert(searchable is None ==> text::texts(semantic_search_tables@)
        == Seq::<Seq<char>>::empty());
    let reranker = if semantic_search_tables.len() == 0 {
        None
    } else {
        reranker
    };
    let graph_datasets = datasets_from(app, "neo4j:");
    let graph_hint = match hint {
        Some(h) => {
            if graph_datasets.len() == 0 || trimmed(h.as_str()).as_str().is_empty() {
                None
            } else {
                Some(h)
            }
        },
        None => None,
    };
    QueryGenerationContext {
        failed_attempts: Vec::new(),
        semantic_search_tables,
        reranker,
        graph_datasets,
        graph_hint,
        search_only_tables: datasets_from(app, "milvus:"),
    }
}

// ---------------------------------------------------------------------------
// Which models, tables and datasets are used
// ---------------------------------------------------------------------------

/// The models that can be asked are those for language, all of them and in their order:
/// `at` gives for each its place among the models.
pub proof fn law_language_models_are_compatible(models: Seq<ModelEntry>) -> (at: Seq<int>)
    ensures
        at.len() == compatible(models).len(),
        forall|i: int|
            0 <= i < at.len() ==> 0 <= #[trigger] at[i] < models.len() && compatible(models)[i]
                == models[at[i]].name@ && models[at[i]].model_type == Some(ModelType::Llm),
        forall|i: int, j: int| 0 <= i < j < at.len() ==> #[trigger] at[i] < #[trigger] at[j],
        forall|k: int|
            0 <= k < models.len() && (#[trigger] models[k]).model_type == Some(ModelType::Llm)
                ==> at.contains(k),
    decreases models.len(),
{
    if models.len() == 0 {
        Seq::<int>::empty()
    } else {
        let front = models.drop_last();
        let n = models.len() - 1;
        let before = law_language_models_are_compatible(front);
        let at = if models.last().model_type == Some(ModelType::Llm) {
            before.push(n)
        } else {
            before
        };
        assert forall|i: int| 0 <= i < at.len() implies 0 <= #[trigger] at[i] < models.len()
            && compatible(models)[i] == models[at[i]].name@ && models[at[i]].model_type == Some(
            ModelType::Llm,
        ) by {
            if i < before.len() {
                assert(0 <= before[i] < front.len());
                assert(front[before[i]] == models[before[i]]);
            }
        }
        assert forall|k: int|
            0 <= k < models.len() && (#[trigger] models[k]).model_type == Some(
                ModelType::Llm,
            ) implies at.contains(k) by {
            if k < n {
                assert(front[k] == models[k]);
                assert(before.contains(k));
                let i = choose|i: int| 0 <= i < before.len() && before[i] == k;
                assert(at[i] == k);
            } else {
                assert(at[before.len() as int] == k);
            }
        }
        at
    }
}

/// A model that is asked for is used. Where none is, the only one for language is; where
/// there are none or several, the request is refused.
pub proof fn law_model_is_the_requested_or_the_only(
    requested: Option<Seq<char>>,
    models: Seq<ModelEntry>,
    i: int,
    j: int,
)
    requires
        0 <= i < models.len(),
        0 <= j < models.len(),
    ensures
        requested matches Some(m) ==> chosen_model(requested, Some(models)) == Ok::<
            Seq<char>,
            (u16, Seq<char>),
        >(m),
        requested is None && models[i].model_type == Some(ModelType::Llm) && (forall|k: int|
            0 <= k < models.len() && k != i ==> (#[trigger] models[k]).model_type != Some(
                ModelType::Llm,
            )) ==> chosen_model(requested, Some(models)) == Ok::<Seq<char>, (u16, Seq<char>)>(
            models[i].name@,
        ),
        requested is None && i < j && models[i].model_type == Some(ModelType::Llm)
            && models[j].model_type == Some(ModelType::Llm) ==> (chosen_model(
            requested,
            Some(models),
        ) matches Err((status, _)) && status == 400),
        requested is None && (forall|k: int|
            0 <= k < models.len() ==> (#[trigger] models[k]).model_type != Some(ModelType::Llm))
            ==> (chosen_model(requested, Some(models)) matches Err((status, _)) && status == 400),
{
    let at = law_language_models_are_compatible(models);
    if models[i].model_type == Some(ModelType::Llm) {
        assert(at.contains(i));
        let a = choose|a: int| 0 <= a < at.len() && at[a] == i;
        if forall|k: int|
            0 <= k < models.len() && k != i ==> (#[trigger] models[k]).model_type != Some(
                ModelType::Llm,
            ) {
            if at.len() > 1 {
                assert(at[0] < at[1]);
                assert(models[at[0]].model_type == Some(ModelType::Llm));
                assert(models[at[1]].model_type == Some(ModelType::Llm));
            }
            assert(compatible(models)[0] == models[at[0]].name@);
        }
        if i < j && models[j].model_type == Some(ModelType::Llm) {
            assert(at.contains(j));
            let b = choose|b: int| 0 <= b < at.len() && at[b] == j;
        }
    }
    if forall|k: int|
        0 <= k < models.len() ==> (#[trigger] models[k]).model_type != Some(ModelType::Llm) {
        if at.len() > 0 {
            assert(models[at[0]].model_type == Some(ModelType::Llm));
        }
    }
}

/// A model may read the datasets of the first model of its name; without an app nothing
/// is admitted.
pub proof fn law_model_reads_its_own_datasets(
    requested: Option<Seq<char>>,
    models: Seq<ModelEntry>,
    i: int,
)
    requires
        0 <= i < models.len(),
        forall|k: int| 0 <= k < i ==> (#[trigger] models[k]).name@ != models[i].name@,
    ensures
        model_datasets(models, models[i].name@) == text::texts(models[i].datasets@),
        requested == Some(models[i].name@) ==> admission(requested, Some(models)) == Ok::<
            (Seq<char>, Seq<Seq<char>>),
            (u16, Seq<char>),
        >((models[i].name@, text::texts(models[i].datasets@))),
        admission(requested, None) matches Err((status, _)) && status == 500,
    decreases models.len(),
{
    if i > 0 {
        let rest = models.skip(1);
        assert(models[0].name@ != models[i].name@);
        assert(rest[i - 1] == models[i]);
        assert forall|k: int| 0 <= k < i - 1 implies (#[trigger] rest[k]).name@
            != rest[i - 1].name@ by {
            assert(models[k + 1] == rest[k]);
        }
        law_model_reads_its_own_datasets(requested, rest, i - 1);
    }
}

/// The tables that a request uses are those that are allowed, all of them and no others.
pub proof fn law_only_allowed_tables_are_used(tables: Seq<Candidate>, name: Seq<char>)
    ensures
        allowed_names(tables).contains(name) <==> exists|i: int|
            0 <= i < tables.len() && (#[trigger] tables[i]).allowed && tables[i].name@ == name,
        (forall|i: int| 0 <= i < tables.len() ==> (#[trigger] tables[i]).allowed) ==> allowed_names(
            tables,
        ).len() == tables.len() && forall|i: int|
            0 <= i < tables.len() ==> #[trigger] allowed_names(tables)[i] == tables[i].name@,
    decreases tables.len(),
{
    if tables.len() > 0 {
        let front = tables.drop_last();
        let n = tables.len() - 1;
        law_only_allowed_tables_are_used(front, name);
        let old = allowed_names(front);
        let all = allowed_names(tables);
        if all.contains(name) {
            let k = choose|k: int| 0 <= k < all.len() && all[k] == name;
            if k < old.len() {
                assert(old[k] == name);
                assert(old.contains(name));
                let i = choose|i: int|
                    0 <= i < front.len() && (#[trigger] front[i]).allowed && front[i].name@ == name;
                assert(tables[i] == front[i]);
            } else {
                assert(tables[n].allowed && tables[n].name@ == name);
            }
        }
        if exists|i: int|
            0 <= i < tables.len() && (#[trigger] tables[i]).allowed && tables[i].name@ == name {
            let i = choose|i: int|
                0 <= i < tables.len() && (#[trigger] tables[i]).allowed && tables[i].name@ == name;
            if i < n {
                assert(front[i] == tables[i]);
                assert(old.contains(name));
                let k = choose|k: int| 0 <= k < old.len() && old[k] == name;
                assert(all[k] == name);
            } else {
                assert(all[old.len() as int] == name);
            }
        }
        if forall|i: int| 0 <= i < tables.len() ==> (#[trigger] tables[i]).allowed {
            assert forall|i: int| 0 <= i < front.len() implies (#[trigger] front[i]).allowed by {
                assert(front[i] == tables[i]);
            }
            assert(tables[n].allowed);
            assert forall|i: int| 0 <= i < tables.len() implies #[trigger] all[i]
                == tables[i].name@ by {
                if i < n {
                    assert(old[i] == front[i].name@);
                }
            }
        }
    }
}

/// The first dataset that may not be read is the one that a refusal names.
pub proof fn law_first_forbidden_is_the_first(tables: Seq<Candidate>, i: int)
    requires
        0 <= i < tables.len(),
        !tables[i].allowed,
        forall|k: int| 0 <= k < i ==> (#[trigger] tables[k]).allowed,
    ensures
        first_forbidden(tables) == Some(tables[i].name@),
    decreases tables.len(),
{
    if i > 0 {
        let rest = tables.skip(1);
        assert(tables[0].allowed);
        assert(rest[i - 1] == tables[i]);
        assert forall|k: int| 0 <= k < i - 1 implies (#[trigger] rest[k]).allowed by {
            assert(tables[k + 1] == rest[k]);
        }
        law_first_forbidden_is_the_first(rest, i - 1);
    }
}

/// The datasets of a store are those whose source begins with its prefix, all of them
/// and in their order.
pub proof fn law_datasets_of_a_store(datasets: Seq<DatasetEntry>, prefix: Seq<char>) -> (at: Seq<int>)
    ensures
        at.len() == names_from(datasets, prefix).len(),
        forall|i: int|
            0 <= i < at.len() ==> 0 <= #[trigger] at[i] < datasets.len() && names_from(
                datasets,
                prefix,
            )[i] == datasets[at[i]].name@ && text::starts_with(datasets[at[i]].from@, prefix),
        forall|i: int, j: int| 0 <= i < j < at.len() ==> #[trigger] at[i] < #[trigger] at[j],
        forall|k: int|
            0 <= k < datasets.len() && text::starts_with((#[trigger] datasets[k]).from@, prefix)
                ==> at.contains(k),
    decreases datasets.len(),
{
    if datasets.len() == 0 {
        Seq::<int>::empty()
    } else {
        let front = datasets.drop_last();
        let n = datasets.len() - 1;
        let before = law_datasets_of_a_store(front, prefix);
        let at = if text::starts_with(datasets.last().from@, prefix) {
            before.push(n)
        } else {
            before
        };
        assert forall|i: int| 0 <= i < at.len() implies 0 <= #[trigger] at[i] < datasets.len()
            && names_from(datasets, prefix)[i] == datasets[at[i]].name@ && text::starts_with(
            datasets[at[i]].from@,
            prefix,
        ) by {
            if i < before.len() {
                assert(0 <= before[i] < front.len());
                assert(front[before[i]] == datasets[before[i]]);
            }
        }
        assert forall|k: int|
            0 <= k < datasets.len() && text::starts_with(
                (#[trigger] datasets[k]).from@,
                prefix,
            ) implies at.contains(k) by {
            if k < n {
                assert(front[k] == datasets[k]);
                assert(before.contains(k));
                let i = choose|i: int| 0 <= i < before.len() && before[i] == k;
                assert(at[i] == k);
            } else {
                assert(at[before.len() as int] == k);
            }
        }
        at
    }
}

/// A hint that is blank is none; any other is kept as it is.
pub proof fn law_blank_hints_are_none(hint: Seq<char>)
    ensures
        text::all_white(hint) ==> unless_blank(Some(hint)) is None,
        !text::all_white(hint) ==> unless_blank(Some(hint)) == Some(hint),
        unless_blank(None) is None,
{
    let (a, b) = text::law_trim_takes_white_space_alone(hint);
    if text::all_white(hint) {
        if a < b {
            assert(text::is_white(hint[a]));
        }
    } else {
        let i = choose|i: int| 0 <= i < hint.len() && !text::is_white(#[trigger] hint[i]);
        if a == b {
            assert(text::is_white(hint[i]));
        }
    }
}

/// What a model is told of, from what is there.
pub open spec fn is_told(
    ctx: QueryGenerationContext,
    searchable: Option<Vec<String>>,
    reranker: Option<String>,
    app: Option<Vec<DatasetEntry>>,
    hint: Option<Seq<char>>,
) -> bool {
    &&& ctx.failed_attempts.len() == 0
    &&& match searchable {
        Some(tables) => text::texts(ctx.semantic_search_tables@) == text::texts(tables@),
        None => ctx.semantic_search_tables.len() == 0,
    }
    &&& if ctx.semantic_search_tables.len() > 0 {
        ctx.reranker == reranker
    } else {
        ctx.reranker is None
    }
    &&& text::texts(ctx.graph_datasets@) == app_names_from(app, "neo4j:"@)
    &&& text::texts(ctx.search_only_tables@) == app_names_from(app, "milvus:"@)
    &&& if ctx.graph_datasets.len() > 0 {
        text::text_of(ctx.graph_hint) == unless_blank(hint)
    } else {
        ctx.graph_hint is None
    }
}

/// A model is told of every dataset that is a graph and of every one that can only be
/// searched, by where it comes from; of the reranker only where there are tables to
/// search, and of the hint only where there is a graph.
pub proof fn law_model_is_told_what_there_is(
    ctx: QueryGenerationContext,
    searchable: Option<Vec<String>>,
    reranker: Option<String>,
    datasets: Vec<DatasetEntry>,
    hint: Seq<char>,
    k: int,
)
    requires
        is_told(ctx, searchable, reranker, Some(datasets), Some(hint)),
        0 <= k < datasets.len(),
    ensures
        ctx.failed_attempts.len() == 0,
        text::starts_with(datasets[k].from@, "neo4j:"@) ==> text::texts(
            ctx.graph_datasets@,
        ).contains(datasets[k].name@),
        text::starts_with(datasets[k].from@, "milvus:"@) ==> text::texts(
            ctx.search_only_tables@,
        ).contains(datasets[k].name@),
        text::starts_with(datasets[k].from@, "neo4j:"@) && !text::all_white(hint)
            ==> text::text_of(ctx.graph_hint) == Some(hint),
        text::all_white(hint) ==> ctx.graph_hint is None,
        searchable matches Some(tables) ==> text::texts(ctx.semantic_search_tables@)
            == text::texts(tables@) && (tables.len() > 0 ==> ctx.reranker == reranker),
        searchable is None ==> ctx.reranker is None && ctx.semantic_search_tables.len() == 0,
{
    law_blank_hints_are_none(hint);
    let g = law_datasets_of_a_store(datasets@, "neo4j:"@);
    let m = law_datasets_of_a_store(datasets@, "milvus:"@);
    assert(text::texts(ctx.graph_datasets@).len() == ctx.graph_datasets.len());
    assert(text::texts(ctx.semantic_search_tables@).len() == ctx.semantic_search_tables.len());
    if text::starts_with(datasets@[k].from@, "neo4j:"@) {
        assert(g.contains(k));
        let i = choose|i: int| 0 <= i < g.len() && g[i] == k;
        assert(text::texts(ctx.graph_datasets@)[i] == datasets@[k].name@);
    }
    if text::starts_with(datasets@[k].from@, "milvus:"@) {
        assert(m.contains(k));
        let i = choose|i: int| 0 <= i < m.len() && m[i] == k;
        assert(text::texts(ctx.search_only_tables@)[i] == datasets@[k].name@);
    }
    if let Some(tables) = searchable {
        assert(text::texts(tables@).len() == tables.len());
    }
}

/// Two samples of each table, of its distinct values and of random rows.
pub open spec fn are_samples(plan: Seq<SampleParams>, tables: Seq<Seq<char>>) -> bool {
    &&& plan.len() == 2 * tables.len()
    &&& forall|k: int|
        0 <= k < tables.len() ==> plan[2 * k].table@ == #[trigger] tables[k]
            && plan[2 * k].method == SampleMethod::DistinctColumns && plan[2 * k].limit == 3
            && plan[2 * k + 1].table@ == tables[k] && plan[2 * k + 1].method
            == SampleMethod::RandomSample && plan[2 * k + 1].limit == 3
}

/// Every table is sampled, and sampled in both ways, three values at a time.
pub proof fn law_every_table_is_sampled(plan: Seq<SampleParams>, tables: Seq<Seq<char>>, k: int)
    requires
        are_samples(plan, tables),
        0 <= k < tables.len(),
    ensures
        exists|i: int|
            0 <= i < plan.len() && (#[trigger] plan[i]).table@ == tables[k] && plan[i].method
                == SampleMethod::DistinctColumns && plan[i].limit == 3,
        exists|i: int|
            0 <= i < plan.len() && (#[trigger] plan[i]).table@ == tables[k] && plan[i].method
                == SampleMethod::RandomSample && plan[i].limit == 3,
        plan.len() == 2 * tables.len(),
{
    let t = tables[k];
    assert(plan[2 * k].table@ == t);
    assert(plan[2 * k + 1].table@ == t);
}

/// The tables of a request: those that it names, or all that its model may read.
pub open spec fn are_used(
    tables: Seq<String>,
    requested: Option<Vec<Candidate>>,
    user_tables: Seq<Candidate>,
) -> bool {
    match requested {
        Some(ds) => tables.len() == ds.len() && forall|i: int|
            0 <= i < ds.len() ==> (#[trigger] ds[i]).allowed && tables[i]@ == table_reference_text(
                ds[i].name@,
            ),
        None => text::texts(tables) == allowed_names(user_tables),
    }
}

/// No request uses a table that its model may not read.
pub proof fn law_no_forbidden_table_is_used(
    tables: Seq<String>,
    requested: Option<Vec<Candidate>>,
    user_tables: Seq<Candidate>,
    i: int,
)
    requires
        are_used(tables, requested, user_tables),
        0 <= i < tables.len(),
    ensures
        requested matches Some(ds) ==> tables.len() == ds.len() && ds[i].allowed && tables[i]@
            == table_reference_text(ds[i].name@),
        requested is None ==> exists|k: int|
            0 <= k < user_tables.len() && (#[trigger] user_tables[k]).allowed
                && user_tables[k].name@ == tables[i]@,
{
    if requested is None {
        law_only_allowed_tables_are_used(user_tables, tables[i]@);
        assert(text::texts(tables)[i] == tables[i]@);
        assert(allowed_names(user_tables).contains(tables[i]@));
    } else {
        let ds = requested->0;
        assert(ds[i].allowed);
    }
}

} // verus!
