//! The prompt that asks a model for SQL.
//!
//! The prompt states the question and the rules that the SQL has to keep. Further
//! parts stand in it only where there is something to say: the attempts that failed,
//! the tables that can be searched by meaning and the reranker, the tables that can
//! only be searched, and the datasets that are graphs.
use vstd::prelude::*;

use crate::nsql::wording::{
    BASE_1, BASE_2, SEMANTIC_1, SEMANTIC_2, SEMANTIC_3, SEMANTIC_4, SEMANTIC_5, RERANK_1, RERANK_2, RERANK_3, RERANK_4, RERANK_5, SEARCH_ONLY_1, SEARCH_ONLY_2, SEARCH_ONLY_3, SEARCH_ONLY_4, GRAPH_1, GRAPH_2, GRAPH_3,
};
use crate::text;
use crate::text::join;

verus! {

/// A statement that failed, and why.
#[derive(Debug)]
pub struct FailedAttempt {
    pub attempted_query: String,
    pub error_message: String,
}

impl FailedAttempt {
    pub fn new(attempted_query: String, error_message: String) -> (r: Self)
        ensures
            r == (FailedAttempt { attempted_query, error_message }),
    {
        FailedAttempt { attempted_query, error_message }
    }
}

/// What a prompt says beyond the question.
#[derive(Debug)]
pub struct QueryGenerationContext {
    pub failed_attempts: Vec<FailedAttempt>,
    /// The tables that have a vector index.
    pub semantic_search_tables: Vec<String>,
    /// A reranker that may be used on the hits of a semantic search.
    pub reranker: Option<String>,
    /// The datasets that are Neo4j graphs.
    pub graph_datasets: Vec<String>,
    /// What the operator says of the shape of the graphs.
    pub graph_hint: Option<String>,
    /// The tables that can be searched but hold no rows to scan. A table that merely
    /// has an embedding can still be scanned and is none of them.
    pub search_only_tables: Vec<String>,
}

impl Default for QueryGenerationContext {
    fn default() -> (r: Self)
        ensures
            r.failed_attempts.len() == 0,
            r.semantic_search_tables.len() == 0,
            r.reranker is None,
            r.graph_datasets.len() == 0,
            r.graph_hint is None,
            r.search_only_tables.len() == 0,
    {
        QueryGenerationContext {
            failed_attempts: Vec::new(),
            semantic_search_tables: Vec::new(),
            reranker: None,
            graph_datasets: Vec::new(),
            graph_hint: None,
            search_only_tables: Vec::new(),
        }
    }
}

// ---------------------------------------------------------------------------
// The parts of a prompt
// ---------------------------------------------------------------------------

/// One attempt that failed.
pub open spec fn attempt_text(a: FailedAttempt) -> Seq<char> {
    "sql: `"@ + a.attempted_query@ + "`\nerror: `"@ + a.error_message@ + "`\n\n"@
}

/// The attempts that failed, in order.
pub open spec fn attempts_text(attempts: Seq<FailedAttempt>) -> Seq<char>
    decreases attempts.len(),
{
    if attempts.len() == 0 {
        seq![]
    } else {
        attempts_text(attempts.drop_last()) + attempt_text(attempts.last())
    }
}

/// The question and the rules.
pub open spec fn base_part(query: Seq<char>) -> Seq<char> {
    BASE_1@
        + query
        + BASE_2@
}

/// The part on attempts that failed.
pub open spec fn failed_part(attempts: Seq<FailedAttempt>) -> Seq<char> {
    if attempts.len() == 0 {
        seq![]
    } else {
        "\nUse incorrectly written SQL queries and associated errors below to ensure that the new query avoids repeating the same mistakes or generating identical queries:\n\n"@
            + attempts_text(attempts)
    }
}

/// How to search tables by meaning, with the first as an example.
pub open spec fn semantic_text(tables: Seq<char>, example: Seq<char>) -> Seq<char> {
    SEMANTIC_1@
        + tables
        + SEMANTIC_2@
        + tables
        + SEMANTIC_3@
        + example
        + SEMANTIC_4@
        + example
        + SEMANTIC_5@
}

/// How to rerank the hits of a search.
pub open spec fn rerank_text(reranker: Seq<char>, example: Seq<char>) -> Seq<char> {
    RERANK_1@
        + reranker
        + RERANK_2@
        + example
        + RERANK_3@
        + reranker
        + RERANK_4@
        + reranker
        + RERANK_5@
}

/// The part on semantic search, with that on reranking where there is a reranker.
pub open spec fn semantic_part(tables: Seq<Seq<char>>, reranker: Option<Seq<char>>) -> Seq<char> {
    if tables.len() == 0 {
        seq![]
    } else {
        semantic_text(text::joined(tables, ", "@), tables[0]) + match reranker {
            Some(r) => rerank_text(r, tables[0]),
            None => seq![],
        }
    }
}

/// What search-only tables cannot do.
pub open spec fn search_only_text(tables: Seq<char>, first: Seq<char>) -> Seq<char> {
    SEARCH_ONLY_1@
        + tables
        + SEARCH_ONLY_2@
        + first
        + SEARCH_ONLY_3@
        + first
        + SEARCH_ONLY_4@
}

/// The part on search-only tables.
pub open spec fn search_only_part(tables: Seq<Seq<char>>) -> Seq<char> {
    if tables.len() == 0 {
        seq![]
    } else {
        search_only_text(text::joined(tables, ", "@), tables[0])
    }
}

/// How to query graphs.
pub open spec fn graph_text(datasets: Seq<char>, first: Seq<char>) -> Seq<char> {
    GRAPH_1@
        + datasets
        + GRAPH_2@
        + first
        + GRAPH_3@
}

/// The part on graphs, with what the operator says of their shape.
pub open spec fn graph_part(datasets: Seq<Seq<char>>, hint: Option<Seq<char>>) -> Seq<char> {
    if datasets.len() == 0 {
        seq![]
    } else {
        graph_text(text::joined(datasets, ", "@), datasets[0]) + match hint {
            Some(h) => " GRAPH SHAPE (use these exact conventions): "@ + h,
            None => seq![],
        }
    }
}

/// The prompt for a question.
pub open spec fn prompt(query: Seq<char>, ctx: QueryGenerationContext) -> Seq<char> {
    base_part(query) + failed_part(ctx.failed_attempts@) + semantic_part(
        text::texts(ctx.semantic_search_tables@),
        text::text_of(ctx.reranker),
    ) + search_only_part(text::texts(ctx.search_only_tables@)) + graph_part(
        text::texts(ctx.graph_datasets@),
        text::text_of(ctx.graph_hint),
    )
}

// ---------------------------------------------------------------------------
// Writing a prompt
// ---------------------------------------------------------------------------

/// The attempts that failed, in order.
pub fn failed_attempts_formatted(attempts: &Vec<FailedAttempt>) -> (r: String)
    ensures
        r@ == attempts_text(attempts@),
{
    let mut r = String::new();
    let mut i: usize = 0;
    assert(r@ == attempts_text(attempts@.take(0)));
    while i < attempts.len()
        invariant
            i <= attempts.len(),
            r@ == attempts_text(attempts@.take(i as int)),
        decreases attempts.len() - i,
    {
        assert(attempts@.take(i + 1).drop_last() == attempts@.take(i as int));
        let mut a = "sql: `".to_owned();
        a.push_str(attempts[i].attempted_query.as_str());
        a.push_str("`\nerror: `");
        a.push_str(attempts[i].error_message.as_str());
        a.push_str("`\n\n");
        r.push_str(a.as_str());
        i += 1;
    }
    assert(attempts@.take(i as int) == attempts@);
    r
}

fn base(query: &str) -> (r: String)
    ensures
        r@ == base_part(query@),
{
    let mut r = BASE_1.to_owned();
    r.push_str(query);
    r.push_str(BASE_2);
    r
}

fn failed(attempts: &Vec<FailedAttempt>) -> (r: String)
    ensures
        r@ == failed_part(attempts@),
{
    if attempts.len() == 0 {
        return String::new();
    }
    let mut r = "\nUse incorrectly written SQL queries and associated errors below to ensure that the new query avoids repeating the same mistakes or generating identical queries:\n\n".to_owned();
    r.push_str(failed_attempts_formatted(attempts).as_str());
    r
}

fn semantic(tables: &str, example: &str) -> (r: String)
    ensures
        r@ == semantic_text(tables@, example@),
{
    let mut r = SEMANTIC_1.to_owned();
    r.push_str(tables);
    r.push_str(SEMANTIC_2);
    r.push_str(tables);
    r.push_str(SEMANTIC_3);
    r.push_str(example);
    r.push_str(SEMANTIC_4);
    r.push_str(example);
    r.push_str(SEMANTIC_5);
    r
}

fn rerank(reranker: &str, example: &str) -> (r: String)
    ensures
        r@ == rerank_text(reranker@, example@),
{
    let mut r = RERANK_1.to_owned();
    r.push_str(reranker);
    r.push_str(RERANK_2);
    r.push_str(example);
    r.push_str(RERANK_3);
    r.push_str(reranker);
    r.push_str(RERANK_4);
    r.push_str(reranker);
    r.push_str(RERANK_5);
    r
}

fn search_only(tables: &str, first: &str) -> (r: String)
    ensures
        r@ == search_only_text(tables@, first@),
{
    let mut r = SEARCH_ONLY_1.to_owned();
    r.push_str(tables);
    r.push_str(SEARCH_ONLY_2);
    r.push_str(first);
    r.push_str(SEARCH_ONLY_3);
    r.push_str(first);
    r.push_str(SEARCH_ONLY_4);
    r
}

fn graph(datasets: &str, first: &str) -> (r: String)
    ensures
        r@ == graph_text(datasets@, first@),
{
    let mut r = GRAPH_1.to_owned();
    r.push_str(datasets);
    r.push_str(GRAPH_2);
    r.push_str(first);
    r.push_str(GRAPH_3);
    r
}

/// The part on semantic search.
fn semantic_section(tables: &Vec<String>, reranker: &Option<String>) -> (r: String)
    ensures
        r@ == semantic_part(text::texts(tables@), text::text_of(*reranker)),
{
    if tables.len() == 0 {
        return String::new();
    }
    let example = tables[0].as_str();
    let mut r = semantic(join(tables, ", ").as_str(), example);
    let more = match reranker {
        Some(k) => rerank(k.as_str(), example),
        None => String::new(),
    };
    r.push_str(more.as_str());
    r
}

/// The part on graphs.
fn graph_section(datasets: &Vec<String>, hint: &Option<String>) -> (r: String)
    ensures
        r@ == graph_part(text::texts(datasets@), text::text_of(*hint)),
{
    if datasets.len() == 0 {
        return String::new();
    }
    let mut r = graph(join(datasets, ", ").as_str(), datasets[0].as_str());
    let mut more = String::new();
    if let Some(h) = hint {
        more.push_str(" GRAPH SHAPE (use these exact conventions): ");
        more.push_str(h.as_str());
        assert(more@ == " GRAPH SHAPE (use these exact conventions): "@ + h@);
    }
    r.push_str(more.as_str());
    r
}

/// The prompt for a question.
pub fn create_prompt(query: &str, ctx: &QueryGenerationContext) -> (r: String)
    ensures
        r@ == prompt(query@, *ctx),
{
    let mut r = base(query);
    r.push_str(failed(&ctx.failed_attempts).as_str());
    r.push_str(semantic_section(&ctx.semantic_search_tables, &ctx.reranker).as_str());
    let tables = &ctx.search_only_tables;
    let only = if tables.len() == 0 {
        String::new()
    } else {
        search_only(join(tables, ", ").as_str(), tables[0].as_str())
    };
    r.push_str(only.as_str());
    r.push_str(graph_section(&ctx.graph_datasets, &ctx.graph_hint).as_str());
    r
}

// ---------------------------------------------------------------------------
// What a prompt says
// ---------------------------------------------------------------------------

proof fn lemma_contains_between(a: Seq<char>, b: Seq<char>, c: Seq<char>)
    ensures
        text::contains(a + b + c, b),
{
    assert((a + b + c).subrange(a.len() as int, (a.len() + b.len()) as int) == b);
    assert(text::stands_at(a + b + c, b, a.len() as int));
}

proof fn lemma_contains_in_part(a: Seq<char>, part: Seq<char>, c: Seq<char>, b: Seq<char>)
    requires
        text::contains(part, b),
    ensures
        text::contains(a + part + c, b),
{
    let k = choose|k: int| text::stands_at(part, b, k);
    let all = a + part + c;
    assert(all.subrange(a.len() + k, a.len() + k + b.len()) == part.subrange(k, k + b.len()));
    assert(text::stands_at(all, b, a.len() + k));
}

proof fn lemma_attempts_contain(attempts: Seq<FailedAttempt>, i: int)
    requires
        0 <= i < attempts.len(),
    ensures
        text::contains(attempts_text(attempts), attempt_text(attempts[i])),
    decreases attempts.len(),
{
    let front = attempts_text(attempts.drop_last());
    let last = attempt_text(attempts.last());
    let none = Seq::<char>::empty();
    if i < attempts.len() - 1 {
        lemma_attempts_contain(attempts.drop_last(), i);
        lemma_contains_in_part(none, front, last, attempt_text(attempts[i]));
        assert(none + front + last == front + last);
    } else {
        lemma_contains_between(front, last, none);
        assert(front + last + none == front + last);
    }
}

/// What one of five parts says, all of them say.
proof fn lemma_five_parts(
    a: Seq<char>,
    b: Seq<char>,
    c: Seq<char>,
    d: Seq<char>,
    e: Seq<char>,
    x: Seq<char>,
)
    ensures
        text::contains(a, x) || text::contains(b, x) || text::contains(c, x) || text::contains(d, x)
            || text::contains(e, x) ==> text::contains(a + b + c + d + e, x),
{
    let none = Seq::<char>::empty();
    let all = a + b + c + d + e;
    if text::contains(a, x) {
        lemma_contains_in_part(none, a, b + c + d + e, x);
        assert(none + a + (b + c + d + e) == all);
    } else if text::contains(b, x) {
        lemma_contains_in_part(a, b, c + d + e, x);
        assert(a + b + (c + d + e) == all);
    } else if text::contains(c, x) {
        lemma_contains_in_part(a + b, c, d + e, x);
        assert(a + b + c + (d + e) == all);
    } else if text::contains(d, x) {
        lemma_contains_in_part(a + b + c, d, e, x);
    } else if text::contains(e, x) {
        lemma_contains_in_part(a + b + c + d, e, none, x);
        assert(all + none == all);
    }
}

proof fn lemma_failed_part(attempts: Seq<FailedAttempt>, i: int)
    requires
        0 <= i < attempts.len(),
    ensures
        text::contains(failed_part(attempts), attempt_text(attempts[i])),
{
    let none = Seq::<char>::empty();
    let listed = attempts_text(attempts);
    let head =
        "\nUse incorrectly written SQL queries and associated errors below to ensure that the new query avoids repeating the same mistakes or generating identical queries:\n\n"@;
    lemma_attempts_contain(attempts, i);
    lemma_contains_in_part(head, listed, none, attempt_text(attempts[i]));
    assert(head + listed + none == failed_part(attempts));
}

proof fn lemma_semantic_part(tables: Seq<Seq<char>>, reranker: Option<Seq<char>>)
    requires
        tables.len() > 0,
    ensures
        text::contains(semantic_part(tables, reranker), text::joined(tables, ", "@)),
        reranker matches Some(r) ==> text::contains(semantic_part(tables, reranker), r),
{
    let none = Seq::<char>::empty();
    let names = text::joined(tables, ", "@);
    let said = semantic_text(names, tables[0]);
    let tail = SEMANTIC_2@ + names + SEMANTIC_3@ + tables[0] + SEMANTIC_4@ + tables[0]
        + SEMANTIC_5@;
    lemma_contains_between(SEMANTIC_1@, names, tail);
    assert(SEMANTIC_1@ + names + tail == said);
    match reranker {
        Some(r) => {
            let more = rerank_text(r, tables[0]);
            let tail = RERANK_2@ + tables[0] + RERANK_3@ + r + RERANK_4@ + r + RERANK_5@;
            lemma_contains_between(RERANK_1@, r, tail);
            assert(RERANK_1@ + r + tail == more);
            lemma_contains_in_part(none, said, more, names);
            assert(none + said + more == said + more);
            lemma_contains_in_part(said, more, none, r);
            assert(said + more + none == said + more);
        },
        None => {
            assert(said + none == said);
        },
    }
}

proof fn lemma_search_only_part(tables: Seq<Seq<char>>)
    requires
        tables.len() > 0,
    ensures
        text::contains(search_only_part(tables), text::joined(tables, ", "@)),
{
    let names = text::joined(tables, ", "@);
    let tail = SEARCH_ONLY_2@ + tables[0] + SEARCH_ONLY_3@ + tables[0] + SEARCH_ONLY_4@;
    lemma_contains_between(SEARCH_ONLY_1@, names, tail);
    assert(SEARCH_ONLY_1@ + names + tail == search_only_text(names, tables[0]));
}

proof fn lemma_graph_part(datasets: Seq<Seq<char>>, hint: Option<Seq<char>>)
    requires
        datasets.len() > 0,
    ensures
        text::contains(graph_part(datasets, hint), text::joined(datasets, ", "@)),
        hint matches Some(h) ==> text::contains(graph_part(datasets, hint), h),
{
    let none = Seq::<char>::empty();
    let names = text::joined(datasets, ", "@);
    let said = graph_text(names, datasets[0]);
    let tail = GRAPH_2@ + datasets[0] + GRAPH_3@;
    lemma_contains_between(GRAPH_1@, names, tail);
    assert(GRAPH_1@ + names + tail == said);
    match hint {
        Some(h) => {
            let head = " GRAPH SHAPE (use these exact conventions): "@;
            lemma_contains_in_part(none, said, head + h, names);
            assert(none + said + (head + h) == said + (head + h));
            lemma_contains_between(said + head, h, none);
            assert(said + head + h + none == said + (head + h));
        },
        None => {
            assert(said + none == said);
        },
    }
}

/// Without anything else to say, a prompt is the question and the rules; a reranker
/// without a table to search, and a hint without a graph, say nothing.
pub proof fn law_prompt_says_nothing_more(query: Seq<char>, ctx: QueryGenerationContext)
    requires
        ctx.failed_attempts.len() == 0,
        ctx.semantic_search_tables.len() == 0,
        ctx.search_only_tables.len() == 0,
        ctx.graph_datasets.len() == 0,
    ensures
        prompt(query, ctx) == base_part(query),
{
    assert(prompt(query, ctx) == base_part(query));
}

/// A prompt names the question, every attempt that failed, every kind of tables that
/// there are, the reranker where a table can be searched, and what the operator says
/// where there is a graph.
pub proof fn law_prompt_names_what_there_is(query: Seq<char>, ctx: QueryGenerationContext)
    ensures
        text::contains(prompt(query, ctx), query),
        forall|i: int|
            0 <= i < ctx.failed_attempts.len() ==> text::contains(
                prompt(query, ctx),
                attempt_text(#[trigger] ctx.failed_attempts[i]),
            ),
        ctx.semantic_search_tables.len() > 0 ==> text::contains(
            prompt(query, ctx),
            text::joined(text::texts(ctx.semantic_search_tables@), ", "@),
        ),
        ctx.semantic_search_tables.len() > 0 && ctx.reranker is Some ==> text::contains(
            prompt(query, ctx),
            ctx.reranker->0@,
        ),
        ctx.search_only_tables.len() > 0 ==> text::contains(
            prompt(query, ctx),
            text::joined(text::texts(ctx.search_only_tables@), ", "@),
        ),
        ctx.graph_datasets.len() > 0 ==> text::contains(
            prompt(query, ctx),
            text::joined(text::texts(ctx.graph_datasets@), ", "@),
        ),
        ctx.graph_datasets.len() > 0 && ctx.graph_hint is Some ==> text::contains(
            prompt(query, ctx),
            ctx.graph_hint->0@,
        ),
{
    let base = base_part(query);
    let failed = failed_part(ctx.failed_attempts@);
    let tables = text::texts(ctx.semantic_search_tables@);
    let semantic = semantic_part(tables, text::text_of(ctx.reranker));
    let onlys = text::texts(ctx.search_only_tables@);
    let only = search_only_part(onlys);
    let graphs = text::texts(ctx.graph_datasets@);
    let graph = graph_part(graphs, text::text_of(ctx.graph_hint));
    lemma_contains_between(BASE_1@, query, BASE_2@);
    lemma_five_parts(base, failed, semantic, only, graph, query);
    assert forall|i: int| 0 <= i < ctx.failed_attempts.len() implies text::contains(
        prompt(query, ctx),
        attempt_text(#[trigger] ctx.failed_attempts[i]),
    ) by {
        lemma_failed_part(ctx.failed_attempts@, i);
        lemma_five_parts(
            base,
            failed,
            semantic,
            only,
            graph,
            attempt_text(ctx.failed_attempts[i]),
        );
    }
    if tables.len() > 0 {
        lemma_semantic_part(tables, text::text_of(ctx.reranker));
        lemma_five_parts(base, failed, semantic, only, graph, text::joined(tables, ", "@));
        if let Some(r) = ctx.reranker {
            lemma_five_parts(base, failed, semantic, only, graph, r@);
        }
    }
    if onlys.len() > 0 {
        lemma_search_only_part(onlys);
        lemma_five_parts(base, failed, semantic, only, graph, text::joined(onlys, ", "@));
    }
    if graphs.len() > 0 {
        lemma_graph_part(graphs, text::text_of(ctx.graph_hint));
        lemma_five_parts(base, failed, semantic, only, graph, text::joined(graphs, ", "@));
        if let Some(h) = ctx.graph_hint {
            lemma_five_parts(base, failed, semantic, only, graph, h@);
        }
    }
}

/// A failed attempt is told with its statement and its error.
pub proof fn law_attempts_tell_statement_and_error(a: FailedAttempt)
    ensures
        text::stands_at(attempt_text(a), a.attempted_query@, 6),
        text::stands_at(attempt_text(a), a.error_message@, 16 + a.attempted_query@.len() as int),
        attempt_text(a).len() == 19 + a.attempted_query@.len() + a.error_message@.len(),
{
    reveal_strlit("sql: `");
    reveal_strlit("`\nerror: `");
    reveal_strlit("`\n\n");
    let t = attempt_text(a);
    let q = a.attempted_query@;
    let e = a.error_message@;
    let n = q.len() as int;
    let m = e.len() as int;
    assert(t.subrange(6, 6 + n) =~= q);
    assert(t.subrange(16 + n, 16 + n + m) =~= e);
}

/// Failed attempts are told in their order, one after the other: what is told of more
/// attempts goes on where what is told of the first ones ends.
pub proof fn law_attempts_are_told_in_order(a: Seq<FailedAttempt>, b: Seq<FailedAttempt>)
    ensures
        attempts_text(a + b) == attempts_text(a) + attempts_text(b),
        b.len() == 1 ==> attempts_text(b) == attempt_text(b[0]),
    decreases b.len(),
{
    if b.len() == 0 {
        assert(a + b =~= a);
        assert(attempts_text(a) + attempts_text(b) =~= attempts_text(a));
    } else {
        law_attempts_are_told_in_order(a, b.drop_last());
        assert((a + b).drop_last() =~= a + b.drop_last());
        assert((a + b).last() == b.last());
        assert(attempts_text(a) + (attempts_text(b.drop_last()) + attempt_text(b.last()))
            =~= attempts_text(a) + attempts_text(b.drop_last()) + attempt_text(b.last()));
        if b.len() == 1 {
            assert(b.drop_last().len() == 0);
            assert(attempts_text(b.drop_last()) + attempt_text(b[0]) =~= attempt_text(b[0]));
        }
    }
}

/// Two contexts that differ in what has no place in a prompt give the same prompt: a
/// reranker without tables to search, and a hint without a graph.
pub proof fn law_prompt_ignores_what_has_no_place(
    query: Seq<char>,
    a: QueryGenerationContext,
    b: QueryGenerationContext,
)
    requires
        a.failed_attempts == b.failed_attempts,
        a.semantic_search_tables == b.semantic_search_tables,
        a.graph_datasets == b.graph_datasets,
        a.search_only_tables == b.search_only_tables,
        a.semantic_search_tables.len() > 0 ==> a.reranker == b.reranker,
        a.graph_datasets.len() > 0 ==> a.graph_hint == b.graph_hint,
    ensures
        prompt(query, a) == prompt(query, b),
{
}

/// The parts of a prompt stand in a fixed order: the question, the failed attempts, the
/// tables to search, the tables that can only be searched, the graphs. Where a part has
/// nothing to say, it is not there.
pub proof fn law_prompt_is_in_order(query: Seq<char>, ctx: QueryGenerationContext) -> (parts: Seq<
    Seq<char>,
>)
    ensures
        parts.len() == 5,
        prompt(query, ctx) == parts[0] + parts[1] + parts[2] + parts[3] + parts[4],
        text::starts_with(parts[0], "Task: Write a SQL query to answer this question: _\\\""@ + query),
        ctx.failed_attempts.len() == 0 <==> parts[1].len() == 0,
        text::ends_with(parts[1], attempts_text(ctx.failed_attempts@)),
        ctx.semantic_search_tables.len() == 0 <==> parts[2].len() == 0,
        ctx.semantic_search_tables.len() > 0 ==> text::starts_with(
            parts[2],
            "\n\nSemantic search: these tables support vector similarity search over text: "@ + text::joined(text::texts(ctx.semantic_search_tables@), ", "@),
        ),
        ctx.search_only_tables.len() == 0 <==> parts[3].len() == 0,
        ctx.search_only_tables.len() > 0 ==> text::starts_with(
            parts[3],
            "\n\nSearch-only tables: "@ + text::joined(text::texts(ctx.search_only_tables@), ", "@),
        ),
        ctx.graph_datasets.len() == 0 <==> parts[4].len() == 0,
        ctx.graph_datasets.len() > 0 ==> text::starts_with(
            parts[4],
            "\n\nKnowledge graph: these datasets are Neo4j property graphs, queryable ONLY through the `graph_query` table function: "@ + text::joined(text::texts(ctx.graph_datasets@), ", "@),
        ),
        ctx.graph_datasets.len() > 0 && ctx.graph_hint is Some ==> text::ends_with(
            parts[4],
            ctx.graph_hint->0@,
        ),
{
    let attempts = ctx.failed_attempts@;
    let tables = text::texts(ctx.semantic_search_tables@);
    let only = text::texts(ctx.search_only_tables@);
    let graphs = text::texts(ctx.graph_datasets@);
    let p1 = failed_part(attempts);
    let p2 = semantic_part(tables, text::text_of(ctx.reranker));
    let p3 = search_only_part(only);
    let p4 = graph_part(graphs, text::text_of(ctx.graph_hint));
    if attempts.len() > 0 {
        let l = attempts_text(attempts);
        reveal_strlit(
            "\nUse incorrectly written SQL queries and associated errors below to ensure that the new query avoids repeating the same mistakes or generating identical queries:\n\n",
        );
        assert(p1.subrange(p1.len() - l.len(), p1.len() as int) =~= l);
    } else {
        assert(attempts_text(attempts).len() == 0);
        assert(p1.subrange(0, 0) =~= attempts_text(attempts));
    }
    reveal_strlit(
        "\n\nSemantic search: these tables support vector similarity search over text: ",
    );
    reveal_strlit(
        "\n\nSearch-only tables: ",
    );
    reveal_strlit(
        "\n\nKnowledge graph: these datasets are Neo4j property graphs, queryable ONLY through the `graph_query` table function: ",
    );
    if tables.len() > 0 {
        let h = "\n\nSemantic search: these tables support vector similarity search over text: "@ + text::joined(tables, ", "@);
        assert(p2.subrange(0, h.len() as int) =~= h);
    }
    if only.len() > 0 {
        let h = "\n\nSearch-only tables: "@ + text::joined(only, ", "@);
        assert(p3.subrange(0, h.len() as int) =~= h);
    }
    if graphs.len() > 0 {
        let h = "\n\nKnowledge graph: these datasets are Neo4j property graphs, queryable ONLY through the `graph_query` table function: "@ + text::joined(graphs, ", "@);
        assert(p4.subrange(0, h.len() as int) =~= h);
        if ctx.graph_hint is Some {
            let t = ctx.graph_hint->0@;
            assert(p4.subrange(p4.len() - t.len(), p4.len() as int) =~= t);
        }
    }
    let b = "Task: Write a SQL query to answer this question: _\\\""@ + query;
    assert(base_part(query).subrange(0, b.len() as int) =~= b);
    seq![base_part(query), p1, p2, p3, p4]
}

} // verus!
