//! `graph_query('<neo4j_dataset>', '<cypher>')`: a table function that runs a read
//! statement given at query time and exposes the columns it returns.
//!
//! The connection is that of a registered dataset. A statement that writes is
//! refused, a tenant's scope is enforced where one is configured, and the number
//! of rows is capped.
use vstd::prelude::*;

use crate::neo4j::client;
use crate::neo4j::client::{bare_statement, with_limit, Neo4jError, PropertyField};
use crate::neo4j::exec;
use crate::neo4j::exec::to_schema;
use crate::neo4j::reading;
use crate::neo4j::scope;
use crate::neo4j::scope::enforce_scope;
use crate::neo4j::table_provider::CypherTableProvider;
use crate::numeral;
use crate::numeral::{decimal_text, parse_number};
use crate::predicate::{Expr, ScalarValue};
use crate::text;
use crate::text::{chars_of, same_text, to_upper, words_of};

verus! {

/// The name of the table function.
pub const GRAPH_QUERY_UDTF_NAME: &'static str = "graph_query";

/// The default cap on the rows of one call.
pub const DEFAULT_MAX_ROWS: usize = 10_000;

/// The cap that a setting holds: the default if it is unset or no number.
pub open spec fn row_cap(value: Option<Seq<char>>) -> nat {
    match value {
        Some(s) => match numeral::numeral_up_to(s, usize::MAX as nat) {
            Some(n) => n,
            None => DEFAULT_MAX_ROWS as nat,
        },
        None => DEFAULT_MAX_ROWS as nat,
    }
}

/// The cap that a setting holds (0 turns the cap off).
pub fn max_rows(value: &Option<String>) -> (r: usize)
    ensures
        r == row_cap(text::text_of(*value)),
{
    match value {
        Some(s) => match parse_number(s.as_str(), usize::MAX as u64) {
            Some(n) => n as usize,
            None => DEFAULT_MAX_ROWS,
        },
        None => DEFAULT_MAX_ROWS,
    }
}

// ---------------------------------------------------------------------------
// Read-only statements
// ---------------------------------------------------------------------------

/// A word that, in any case, begins a clause which changes the graph or loads data.
pub open spec fn is_write_word(word: Seq<char>) -> bool {
    let w = text::upper(word);
    w == "CREATE"@ || w == "MERGE"@ || w == "DELETE"@ || w == "SET"@ || w == "REMOVE"@ || w
        == "DROP"@ || w == "DETACH"@ || w == "FOREACH"@ || w == "LOAD"@
}

/// The first of `words` that begins a clause which writes.
pub open spec fn first_write(words: Seq<Seq<char>>) -> Option<Seq<char>>
    decreases words.len(),
{
    if words.len() == 0 {
        None
    } else if is_write_word(words[0]) {
        Some(words[0])
    } else {
        first_write(words.skip(1))
    }
}

/// The refusal of a statement that writes.
pub open spec fn write_refusal(word: Seq<char>) -> Seq<char> {
    "graph_query(): only read-only Cypher is allowed; found write clause '"@ + word + "'"@
}

fn writes(word: &str) -> (r: bool)
    ensures
        r == is_write_word(word@),
{
    let upper = to_upper(word);
    let w = upper.as_str();
    same_text(w, "CREATE") || same_text(w, "MERGE") || same_text(w, "DELETE") || same_text(w, "SET")
        || same_text(w, "REMOVE") || same_text(w, "DROP") || same_text(w, "DETACH") || same_text(
        w,
        "FOREACH",
    ) || same_text(w, "LOAD")
}

/// Refuses a statement in which a word begins a clause that writes. A word is a
/// whole identifier, so `set_value` is none; one in a string literal is refused too.
pub fn ensure_read_only(cypher: &str) -> (r: Result<(), String>)
    ensures
        match r {
            Ok(_) => first_write(text::words(cypher@)) is None,
            Err(e) => first_write(text::words(cypher@)) matches Some(w) && e@ == write_refusal(w),
        },
{
    let words = words_of(&chars_of(cypher));
    let ghost all = text::words(cypher@);
    let mut i: usize = 0;
    assert(all.skip(0) == all);
    while i < words.len()
        invariant
            i <= words.len(),
            all == text::words(cypher@),
            text::texts(words@) == all,
            first_write(all) == first_write(all.skip(i as int)),
        decreases words.len() - i,
    {
        assert(all.skip(i as int)[0] == words[i as int]@);
        assert(all.skip(i as int).skip(1) == all.skip(i + 1));
        if writes(words[i].as_str()) {
            let mut e = "graph_query(): only read-only Cypher is allowed; found write clause '".to_owned();
            e.push_str(words[i].as_str());
            e.push_str("'");
            return Err(e);
        }
        i += 1;
    }
    Ok(())
}

proof fn lemma_first_write(words: Seq<Seq<char>>)
    ensures
        first_write(words) is None <==> forall|i: int|
            0 <= i < words.len() ==> !is_write_word(#[trigger] words[i]),
    decreases words.len(),
{
    if words.len() > 0 {
        let rest = words.skip(1);
        lemma_first_write(rest);
        if first_write(words) is None {
            assert forall|i: int| 0 <= i < words.len() implies !is_write_word(
                #[trigger] words[i],
            ) by {
                if i > 0 {
                    assert(rest[i - 1] == words[i]);
                }
            }
        } else if !is_write_word(words[0]) {
            let i = choose|i: int| 0 <= i < rest.len() && is_write_word(#[trigger] rest[i]);
            assert(is_write_word(words[i + 1]));
        }
    }
}

/// A statement is accepted as read-only if and only if no word of it begins a
/// clause that writes, in whatever case the word is written.
pub proof fn law_read_only_iff_no_write_word(cypher: Seq<char>)
    ensures
        first_write(text::words(cypher)) is None <==> forall|i: int, j: int| #[trigger]
            text::word_at(cypher, i, j) ==> !is_write_word(cypher.subrange(i, j)),
{
    let words = text::words(cypher);
    lemma_first_write(words);
    if first_write(words) is None {
        assert forall|i: int, j: int| #[trigger]
            text::word_at(cypher, i, j) implies !is_write_word(cypher.subrange(i, j)) by {
            let w = cypher.subrange(i, j);
            text::law_words_are_the_longest_runs(cypher, w);
            let k = choose|k: int| 0 <= k < words.len() && words[k] == w;
            assert(!is_write_word(words[k]));
        }
    } else {
        let k = choose|k: int| 0 <= k < words.len() && is_write_word(#[trigger] words[k]);
        assert(words.contains(words[k]));
        text::law_words_are_the_longest_runs(cypher, words[k]);
    }
}

// ---------------------------------------------------------------------------
// The row cap
// ---------------------------------------------------------------------------

/// A statement that returns at most `cap` rows; unchanged but for its trailing
/// separators where the cap is 0.
pub open spec fn with_cap(cypher: Seq<char>, cap: nat) -> Seq<char> {
    if cap == 0 {
        client::bare(cypher)
    } else {
        client::capped(cypher, cap)
    }
}

/// A statement that returns at most `cap` rows.
pub fn with_row_cap(cypher: &str, cap: usize) -> (r: String)
    ensures
        r@ == with_cap(cypher@, cap as nat),
{
    if cap == 0 {
        bare_statement(cypher)
    } else {
        with_limit(cypher, cap as u64)
    }
}

// ---------------------------------------------------------------------------
// A call
// ---------------------------------------------------------------------------

/// The text that an argument is, if it is a string literal.
pub open spec fn string_literal(e: Expr) -> Option<Seq<char>> {
    match e {
        Expr::Literal(ScalarValue::Utf8(Some(s))) => Some(s@),
        Expr::Literal(ScalarValue::LargeUtf8(Some(s))) => Some(s@),
        _ => None,
    }
}

/// The refusal of an argument that is no string literal.
pub open spec fn argument_refusal(which: Seq<char>) -> Seq<char> {
    "graph_query(): the "@ + which + " argument must be a string literal"@
}

/// The text of an argument.
pub fn string_arg(e: &Expr, which: &str) -> (r: Result<String, String>)
    ensures
        match r {
            Ok(s) => string_literal(*e) == Some(s@),
            Err(m) => string_literal(*e) is None && m@ == argument_refusal(which@),
        },
{
    match e {
        Expr::Literal(ScalarValue::Utf8(Some(s))) => Ok(s.clone()),
        Expr::Literal(ScalarValue::LargeUtf8(Some(s))) => Ok(s.clone()),
        _ => {
            let mut m = "graph_query(): the ".to_owned();
            m.push_str(which);
            m.push_str(" argument must be a string literal");
            Err(m)
        },
    }
}

/// A call that may be run: the dataset whose connection it uses, and the statement.
#[derive(Debug)]
pub struct GraphCall {
    pub dataset: String,
    pub cypher: String,
}

/// The statement that a call runs: refused if it writes or cannot be scoped, else
/// scoped, where there is a scope, and capped.
pub open spec fn allowed(cypher: Seq<char>, scope: Option<Seq<char>>, cap: nat) -> Result<
    Seq<char>,
    Seq<char>,
> {
    match first_write(text::words(cypher)) {
        Some(w) => Err(write_refusal(w)),
        None => match scope {
            None => Ok(with_cap(cypher, cap)),
            Some(s) => match scope::scoped(cypher, s) {
                Ok(c) => Ok(with_cap(c, cap)),
                Err(e) => Err(e),
            },
        },
    }
}

/// The statement that a call runs.
pub fn safe_statement(cypher: &str, scope: &Option<String>, cap: usize) -> (r: Result<String, String>)
    ensures
        scope::outcome(r) == allowed(cypher@, text::text_of(*scope), cap as nat),
{
    match ensure_read_only(cypher) {
        Err(e) => Err(e),
        Ok(_) => match scope {
            None => Ok(with_row_cap(cypher, cap)),
            Some(s) => match enforce_scope(cypher, s.as_str()) {
                Ok(c) => Ok(with_row_cap(c.as_str(), cap)),
                Err(e) => Err(e),
            },
        },
    }
}

/// A call in words: the dataset and the statement, or why it is refused.
pub open spec fn planned(args: Seq<Expr>, scope: Option<Seq<char>>, cap: nat) -> Result<
    (Seq<char>, Seq<char>),
    Seq<char>,
> {
    if args.len() != 2 {
        Err(
            "graph_query(neo4j_dataset, cypher) expects 2 string arguments, got "@
                + numeral::decimal(args.len()),
        )
    } else {
        match string_literal(args[0]) {
            None => Err(argument_refusal("first (neo4j dataset name)"@)),
            Some(dataset) => match string_literal(args[1]) {
                None => Err(argument_refusal("second (Cypher query)"@)),
                Some(cypher) => match allowed(cypher, scope, cap) {
                    Ok(c) => Ok((dataset, c)),
                    Err(e) => Err(e),
                },
            },
        }
    }
}

/// What became of the dataset that a call names.
#[derive(Clone, Copy, Debug, PartialEq, Eq, Structural)]
pub enum Lookup {
    /// The engine is gone.
    EngineDropped,
    /// There is no such dataset.
    Missing,
    /// The dataset is none of Neo4j.
    NotNeo4j,
    Found,
}

/// Why a dataset cannot be used.
pub open spec fn lookup_refusal(dataset: Seq<char>, lookup: Lookup) -> Option<Seq<char>> {
    match lookup {
        Lookup::EngineDropped => Some("graph_query(): DataFusion instance has been dropped"@),
        Lookup::Missing => Some(
            "graph_query(): dataset '"@ + dataset
                + "' not found; pass a registered neo4j dataset name"@,
        ),
        Lookup::NotNeo4j => Some(
            "graph_query(): dataset '"@ + dataset + "' is not a neo4j dataset"@,
        ),
        Lookup::Found => None,
    }
}

/// The table function, with a handle of the engine in which datasets are looked up.
#[derive(Debug)]
pub struct GraphQueryTableFunc<D> {
    pub df: D,
}

impl<D> GraphQueryTableFunc<D> {
    pub fn new(df: D) -> (r: Self)
        ensures
            r.df == df,
    {
        GraphQueryTableFunc { df }
    }

    /// Checks the arguments of a call and makes the statement safe to run.
    pub fn prepare(args: &Vec<Expr>, scope: &Option<String>, cap: usize) -> (r: Result<
        GraphCall,
        String,
    >)
        ensures
            match r {
                Ok(c) => planned(args@, text::text_of(*scope), cap as nat) == Ok::<
                    (Seq<char>, Seq<char>),
                    Seq<char>,
                >((c.dataset@, c.cypher@)),
                Err(e) => planned(args@, text::text_of(*scope), cap as nat) == Err::<
                    (Seq<char>, Seq<char>),
                    Seq<char>,
                >(e@),
            },
    {
        if args.len() != 2 {
            let mut m = "graph_query(neo4j_dataset, cypher) expects 2 string arguments, got ".to_owned();
            m.push_str(decimal_text(args.len() as u64).as_str());
            return Err(m);
        }
        let dataset = match string_arg(&args[0], "first (neo4j dataset name)") {
            Ok(s) => s,
            Err(e) => {
                return Err(e);
            },
        };
        let cypher = match string_arg(&args[1], "second (Cypher query)") {
            Ok(s) => s,
            Err(e) => {
                return Err(e);
            },
        };
        match safe_statement(cypher.as_str(), scope, cap) {
            Ok(c) => Ok(GraphCall { dataset, cypher: c }),
            Err(e) => Err(e),
        }
    }

    /// Goes on only with a dataset of Neo4j that was found.
    pub fn locate(dataset: &str, lookup: Lookup) -> (r: Result<(), String>)
        ensures
            match r {
                Ok(_) => lookup_refusal(dataset@, lookup) is None,
                Err(e) => lookup_refusal(dataset@, lookup) == Some(e@),
            },
    {
        match lookup {
            Lookup::EngineDropped => Err(
                "graph_query(): DataFusion instance has been dropped".to_owned(),
            ),
            Lookup::Missing => {
                let mut m = "graph_query(): dataset '".to_owned();
                m.push_str(dataset);
                m.push_str("' not found; pass a registered neo4j dataset name");
                Err(m)
            },
            Lookup::NotNeo4j => {
                let mut m = "graph_query(): dataset '".to_owned();
                m.push_str(dataset);
                m.push_str("' is not a neo4j dataset");
                Err(m)
            },
            Lookup::Found => Ok(()),
        }
    }

    /// The table of a call, from the described columns of its statement. Fails if
    /// the description failed or holds no column.
    pub fn table(cypher: String, described: Result<Vec<PropertyField>, Neo4jError>) -> (r: Result<
        CypherTableProvider,
        String,
    >)
        ensures
            match (described, r) {
                (Err(e), Err(m)) => m@ == "graph_query(): failed to describe Cypher: "@ + e.words(),
                (Ok(props), Err(m)) => props.len() == 0 && m@
                    == "graph_query(): the Cypher returned no columns to infer a schema"@,
                (Ok(props), Ok(t)) => props.len() > 0 && t.cypher == cypher
                    && crate::columns::models(t.schema@) == exec::schema(
                    client::property_models(props@),
                ),
                (Err(_), Ok(_)) => false,
            },
    {
        match described {
            Err(e) => {
                let mut m = "graph_query(): failed to describe Cypher: ".to_owned();
                m.push_str(e.text().as_str());
                Err(m)
            },
            Ok(props) => {
                if props.len() == 0 {
                    return Err(
                        "graph_query(): the Cypher returned no columns to infer a schema".to_owned(),
                    );
                }
                Ok(CypherTableProvider::new(cypher, to_schema(&props)))
            },
        }
    }
}

/// Under a scope no statement runs unscoped: what runs is the scoped statement within
/// the row cap, and each node pattern that the scoped statement opens has the label.
pub proof fn law_scope_is_never_skipped(cypher: Seq<char>, label: Seq<char>, cap: nat)
    ensures
        allowed(cypher, Some(label), cap) matches Ok(c) ==> {
            &&& first_write(text::words(cypher)) is None
            &&& scope::scoped(cypher, label) matches Ok(t) && {
                &&& c == with_cap(t, cap)
                &&& forall|i: int| #[trigger]
                    reading::node_opens(t, i) ==> reading::is_labelled(t, label, i)
            }
        },
{
    reading::law_every_node_pattern_is_labelled(cypher, label);
}

/// A statement with a word that writes is refused, in any case and wherever it stands:
/// one of `CREATE`, `MERGE`, `DELETE`, `SET`, `REMOVE`, `DROP`, `DETACH`, `FOREACH` and
/// `LOAD`. Without a scope, any other statement runs as it is.
pub proof fn law_statements_that_write_are_refused(
    cypher: Seq<char>,
    scope: Option<Seq<char>>,
    cap: nat,
    i: int,
    j: int,
)
    ensures
        text::word_at(cypher, i, j) && ({
            let w = text::upper(cypher.subrange(i, j));
            w == "CREATE"@ || w == "MERGE"@ || w == "DELETE"@ || w == "SET"@ || w == "REMOVE"@ || w
                == "DROP"@ || w == "DETACH"@ || w == "FOREACH"@ || w == "LOAD"@
        }) ==> allowed(cypher, scope, cap) is Err,
        scope is None && (forall|a: int, b: int| #[trigger]
            text::word_at(cypher, a, b) ==> ({
                let w = text::upper(cypher.subrange(a, b));
                w != "CREATE"@ && w != "MERGE"@ && w != "DELETE"@ && w != "SET"@ && w != "REMOVE"@
                    && w != "DROP"@ && w != "DETACH"@ && w != "FOREACH"@ && w != "LOAD"@
            })) ==> allowed(cypher, scope, cap) == Ok::<Seq<char>, Seq<char>>(
            with_cap(cypher, cap),
        ),
{
    law_read_only_iff_no_write_word(cypher);
}

/// A cap of 0 is none; any other is the number of rows that a statement returns at most.
/// It is the one that is set, where it is a number, and else 10000.
pub proof fn law_row_cap(cypher: Seq<char>, cap: nat, v: Seq<char>)
    ensures
        with_cap(cypher, 0) == client::bare(cypher),
        cap > 0 ==> with_cap(cypher, cap) == client::capped(cypher, cap),
        row_cap(None) == 10_000,
        numeral::numeral(v) is None ==> row_cap(Some(v)) == 10_000,
        numeral::numeral(v) is Some && numeral::numeral(v)->0 <= u32::MAX ==> row_cap(Some(v))
            == numeral::numeral(v)->0,
{
    assert(u32::MAX <= usize::MAX);
}

/// A call has two texts, the dataset and the statement: the dataset is handed on as it
/// is, and the statement as far as it is allowed.
pub proof fn law_calls_name_dataset_and_statement(
    args: Seq<Expr>,
    scope: Option<Seq<char>>,
    cap: nat,
)
    ensures
        planned(args, scope, cap) matches Ok((dataset, cypher)) ==> {
            &&& args.len() == 2
            &&& is_text(args[0], dataset)
            &&& exists|c: Seq<char>| #[trigger]
                is_text(args[1], c) && allowed(c, scope, cap) == Ok::<Seq<char>, Seq<char>>(cypher)
        },
        args.len() != 2 ==> planned(args, scope, cap) is Err,
        forall|d: Seq<char>, c: Seq<char>|
            args.len() == 2 && #[trigger] is_text(args[0], d) && #[trigger] is_text(args[1], c)
                && allowed(c, scope, cap) is Ok ==> planned(args, scope, cap) is Ok,
{
    if let Ok((dataset, cypher)) = planned(args, scope, cap) {
        let c = string_literal(args[1])->0;
        assert(is_text(args[1], c));
    }
}

/// An expression is the literal of a text.
pub open spec fn is_text(e: Expr, t: Seq<char>) -> bool {
    ||| (e matches Expr::Literal(ScalarValue::Utf8(Some(s))) && s@ == t)
    ||| (e matches Expr::Literal(ScalarValue::LargeUtf8(Some(s))) && s@ == t)
}

/// A dataset is used only if it was found and is one of Neo4j.
pub proof fn law_only_found_datasets_are_used(dataset: Seq<char>, lookup: Lookup)
    ensures
        lookup_refusal(dataset, lookup) is None <==> lookup is Found,
        lookup is Missing || lookup is NotNeo4j ==> (lookup_refusal(dataset, lookup) matches Some(m)
            && text::contains(m, dataset)),
{
    reveal_strlit("graph_query(): dataset '");
    if lookup is Missing || lookup is NotNeo4j {
        let m = lookup_refusal(dataset, lookup)->0;
        let k = "graph_query(): dataset '"@.len() as int;
        assert(m.subrange(k, k + dataset.len()) =~= dataset);
        assert(text::stands_at(m, dataset, k));
    }
}

} // verus!
