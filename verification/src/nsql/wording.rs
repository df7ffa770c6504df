//! The wording of the prompt, in the pieces between which names are put.
use vstd::prelude::*;

verus! {

/// The first piece of the question and the rules.
pub const BASE_1: &'static str = "Task: Write a SQL query to answer this question: _\\\"";

/// The second piece of the question and the rules.
pub const BASE_2: &'static str = "\\\"_. Instruction: Return only valid SQL code, nothing additional, don't wrap it in ```. Columns with capitals must be quoted. Write each table name exactly as shown and UNQUOTED, including any schema/catalog prefix, e.g. spice.public.my_table. NEVER wrap a qualified (dotted) table name in a single pair of quotes: \"spice.public.my_table\" is WRONG and will not be found (it is read as one literal name). Quote each part separately (\"catalog\".\"schema\".\"table\") — NOT the whole dotted string — whenever a name part has capitals, special characters, OR STARTS WITH A DIGIT: e.g. a catalog table lake.94deff...hex.my_table MUST be written lake.\"94deff...hex\".\"my_table\" (an unquoted part that starts with a digit is a PARSE ERROR: `found: .94`). Use ONLY the tables and columns shown in the schema and sample messages provided above; never invent, guess, abbreviate, or rename a table or column. If a table name will not parse or is reported not-found, FIX THE QUOTING and keep the SAME table — NEVER substitute a different table (e.g. do not answer a question about one table by querying another just because it parses); a wrong-table answer is worse than an error. If the question mentions something not present in the schema, map it to the closest existing table/column instead of inventing a new name. Booleans may be stored as integers 0/1: look at the sample values for the column and compare accordingly (WHERE flag = 1), not WHERE flag = true, unless the samples actually show true/false. When the question asks for several INDEPENDENT values that come from different tables (for example an average from one table and a count from another), compute EACH value as its own SCALAR SUBQUERY in the SELECT list, e.g. SELECT (SELECT avg(x) FROM spice.public.t1) AS a, (SELECT count(*) FROM spice.public.t2) AS b. NEVER combine unrelated tables with CROSS JOIN, comma-joins, or a JOIN without a real key relationship: that builds a cartesian product of every row times every row and the query will never finish. A scalar subquery used as a SELECT-list value must return exactly ONE row and ONE column: never wrap a multi-row or multi-column subquery (one that returns several rows or columns, e.g. a top-k result) inside a scalar subquery, and never pack multiple rows into a single value with row_to_json, array_agg, or json_agg (those functions do not exist here).";

/// The first piece of the part on semantic search.
pub const SEMANTIC_1: &'static str = "\n\nSemantic search: these tables support vector similarity search over text: ";

/// The second piece of the part on semantic search.
pub const SEMANTIC_2: &'static str = ". The ONLY way to do ANY semantic / similarity / relevance / \"about\" / \"related to\" / passage-retrieval search is the `vector_search` table function — NO other similarity, ranking, full-text, or vector function, operator, or type exists in this engine. Do NOT use LIKE. Do NOT invent or call ANY of the following (NONE exist here and the query WILL fail): vector_search look-alikes (pg_vector_search, semantic_search, similarity_search, similarity_to_query, match), similarity/ranking functions (SIMILARITY, similarity, cosine_similarity, l2_distance, bm25_rank, ts_rank, ts_rank_cd), full-text functions (to_tsvector, to_tsquery, plainto_tsquery, websearch_to_tsquery), the pgvector distance operators (`<->`, `<=>`, `<#>`), or a `vector` type / `::vector` cast / vector literal. For ANY semantically-similar / about / relevant-to / top-passages question, use ONLY the table function `vector_search`. CRITICAL RULES: (1) its FIRST argument MUST be EXACTLY ONE of these vector-search tables — ";

/// The third piece of the part on semantic search.
pub const SEMANTIC_3: &'static str = " — written as a BARE, UNQUOTED identifier, never a quoted string. NEVER pass any other table (a graph/Neo4j table or a relational table) as the first argument even if it also has a `content`/`text`/`body` column — only the tables listed here have an embedding index, and any other table fails with \"does not have an embedding index\". (2) its SECOND argument is a PLAIN string literal search phrase — never a subquery, column reference, or expression. (3) Use LIMIT for top-k, never TOP. Example: SELECT _score, text FROM vector_search(";

/// The fourth piece of the part on semantic search.
pub const SEMANTIC_4: &'static str = ", 'the search phrase', 5) ORDER BY _score DESC LIMIT 5. It returns a `_score` column (higher = more relevant) plus the table's columns. When a question asks for the top-k passages AND single-value facts from other tables, put vector_search in the FROM clause as the MAIN rows and add each other fact as its own scalar-subquery column, e.g. SELECT _score, text, (SELECT avg(age) FROM spice.public.other_table) AS avg_age FROM vector_search(";

/// The fifth piece of the part on semantic search.
pub const SEMANTIC_5: &'static str = ", 'the search phrase', 5) ORDER BY _score DESC LIMIT 5. Do NOT place vector_search inside a scalar subquery.";

/// The first piece of the part on reranking.
pub const RERANK_1: &'static str = "\n\nReranking for higher precision: a reranker named `";

/// The second piece of the part on reranking.
pub const RERANK_2: &'static str = "` is registered. For \"top-k\", \"most relevant\", \"best\", or passage-retrieval questions, prefer WRAPPING the vector_search call in the `rerank` table function: a cross-encoder reorders the hits and gives noticeably better ordering than raw vector scores. Retrieve MORE candidates in the inner vector_search (about 20-50) and keep the final k with the outer `limit =>`. Example: SELECT text, rerank_score FROM rerank(vector_search(";

/// The third piece of the part on reranking.
pub const RERANK_3: &'static str = ", 'the search phrase', 30), document => text, model => '";

/// The fourth piece of the part on reranking.
pub const RERANK_4: &'static str = "', limit => 5). RULES: (1) the FIRST argument is the vector_search(...) call itself, with its bare, unquoted table name; (2) `document =>` must be the table's main free-text column shown in the schema (the passage/body/text column), written as a bare identifier and NOT a quoted string; (3) write `model => '";

/// The fifth piece of the part on reranking.
pub const RERANK_5: &'static str = "'` exactly; (4) `limit =>` is how many final rows to keep; (5) the output is the table's columns (minus the raw score) plus a `rerank_score` column, ALREADY ordered best-first, so add NO ORDER BY; (6) never place rerank inside a scalar subquery. Plain vector_search without rerank is still acceptable when reranking is unnecessary.";

/// The first piece of the part on search-only tables.
pub const SEARCH_ONLY_1: &'static str = "\n\nSearch-only tables: ";

/// The second piece of the part on search-only tables.
pub const SEARCH_ONLY_2: &'static str = " are vector indexes, NOT scannable tables. They hold no rows you can read without a search phrase, and a direct scan silently returns ZERO rows — so a count from one is meaningless and MUST NOT be reported as an answer. NEVER write `SELECT ... FROM ";

/// The third piece of the part on search-only tables.
pub const SEARCH_ONLY_3: &'static str = "` directly, and never COUNT(*), SUM, AVG, GROUP BY, or otherwise aggregate/scan over them, or JOIN to them as a plain table. The ONLY valid way to read these tables is the `vector_search` table function (optionally wrapped in `rerank`), which requires a search phrase: SELECT text FROM vector_search(";

/// The fourth piece of the part on search-only tables.
pub const SEARCH_ONLY_4: &'static str = ", 'the search phrase', 5). If the question asks how many rows/records one of these tables has, or asks for a total/aggregate over it, that CANNOT be answered from this table — answer using another table that has the facts, or return the relevant passages via vector_search instead of a count.";

/// The first piece of the part on graphs.
pub const GRAPH_1: &'static str = "\n\nKnowledge graph: these datasets are Neo4j property graphs, queryable ONLY through the `graph_query` table function: ";

/// The second piece of the part on graphs.
pub const GRAPH_2: &'static str = ". Use it to retrieve entity-anchored facts and the text of related nodes. RULES: (1) call it in the FROM clause as graph_query('<dataset>', '<cypher>') where the FIRST argument is the dataset name written EXACTLY as shown, as a quoted string; (2) the SECOND argument is ONE read-only Cypher statement — only MATCH / OPTIONAL MATCH / WHERE / WITH / RETURN / ORDER BY / LIMIT / CALL db.index.* are allowed; NEVER CREATE, MERGE, DELETE, SET, REMOVE, or DETACH; (3) EVERY expression in the Cypher RETURN MUST be aliased with `AS` (RETURN e.name AS name, count(c) AS mentions) — an unaliased RETURN term (e.g. RETURN count(*)) fails with \"Expression in CALL { RETURN ... } must be aliased\"; the outer SQL then selects those ALIASES directly (SELECT name, mentions FROM graph_query(...)), and NEVER writes node.property like e.name at the SQL level (that fails \"No field named e.name\"); (4) to count graph rows, compute the count INSIDE the Cypher (RETURN count(c) AS n) and select n — do NOT wrap graph_query in an outer SELECT count(*) (a graph_query that already returns one aggregate row would just yield 1); anything used in Cypher ORDER BY that is an aggregate (ORDER BY count(c)) must ALSO appear in that RETURN; (5) graph_query only runs Cypher against a graph — it CANNOT read a relational/catalog table; for a plain table (columns like age, count, id) use ordinary SQL on that table, never graph_query and never property-graph syntax (no LATERAL {...}, no n.prop::int) on it; (6) to answer a question from BOTH the graph and the passages, UNION ALL a graph_query(...) with a rerank(vector_search(...)) and give each side a literal `source` column; (7) write the function name BARE — NEVER prefix it with a catalog/schema: `graph_query(...)` is correct, `spice.public.graph_query(...)` is WRONG and fails with \"table function 'spice' not found\". The schema/catalog-prefix instruction above applies to TABLE names only, never to a table FUNCTION. Minimal example: SELECT name, mentions FROM graph_query('";

/// The third piece of the part on graphs.
pub const GRAPH_3: &'static str = "', 'MATCH (c:Chunk)-[:MENTIONS]->(e:Entity) RETURN e.name AS name, count(c) AS mentions ORDER BY mentions DESC LIMIT 10').";

} // verus!
