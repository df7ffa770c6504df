# spice_connectors

The decisions behind a Neo4j connector, a Milvus connector and a text-to-SQL
endpoint, as a Verus library: what a predicate becomes in Cypher or in a Milvus
filter, which statements may run, what a model is told, when a request is retried.

- `src/` is the library. Every function carries a contract that Verus proves; only
  the few functions that call into std or another crate are believed. What
  holds of several functions together is stated by the public proof functions whose
  names begin with `law_`.
- `tests/` runs the library on concrete values.
- `app/` is ordinary Rust around it: HTTP clients, DataFusion tables and plans, the
  endpoint, caches and metrics.

Two laws are the reason for the library. Where `graph_query()` accepts a statement
under a scope label, every node pattern that the scoped statement opens, read as
Cypher outside of all brackets, has that label (`neo4j::reading`). And a predicate
that is reported as pushed down is part of what the store is asked
(`neo4j::table_provider`, `milvus::table_provider`), with one exception: a Milvus
search has one query vector, which is that of the first `query_vector = '...'`; a
further predicate on that column is reported as pushed down and is not sent.

The library holds no floating point. Numbers that are no integers stay as they were
written, and are read where they are put into a column.
