//! The rules of two data connectors and of a text-to-SQL endpoint, verified.
//!
//! * [`neo4j`]: node labels and Cypher statements as SQL tables, the `graph_query()`
//!   table function, and the scope that keeps the tenants of a shared graph apart;
//! * [`milvus`]: vector collections as SQL tables and as search indexes;
//! * [`nsql`]: the prompt of a model that writes SQL, and how a request is served;
//! * [`graph_discovery`]: what a graph holds, for a model that has to write Cypher.
//!
//! The other modules hold what these share: text, numerals, order, settings, JSON
//! values, columns and batches, predicates, and retries.
pub mod batch;
pub mod columns;
pub mod endpoint;
pub mod graph_discovery;
pub mod json;
pub mod milvus;
pub mod neo4j;
pub mod nsql;
pub mod numeral;
pub mod order;
pub mod params;
pub mod predicate;
pub mod retry;
pub mod text;
