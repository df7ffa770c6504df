//! Neo4j: node labels and Cypher statements as SQL tables.
pub mod client;
pub mod connector;
pub mod exec;
pub mod graph_query;
pub mod reading;
pub mod scope;
pub mod table_provider;
