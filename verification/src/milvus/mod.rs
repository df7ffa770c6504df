//! Milvus: its client, the tables of its collections, and search indexes on them.
pub mod client;
pub mod connector;
pub mod documents;
pub mod exec;
pub mod index;
pub mod query_table;
pub mod table_provider;
