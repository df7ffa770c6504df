//! A query of a vector index as a table, and the embedding that it computes once.
use vstd::prelude::*;

use crate::columns;
use crate::columns::{copy_fields, ProjectionError};
use crate::milvus::exec;
use crate::milvus::exec::MilvusExec;
use crate::milvus::index::MilvusVectorsTable;
use crate::milvus::table_provider;
use crate::milvus::table_provider::DEFAULT_TOP_K;
use crate::predicate::{Expr, PushDown};
use crate::text::same_text;

verus! {

/// An embedding that is computed for one query, once. What came out of it, a vector
/// or a failure, is handed out ever after.
#[derive(Debug)]
pub struct CachedQueryVector<V> {
    query: String,
    cached: Option<Result<V, String>>,
}

/// What is known of the embedding of a query.
#[derive(Debug)]
pub enum Embedding<'a, V> {
    /// The query is not the one that the cache is for.
    Refused(&'static str),
    /// What came out of the computation.
    Known(&'a Result<V, String>),
    /// It has yet to be computed.
    Unknown,
}

impl<V> CachedQueryVector<V> {
    /// The query that the cache is for.
    pub closed spec fn query(self) -> Seq<char> {
        self.query@
    }

    /// What came out of the computation.
    pub closed spec fn cached(self) -> Option<Result<V, String>> {
        self.cached
    }

    pub fn new(query: String) -> (r: Self)
        ensures
            r.query() == query@,
            r.cached() is None,
    {
        CachedQueryVector { query, cached: None }
    }

    /// What is known of the embedding of a query.
    pub fn compute_vector(&self, query: &str) -> (r: Embedding<'_, V>)
        ensures
            match r {
                Embedding::Refused(m) => query@ != self.query() && m@
                    == "CachedQueryVector called with different query than it was constructed with"@,
                Embedding::Known(v) => query@ == self.query() && self.cached() == Some(*v),
                Embedding::Unknown => query@ == self.query() && self.cached() is None,
            },
    {
        if !same_text(query, self.query.as_str()) {
            return Embedding::Refused(
                "CachedQueryVector called with different query than it was constructed with",
            );
        }
        match &self.cached {
            Some(v) => Embedding::Known(v),
            None => Embedding::Unknown,
        }
    }

    /// Keeps what came out of the computation, unless something was kept before.
    pub fn keep(&mut self, result: Result<V, String>)
        ensures
            final(self).query() == old(self).query(),
            final(self).cached() == match old(self).cached() {
                Some(v) => Some(v),
                None => Some(result),
            },
    {
        if self.cached.is_none() {
            self.cached = Some(result);
        }
    }
}

/// A query of a vector index as a table.
#[derive(Debug)]
pub struct MilvusQueryTable {
    pub table: MilvusVectorsTable,
    pub query: String,
}

impl MilvusQueryTable {
    pub fn new(table: MilvusVectorsTable, query: String) -> (r: Self)
        ensures
            r == (MilvusQueryTable { table, query }),
    {
        MilvusQueryTable { table, query }
    }

    /// No predicate is pushed into the search.
    pub fn supports_filters_pushdown(&self, filters: &Vec<Expr>) -> (r: Vec<PushDown>)
        ensures
            r.len() == filters.len(),
            forall|i: int| 0 <= i < r.len() ==> #[trigger] r[i] == PushDown::Unsupported,
    {
        let mut r: Vec<PushDown> = Vec::new();
        let mut i: usize = 0;
        while i < filters.len()
            invariant
                i <= filters.len(),
                r.len() == i,
                forall|k: int| 0 <= k < r.len() ==> #[trigger] r[k] == PushDown::Unsupported,
            decreases filters.len() - i,
        {
            r.push(PushDown::Unsupported);
            i += 1;
        }
        r
    }

    /// The search for a query vector, without a filter. Fails if the projection asks
    /// for a column that is not there.
    pub fn scan<V>(
        &self,
        projection: Option<Vec<usize>>,
        query_vector: V,
        limit: Option<usize>,
    ) -> (r: Result<MilvusExec<V>, ProjectionError>)
        ensures
            match (
                columns::projected(
                    columns::models(self.table.schema@),
                    columns::positions(projection),
                ),
                r,
            ) {
                (Ok(fields), Ok(e)) => columns::models(e.projected_schema@) == fields && e.coll@
                    == exec::narrowed(
                    self.table.coll@,
                    exec::without(columns::names(fields), exec::synthetic()),
                ) && e.query_vector == query_vector && e.filter is None && e.limit
                    == table_provider::hits_for(limit) && columns::models(e.full_schema@)
                    == columns::models(self.table.schema@) && e.projection == projection,
                (Err(e), Err(got)) => got == e,
                _ => false,
            },
    {
        let top_k = match limit {
            Some(k) => k,
            None => DEFAULT_TOP_K,
        };
        MilvusExec::new(
            self.table.coll.copy(),
            copy_fields(&self.table.schema),
            query_vector,
            None,
            top_k,
            projection,
        )
    }
}

} // verus!
