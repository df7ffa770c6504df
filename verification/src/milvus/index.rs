//! Search indexes on Milvus, built from the settings of a vector store.
//!
//! A vector index embeds the query and returns the closest hits; a text index hands
//! the query text itself to Milvus, which ranks by BM25. Both return the primary key
//! and a score, and the rows are joined back to the base table; where the base table
//! is the Milvus collection itself, every scalar field is returned instead.
//!
//! A partition is the only boundary between tenants on a shared collection. Where
//! one is required and none is set, no index is built.
use vstd::prelude::*;

use crate::columns;
use crate::columns::{copy_fields, field_names, find_field, has_field, DataType, Field, FieldModel};
use crate::milvus::client;
use crate::milvus::client::{CollectionField, ConnectionConfig, MilvusCollection, MilvusError};
use crate::milvus::connector;
use crate::milvus::connector::{first_vector_field, read_token};
use crate::milvus::exec;
use crate::milvus::exec::arrow_type_for;
use crate::numeral;
use crate::numeral::parse_number;
use crate::params;
use crate::params::{low_bits, read_number, switched_on, text_or, ParameterSpec, Parameters};
use crate::text;
use crate::text::same_text;

verus! {

// ---------------------------------------------------------------------------
// Settings
// ---------------------------------------------------------------------------

/// The parameters of the vector store.
pub open spec fn parameter_table() -> Seq<params::ParameterModel> {
    seq![
        params::plain("host"@, "Milvus host (default localhost)."@),
        params::plain("port"@, "Milvus port (default 19530)."@),
        params::plain("collection"@, "Milvus collection name (required)."@),
        params::plain(
            "vector_field"@,
            "Vector field name (introspected from the collection if unset)."@,
        ),
        params::plain(
            "sparse_field"@,
            "Sparse (BM25) vector field for full-text `text_search`. Auto-discovered from the collection's BM25 function on the embedded text column if unset."@,
        ),
        params::plain("metric"@, "Distance metric: COSINE | L2 | IP."@),
        params::plain(
            "partition"@,
            "Optional Milvus partition to scope searches to (per-tenant isolation)."@,
        ),
        params::plain(
            "require_partition"@,
            "Fail closed: refuse to build this vector index unless `partition` is set. Prevents a missing partition from silently searching the whole (multi-tenant) collection. Also enabled by SPICE_MILVUS_REQUIRE_PARTITION=true."@,
        ),
        params::hidden("token"@, "Bearer token (`username:password`, or an API key)."@),
        params::hidden("username"@, "Username; combined with password into a token."@),
        params::hidden("password"@, "Password."@),
        params::plain("secure"@, "Use TLS for the connection."@),
        params::plain("timeout_ms"@, "Request timeout in milliseconds."@),
        params::plain("connect_timeout_ms"@, "Connect timeout in milliseconds."@),
        params::plain("max_retries"@, "Max retries on transient transport failures."@),
        params::plain(
            "tls_skip_verify"@,
            "Skip TLS certificate verification (dev/self-signed only)."@,
        ),
        params::plain("tls_ca_cert"@, "Path to a PEM CA certificate to trust."@),
    ]
}

/// The parameters of the vector store.
pub fn parameters() -> (r: Vec<ParameterSpec>)
    ensures
        params::parameter_models(r@) == parameter_table(),
{
    let mut r: Vec<ParameterSpec> = Vec::new();
    r.push(ParameterSpec::component("host", "Milvus host (default localhost)."));
    r.push(ParameterSpec::component("port", "Milvus port (default 19530)."));
    r.push(ParameterSpec::component("collection", "Milvus collection name (required)."));
    r.push(
        ParameterSpec::component(
            "vector_field",
            "Vector field name (introspected from the collection if unset).",
        ),
    );
    r.push(
        ParameterSpec::component(
            "sparse_field",
            "Sparse (BM25) vector field for full-text `text_search`. Auto-discovered from the collection's BM25 function on the embedded text column if unset.",
        ),
    );
    r.push(ParameterSpec::component("metric", "Distance metric: COSINE | L2 | IP."));
    r.push(
        ParameterSpec::component(
            "partition",
            "Optional Milvus partition to scope searches to (per-tenant isolation).",
        ),
    );
    r.push(
        ParameterSpec::component(
            "require_partition",
            "Fail closed: refuse to build this vector index unless `partition` is set. Prevents a missing partition from silently searching the whole (multi-tenant) collection. Also enabled by SPICE_MILVUS_REQUIRE_PARTITION=true.",
        ),
    );
    r.push(
        ParameterSpec::secret("token", "Bearer token (`username:password`, or an API key)."),
    );
    r.push(
        ParameterSpec::secret("username", "Username; combined with password into a token."),
    );
    r.push(ParameterSpec::secret("password", "Password."));
    r.push(ParameterSpec::component("secure", "Use TLS for the connection."));
    r.push(ParameterSpec::component("timeout_ms", "Request timeout in milliseconds."));
    r.push(ParameterSpec::component("connect_timeout_ms", "Connect timeout in milliseconds."));
    r.push(
        ParameterSpec::component("max_retries", "Max retries on transient transport failures."),
    );
    r.push(
        ParameterSpec::component(
            "tls_skip_verify",
            "Skip TLS certificate verification (dev/self-signed only).",
        ),
    );
    r.push(ParameterSpec::component("tls_ca_cert", "Path to a PEM CA certificate to trust."));
    assert(params::parameter_models(r@) == parameter_table());
    r
}

/// The port of a setting: the default if it is unset or none.
pub open spec fn port_or_default(v: Option<Seq<char>>) -> nat {
    match v {
        Some(s) => match numeral::numeral_up_to(s, u16::MAX as nat) {
            Some(n) => n,
            None => 19530,
        },
        None => 19530,
    }
}

/// The connection that settings describe. An empty setting counts as set.
pub open spec fn is_config(cfg: ConnectionConfig, m: Map<Seq<char>, Seq<char>>) -> bool {
    &&& cfg.host@ == params::or_default(params::given(m, "host"@), "localhost"@)
    &&& cfg.port == port_or_default(params::given(m, "port"@))
    &&& cfg.secure == params::is_on(params::given(m, "secure"@))
    &&& text::text_of(cfg.token) == connector::token_setting(
        params::given(m, "token"@),
        params::given(m, "username"@),
        params::given(m, "password"@),
    )
    &&& cfg.timeout_ms == params::number_or(params::given(m, "timeout_ms"@), 10_000)
    &&& cfg.connect_timeout_ms == params::number_or(params::given(m, "connect_timeout_ms"@), 3_000)
    &&& cfg.max_retries == params::low_word(params::number_or(params::given(m, "max_retries"@), 2))
    &&& cfg.tls_skip_verify == params::is_on(params::given(m, "tls_skip_verify"@))
    &&& text::text_of(cfg.tls_ca_cert_path) == params::given(m, "tls_ca_cert"@)
}

/// The connection that settings describe.
pub fn connection_config_from_params(settings: &Parameters) -> (r: ConnectionConfig)
    ensures
        is_config(r, settings@),
{
    let port: u16 = match settings.get("port") {
        Some(s) => match parse_number(s, 65535) {
            Some(n) => n as u16,
            None => 19530,
        },
        None => 19530,
    };
    ConnectionConfig {
        host: text_or(settings.get_owned("host"), "localhost"),
        port,
        secure: switched_on(&settings.get_owned("secure")),
        token: read_token(
            settings.get_owned("token"),
            &settings.get_owned("username"),
            &settings.get_owned("password"),
        ),
        timeout_ms: read_number(&settings.get_owned("timeout_ms"), 10_000),
        connect_timeout_ms: read_number(&settings.get_owned("connect_timeout_ms"), 3_000),
        max_retries: low_bits(read_number(&settings.get_owned("max_retries"), 2)),
        tls_skip_verify: switched_on(&settings.get_owned("tls_skip_verify")),
        tls_ca_cert_path: settings.get_owned("tls_ca_cert"),
    }
}

/// Whether searches must be confined to a partition: by the store's own setting, or
/// by the setting of the process.
pub open spec fn partition_required(
    m: Map<Seq<char>, Seq<char>>,
    process: Option<Seq<char>>,
) -> bool {
    params::is_on(params::given(m, "require_partition"@)) || params::is_on(process)
}

/// Whether searches must be confined to a partition.
pub fn require_partition_enabled(settings: &Parameters, process: &Option<String>) -> (r: bool)
    ensures
        r == partition_required(settings@, text::text_of(*process)),
{
    switched_on(&settings.get_owned("require_partition")) || switched_on(process)
}

/// Whether a search would have to be confined to a partition and is not.
pub open spec fn unscoped(m: Map<Seq<char>, Seq<char>>, process: Option<Seq<char>>) -> bool {
    partition_required(m, process) && params::or_default(
        params::given(m, "partition"@),
        seq![],
    ).len() == 0
}

fn is_unscoped(settings: &Parameters, process: &Option<String>) -> (r: bool)
    ensures
        r == unscoped(settings@, text::text_of(*process)),
{
    let empty = match settings.get("partition") {
        Some(p) => p.is_empty(),
        None => true,
    };
    require_partition_enabled(settings, process) && empty
}

// ---------------------------------------------------------------------------
// What is indexed
// ---------------------------------------------------------------------------

/// The fields of a schema that have the names of `keys`, in the order of the names;
/// a name that no field has is left out.
pub open spec fn key_fields(keys: Seq<Seq<char>>, schema: Seq<FieldModel>) -> Seq<FieldModel>
    decreases keys.len(),
{
    if keys.len() == 0 {
        seq![]
    } else {
        match columns::position(schema, keys.last()) {
            Some(k) => key_fields(keys.drop_last(), schema).push(schema[k]),
            None => key_fields(keys.drop_last(), schema),
        }
    }
}

fn fields_of_keys(keys: &Vec<String>, schema: &Vec<Field>) -> (r: Vec<Field>)
    ensures
        columns::models(r@) == key_fields(text::texts(keys@), columns::models(schema@)),
{
    let ghost names = text::texts(keys@);
    let ghost fs = columns::models(schema@);
    let mut r: Vec<Field> = Vec::new();
    let mut i: usize = 0;
    assert(columns::models(r@) == key_fields(names.take(0), fs));
    while i < keys.len()
        invariant
            i <= keys.len(),
            names == text::texts(keys@),
            fs == columns::models(schema@),
            columns::models(r@) == key_fields(names.take(i as int), fs),
        decreases keys.len() - i,
    {
        let ghost before = columns::models(r@);
        assert(names.take(i + 1).drop_last() == names.take(i as int));
        if let Some(k) = find_field(schema, keys[i].as_str()) {
            let f = schema[k].copy();
            r.push(f);
            assert(columns::models(r@) == before.push(f@));
        }
        i += 1;
    }
    assert(names.take(i as int) == names);
    r
}

/// The column of a dataset that is indexed.
#[derive(Debug)]
pub struct IndexTarget {
    pub ds_name: String,
    pub column: String,
    /// The key that joins hits back to the base table.
    pub primary_key: Vec<Field>,
    /// Whether the base table is the Milvus collection itself.
    pub milvus_only: bool,
}

/// The kind of an index, in words.
#[derive(Clone, Copy, Debug, PartialEq, Eq, Structural)]
pub enum IndexKind {
    Vector,
    FullText,
}

impl IndexKind {
    pub open spec fn words(self) -> Seq<char> {
        match self {
            IndexKind::Vector => "Milvus vector index for table '"@,
            IndexKind::FullText => "Milvus full-text index for table '"@,
        }
    }

    pub open spec fn search(self) -> Seq<char> {
        match self {
            IndexKind::Vector => "vector_search"@,
            IndexKind::FullText => "text_search"@,
        }
    }
}

/// The refusal of an index without a key.
pub open spec fn keyless(ds_name: Seq<char>, column: Seq<char>) -> Seq<char> {
    "Cannot make a Milvus vector index for table '"@ + ds_name + "' column '"@ + column
        + "': no primary key. Set `row_ids` on the embedding, or a primary key on the dataset."@
}

/// The refusal of an index whose model is not there.
pub open spec fn modelless(ds_name: Seq<char>, column: Seq<char>, model: Seq<char>) -> Seq<char> {
    "Cannot make a Milvus vector index for table '"@ + ds_name + "' column '"@ + column
        + "': embedding model '"@ + model
        + "' is not defined in the Spicepod or failed to load."@
}

/// The refusal of an index without a collection.
pub open spec fn collectionless(kind: IndexKind, ds_name: Seq<char>) -> Seq<char> {
    kind.words() + ds_name + "' requires `milvus_collection`."@
}

/// The refusal of an index without a vector field.
pub open spec fn vectorless(collection: Seq<char>) -> Seq<char> {
    "No vector field found in Milvus collection '"@ + collection
        + "'. Set `milvus_vector_field`."@
}

/// The refusal of an index that must be confined to a partition and is not.
pub open spec fn partitionless(kind: IndexKind, ds_name: Seq<char>) -> Seq<char> {
    kind.words() + ds_name
        + "' requires `milvus_partition` (require_partition / SPICE_MILVUS_REQUIRE_PARTITION set) but it is empty — refusing to serve an unscoped (whole-collection) "@
        + kind.search()
}

fn kind_words(kind: IndexKind) -> (r: String)
    ensures
        r@ == kind.words(),
{
    match kind {
        IndexKind::Vector => "Milvus vector index for table '".to_owned(),
        IndexKind::FullText => "Milvus full-text index for table '".to_owned(),
    }
}

fn partition_refusal(kind: IndexKind, ds_name: &str) -> (r: String)
    ensures
        r@ == partitionless(kind, ds_name@),
{
    let mut m = kind_words(kind);
    m.push_str(ds_name);
    m.push_str(
        "' requires `milvus_partition` (require_partition / SPICE_MILVUS_REQUIRE_PARTITION set) but it is empty — refusing to serve an unscoped (whole-collection) ",
    );
    match kind {
        IndexKind::Vector => m.push_str("vector_search"),
        IndexKind::FullText => m.push_str("text_search"),
    }
    m
}

/// The keys of an index: the row ids that are set, else the primary key of the
/// table.
pub open spec fn index_keys(
    row_ids: Option<Seq<Seq<char>>>,
    primary_keys: Seq<Seq<char>>,
) -> Seq<Seq<char>> {
    match row_ids {
        Some(ids) => ids,
        None => primary_keys,
    }
}

/// The texts of an optional list.
pub open spec fn optional_list(v: Option<Vec<String>>) -> Option<Seq<Seq<char>>> {
    match v {
        Some(l) => Some(text::texts(l@)),
        None => None,
    }
}

impl IndexTarget {
    /// The target of an index on a column.
    pub fn new(
        ds_name: String,
        column: String,
        row_ids: Option<Vec<String>>,
        primary_keys: Vec<String>,
        inner_schema: &Vec<Field>,
    ) -> (r: Self)
        ensures
            r.ds_name == ds_name,
            r.column == column,
            columns::models(r.primary_key@) == key_fields(
                index_keys(optional_list(row_ids), text::texts(primary_keys@)),
                columns::models(inner_schema@),
            ),
            r.milvus_only == columns::names(columns::models(inner_schema@)).contains(
                "query_vector"@,
            ),
    {
        let keys = match row_ids {
            Some(ids) => ids,
            None => primary_keys,
        };
        IndexTarget {
            ds_name,
            column,
            primary_key: fields_of_keys(&keys, inner_schema),
            milvus_only: has_field(inner_schema, "query_vector"),
        }
    }

    /// Goes on only with a key. A text index without one is left out, since its hits
    /// could not be joined with those of the vector index.
    pub fn require_key(&self) -> (r: Result<(), String>)
        ensures
            match r {
                Ok(_) => self.primary_key.len() > 0,
                Err(e) => self.primary_key.len() == 0 && e@ == keyless(
                    self.ds_name@,
                    self.column@,
                ),
            },
    {
        if self.primary_key.len() > 0 {
            return Ok(());
        }
        let mut m = "Cannot make a Milvus vector index for table '".to_owned();
        m.push_str(self.ds_name.as_str());
        m.push_str("' column '");
        m.push_str(self.column.as_str());
        m.push_str(
            "': no primary key. Set `row_ids` on the embedding, or a primary key on the dataset.",
        );
        Err(m)
    }

    /// Goes on only with a model that was loaded.
    pub fn require_model(&self, model: &str, loaded: bool) -> (r: Result<(), String>)
        ensures
            match r {
                Ok(_) => loaded,
                Err(e) => !loaded && e@ == modelless(self.ds_name@, self.column@, model@),
            },
    {
        if loaded {
            return Ok(());
        }
        let mut m = "Cannot make a Milvus vector index for table '".to_owned();
        m.push_str(self.ds_name.as_str());
        m.push_str("' column '");
        m.push_str(self.column.as_str());
        m.push_str("': embedding model '");
        m.push_str(model);
        m.push_str("' is not defined in the Spicepod or failed to load.");
        Err(m)
    }

    /// The collection that is set.
    pub fn collection(&self, kind: IndexKind, settings: &Parameters) -> (r: Result<String, String>)
        ensures
            match (params::given(settings@, "collection"@), r) {
                (Some(c), Ok(got)) => got@ == c,
                (None, Err(e)) => e@ == collectionless(kind, self.ds_name@),
                _ => false,
            },
    {
        match settings.get_owned("collection") {
            Some(c) => Ok(c),
            None => {
                let mut m = kind_words(kind);
                m.push_str(self.ds_name.as_str());
                m.push_str("' requires `milvus_collection`.");
                Err(m)
            },
        }
    }
}

// ---------------------------------------------------------------------------
// The tables that indexes search
// ---------------------------------------------------------------------------

/// A collection as an index searches it: what is searched, what a search returns,
/// and the dimension of its vectors (0 where texts are searched).
#[derive(Debug)]
pub struct MilvusVectorsTable {
    pub coll: MilvusCollection,
    /// The returned columns and the score.
    pub schema: Vec<Field>,
    pub dimension: i64,
}

impl MilvusVectorsTable {
    pub fn new(coll: MilvusCollection, schema: Vec<Field>, dimension: i64) -> (r: Self)
        ensures
            r == (MilvusVectorsTable { coll, schema, dimension }),
    {
        MilvusVectorsTable { coll, schema, dimension }
    }
}

/// A column for each scalar field.
pub open spec fn scalar_columns(fields: Seq<client::FieldDescription>) -> Seq<FieldModel> {
    let scalars = connector::scalars(fields);
    Seq::new(
        scalars.len(),
        |i: int|
            FieldModel {
                name: scalars[i].name,
                data_type: exec::column_type(scalars[i].milvus_type),
                nullable: true,
            },
    )
}

/// The columns that an index returns next to the score: every scalar field where the
/// base table is the collection itself, else the primary key.
pub open spec fn data_columns(
    milvus_only: bool,
    primary_key: Seq<FieldModel>,
    fields: Seq<client::FieldDescription>,
) -> Seq<FieldModel> {
    if milvus_only {
        scalar_columns(fields)
    } else {
        primary_key
    }
}

/// The score of a hit, which every hit has.
pub open spec fn score_column() -> FieldModel {
    FieldModel { name: "score"@, data_type: DataType::Float32, nullable: false }
}

fn columns_of_scalars(fields: &Vec<CollectionField>) -> (r: Vec<Field>)
    ensures
        columns::models(r@) == scalar_columns(client::descriptions(fields@)),
{
    let ghost all = client::descriptions(fields@);
    let mut r: Vec<Field> = Vec::new();
    let mut i: usize = 0;
    assert(columns::models(r@) == scalar_columns(all.take(0)));
    while i < fields.len()
        invariant
            i <= fields.len(),
            all == client::descriptions(fields@),
            columns::models(r@) == scalar_columns(all.take(i as int)),
        decreases fields.len() - i,
    {
        let ghost before = columns::models(r@);
        assert(all.take(i + 1).drop_last() == all.take(i as int));
        if !fields[i].is_vector {
            let f = Field::new(
                fields[i].name.as_str(),
                arrow_type_for(fields[i].milvus_type.as_str()),
                true,
            );
            r.push(f);
            assert(columns::models(r@) == before.push(f@));
            assert(scalar_columns(all.take(i + 1)) == scalar_columns(all.take(i as int)).push(f@));
        }
        i += 1;
    }
    assert(all.take(i as int) == all);
    r
}

/// What an index searches, as settings and a description give it.
pub struct SearchPlan {
    pub coll: client::CollectionModel,
    pub schema: Seq<FieldModel>,
}

impl IndexTarget {
    /// The columns that an index on this target returns next to the score.
    pub open spec fn data(self, fields: Seq<client::FieldDescription>) -> Seq<FieldModel> {
        data_columns(self.milvus_only, columns::models(self.primary_key@), fields)
    }

    /// What a search on this target asks for and returns.
    pub open spec fn plan(
        self,
        collection: Seq<char>,
        field: Seq<char>,
        metric: Seq<char>,
        partition: Option<Seq<char>>,
        fields: Seq<client::FieldDescription>,
    ) -> SearchPlan {
        SearchPlan {
            coll: client::CollectionModel {
                collection,
                vector_field: field,
                metric,
                output_fields: columns::names(self.data(fields)),
                partition,
            },
            schema: self.data(fields).push(score_column()),
        }
    }

    fn table(
        &self,
        collection: String,
        field: String,
        metric: String,
        partition: Option<String>,
        fields: &Vec<CollectionField>,
        dimension: i64,
    ) -> (r: MilvusVectorsTable)
        ensures
            r.dimension == dimension,
            (SearchPlan { coll: r.coll@, schema: columns::models(r.schema@) }) == self.plan(
                collection@,
                field@,
                metric@,
                text::text_of(partition),
                client::descriptions(fields@),
            ),
    {
        let data = if self.milvus_only {
            columns_of_scalars(fields)
        } else {
            copy_fields(&self.primary_key)
        };
        let output_fields = field_names(&data);
        let ghost before = columns::models(data@);
        let mut schema = data;
        schema.push(Field::new("score", DataType::Float32, false));
        assert(columns::models(schema@) == before.push(score_column()));
        let coll = MilvusCollection {
            collection,
            vector_field: field,
            metric,
            output_fields,
            partition,
        };
        MilvusVectorsTable::new(coll, schema, dimension)
    }

    /// What a vector index searches: refused without a vector field, and refused
    /// where a partition is required and none is set.
    pub open spec fn vector_plan(
        self,
        m: Map<Seq<char>, Seq<char>>,
        process: Option<Seq<char>>,
        collection: Seq<char>,
        fields: Seq<client::FieldDescription>,
    ) -> Result<SearchPlan, Seq<char>> {
        let found = match params::given(m, "vector_field"@) {
            Some(f) => Some(f),
            None => connector::first_vector(fields),
        };
        match found {
            None => Err(vectorless(collection)),
            Some(field) => if unscoped(m, process) {
                Err(partitionless(IndexKind::Vector, self.ds_name@))
            } else {
                Ok(
                    self.plan(
                        collection,
                        field,
                        params::or_default(params::given(m, "metric"@), "COSINE"@),
                        params::given(m, "partition"@),
                        fields,
                    ),
                )
            },
        }
    }

    /// What a vector index searches. The dimension is set afterwards.
    pub fn vector_table(
        &self,
        settings: &Parameters,
        process: &Option<String>,
        collection: String,
        fields: &Vec<CollectionField>,
    ) -> (r: Result<MilvusVectorsTable, String>)
        ensures
            match (
                self.vector_plan(
                    settings@,
                    text::text_of(*process),
                    collection@,
                    client::descriptions(fields@),
                ),
                r,
            ) {
                (Ok(plan), Ok(t)) => (SearchPlan {
                    coll: t.coll@,
                    schema: columns::models(t.schema@),
                }) == plan && t.dimension == 0,
                (Err(m), Err(e)) => e@ == m,
                _ => false,
            },
    {
        let found = match settings.get_owned("vector_field") {
            Some(f) => Some(f),
            None => first_vector_field(fields),
        };
        let field = match found {
            Some(f) => f,
            None => {
                let mut m = "No vector field found in Milvus collection '".to_owned();
                m.push_str(collection.as_str());
                m.push_str("'. Set `milvus_vector_field`.");
                return Err(m);
            },
        };
        if is_unscoped(settings, process) {
            return Err(partition_refusal(IndexKind::Vector, self.ds_name.as_str()));
        }
        Ok(
            self.table(
                collection,
                field,
                text_or(settings.get_owned("metric"), "COSINE"),
                settings.get_owned("partition"),
                fields,
                0,
            ),
        )
    }

    /// What a text index searches: nothing without a sparse field, set or found; and
    /// refused where a partition is required and none is set.
    pub open spec fn text_plan(
        self,
        m: Map<Seq<char>, Seq<char>>,
        process: Option<Seq<char>>,
        collection: Seq<char>,
        discovered: Option<Seq<char>>,
        fields: Seq<client::FieldDescription>,
    ) -> Result<Option<SearchPlan>, Seq<char>> {
        let found = match params::given(m, "sparse_field"@) {
            Some(f) => Some(f),
            None => discovered,
        };
        match found {
            None => Ok(None),
            Some(field) => if unscoped(m, process) {
                Err(partitionless(IndexKind::FullText, self.ds_name@))
            } else {
                Ok(
                    Some(
                        self.plan(
                            collection,
                            field,
                            "BM25"@,
                            params::given(m, "partition"@),
                            fields,
                        ),
                    ),
                )
            },
        }
    }

    /// What a text index searches, where one can be made.
    pub fn text_table(
        &self,
        settings: &Parameters,
        process: &Option<String>,
        collection: String,
        discovered: Option<String>,
        fields: &Vec<CollectionField>,
    ) -> (r: Result<Option<MilvusVectorsTable>, String>)
        ensures
            match (
                self.text_plan(
                    settings@,
                    text::text_of(*process),
                    collection@,
                    text::text_of(discovered),
                    client::descriptions(fields@),
                ),
                r,
            ) {
                (Ok(Some(plan)), Ok(Some(t))) => (SearchPlan {
                    coll: t.coll@,
                    schema: columns::models(t.schema@),
                }) == plan && t.dimension == 0,
                (Ok(None), Ok(None)) => true,
                (Err(m), Err(e)) => e@ == m,
                _ => false,
            },
    {
        let found = match settings.get_owned("sparse_field") {
            Some(f) => Some(f),
            None => discovered,
        };
        let field = match found {
            Some(f) => f,
            None => {
                return Ok(None);
            },
        };
        if is_unscoped(settings, process) {
            return Err(partition_refusal(IndexKind::FullText, self.ds_name.as_str()));
        }
        Ok(
            Some(
                self.table(
                    collection,
                    field,
                    "BM25".to_owned(),
                    settings.get_owned("partition"),
                    fields,
                    0,
                ),
            ),
        )
    }
}

/// Where a partition is required, every index that is built searches in one: the
/// vector index and the text index alike fail closed.
pub proof fn law_required_partition_is_never_empty(
    target: IndexTarget,
    m: Map<Seq<char>, Seq<char>>,
    process: Option<Seq<char>>,
    collection: Seq<char>,
    discovered: Option<Seq<char>>,
    fields: Seq<client::FieldDescription>,
)
    requires
        partition_required(m, process),
    ensures
        target.vector_plan(m, process, collection, fields) matches Ok(plan)
            ==> plan.coll.partition matches Some(p) && p.len() > 0,
        target.text_plan(m, process, collection, discovered, fields) matches Ok(Some(plan))
            ==> plan.coll.partition matches Some(p) && p.len() > 0,
{
}

// ---------------------------------------------------------------------------
// The indexes
// ---------------------------------------------------------------------------

/// The dimension of an embedding: the one that is set, as far as 32 bits hold it,
/// else the one inferred from the model.
pub open spec fn dimension_of(vector_size: Option<usize>, inferred: i32) -> i32 {
    match vector_size {
        Some(n) => if n <= i32::MAX {
            n as i32
        } else {
            i32::MAX
        },
        None => inferred,
    }
}

/// The dimension that is set, as far as 32 bits hold it.
pub fn configured_dimension(vector_size: Option<usize>) -> (r: Option<i32>)
    ensures
        match r {
            Some(d) => vector_size is Some && d == dimension_of(vector_size, 0),
            None => vector_size is None,
        },
{
    match vector_size {
        Some(n) => if n <= i32::MAX as usize {
            Some(n as i32)
        } else {
            Some(i32::MAX)
        },
        None => None,
    }
}

/// A column that a search returns.
#[derive(Debug)]
pub enum Projected {
    /// A column as it is.
    Column(String),
    /// The score, as a 64-bit float under the name that the search layer expects.
    Score,
}

/// What a [`Projected`] says.
pub enum ProjectedModel {
    Column(Seq<char>),
    Score,
}

impl View for Projected {
    type V = ProjectedModel;

    open spec fn view(&self) -> ProjectedModel {
        match *self {
            Projected::Column(c) => ProjectedModel::Column(c@),
            Projected::Score => ProjectedModel::Score,
        }
    }
}

/// What a list of returned columns says.
pub open spec fn projected_models(v: Seq<Projected>) -> Seq<ProjectedModel> {
    Seq::new(v.len(), |i: int| v[i]@)
}

/// The columns needed to build an index: the key and the indexed column.
pub open spec fn needed_columns(primary_key: Seq<FieldModel>, column: Seq<char>) -> Seq<Seq<char>> {
    columns::names(primary_key).push(column)
}

fn needed(primary_key: &Vec<Field>, column: &str) -> (r: Vec<String>)
    ensures
        text::texts(r@) == needed_columns(columns::models(primary_key@), column@),
{
    let mut r = field_names(primary_key);
    let ghost before = text::texts(r@);
    r.push(column.to_owned());
    assert(text::texts(r@) == before.push(column@));
    r
}

/// A vector index.
#[derive(Debug)]
pub struct MilvusVector {
    pub table: MilvusVectorsTable,
    /// The column whose values were embedded.
    pub embedded_column: String,
    pub primary_key: Vec<Field>,
    pub dimension: i64,
}

impl MilvusVector {
    pub fn new(
        table: MilvusVectorsTable,
        embedded_column: String,
        primary_key: Vec<Field>,
        dimension: i64,
    ) -> (r: Self)
        ensures
            r == (MilvusVector { table, embedded_column, primary_key, dimension }),
    {
        MilvusVector { table, embedded_column, primary_key, dimension }
    }

    /// The index of a target on a table, whose vectors have a dimension.
    pub fn of(target: IndexTarget, table: MilvusVectorsTable, dimension: i32) -> (r: Self)
        ensures
            r.table == (MilvusVectorsTable { dimension: dimension as i64, ..table }),
            r.embedded_column == target.column,
            r.primary_key == target.primary_key,
            r.dimension == dimension,
    {
        MilvusVector {
            table: MilvusVectorsTable {
                coll: table.coll,
                schema: table.schema,
                dimension: dimension as i64,
            },
            embedded_column: target.column,
            primary_key: target.primary_key,
            dimension: dimension as i64,
        }
    }

    pub fn name(&self) -> (r: &'static str)
        ensures
            r@ == "milvus_vector_index"@,
    {
        "milvus_vector_index"
    }

    /// The columns needed to build the index.
    pub fn required_columns(&self) -> (r: Vec<String>)
        ensures
            text::texts(r@) == needed_columns(
                columns::models(self.primary_key@),
                self.embedded_column@,
            ),
    {
        needed(&self.primary_key, self.embedded_column.as_str())
    }

    /// The column that is searched.
    pub fn search_column(&self) -> (r: String)
        ensures
            r@ == self.embedded_column@,
    {
        self.embedded_column.clone()
    }

    pub fn primary_fields(&self) -> (r: Vec<Field>)
        ensures
            columns::models(r@) == columns::models(self.primary_key@),
    {
        copy_fields(&self.primary_key)
    }

    /// Why the index cannot be written.
    pub fn write_refusal() -> (r: &'static str)
        ensures
            r@
                == "milvus_vector_index: write/ingestion is not implemented; populate the Milvus collection out-of-band"@,
    {
        "milvus_vector_index: write/ingestion is not implemented; populate the Milvus collection out-of-band"
    }

    /// Why the index cannot be listed.
    pub fn list_refusal() -> (r: &'static str)
        ensures
            r@ == "milvus_vector_index: list_table_provider is not implemented"@,
    {
        "milvus_vector_index: list_table_provider is not implemented"
    }

    /// What a query returns: the key and the score.
    pub fn query_projection(&self) -> (r: Vec<Projected>)
        ensures
            projected_models(r@) == Seq::new(
                self.primary_key@.len(),
                |i: int| ProjectedModel::Column(self.primary_key[i].name@),
            ).push(ProjectedModel::Score),
    {
        let ghost keys = Seq::new(
            self.primary_key@.len(),
            |i: int| ProjectedModel::Column(self.primary_key[i].name@),
        );
        let mut r: Vec<Projected> = Vec::new();
        let mut i: usize = 0;
        while i < self.primary_key.len()
            invariant
                i <= self.primary_key.len(),
                keys == Seq::new(
                    self.primary_key@.len(),
                    |i: int| ProjectedModel::Column(self.primary_key[i].name@),
                ),
                projected_models(r@) == keys.take(i as int),
            decreases self.primary_key.len() - i,
        {
            let ghost before = projected_models(r@);
            let c = Projected::Column(self.primary_key[i].name.clone());
            r.push(c);
            assert(projected_models(r@) == before.push(c@));
            i += 1;
        }
        assert(keys.take(i as int) == keys);
        r.push(Projected::Score);
        assert(projected_models(r@) == keys.push(ProjectedModel::Score));
        r
    }

    /// The dimension, as far as 32 bits hold it.
    pub fn dimension(&self) -> (r: i32)
        ensures
            r == if i32::MIN <= self.dimension <= i32::MAX {
                self.dimension as i32
            } else {
                i32::MAX
            },
    {
        if self.dimension >= i32::MIN as i64 && self.dimension <= i32::MAX as i64 {
            self.dimension as i32
        } else {
            i32::MAX
        }
    }

    /// The columns that a query adds to those of the base table: none.
    pub fn derived_columns(&self) -> (r: Vec<String>)
        ensures
            r.len() == 0,
    {
        Vec::new()
    }
}

/// A text index.
#[derive(Debug)]
pub struct MilvusTextIndex {
    pub table: MilvusVectorsTable,
    /// The column whose texts Milvus ranks.
    pub text_column: String,
    pub primary_key: Vec<Field>,
}

/// What a text query returns of a column: the score as the search layer expects it,
/// any other column as it is.
pub open spec fn passed_on(name: Seq<char>) -> ProjectedModel {
    if name == "score"@ {
        ProjectedModel::Score
    } else {
        ProjectedModel::Column(name)
    }
}

impl MilvusTextIndex {
    pub fn new(table: MilvusVectorsTable, text_column: String, primary_key: Vec<Field>) -> (r: Self)
        ensures
            r == (MilvusTextIndex { table, text_column, primary_key }),
    {
        MilvusTextIndex { table, text_column, primary_key }
    }

    pub fn name(&self) -> (r: &'static str)
        ensures
            r@ == "milvus_text_index"@,
    {
        "milvus_text_index"
    }

    /// The columns needed to build the index.
    pub fn required_columns(&self) -> (r: Vec<String>)
        ensures
            text::texts(r@) == needed_columns(
                columns::models(self.primary_key@),
                self.text_column@,
            ),
    {
        needed(&self.primary_key, self.text_column.as_str())
    }

    /// The column that is searched.
    pub fn search_column(&self) -> (r: String)
        ensures
            r@ == self.text_column@,
    {
        self.text_column.clone()
    }

    pub fn primary_fields(&self) -> (r: Vec<Field>)
        ensures
            columns::models(r@) == columns::models(self.primary_key@),
    {
        copy_fields(&self.primary_key)
    }

    /// Why the index cannot be written.
    pub fn write_refusal() -> (r: &'static str)
        ensures
            r@
                == "milvus_text_index: write/ingestion is not implemented; populate the Milvus collection out-of-band"@,
    {
        "milvus_text_index: write/ingestion is not implemented; populate the Milvus collection out-of-band"
    }

    /// What a query returns: every column that the search returns.
    pub fn query_projection(&self) -> (r: Vec<Projected>)
        ensures
            projected_models(r@) == Seq::new(
                self.table.schema@.len(),
                |i: int| passed_on(self.table.schema[i].name@),
            ),
    {
        let ghost all = Seq::new(
            self.table.schema@.len(),
            |i: int| passed_on(self.table.schema[i].name@),
        );
        let mut r: Vec<Projected> = Vec::new();
        let mut i: usize = 0;
        while i < self.table.schema.len()
            invariant
                i <= self.table.schema.len(),
                all == Seq::new(
                    self.table.schema@.len(),
                    |i: int| passed_on(self.table.schema[i].name@),
                ),
                projected_models(r@) == all.take(i as int),
            decreases self.table.schema.len() - i,
        {
            let ghost before = projected_models(r@);
            let name = self.table.schema[i].name.as_str();
            let c = if same_text(name, "score") {
                Projected::Score
            } else {
                Projected::Column(name.to_owned())
            };
            r.push(c);
            assert(c@ == all[i as int]);
            assert(projected_models(r@) == before.push(c@));
            i += 1;
        }
        assert(all.take(i as int) == all);
        r
    }
}

// ---------------------------------------------------------------------------
// Building an index
// ---------------------------------------------------------------------------

/// The words of a failed outcome, or the fields of a description.
pub open spec fn description(d: Result<Vec<CollectionField>, MilvusError>) -> Result<
    Seq<client::FieldDescription>,
    Seq<char>,
> {
    match d {
        Ok(fields) => Ok(client::descriptions(fields@)),
        Err(e) => Err(e.words()),
    }
}

/// What an attempt to build an index found outside.
#[derive(Debug)]
pub struct Findings {
    /// Why the client could not be built, if it could not.
    pub connected: Result<(), MilvusError>,
    /// The description of the collection.
    pub described: Result<Vec<CollectionField>, MilvusError>,
}

impl IndexTarget {
    /// A vector index, or the first thing that stands against it: no key, no model,
    /// no connection, no collection, no description, no vector field, no partition
    /// where one is required, no dimension.
    pub open spec fn vector_outcome(
        self,
        model: Seq<char>,
        loaded: bool,
        m: Map<Seq<char>, Seq<char>>,
        process: Option<Seq<char>>,
        found: Findings,
        vector_size: Option<usize>,
        inferred: Result<i32, String>,
    ) -> Result<(SearchPlan, i32), Seq<char>> {
        if self.primary_key.len() == 0 {
            Err(keyless(self.ds_name@, self.column@))
        } else if !loaded {
            Err(modelless(self.ds_name@, self.column@, model))
        } else if found.connected is Err {
            Err(found.connected->Err_0.words())
        } else {
            match params::given(m, "collection"@) {
                None => Err(collectionless(IndexKind::Vector, self.ds_name@)),
                Some(collection) => match description(found.described) {
                    Err(e) => Err(e),
                    Ok(fields) => match self.vector_plan(m, process, collection, fields) {
                        Err(e) => Err(e),
                        Ok(plan) => match (vector_size, inferred) {
                            (None, Err(e)) => Err(e@),
                            (None, Ok(d)) => Ok((plan, d)),
                            (Some(_), _) => Ok((plan, dimension_of(vector_size, 0))),
                        },
                    },
                },
            }
        }
    }

    /// A text index, nothing, or the first thing that stands against it: nothing
    /// without a key or a sparse field; refused without a connection, a collection, a
    /// description, or a partition where one is required.
    pub open spec fn text_outcome(
        self,
        m: Map<Seq<char>, Seq<char>>,
        process: Option<Seq<char>>,
        found: Findings,
        discovered: Option<Seq<char>>,
    ) -> Result<Option<SearchPlan>, Seq<char>> {
        if self.primary_key.len() == 0 {
            Ok(None)
        } else if found.connected is Err {
            Err(found.connected->Err_0.words())
        } else {
            match params::given(m, "collection"@) {
                None => Err(collectionless(IndexKind::FullText, self.ds_name@)),
                Some(collection) => match description(found.described) {
                    Err(e) => Err(e),
                    Ok(fields) => self.text_plan(m, process, collection, discovered, fields),
                },
            }
        }
    }
}

/// Builds a vector index on a target out of what was found outside. The dimension is
/// inferred only where none is set.
pub fn try_from_table(
    target: IndexTarget,
    model: &str,
    loaded: bool,
    settings: &Parameters,
    process: &Option<String>,
    found: Findings,
    vector_size: Option<usize>,
    inferred: Result<i32, String>,
) -> (r: Result<MilvusVector, String>)
    ensures
        match (
            target.vector_outcome(
                model@,
                loaded,
                settings@,
                text::text_of(*process),
                found,
                vector_size,
                inferred,
            ),
            r,
        ) {
            (Ok((plan, d)), Ok(v)) => (SearchPlan {
                coll: v.table.coll@,
                schema: columns::models(v.table.schema@),
            }) == plan && v.table.dimension == d && v.dimension == d && v.embedded_column
                == target.column && v.primary_key == target.primary_key,
            (Err(m), Err(e)) => e@ == m,
            _ => false,
        },
{
    if let Err(e) = target.require_key() {
        return Err(e);
    }
    if let Err(e) = target.require_model(model, loaded) {
        return Err(e);
    }
    if let Err(e) = found.connected {
        return Err(e.text());
    }
    let collection = match target.collection(IndexKind::Vector, settings) {
        Ok(c) => c,
        Err(e) => {
            return Err(e);
        },
    };
    let fields = match found.described {
        Ok(fields) => fields,
        Err(e) => {
            return Err(e.text());
        },
    };
    let table = match target.vector_table(settings, process, collection, &fields) {
        Ok(t) => t,
        Err(e) => {
            return Err(e);
        },
    };
    let dimension: i32 = match configured_dimension(vector_size) {
        Some(d) => d,
        None => match inferred {
            Ok(d) => d,
            Err(e) => {
                return Err(e);
            },
        },
    };
    Ok(MilvusVector::of(target, table, dimension))
}

/// Builds a text index on a target out of what was found outside, where one can be
/// built: `discovered` is the sparse field that the collection's BM25 function on the
/// indexed column writes.
pub fn try_text_index_from_table(
    target: IndexTarget,
    settings: &Parameters,
    process: &Option<String>,
    found: Findings,
    discovered: Option<String>,
) -> (r: Result<Option<MilvusTextIndex>, String>)
    ensures
        match (
            target.text_outcome(
                settings@,
                text::text_of(*process),
                found,
                text::text_of(discovered),
            ),
            r,
        ) {
            (Ok(Some(plan)), Ok(Some(t))) => (SearchPlan {
                coll: t.table.coll@,
                schema: columns::models(t.table.schema@),
            }) == plan && t.table.dimension == 0 && t.text_column == target.column
                && t.primary_key == target.primary_key,
            (Ok(None), Ok(None)) => true,
            (Err(m), Err(e)) => e@ == m,
            _ => false,
        },
{
    if target.primary_key.len() == 0 {
        return Ok(None);
    }
    if let Err(e) = found.connected {
        return Err(e.text());
    }
    let collection = match target.collection(IndexKind::FullText, settings) {
        Ok(c) => c,
        Err(e) => {
            return Err(e);
        },
    };
    let fields = match found.described {
        Ok(fields) => fields,
        Err(e) => {
            return Err(e.text());
        },
    };
    match target.text_table(settings, process, collection, discovered, &fields) {
        Ok(Some(t)) => Ok(Some(MilvusTextIndex::new(t, target.column, target.primary_key))),
        Ok(None) => Ok(None),
        Err(e) => Err(e),
    }
}

// ---------------------------------------------------------------------------
// What the settings of an index lead to
// ---------------------------------------------------------------------------

/// A vector index searches the field that is set, whatever the description says; only
/// where none is set does it search the first field that is a vector, and there is no
/// index where there is none.
pub proof fn law_set_vector_field_is_searched(
    target: IndexTarget,
    m: Map<Seq<char>, Seq<char>>,
    process: Option<Seq<char>>,
    collection: Seq<char>,
    fields: Seq<client::FieldDescription>,
)
    ensures
        target.vector_plan(m, process, collection, fields) matches Ok(plan) ==> {
            if m.dom().contains("vector_field"@) {
                plan.coll.vector_field == m["vector_field"@]
            } else {
                exists|i: int|
                    0 <= i < fields.len() && (#[trigger] fields[i]).is_vector && fields[i].name
                        == plan.coll.vector_field && forall|k: int|
                        0 <= k < i ==> !(#[trigger] fields[k]).is_vector
            }
        },
        !m.dom().contains("vector_field"@) && (forall|i: int|
            0 <= i < fields.len() ==> !(#[trigger] fields[i]).is_vector) ==> target.vector_plan(
            m,
            process,
            collection,
            fields,
        ) is Err,
{
    connector::law_first_vector_is_the_first(fields);
}

/// A text index searches the sparse field that is set, or else the one that was
/// discovered, by BM25; without either there is none.
pub proof fn law_set_sparse_field_is_searched(
    target: IndexTarget,
    m: Map<Seq<char>, Seq<char>>,
    process: Option<Seq<char>>,
    collection: Seq<char>,
    discovered: Option<Seq<char>>,
    fields: Seq<client::FieldDescription>,
)
    ensures
        match target.text_plan(m, process, collection, discovered, fields) {
            Ok(Some(plan)) => plan.coll.metric == "BM25"@ && if m.dom().contains("sparse_field"@) {
                plan.coll.vector_field == m["sparse_field"@]
            } else {
                discovered == Some(plan.coll.vector_field)
            },
            Ok(None) => !m.dom().contains("sparse_field"@) && discovered is None,
            Err(_) => m.dom().contains("sparse_field"@) || discovered is Some,
        },
{
}

/// A switch is on.
pub open spec fn says_yes(v: Seq<char>) -> bool {
    v == "true"@ || v == "1"@ || v == "yes"@
}

/// A partition has to be set, by the settings of the store or for the whole process.
pub open spec fn wants_partition(
    m: Map<Seq<char>, Seq<char>>,
    process: Option<Seq<char>>,
) -> bool {
    (m.dom().contains("require_partition"@) && says_yes(m["require_partition"@])) || (process
        matches Some(v) && says_yes(v))
}

/// An index searches the collection and the partition that are set, by the metric that
/// is set or else by the cosine, and returns the columns of the target with a score.
/// Where a partition has to be set and none is, there is no index; where none has to be,
/// none is missed.
pub proof fn law_searches_are_as_set(
    target: IndexTarget,
    m: Map<Seq<char>, Seq<char>>,
    process: Option<Seq<char>>,
    collection: Seq<char>,
    fields: Seq<client::FieldDescription>,
)
    ensures
        target.vector_plan(m, process, collection, fields) matches Ok(plan) ==> {
            &&& plan.coll.collection == collection
            &&& m.dom().contains("metric"@) ==> plan.coll.metric == m["metric"@]
            &&& !m.dom().contains("metric"@) ==> plan.coll.metric == "COSINE"@
            &&& m.dom().contains("partition"@) ==> plan.coll.partition == Some(m["partition"@])
            &&& !m.dom().contains("partition"@) ==> plan.coll.partition is None
            &&& wants_partition(m, process) ==> m.dom().contains("partition"@) && m["partition"@].len()
                > 0
        },
        m.dom().contains("vector_field"@) && (wants_partition(m, process) ==> m.dom().contains(
            "partition"@,
        ) && m["partition"@].len() > 0) ==> target.vector_plan(m, process, collection, fields) is Ok,
{
}

/// The same of a text index.
pub proof fn law_text_searches_are_as_set(
    target: IndexTarget,
    m: Map<Seq<char>, Seq<char>>,
    process: Option<Seq<char>>,
    collection: Seq<char>,
    discovered: Option<Seq<char>>,
    fields: Seq<client::FieldDescription>,
)
    ensures
        target.text_plan(m, process, collection, discovered, fields) matches Ok(Some(plan)) ==> {
            &&& plan.coll.collection == collection
            &&& m.dom().contains("partition"@) ==> plan.coll.partition == Some(m["partition"@])
            &&& !m.dom().contains("partition"@) ==> plan.coll.partition is None
            &&& wants_partition(m, process) ==> m.dom().contains("partition"@) && m["partition"@].len()
                > 0
        },
        discovered is Some && (wants_partition(m, process) ==> m.dom().contains("partition"@)
            && m["partition"@].len() > 0) ==> target.text_plan(
            m,
            process,
            collection,
            discovered,
            fields,
        ) is Ok,
{
}

/// What a search returns ends with a score that is never null; before it stand, where
/// the base table is the collection itself, all scalar fields by their types, and else
/// the fields of the key. All but the score are fetched, in their order.
pub proof fn law_searches_return_the_columns(
    target: IndexTarget,
    collection: Seq<char>,
    field: Seq<char>,
    metric: Seq<char>,
    partition: Option<Seq<char>>,
    fields: Seq<client::FieldDescription>,
    i: int,
)
    ensures
        ({
            let plan = target.plan(collection, field, metric, partition, fields);
            let n = plan.schema.len() - 1;
            let scalars = connector::scalars(fields);
            &&& plan.coll.vector_field == field && plan.coll.collection == collection
            &&& plan.coll.metric == metric && plan.coll.partition == partition
            &&& n >= 0 && plan.schema[n].name == "score"@ && plan.schema[n].data_type
                == DataType::Float32 && !plan.schema[n].nullable
            &&& n == if target.milvus_only {
                scalars.len()
            } else {
                target.primary_key@.len()
            }
            &&& plan.coll.output_fields.len() == n
            &&& 0 <= i < n ==> plan.coll.output_fields[i] == plan.schema[i].name
            &&& 0 <= i < n && target.milvus_only ==> plan.schema[i].name == scalars[i].name
                && plan.schema[i].data_type == exec::column_type(scalars[i].milvus_type)
            &&& 0 <= i < n && !target.milvus_only ==> plan.schema[i] == target.primary_key[i]@
        }),
{
}

/// The key of an index is made of the fields of the base table that its names name, in
/// their order; names of no field are passed over. Row ids come before the primary key.
pub proof fn law_keys_are_fields_of_the_table(
    keys: Seq<Seq<char>>,
    schema: Seq<FieldModel>,
    ids: Seq<Seq<char>>,
)
    ensures
        index_keys(Some(ids), keys) == ids,
        index_keys(None, keys) == keys,
        forall|i: int|
            0 <= i < key_fields(keys, schema).len() ==> schema.contains(
                #[trigger] key_fields(keys, schema)[i],
            ) && keys.contains(key_fields(keys, schema)[i].name),
        (forall|i: int|
            0 <= i < keys.len() ==> columns::names(schema).contains(#[trigger] keys[i]))
            ==> key_fields(keys, schema).len() == keys.len() && forall|i: int|
            0 <= i < keys.len() ==> (#[trigger] key_fields(keys, schema)[i]).name == keys[i],
    decreases keys.len(),
{
    if keys.len() > 0 {
        let front = keys.drop_last();
        let n = keys.len() - 1;
        let old = key_fields(front, schema);
        let all = key_fields(keys, schema);
        law_keys_are_fields_of_the_table(front, schema, ids);
        columns::lemma_position(schema, keys.last());
        assert forall|i: int| 0 <= i < all.len() implies schema.contains(#[trigger] all[i])
            && keys.contains(all[i].name) by {
            if i < old.len() {
                assert(all[i] == old[i]);
                let k = choose|k: int| 0 <= k < front.len() && front[k] == old[i].name;
                assert(keys[k] == old[i].name);
            } else {
                let k = columns::position(schema, keys.last())->0;
                assert(all[i] == schema[k]);
                assert(keys[n] == all[i].name);
            }
        }
        if forall|i: int|
            0 <= i < keys.len() ==> columns::names(schema).contains(#[trigger] keys[i]) {
            assert forall|i: int| 0 <= i < front.len() implies columns::names(schema).contains(
                #[trigger] front[i],
            ) by {
                assert(front[i] == keys[i]);
            }
            assert(columns::names(schema).contains(keys[n]));
            assert forall|i: int| 0 <= i < keys.len() implies (#[trigger] all[i]).name
                == keys[i] by {
                if i < n {
                    assert(old[i].name == front[i]);
                }
            }
        }
    }
}

/// A vector index is built if and only if there is a key, a model, a connection, a
/// collection that is set and described, and a search of it; its dimension is the one
/// that is set, up to what fits, or else that of the model.
pub proof fn law_index_needs_all_its_parts(
    target: IndexTarget,
    model: Seq<char>,
    loaded: bool,
    m: Map<Seq<char>, Seq<char>>,
    process: Option<Seq<char>>,
    found: Findings,
    vector_size: Option<usize>,
    inferred: Result<i32, String>,
)
    ensures
        target.vector_outcome(model, loaded, m, process, found, vector_size, inferred) matches Ok((
            plan,
            d,
        )) ==> {
            &&& target.primary_key.len() > 0 && loaded && found.connected is Ok
            &&& m.dom().contains("collection"@) && plan.coll.collection == m["collection"@]
            &&& found.described matches Ok(fields) && target.vector_plan(
                m,
                process,
                m["collection"@],
                client::descriptions(fields@),
            ) == Ok::<SearchPlan, Seq<char>>(plan)
            &&& match vector_size {
                Some(n) => d == if n <= 0x7fff_ffff {
                    n as int
                } else {
                    0x7fff_ffff
                },
                None => inferred == Ok::<i32, String>(d),
            }
        },
        target.primary_key.len() > 0 && loaded && found.connected is Ok && m.dom().contains(
            "collection"@,
        ) && found.described is Ok && (vector_size is Some || inferred is Ok) && target.vector_plan(
            m,
            process,
            m["collection"@],
            client::descriptions((found.described->Ok_0)@),
        ) is Ok ==> target.vector_outcome(model, loaded, m, process, found, vector_size, inferred)
            is Ok,
{
}

/// A text index is passed over without a key, and is otherwise that of the collection
/// that is set.
pub proof fn law_text_index_is_that_of_the_collection(
    target: IndexTarget,
    m: Map<Seq<char>, Seq<char>>,
    process: Option<Seq<char>>,
    found: Findings,
    discovered: Option<Seq<char>>,
)
    ensures
        target.primary_key.len() == 0 ==> target.text_outcome(m, process, found, discovered)
            == Ok::<Option<SearchPlan>, Seq<char>>(None),
        target.primary_key.len() > 0 && (found.connected is Err || !m.dom().contains("collection"@)
            || found.described is Err) ==> target.text_outcome(m, process, found, discovered)
            is Err,
        target.primary_key.len() > 0 && found.connected is Ok && m.dom().contains("collection"@)
            && found.described is Ok ==> target.text_outcome(m, process, found, discovered)
            == target.text_plan(
            m,
            process,
            m["collection"@],
            discovered,
            client::descriptions((found.described->Ok_0)@),
        ),
{
}

/// The connection of an index is the one that its settings describe.
pub proof fn law_connection_is_as_set(
    cfg: ConnectionConfig,
    m: Map<Seq<char>, Seq<char>>,
    n: nat,
)
    requires
        is_config(cfg, m),
        n <= 65535,
    ensures
        m.dom().contains("host"@) ==> cfg.host@ == m["host"@],
        !m.dom().contains("host"@) ==> cfg.host@ == "localhost"@,
        m.dom().contains("port"@) && numeral::numeral(m["port"@]) == Some(n) ==> cfg.port == n,
        !m.dom().contains("port"@) ==> cfg.port == 19530,
        m.dom().contains("secure"@) ==> (cfg.secure <==> says_yes(m["secure"@])),
        !m.dom().contains("secure"@) ==> !cfg.secure,
        m.dom().contains("token"@) ==> text::text_of(cfg.token) == Some(m["token"@]),
        m.dom().contains("timeout_ms"@) && numeral::numeral(m["timeout_ms"@]) == Some(n)
            ==> cfg.timeout_ms == n,
        !m.dom().contains("timeout_ms"@) ==> cfg.timeout_ms == 10_000,
        m.dom().contains("connect_timeout_ms"@) && numeral::numeral(m["connect_timeout_ms"@])
            == Some(n) ==> cfg.connect_timeout_ms == n,
        !m.dom().contains("connect_timeout_ms"@) ==> cfg.connect_timeout_ms == 3_000,
        m.dom().contains("max_retries"@) && numeral::numeral(m["max_retries"@]) == Some(n)
            ==> cfg.max_retries == n,
        !m.dom().contains("max_retries"@) ==> cfg.max_retries == 2,
        m.dom().contains("tls_skip_verify"@) ==> (cfg.tls_skip_verify <==> says_yes(
            m["tls_skip_verify"@],
        )),
        !m.dom().contains("tls_skip_verify"@) ==> !cfg.tls_skip_verify,
        m.dom().contains("tls_ca_cert"@) ==> text::text_of(cfg.tls_ca_cert_path) == Some(
            m["tls_ca_cert"@],
        ),
        !m.dom().contains("tls_ca_cert"@) ==> cfg.tls_ca_cert_path is None,
{
}

/// An index reads the fields of its key and the column that is searched; what it returns
/// is handed on under its own name, but for the score.
pub proof fn law_index_reads_key_and_column(
    primary_key: Seq<FieldModel>,
    column: Seq<char>,
    name: Seq<char>,
    i: int,
)
    ensures
        needed_columns(primary_key, column).len() == primary_key.len() + 1,
        needed_columns(primary_key, column).last() == column,
        0 <= i < primary_key.len() ==> needed_columns(primary_key, column)[i] == primary_key[i].name,
        name == "score"@ ==> passed_on(name) == ProjectedModel::Score,
        name != "score"@ ==> passed_on(name) == ProjectedModel::Column(name),
{
}

/// Without a token, the username and the password make one, where both are set.
pub proof fn law_token_is_as_set(cfg: ConnectionConfig, m: Map<Seq<char>, Seq<char>>)
    requires
        is_config(cfg, m),
        !m.dom().contains("token"@),
    ensures
        m.dom().contains("username"@) && m.dom().contains("password"@) ==> text::text_of(cfg.token)
            == Some(m["username"@] + ":"@ + m["password"@]),
        !m.dom().contains("username"@) || !m.dom().contains("password"@) ==> cfg.token is None,
{
}

/// The settings that are secret are the token, the username and the password.
pub proof fn law_secrets_are_hidden(i: int)
    requires
        0 <= i < parameter_table().len(),
    ensures
        parameter_table()[i].secret <==> parameter_table()[i].name == "token"@
            || parameter_table()[i].name == "username"@ || parameter_table()[i].name == "password"@,
{
    reveal_strlit("host");
    reveal_strlit("port");
    reveal_strlit("collection");
    reveal_strlit("vector_field");
    reveal_strlit("sparse_field");
    reveal_strlit("metric");
    reveal_strlit("partition");
    reveal_strlit("require_partition");
    reveal_strlit("token");
    reveal_strlit("username");
    reveal_strlit("password");
    reveal_strlit("secure");
    reveal_strlit("timeout_ms");
    reveal_strlit("connect_timeout_ms");
    reveal_strlit("max_retries");
    reveal_strlit("tls_skip_verify");
    reveal_strlit("tls_ca_cert");
    assert("token"@.len() == 5 && "username"@.len() == 8 && "password"@.len() == 8);
}

} // verus!
