//! The Milvus connector: its parameters, the connection they describe, and the
//! tables it serves.
//!
//! `from: milvus:<collection>` exposes a collection as a table. The vector field
//! and the columns come from the description of the collection unless they are set.
use vstd::prelude::*;

use std::sync::Arc;

use crate::columns;
use crate::columns::{DataType, Field, FieldModel};
use crate::endpoint;
use crate::milvus::client;
use crate::milvus::client::{
    CollectionField, ConnectionConfig, MilvusCollection, MilvusConnection, MilvusError,
};
use crate::milvus::exec;
use crate::milvus::exec::arrow_type_for;
use crate::milvus::table_provider::MilvusTableProvider;
use crate::numeral;
use crate::params;
use crate::params::{
    combine, low_bits, read_number, read_port, switched_on, text_or, ParameterSpec, Parameters,
};
use crate::text;
use crate::text::{copy_texts, same_text, split_at_char, trimmed};

verus! {

/// The name of the connector.
pub const CONNECTOR_NAME: &'static str = "milvus";

/// The parameters of the connector.
pub open spec fn parameter_table() -> Seq<params::ParameterModel> {
    seq![
        params::defaulted("host"@, "Milvus host."@, "localhost"@),
        params::defaulted("port"@, "Milvus HTTP/gRPC port (multiplexed)."@, "19530"@),
        params::defaulted("secure"@, "Use TLS (https) to reach Milvus."@, "false"@),
        params::hidden(
            "token"@,
            "Bearer token (or 'username:password' / API key) for auth."@,
        ),
        params::hidden(
            "username"@,
            "Username (combined with 'password' into a token if 'token' is unset)."@,
        ),
        params::hidden("password"@, "Password (used with 'username')."@),
        params::defaulted("timeout_ms"@, "Per-request timeout in milliseconds."@, "10000"@),
        params::defaulted("connect_timeout_ms"@, "Connection timeout in milliseconds."@, "3000"@),
        params::defaulted(
            "max_retries"@,
            "Retries for transient transport failures (timeouts/connection errors)."@,
            "2"@,
        ),
        params::defaulted(
            "tls_skip_verify"@,
            "Skip TLS certificate verification (DANGER; dev / self-signed only)."@,
            "false"@,
        ),
        params::plain(
            "tls_ca_cert"@,
            "Path to a PEM CA cert to trust for TLS (internal CA / self-signed server)."@,
        ),
        params::plain(
            "vector_field"@,
            "Float-vector field to search (default: auto-detected from the collection)."@,
        ),
        params::defaulted("metric"@, "Distance metric: COSINE | L2 | IP."@, "COSINE"@),
        params::plain(
            "output_fields"@,
            "Comma-separated scalar fields to return (default: all scalar fields)."@,
        ),
    ]
}

/// The token of settings: the one that is set, else user name and password.
pub open spec fn token_setting(
    token: Option<Seq<char>>,
    username: Option<Seq<char>>,
    password: Option<Seq<char>>,
) -> Option<Seq<char>> {
    match token {
        Some(t) => Some(t),
        None => params::combined(username, password),
    }
}

/// The token of settings.
pub fn read_token(
    token: Option<String>,
    username: &Option<String>,
    password: &Option<String>,
) -> (r: Option<String>)
    ensures
        text::text_of(r) == token_setting(
            text::text_of(token),
            text::text_of(*username),
            text::text_of(*password),
        ),
{
    match token {
        Some(t) => Some(t),
        None => combine(username, password),
    }
}

/// The connection that settings describe, with a port.
pub open spec fn is_config(
    cfg: ConnectionConfig,
    m: Map<Seq<char>, Seq<char>>,
    port: u16,
) -> bool {
    &&& cfg.host@ == params::or_default(params::filled(m, "host"@), "localhost"@)
    &&& cfg.port == port
    &&& cfg.secure == params::is_on(params::filled(m, "secure"@))
    &&& text::text_of(cfg.token) == token_setting(
        params::filled(m, "token"@),
        params::filled(m, "username"@),
        params::filled(m, "password"@),
    )
    &&& cfg.timeout_ms == params::number_or(params::filled(m, "timeout_ms"@), 10_000)
    &&& cfg.connect_timeout_ms == params::number_or(params::filled(m, "connect_timeout_ms"@), 3_000)
    &&& cfg.max_retries == params::low_word(params::number_or(params::filled(m, "max_retries"@), 2))
    &&& cfg.tls_skip_verify == params::is_on(params::filled(m, "tls_skip_verify"@))
    &&& text::text_of(cfg.tls_ca_cert_path) == params::filled(m, "tls_ca_cert"@)
}

/// The port that settings name.
pub open spec fn port_setting(m: Map<Seq<char>, Seq<char>>) -> Result<u16, Seq<char>> {
    params::port(params::or_default(params::filled(m, "port"@), "19530"@))
}

/// The parts of a list, trimmed, those left out that are empty then.
pub open spec fn entries(parts: Seq<Seq<char>>) -> Seq<Seq<char>>
    decreases parts.len(),
{
    if parts.len() == 0 {
        seq![]
    } else if text::trim(parts.last()).len() == 0 {
        entries(parts.drop_last())
    } else {
        entries(parts.drop_last()).push(text::trim(parts.last()))
    }
}

/// The names that a comma-separated list holds.
pub open spec fn listed(setting: Option<Seq<char>>) -> Seq<Seq<char>> {
    match setting {
        Some(s) => entries(text::split(s, ',')),
        None => seq![],
    }
}

fn list_of(setting: &Option<String>) -> (r: Vec<String>)
    ensures
        text::texts(r@) == listed(text::text_of(*setting)),
{
    let mut r: Vec<String> = Vec::new();
    assert(text::texts(r@) == Seq::<Seq<char>>::empty());
    if let Some(s) = setting {
        let parts = split_at_char(s.as_str(), ',');
        let ghost all = text::texts(parts@);
        let mut i: usize = 0;
        assert(text::texts(r@) == entries(all.take(0)));
        while i < parts.len()
            invariant
                i <= parts.len(),
                all == text::texts(parts@),
                text::texts(r@) == entries(all.take(i as int)),
            decreases parts.len() - i,
        {
            let ghost before = text::texts(r@);
            assert(all.take(i + 1).drop_last() == all.take(i as int));
            let t = trimmed(parts[i].as_str());
            if !t.as_str().is_empty() {
                r.push(t);
                assert(text::texts(r@) == before.push(t@));
            }
            i += 1;
        }
        assert(all.take(i as int) == all);
    }
    r
}

/// A connector: how to reach Milvus, and what is set of its collections.
#[derive(Debug)]
pub struct MilvusConnector {
    pub config: ConnectionConfig,
    pub conn: MilvusConnection,
    /// The vector field, or nothing if it is to be found.
    pub vector_field: String,
    pub metric: String,
    /// The columns to return, or none if all are to be returned.
    pub output_fields: Vec<String>,
}

/// Makes connectors out of their parameters.
#[derive(Clone, Copy, Debug, PartialEq, Eq, Structural)]
pub struct MilvusFactory {}

impl Default for MilvusFactory {
    fn default() -> (r: Self)
        ensures
            r == (MilvusFactory {  }),
    {
        MilvusFactory {  }
    }
}

impl MilvusFactory {
    pub fn new() -> (r: Self)
        ensures
            r == (MilvusFactory {  }),
    {
        MilvusFactory {  }
    }

    pub fn new_arc() -> (r: Arc<MilvusFactory>)
        ensures
            *r == (MilvusFactory {  }),
    {
        Arc::new(MilvusFactory {  })
    }

    /// The prefix of the connector's datasets and parameters.
    pub fn prefix(&self) -> (r: &'static str)
        ensures
            r@ == "milvus"@,
    {
        "milvus"
    }

    /// The parameters of the connector.
    pub fn parameters(&self) -> (r: Vec<ParameterSpec>)
        ensures
            params::parameter_models(r@) == parameter_table(),
    {
        let mut r: Vec<ParameterSpec> = Vec::new();
        r.push(ParameterSpec::with_default("host", "Milvus host.", "localhost"));
        r.push(
            ParameterSpec::with_default("port", "Milvus HTTP/gRPC port (multiplexed).", "19530"),
        );
        r.push(ParameterSpec::with_default("secure", "Use TLS (https) to reach Milvus.", "false"));
        r.push(
            ParameterSpec::secret(
                "token",
                "Bearer token (or 'username:password' / API key) for auth.",
            ),
        );
        r.push(
            ParameterSpec::secret(
                "username",
                "Username (combined with 'password' into a token if 'token' is unset).",
            ),
        );
        r.push(ParameterSpec::secret("password", "Password (used with 'username')."));
        r.push(
            ParameterSpec::with_default(
                "timeout_ms",
                "Per-request timeout in milliseconds.",
                "10000",
            ),
        );
        r.push(
            ParameterSpec::with_default(
                "connect_timeout_ms",
                "Connection timeout in milliseconds.",
                "3000",
            ),
        );
        r.push(
            ParameterSpec::with_default(
                "max_retries",
                "Retries for transient transport failures (timeouts/connection errors).",
                "2",
            ),
        );
        r.push(
            ParameterSpec::with_default(
                "tls_skip_verify",
                "Skip TLS certificate verification (DANGER; dev / self-signed only).",
                "false",
            ),
        );
        r.push(
            ParameterSpec::component(
                "tls_ca_cert",
                "Path to a PEM CA cert to trust for TLS (internal CA / self-signed server).",
            ),
        );
        r.push(
            ParameterSpec::component(
                "vector_field",
                "Float-vector field to search (default: auto-detected from the collection).",
            ),
        );
        r.push(
            ParameterSpec::with_default("metric", "Distance metric: COSINE | L2 | IP.", "COSINE"),
        );
        r.push(
            ParameterSpec::component(
                "output_fields",
                "Comma-separated scalar fields to return (default: all scalar fields).",
            ),
        );
        assert(params::parameter_models(r@) == parameter_table());
        r
    }

    /// The connector that settings describe. Fails only on a port that is none.
    pub fn create(&self, settings: &Parameters) -> (r: Result<MilvusConnector, String>)
        ensures
            match (port_setting(settings@), r) {
                (Ok(port), Ok(c)) => is_config(c.config, settings@, port) && c.conn.base_url@
                    == endpoint::url(c.config.secure, c.config.host@, port) && text::text_of(
                    c.conn.token,
                ) == text::text_of(c.config.token) && c.conn.max_retries == c.config.max_retries
                    && c.vector_field@ == params::or_default(
                    params::filled(settings@, "vector_field"@),
                    seq![],
                ) && c.metric@ == params::or_default(
                    params::filled(settings@, "metric"@),
                    "COSINE"@,
                ) && text::texts(c.output_fields@) == listed(
                    params::filled(settings@, "output_fields"@),
                ),
                (Err(m), Err(e)) => e@ == m,
                _ => false,
            },
    {
        let port = match read_port(text_or(settings.get_filled("port"), "19530").as_str()) {
            Ok(p) => p,
            Err(e) => {
                return Err(e);
            },
        };
        let config = ConnectionConfig {
            host: text_or(settings.get_filled("host"), "localhost"),
            port,
            secure: switched_on(&settings.get_filled("secure")),
            token: read_token(
                settings.get_filled("token"),
                &settings.get_filled("username"),
                &settings.get_filled("password"),
            ),
            timeout_ms: read_number(&settings.get_filled("timeout_ms"), 10_000),
            connect_timeout_ms: read_number(&settings.get_filled("connect_timeout_ms"), 3_000),
            max_retries: low_bits(read_number(&settings.get_filled("max_retries"), 2)),
            tls_skip_verify: switched_on(&settings.get_filled("tls_skip_verify")),
            tls_ca_cert_path: settings.get_filled("tls_ca_cert"),
        };
        let conn = MilvusConnection::new(&config);
        let vector_field = match settings.get_filled("vector_field") {
            Some(f) => f,
            None => String::new(),
        };
        Ok(
            MilvusConnector {
                config,
                conn,
                vector_field,
                metric: text_or(settings.get_filled("metric"), "COSINE"),
                output_fields: list_of(&settings.get_filled("output_fields")),
            },
        )
    }
}

// ---------------------------------------------------------------------------
// The table of a collection
// ---------------------------------------------------------------------------

/// The name of the first vector field.
pub open spec fn first_vector(fields: Seq<client::FieldDescription>) -> Option<Seq<char>>
    decreases fields.len(),
{
    if fields.len() == 0 {
        None
    } else if fields[0].is_vector {
        Some(fields[0].name)
    } else {
        first_vector(fields.skip(1))
    }
}

/// The fields that are no vectors, in order.
pub open spec fn scalars(fields: Seq<client::FieldDescription>) -> Seq<client::FieldDescription>
    decreases fields.len(),
{
    if fields.len() == 0 {
        seq![]
    } else if fields.last().is_vector {
        scalars(fields.drop_last())
    } else {
        scalars(fields.drop_last()).push(fields.last())
    }
}

/// The column type of the first scalar field of a name; a text if there is none.
pub open spec fn scalar_type(fields: Seq<client::FieldDescription>, name: Seq<char>) -> DataType
    decreases fields.len(),
{
    if fields.len() == 0 {
        DataType::Utf8
    } else if !fields[0].is_vector && fields[0].name == name {
        exec::column_type(fields[0].milvus_type)
    } else {
        scalar_type(fields.skip(1), name)
    }
}

/// The names of described fields.
pub open spec fn field_names(fields: Seq<client::FieldDescription>) -> Seq<Seq<char>> {
    Seq::new(fields.len(), |i: int| fields[i].name)
}

/// The name of the first vector field.
pub fn first_vector_field(fields: &Vec<CollectionField>) -> (r: Option<String>)
    ensures
        text::text_of(r) == first_vector(client::descriptions(fields@)),
{
    let ghost all = client::descriptions(fields@);
    let mut i: usize = 0;
    assert(all.skip(0) == all);
    while i < fields.len()
        invariant
            i <= fields.len(),
            all == client::descriptions(fields@),
            first_vector(all) == first_vector(all.skip(i as int)),
        decreases fields.len() - i,
    {
        assert(all.skip(i as int).skip(1) == all.skip(i + 1));
        if fields[i].is_vector {
            return Some(fields[i].name.clone());
        }
        i += 1;
    }
    None
}

/// The column type of the first scalar field of a name.
pub fn type_of_scalar(fields: &Vec<CollectionField>, name: &str) -> (r: DataType)
    ensures
        r == scalar_type(client::descriptions(fields@), name@),
{
    let ghost all = client::descriptions(fields@);
    let mut i: usize = 0;
    assert(all.skip(0) == all);
    while i < fields.len()
        invariant
            i <= fields.len(),
            all == client::descriptions(fields@),
            scalar_type(all, name@) == scalar_type(all.skip(i as int), name@),
        decreases fields.len() - i,
    {
        assert(all.skip(i as int).skip(1) == all.skip(i + 1));
        if !fields[i].is_vector && same_text(fields[i].name.as_str(), name) {
            return arrow_type_for(fields[i].milvus_type.as_str());
        }
        i += 1;
    }
    DataType::Utf8
}

/// The names of the fields that are no vectors.
pub fn scalar_names(fields: &Vec<CollectionField>) -> (r: Vec<String>)
    ensures
        text::texts(r@) == field_names(scalars(client::descriptions(fields@))),
{
    let ghost all = client::descriptions(fields@);
    let mut r: Vec<String> = Vec::new();
    let mut i: usize = 0;
    assert(text::texts(r@) == field_names(scalars(all.take(0))));
    while i < fields.len()
        invariant
            i <= fields.len(),
            all == client::descriptions(fields@),
            text::texts(r@) == field_names(scalars(all.take(i as int))),
        decreases fields.len() - i,
    {
        let ghost before = text::texts(r@);
        assert(all.take(i + 1).drop_last() == all.take(i as int));
        if !fields[i].is_vector {
            r.push(fields[i].name.clone());
            assert(text::texts(r@) == before.push(fields[i as int].name@));
            assert(field_names(scalars(all.take(i + 1))) == field_names(
                scalars(all.take(i as int)),
            ).push(fields[i as int].name@));
        }
        i += 1;
    }
    assert(all.take(i as int) == all);
    r
}

/// The columns to return: those that are set, else every scalar field.
pub open spec fn output_columns(
    set: Seq<Seq<char>>,
    fields: Seq<client::FieldDescription>,
) -> Seq<Seq<char>> {
    if set.len() == 0 {
        field_names(scalars(fields))
    } else {
        set
    }
}

/// The schema of a collection: the query, the columns to return, and the score.
pub open spec fn table_schema(
    output: Seq<Seq<char>>,
    fields: Seq<client::FieldDescription>,
) -> Seq<FieldModel> {
    seq![FieldModel { name: "query_vector"@, data_type: DataType::Utf8, nullable: true }]
        + Seq::new(
        output.len(),
        |i: int|
            FieldModel {
                name: output[i],
                data_type: scalar_type(fields, output[i]),
                nullable: true,
            },
    ) + seq![FieldModel { name: "score"@, data_type: DataType::Float32, nullable: true }]
}

fn schema_of(output: &Vec<String>, fields: &Vec<CollectionField>) -> (r: Vec<Field>)
    ensures
        columns::models(r@) == table_schema(
            text::texts(output@),
            client::descriptions(fields@),
        ),
{
    let ghost names = text::texts(output@);
    let ghost all = table_schema(names, client::descriptions(fields@));
    let mut r: Vec<Field> = Vec::new();
    r.push(Field::new("query_vector", DataType::Utf8, true));
    let mut i: usize = 0;
    assert(columns::models(r@) == all.take(1));
    while i < output.len()
        invariant
            i <= output.len(),
            names == text::texts(output@),
            all == table_schema(names, client::descriptions(fields@)),
            columns::models(r@) == all.take(i + 1),
        decreases output.len() - i,
    {
        let ghost before = columns::models(r@);
        let name = output[i].as_str();
        let f = Field::new(name, type_of_scalar(fields, name), true);
        r.push(f);
        assert(f@ == all[i + 1]);
        assert(columns::models(r@) == before.push(f@));
        i += 1;
    }
    let ghost before = columns::models(r@);
    let f = Field::new("score", DataType::Float32, true);
    r.push(f);
    assert(columns::models(r@) == before.push(f@));
    assert(columns::models(r@) == all);
    r
}

impl MilvusConnector {
    /// The field that is searched: the one that is set, else the first vector field.
    pub open spec fn searched(self, fields: Seq<client::FieldDescription>) -> Option<Seq<char>> {
        if self.vector_field@.len() > 0 {
            Some(self.vector_field@)
        } else {
            first_vector(fields)
        }
    }

    /// The table of a collection, from its description. Fails if the description
    /// failed or no field can be searched.
    pub fn read_provider(
        &self,
        collection: String,
        described: Result<Vec<CollectionField>, MilvusError>,
    ) -> (r: Result<MilvusTableProvider, String>)
        ensures
            match (described, r) {
                (Err(e), Err(m)) => m@ == "describe collection '"@ + collection@ + "': "@
                    + e.words(),
                (Ok(fields), Err(m)) => self.searched(client::descriptions(fields@)) is None && m@
                    == "collection '"@ + collection@ + "' has no vector field"@,
                (Ok(fields), Ok(t)) => {
                    let ds = client::descriptions(fields@);
                    let output = output_columns(text::texts(self.output_fields@), ds);
                    self.searched(ds) == Some(t.coll@.vector_field) && t.coll@
                        == (client::CollectionModel {
                        collection: collection@,
                        vector_field: t.coll@.vector_field,
                        metric: self.metric@,
                        output_fields: output,
                        partition: None,
                    }) && columns::models(t.schema@) == table_schema(output, ds)
                },
                (Err(_), Ok(_)) => false,
            },
    {
        let fields = match described {
            Ok(fields) => fields,
            Err(e) => {
                let mut m = "describe collection '".to_owned();
                m.push_str(collection.as_str());
                m.push_str("': ");
                m.push_str(e.text().as_str());
                return Err(m);
            },
        };
        let vector_field = if !self.vector_field.as_str().is_empty() {
            self.vector_field.clone()
        } else {
            match first_vector_field(&fields) {
                Some(f) => f,
                None => {
                    let mut m = "collection '".to_owned();
                    m.push_str(collection.as_str());
                    m.push_str("' has no vector field");
                    return Err(m);
                },
            }
        };
        let output_fields = if self.output_fields.len() == 0 {
            scalar_names(&fields)
        } else {
            copy_texts(&self.output_fields)
        };
        let schema = schema_of(&output_fields, &fields);
        let coll = MilvusCollection {
            collection,
            vector_field,
            metric: self.metric.clone(),
            output_fields,
            partition: None,
        };
        Ok(MilvusTableProvider::new(coll, schema))
    }
}

/// The factory of the connector.
pub fn factory() -> (r: Arc<MilvusFactory>)
    ensures
        *r == (MilvusFactory {  }),
{
    MilvusFactory::new_arc()
}

// ---------------------------------------------------------------------------
// What the settings and a description lead to
// ---------------------------------------------------------------------------

/// The server is the one that the settings name; what is not set has its default.
pub proof fn law_server_is_as_set(
    cfg: ConnectionConfig,
    m: Map<Seq<char>, Seq<char>>,
    port: u16,
    v: Seq<char>,
)
    requires
        is_config(cfg, m, port),
    ensures
        params::is_set(m, "host"@, v) ==> cfg.host@ == v,
        params::is_unset(m, "host"@) ==> cfg.host@ == "localhost"@,
        cfg.port == port,
        params::is_set(m, "port"@, v) ==> port_setting(m) == params::port(v),
        params::is_unset(m, "port"@) ==> port_setting(m) == Ok::<u16, Seq<char>>(19530),
{
    numeral::lemma_default_ports();
}

/// The token is the one that is set, or is made of the username and the password where
/// both are set.
pub proof fn law_token_is_as_set(
    cfg: ConnectionConfig,
    m: Map<Seq<char>, Seq<char>>,
    port: u16,
    v: Seq<char>,
    w: Seq<char>,
)
    requires
        is_config(cfg, m, port),
    ensures
        params::is_set(m, "token"@, v) ==> text::text_of(cfg.token) == Some(v),
        params::is_unset(m, "token"@) && params::is_set(m, "username"@, v) && params::is_set(
            m,
            "password"@,
            w,
        ) ==> text::text_of(cfg.token) == Some(v + ":"@ + w),
        params::is_unset(m, "token"@) && (params::is_unset(m, "username"@) || params::is_unset(
            m,
            "password"@,
        )) ==> cfg.token is None,
{
}

/// A switch is on only where the settings say so, and a certificate is trusted only
/// where they name one.
pub proof fn law_switches_are_as_set(
    cfg: ConnectionConfig,
    m: Map<Seq<char>, Seq<char>>,
    port: u16,
    v: Seq<char>,
)
    requires
        is_config(cfg, m, port),
    ensures
        params::is_set(m, "secure"@, v) ==> (cfg.secure <==> v == "true"@ || v == "1"@ || v
            == "yes"@),
        params::is_unset(m, "secure"@) ==> !cfg.secure,
        params::is_set(m, "tls_skip_verify"@, v) ==> (cfg.tls_skip_verify <==> v == "true"@ || v
            == "1"@ || v == "yes"@),
        params::is_unset(m, "tls_skip_verify"@) ==> !cfg.tls_skip_verify,
        params::is_set(m, "tls_ca_cert"@, v) ==> text::text_of(cfg.tls_ca_cert_path) == Some(v),
        params::is_unset(m, "tls_ca_cert"@) ==> cfg.tls_ca_cert_path is None,
{
}

/// The limits are those that the settings name, where they are numbers; else 10 s for a
/// request, 3 s for a connection, and two more tries.
pub proof fn law_limits_are_as_set(
    cfg: ConnectionConfig,
    m: Map<Seq<char>, Seq<char>>,
    port: u16,
    v: Seq<char>,
    n: nat,
)
    requires
        is_config(cfg, m, port),
        numeral::numeral(v) == Some(n),
        n <= u32::MAX,
    ensures
        params::is_unset(m, "timeout_ms"@) ==> cfg.timeout_ms == 10_000,
        params::is_set(m, "timeout_ms"@, v) ==> cfg.timeout_ms == n,
        params::is_unset(m, "connect_timeout_ms"@) ==> cfg.connect_timeout_ms == 3_000,
        params::is_set(m, "connect_timeout_ms"@, v) ==> cfg.connect_timeout_ms == n,
        params::is_unset(m, "max_retries"@) ==> cfg.max_retries == 2,
        params::is_set(m, "max_retries"@, v) ==> cfg.max_retries == n,
{
}

/// The searched field is the first that is a vector: none before it is.
pub proof fn law_first_vector_is_the_first(fields: Seq<client::FieldDescription>)
    ensures
        match first_vector(fields) {
            Some(name) => exists|i: int|
                0 <= i < fields.len() && (#[trigger] fields[i]).is_vector && fields[i].name == name
                    && forall|k: int| 0 <= k < i ==> !(#[trigger] fields[k]).is_vector,
            None => forall|i: int| 0 <= i < fields.len() ==> !(#[trigger] fields[i]).is_vector,
        },
    decreases fields.len(),
{
    if fields.len() > 0 && !fields[0].is_vector {
        let rest = fields.skip(1);
        law_first_vector_is_the_first(rest);
        match first_vector(rest) {
            Some(name) => {
                let i = choose|i: int|
                    0 <= i < rest.len() && (#[trigger] rest[i]).is_vector && rest[i].name == name
                        && forall|k: int| 0 <= k < i ==> !(#[trigger] rest[k]).is_vector;
                assert(fields[i + 1] == rest[i]);
                assert forall|k: int| 0 <= k < i + 1 implies !(#[trigger] fields[k]).is_vector by {
                    if k > 0 {
                        assert(rest[k - 1] == fields[k]);
                    }
                }
            },
            None => {
                assert forall|i: int| 0 <= i < fields.len() implies !(
                #[trigger] fields[i]).is_vector by {
                    if i > 0 {
                        assert(rest[i - 1] == fields[i]);
                    }
                }
            },
        }
    } else if fields.len() > 0 {
        assert(fields[0].is_vector);
    }
}

/// The scalar fields are those that are no vectors, all of them and in their order: `at`
/// gives for each its place in the description.
pub proof fn law_scalars_are_the_other_fields(fields: Seq<client::FieldDescription>) -> (at: Seq<
    int,
>)
    ensures
        at.len() == scalars(fields).len(),
        forall|i: int|
            0 <= i < at.len() ==> 0 <= #[trigger] at[i] < fields.len() && scalars(fields)[i]
                == fields[at[i]] && !fields[at[i]].is_vector,
        forall|i: int, j: int| 0 <= i < j < at.len() ==> #[trigger] at[i] < #[trigger] at[j],
        forall|k: int|
            0 <= k < fields.len() && !(#[trigger] fields[k]).is_vector ==> at.contains(k),
    decreases fields.len(),
{
    if fields.len() == 0 {
        Seq::<int>::empty()
    } else {
        let front = fields.drop_last();
        let n = fields.len() - 1;
        let before = law_scalars_are_the_other_fields(front);
        let at = if fields.last().is_vector {
            before
        } else {
            before.push(n)
        };
        assert forall|i: int| 0 <= i < at.len() implies 0 <= #[trigger] at[i] < fields.len()
            && scalars(fields)[i] == fields[at[i]] && !fields[at[i]].is_vector by {
            if i < before.len() {
                assert(0 <= before[i] < front.len());
                assert(front[before[i]] == fields[before[i]]);
            }
        }
        assert forall|k: int|
            0 <= k < fields.len() && !(#[trigger] fields[k]).is_vector implies at.contains(k) by {
            if k < n {
                assert(front[k] == fields[k]);
                assert(before.contains(k));
                let i = choose|i: int| 0 <= i < before.len() && before[i] == k;
                assert(at[i] == k);
            } else {
                assert(at[before.len() as int] == k);
            }
        }
        at
    }
}

/// A list of names is read at its commas, without the white space around the names and
/// without blank ones.
pub proof fn law_lists_are_read(s: Seq<char>, k: int)
    ensures
        forall|e: Seq<char>|
            listed(Some(s)).contains(e) ==> e.len() > 0 && exists|i: int|
                0 <= i < text::split(s, ',').len() && e == text::trim(
                    #[trigger] text::split(s, ',')[i],
                ),
        0 <= k < text::split(s, ',').len() && text::trim(text::split(s, ',')[k]).len() > 0
            ==> listed(Some(s)).contains(text::trim(text::split(s, ',')[k])),
        (forall|i: int|
            0 <= i < text::split(s, ',').len() ==> text::trim(
                #[trigger] text::split(s, ',')[i],
            ).len() > 0) ==> listed(Some(s)).len() == text::split(s, ',').len() && forall|i: int|
            0 <= i < listed(Some(s)).len() ==> #[trigger] listed(Some(s))[i] == text::trim(
                text::split(s, ',')[i],
            ),
        listed(None).len() == 0,
{
    lemma_entries(text::split(s, ','));
    if 0 <= k < text::split(s, ',').len() {
        let p = text::split(s, ',')[k];
    }
}

proof fn lemma_entries(parts: Seq<Seq<char>>)
    ensures
        forall|e: Seq<char>|
            entries(parts).contains(e) ==> e.len() > 0 && exists|i: int|
                0 <= i < parts.len() && e == text::trim(#[trigger] parts[i]),
        forall|i: int|
            0 <= i < parts.len() && text::trim(#[trigger] parts[i]).len() > 0 ==> entries(
                parts,
            ).contains(text::trim(parts[i])),
        (forall|i: int| 0 <= i < parts.len() ==> text::trim(#[trigger] parts[i]).len() > 0)
            ==> entries(parts).len() == parts.len() && forall|i: int|
            0 <= i < parts.len() ==> #[trigger] entries(parts)[i] == text::trim(parts[i]),
    decreases parts.len(),
{
    if parts.len() > 0 {
        let front = parts.drop_last();
        let n = parts.len() - 1;
        let old = entries(front);
        let all = entries(parts);
        lemma_entries(front);
        assert forall|e: Seq<char>| all.contains(e) implies e.len() > 0 && exists|i: int|
            0 <= i < parts.len() && e == text::trim(#[trigger] parts[i]) by {
            let k = choose|k: int| 0 <= k < all.len() && all[k] == e;
            if k < old.len() {
                assert(old[k] == e);
                assert(old.contains(e));
                let i = choose|i: int| 0 <= i < front.len() && e == text::trim(#[trigger] front[i]);
                assert(parts[i] == front[i]);
            } else {
                assert(e == text::trim(parts[n]));
            }
        }
        assert forall|i: int|
            0 <= i < parts.len() && text::trim(#[trigger] parts[i]).len() > 0 implies all.contains(
            text::trim(parts[i]),
        ) by {
            if i < n {
                assert(front[i] == parts[i]);
                assert(old.contains(text::trim(parts[i])));
                let k = choose|k: int| 0 <= k < old.len() && old[k] == text::trim(parts[i]);
                assert(all[k] == old[k]);
            } else {
                assert(all[old.len() as int] == text::trim(parts[i]));
            }
        }
        if forall|i: int| 0 <= i < parts.len() ==> text::trim(#[trigger] parts[i]).len() > 0 {
            assert forall|i: int| 0 <= i < front.len() implies text::trim(
                #[trigger] front[i],
            ).len() > 0 by {
                assert(front[i] == parts[i]);
            }
            assert(text::trim(parts[n]).len() > 0);
            assert forall|i: int| 0 <= i < parts.len() implies #[trigger] all[i] == text::trim(
                parts[i],
            ) by {
                if i < n {
                    assert(old[i] == text::trim(front[i]));
                }
            }
        }
    }
}

/// A table has the query first and the score last; between them stand the fields that
/// are set, or all scalar fields if none are, each with the type of the first scalar
/// field of its name.
pub proof fn law_tables_have_their_fields(
    set: Seq<Seq<char>>,
    fields: Seq<client::FieldDescription>,
    i: int,
)
    ensures
        ({
            let output = output_columns(set, fields);
            let schema = table_schema(output, fields);
            let n = output.len() as int;
            &&& set.len() > 0 ==> output == set
            &&& set.len() == 0 ==> n == scalars(fields).len() && (0 <= i < n ==> output[i]
                == scalars(fields)[i].name)
            &&& schema.len() == n + 2
            &&& schema[0].name == "query_vector"@ && schema[0].data_type == DataType::Utf8
            &&& schema[n + 1].name == "score"@ && schema[n + 1].data_type == DataType::Float32
            &&& 0 <= i < n ==> schema[i + 1].name == output[i]
            &&& 0 <= i < fields.len() && !fields[i].is_vector && (forall|k: int|
                0 <= k < i ==> (#[trigger] fields[k]).is_vector || fields[k].name
                    != fields[i].name) ==> scalar_type(fields, fields[i].name) == exec::column_type(
                fields[i].milvus_type,
            )
        }),
{
    if 0 <= i < fields.len() && !fields[i].is_vector && (forall|k: int|
        0 <= k < i ==> (#[trigger] fields[k]).is_vector || fields[k].name != fields[i].name) {
        lemma_scalar_type(fields, i);
    }
}

proof fn lemma_scalar_type(fields: Seq<client::FieldDescription>, i: int)
    requires
        0 <= i < fields.len(),
        !fields[i].is_vector,
        forall|k: int| 0 <= k < i ==> (#[trigger] fields[k]).is_vector || fields[k].name
            != fields[i].name,
    ensures
        scalar_type(fields, fields[i].name) == exec::column_type(fields[i].milvus_type),
    decreases fields.len(),
{
    if i > 0 {
        let rest = fields.skip(1);
        assert(fields[0].is_vector || fields[0].name != fields[i].name);
        assert(rest[i - 1] == fields[i]);
        assert forall|k: int| 0 <= k < i - 1 implies (#[trigger] rest[k]).is_vector || rest[k].name
            != rest[i - 1].name by {
            assert(fields[k + 1] == rest[k]);
        }
        lemma_scalar_type(rest, i - 1);
    }
}

/// A table searches the field that is set, whatever the description says; only where
/// none is set does it search the first field that is a vector.
pub proof fn law_set_field_is_searched(
    c: MilvusConnector,
    fields: Seq<client::FieldDescription>,
)
    ensures
        c.vector_field@.len() > 0 ==> c.searched(fields) == Some(c.vector_field@),
        c.vector_field@.len() == 0 ==> match c.searched(fields) {
            Some(name) => exists|i: int|
                0 <= i < fields.len() && (#[trigger] fields[i]).is_vector && fields[i].name == name
                    && forall|k: int| 0 <= k < i ==> !(#[trigger] fields[k]).is_vector,
            None => forall|i: int| 0 <= i < fields.len() ==> !(#[trigger] fields[i]).is_vector,
        },
{
    law_first_vector_is_the_first(fields);
}

/// The settings that are secret are the token, the username and the password.
pub proof fn law_secrets_are_hidden(i: int)
    requires
        0 <= i < parameter_table().len(),
    ensures
        parameter_table()[i].secret <==> parameter_table()[i].name == "token"@
            || parameter_table()[i].name == "username"@ || parameter_table()[i].name == "password"@,
{
    reveal_strlit("host");
    reveal_strlit("port");
    reveal_strlit("secure");
    reveal_strlit("token");
    reveal_strlit("username");
    reveal_strlit("password");
    reveal_strlit("timeout_ms");
    reveal_strlit("connect_timeout_ms");
    reveal_strlit("max_retries");
    reveal_strlit("tls_skip_verify");
    reveal_strlit("tls_ca_cert");
    reveal_strlit("vector_field");
    reveal_strlit("metric");
    reveal_strlit("output_fields");
    assert("token"@.len() == 5 && "username"@.len() == 8 && "password"@.len() == 8);
}

} // verus!
