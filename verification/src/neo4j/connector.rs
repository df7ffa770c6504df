//! The Neo4j connector: its parameters, the connection they describe, and the
//! tables it serves.
//!
//! `from: neo4j:<Label>` exposes a node label as a table with a column for each
//! of its properties. With the parameter `cypher` a dataset is the result of that
//! statement instead.
use vstd::prelude::*;

use std::sync::Arc;

use crate::columns;
use crate::endpoint;
use crate::neo4j::client;
use crate::neo4j::client::{ConnectionConfig, Neo4jConnection, Neo4jError, PropertyField};
use crate::neo4j::exec;
use crate::neo4j::exec::to_schema;
use crate::neo4j::table_provider::{CypherTableProvider, Neo4jTableProvider};
use crate::numeral;
use crate::params;
use crate::params::{
    low_bits, read_number, read_port, switched_on, text_or, ParameterSpec, Parameters,
};
use crate::text;

verus! {

/// The name of the connector.
pub const CONNECTOR_NAME: &'static str = "neo4j";

/// The parameters of the connector.
pub open spec fn parameter_table() -> Seq<params::ParameterModel> {
    seq![
        params::defaulted("host"@, "Neo4j host."@, "localhost"@),
        params::defaulted("port"@, "Neo4j HTTP port."@, "7474"@),
        params::defaulted("secure"@, "Use TLS (https) to reach Neo4j."@, "false"@),
        params::defaulted("database"@, "Neo4j database name."@, "neo4j"@),
        params::hidden("username"@, "Username for HTTP Basic auth."@),
        params::hidden("password"@, "Password for HTTP Basic auth."@),
        params::defaulted("timeout_ms"@, "Per-request timeout in milliseconds."@, "10000"@),
        params::defaulted("connect_timeout_ms"@, "Connection timeout in milliseconds."@, "3000"@),
        params::defaulted(
            "max_retries"@,
            "Retries for transient transport failures (timeouts/connection/5xx)."@,
            "2"@,
        ),
        params::defaulted(
            "tls_skip_verify"@,
            "Skip TLS certificate verification (DANGER; dev / self-signed only)."@,
            "false"@,
        ),
        params::plain(
            "tls_ca_cert"@,
            "Path to a PEM CA cert to trust for TLS (internal CA / self-signed server)."@,
        ),
        params::plain(
            "cypher"@,
            "Read Cypher statement defining the dataset (Phase 2: enables Cypher-passthrough incl. relationship traversals). When unset, the dataset path is treated as a node label."@,
        ),
    ]
}

/// The connection that settings describe, with a port.
pub open spec fn is_config(
    cfg: ConnectionConfig,
    m: Map<Seq<char>, Seq<char>>,
    port: u16,
) -> bool {
    &&& cfg.host@ == params::or_default(params::filled(m, "host"@), "localhost"@)
    &&& cfg.port == port
    &&& cfg.secure == params::is_on(params::filled(m, "secure"@))
    &&& cfg.database@ == params::or_default(params::filled(m, "database"@), "neo4j"@)
    &&& text::text_of(cfg.username) == params::filled(m, "username"@)
    &&& text::text_of(cfg.password) == params::filled(m, "password"@)
    &&& cfg.timeout_ms == params::number_or(params::filled(m, "timeout_ms"@), 10_000)
    &&& cfg.connect_timeout_ms == params::number_or(params::filled(m, "connect_timeout_ms"@), 3_000)
    &&& cfg.max_retries == params::low_word(params::number_or(params::filled(m, "max_retries"@), 2))
    &&& cfg.tls_skip_verify == params::is_on(params::filled(m, "tls_skip_verify"@))
    &&& text::text_of(cfg.tls_ca_cert_path) == params::filled(m, "tls_ca_cert"@)
}

/// The port that settings name.
pub open spec fn port_setting(m: Map<Seq<char>, Seq<char>>) -> Result<u16, Seq<char>> {
    params::port(params::or_default(params::filled(m, "port"@), "7474"@))
}

/// A connector: how to reach Neo4j, and the statement of the dataset, if it is set.
#[derive(Debug)]
pub struct Neo4jConnector {
    pub config: ConnectionConfig,
    pub conn: Neo4jConnection,
    pub cypher: Option<String>,
}

/// Makes connectors out of their parameters.
#[derive(Clone, Copy, Debug, PartialEq, Eq, Structural)]
pub struct Neo4jFactory {}

impl Default for Neo4jFactory {
    fn default() -> (r: Self)
        ensures
            r == (Neo4jFactory {  }),
    {
        Neo4jFactory {  }
    }
}

impl Neo4jFactory {
    pub fn new() -> (r: Self)
        ensures
            r == (Neo4jFactory {  }),
    {
        Neo4jFactory {  }
    }

    pub fn new_arc() -> (r: Arc<Neo4jFactory>)
        ensures
            *r == (Neo4jFactory {  }),
    {
        Arc::new(Neo4jFactory {  })
    }

    /// The prefix of the connector's datasets and parameters.
    pub fn prefix(&self) -> (r: &'static str)
        ensures
            r@ == "neo4j"@,
    {
        "neo4j"
    }

    /// The parameters of the connector.
    pub fn parameters(&self) -> (r: Vec<ParameterSpec>)
        ensures
            params::parameter_models(r@) == parameter_table(),
    {
        let mut r: Vec<ParameterSpec> = Vec::new();
        r.push(ParameterSpec::with_default("host", "Neo4j host.", "localhost"));
        r.push(ParameterSpec::with_default("port", "Neo4j HTTP port.", "7474"));
        r.push(ParameterSpec::with_default("secure", "Use TLS (https) to reach Neo4j.", "false"));
        r.push(ParameterSpec::with_default("database", "Neo4j database name.", "neo4j"));
        r.push(ParameterSpec::secret("username", "Username for HTTP Basic auth."));
        r.push(ParameterSpec::secret("password", "Password for HTTP Basic auth."));
        r.push(
            ParameterSpec::with_default(
                "timeout_ms",
                "Per-request timeout in milliseconds.",
                "10000",
            ),
        );
        r.push(
            ParameterSpec::with_default(
                "connect_timeout_ms",
                "Connection timeout in milliseconds.",
                "3000",
            ),
        );
        r.push(
            ParameterSpec::with_default(
                "max_retries",
                "Retries for transient transport failures (timeouts/connection/5xx).",
                "2",
            ),
        );
        r.push(
            ParameterSpec::with_default(
                "tls_skip_verify",
                "Skip TLS certificate verification (DANGER; dev / self-signed only).",
                "false",
            ),
        );
        r.push(
            ParameterSpec::component(
                "tls_ca_cert",
                "Path to a PEM CA cert to trust for TLS (internal CA / self-signed server).",
            ),
        );
        r.push(
            ParameterSpec::component(
                "cypher",
                "Read Cypher statement defining the dataset (Phase 2: enables Cypher-passthrough incl. relationship traversals). When unset, the dataset path is treated as a node label.",
            ),
        );
        assert(params::parameter_models(r@) == parameter_table());
        r
    }

    /// The connector that settings describe. Fails only on a port that is none.
    pub fn create(&self, settings: &Parameters) -> (r: Result<Neo4jConnector, String>)
        ensures
            match (port_setting(settings@), r) {
                (Ok(port), Ok(c)) => is_config(c.config, settings@, port) && text::text_of(c.cypher)
                    == params::filled(settings@, "cypher"@) && c.conn.base_url@ == endpoint::url(
                    c.config.secure,
                    c.config.host@,
                    port,
                ) && c.conn.database@ == c.config.database@ && c.conn.login()
                    == client::credentials(
                    text::text_of(c.config.username),
                    text::text_of(c.config.password),
                ) && c.conn.max_retries == c.config.max_retries,
                (Err(m), Err(e)) => e@ == m,
                _ => false,
            },
    {
        let port = match read_port(text_or(settings.get_filled("port"), "7474").as_str()) {
            Ok(p) => p,
            Err(e) => {
                return Err(e);
            },
        };
        let config = ConnectionConfig {
            host: text_or(settings.get_filled("host"), "localhost"),
            port,
            secure: switched_on(&settings.get_filled("secure")),
            database: text_or(settings.get_filled("database"), "neo4j"),
            username: settings.get_filled("username"),
            password: settings.get_filled("password"),
            timeout_ms: read_number(&settings.get_filled("timeout_ms"), 10_000),
            connect_timeout_ms: read_number(&settings.get_filled("connect_timeout_ms"), 3_000),
            max_retries: low_bits(read_number(&settings.get_filled("max_retries"), 2)),
            tls_skip_verify: switched_on(&settings.get_filled("tls_skip_verify")),
            tls_ca_cert_path: settings.get_filled("tls_ca_cert"),
        };
        let conn = Neo4jConnection::new(&config);
        Ok(Neo4jConnector { config, conn, cypher: settings.get_filled("cypher") })
    }
}

/// What a dataset is: the result of a statement, or the nodes of a label.
#[derive(Debug)]
pub enum Source {
    Cypher(String),
    Label(String),
}

/// A table of the connector.
#[derive(Debug)]
pub enum Provider {
    Cypher(CypherTableProvider),
    Label(Neo4jTableProvider),
}

impl Source {
    /// Why no table can be made of the source.
    pub open spec fn refusal(self, described: Result<Seq<client::PropertyModel>, Seq<char>>) -> Option<
        Seq<char>,
    > {
        match (self, described) {
            (Source::Cypher(_), Err(e)) => Some("describe cypher: "@ + e),
            (Source::Cypher(_), Ok(props)) => if props.len() == 0 {
                Some("cypher returned no columns to infer a schema"@)
            } else {
                None
            },
            (Source::Label(l), Err(e)) => Some("describe label '"@ + l@ + "': "@ + e),
            (Source::Label(l), Ok(props)) => if props.len() == 0 {
                Some(
                    "label '"@ + l@
                        + "' has no introspectable properties (unknown label, or the database has no nodes with it?)"@,
                )
            } else {
                None
            },
        }
    }
}

/// A description in words.
pub open spec fn description(d: Result<Vec<PropertyField>, Neo4jError>) -> Result<
    Seq<client::PropertyModel>,
    Seq<char>,
> {
    match d {
        Ok(props) => Ok(client::property_models(props@)),
        Err(e) => Err(e.words()),
    }
}

impl Neo4jConnector {
    /// What a dataset of that path is: the result of the statement, if one is set;
    /// else the nodes of the label that the path names.
    pub fn source(&self, path: &str) -> (r: Source)
        ensures
            match (self.cypher, r) {
                (Some(c), Source::Cypher(s)) => s@ == c@,
                (None, Source::Label(l)) => l@ == path@,
                _ => false,
            },
    {
        match &self.cypher {
            Some(c) => Source::Cypher(c.clone()),
            None => Source::Label(path.to_owned()),
        }
    }

    /// The table of a source, from its description: a column for each property or
    /// returned column. Fails if the description failed or holds no column.
    pub fn read_provider(
        source: Source,
        described: Result<Vec<PropertyField>, Neo4jError>,
        scope: Option<String>,
    ) -> (r: Result<Provider, String>)
        ensures
            match (source.refusal(description(described)), r) {
                (Some(m), Err(e)) => e@ == m,
                (None, Ok(p)) => described matches Ok(props) && match (source, p) {
                    (Source::Cypher(c), Provider::Cypher(t)) => t.cypher == c && columns::models(
                        t.schema@,
                    ) == exec::schema(client::property_models(props@)),
                    (Source::Label(l), Provider::Label(t)) => t.label == l && t.scope == scope
                        && columns::models(t.schema@) == exec::schema(
                        client::property_models(props@),
                    ),
                    _ => false,
                },
                _ => false,
            },
    {
        match described {
            Err(e) => {
                let words = e.text();
                match source {
                    Source::Cypher(_) => {
                        let mut m = "describe cypher: ".to_owned();
                        m.push_str(words.as_str());
                        Err(m)
                    },
                    Source::Label(l) => {
                        let mut m = "describe label '".to_owned();
                        m.push_str(l.as_str());
                        m.push_str("': ");
                        m.push_str(words.as_str());
                        Err(m)
                    },
                }
            },
            Ok(props) => {
                let schema = to_schema(&props);
                match source {
                    Source::Cypher(c) => {
                        if props.len() == 0 {
                            Err("cypher returned no columns to infer a schema".to_owned())
                        } else {
                            Ok(Provider::Cypher(CypherTableProvider::new(c, schema)))
                        }
                    },
                    Source::Label(l) => {
                        if props.len() == 0 {
                            let mut m = "label '".to_owned();
                            m.push_str(l.as_str());
                            m.push_str(
                                "' has no introspectable properties (unknown label, or the database has no nodes with it?)",
                            );
                            Err(m)
                        } else {
                            Ok(Provider::Label(Neo4jTableProvider::new(l, schema, scope)))
                        }
                    },
                }
            },
        }
    }
}

/// The factory of the connector.
pub fn factory() -> (r: Arc<Neo4jFactory>)
    ensures
        *r == (Neo4jFactory {  }),
{
    Neo4jFactory::new_arc()
}

// ---------------------------------------------------------------------------
// What the settings lead to
// ---------------------------------------------------------------------------

/// The server is the one that the settings name; what is not set has its default.
pub proof fn law_server_is_as_set(
    cfg: ConnectionConfig,
    m: Map<Seq<char>, Seq<char>>,
    port: u16,
    v: Seq<char>,
)
    requires
        is_config(cfg, m, port),
    ensures
        params::is_set(m, "host"@, v) ==> cfg.host@ == v,
        params::is_unset(m, "host"@) ==> cfg.host@ == "localhost"@,
        cfg.port == port,
        params::is_set(m, "port"@, v) ==> port_setting(m) == params::port(v),
        params::is_unset(m, "port"@) ==> port_setting(m) == Ok::<u16, Seq<char>>(7474),
        params::is_set(m, "database"@, v) ==> cfg.database@ == v,
        params::is_unset(m, "database"@) ==> cfg.database@ == "neo4j"@,
{
    numeral::lemma_default_ports();
}

/// The username and the password are those that are set.
pub proof fn law_login_is_as_set(
    cfg: ConnectionConfig,
    m: Map<Seq<char>, Seq<char>>,
    port: u16,
    v: Seq<char>,
)
    requires
        is_config(cfg, m, port),
    ensures
        params::is_set(m, "username"@, v) ==> text::text_of(cfg.username) == Some(v),
        params::is_unset(m, "username"@) ==> cfg.username is None,
        params::is_set(m, "password"@, v) ==> text::text_of(cfg.password) == Some(v),
        params::is_unset(m, "password"@) ==> cfg.password is None,
{
}

/// A switch is on only where the settings say so, and a certificate is trusted only
/// where they name one.
pub proof fn law_switches_are_as_set(
    cfg: ConnectionConfig,
    m: Map<Seq<char>, Seq<char>>,
    port: u16,
    v: Seq<char>,
)
    requires
        is_config(cfg, m, port),
    ensures
        params::is_set(m, "secure"@, v) ==> (cfg.secure <==> v == "true"@ || v == "1"@ || v
            == "yes"@),
        params::is_unset(m, "secure"@) ==> !cfg.secure,
        params::is_set(m, "tls_skip_verify"@, v) ==> (cfg.tls_skip_verify <==> v == "true"@ || v
            == "1"@ || v == "yes"@),
        params::is_unset(m, "tls_skip_verify"@) ==> !cfg.tls_skip_verify,
        params::is_set(m, "tls_ca_cert"@, v) ==> text::text_of(cfg.tls_ca_cert_path) == Some(v),
        params::is_unset(m, "tls_ca_cert"@) ==> cfg.tls_ca_cert_path is None,
{
}

/// The limits are those that the settings name, where they are numbers; else 10 s for a
/// request, 3 s for a connection, and two more tries.
pub proof fn law_limits_are_as_set(
    cfg: ConnectionConfig,
    m: Map<Seq<char>, Seq<char>>,
    port: u16,
    v: Seq<char>,
    n: nat,
)
    requires
        is_config(cfg, m, port),
        numeral::numeral(v) == Some(n),
        n <= u32::MAX,
    ensures
        params::is_unset(m, "timeout_ms"@) ==> cfg.timeout_ms == 10_000,
        params::is_set(m, "timeout_ms"@, v) ==> cfg.timeout_ms == n,
        params::is_unset(m, "connect_timeout_ms"@) ==> cfg.connect_timeout_ms == 3_000,
        params::is_set(m, "connect_timeout_ms"@, v) ==> cfg.connect_timeout_ms == n,
        params::is_unset(m, "max_retries"@) ==> cfg.max_retries == 2,
        params::is_set(m, "max_retries"@, v) ==> cfg.max_retries == n,
{
}

/// A table is refused if and only if its description failed or is empty.
pub proof fn law_tables_need_a_description(
    source: Source,
    described: Result<Seq<client::PropertyModel>, Seq<char>>,
)
    ensures
        source.refusal(described) is None <==> described is Ok && described->Ok_0.len() > 0,
        described matches Err(e) ==> (source.refusal(described) matches Some(m) && text::ends_with(
            m,
            e,
        )),
{
    if let Err(e) = described {
        let m = source.refusal(described)->0;
        assert(m.subrange(m.len() - e.len(), m.len() as int) =~= e);
    }
}

/// The settings that are secret are the username and the password.
pub proof fn law_secrets_are_hidden(i: int)
    requires
        0 <= i < parameter_table().len(),
    ensures
        parameter_table()[i].secret <==> parameter_table()[i].name == "username"@
            || parameter_table()[i].name == "password"@,
{
    reveal_strlit("host");
    reveal_strlit("port");
    reveal_strlit("secure");
    reveal_strlit("database");
    reveal_strlit("username");
    reveal_strlit("password");
    reveal_strlit("timeout_ms");
    reveal_strlit("connect_timeout_ms");
    reveal_strlit("max_retries");
    reveal_strlit("tls_skip_verify");
    reveal_strlit("tls_ca_cert");
    reveal_strlit("cypher");
    assert("username"@.len() == 8 && "password"@.len() == 8 && "database"@.len() == 8);
    assert("username"@[0] == 'u' && "password"@[0] == 'p' && "database"@[0] == 'd');
}

} // verus!
