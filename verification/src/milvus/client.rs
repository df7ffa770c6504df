//! Milvus over its RESTful API: where searches and descriptions are sent, what they
//! ask for, and how the replies are read.
//!
//! Failures of the transport and of the server are retried; an error that the API
//! reports is returned at once. A score is always higher for a closer hit.
use vstd::prelude::*;

use crate::batch::{Score, ScoreModel};
use crate::endpoint;
use crate::endpoint::server_url;
use crate::json;
use crate::json::{JsonValue, Row};
use crate::numeral;
use crate::numeral::signed_decimal_text;
use crate::retry::{Retry, TransportError};
use crate::text;
use crate::text::{contains_text, copy_text, copy_texts, same_ignoring_ascii_case, to_lowercase};

verus! {

/// How to reach Milvus.
#[derive(Debug)]
pub struct ConnectionConfig {
    pub host: String,
    pub port: u16,
    pub secure: bool,
    /// Bearer token (`username:password`, or an API key).
    pub token: Option<String>,
    pub timeout_ms: u64,
    pub connect_timeout_ms: u64,
    pub max_retries: u32,
    /// Skip the verification of TLS certificates (development only).
    pub tls_skip_verify: bool,
    /// Path of a PEM certificate of an authority to trust.
    pub tls_ca_cert_path: Option<String>,
}

/// What to query: one collection.
#[derive(Debug)]
pub struct MilvusCollection {
    pub collection: String,
    pub vector_field: String,
    /// COSINE, L2, IP or BM25.
    pub metric: String,
    pub output_fields: Vec<String>,
    /// The partition that searches are confined to.
    pub partition: Option<String>,
}

/// What a [`MilvusCollection`] says.
pub struct CollectionModel {
    pub collection: Seq<char>,
    pub vector_field: Seq<char>,
    pub metric: Seq<char>,
    pub output_fields: Seq<Seq<char>>,
    pub partition: Option<Seq<char>>,
}

impl View for MilvusCollection {
    type V = CollectionModel;

    open spec fn view(&self) -> CollectionModel {
        CollectionModel {
            collection: self.collection@,
            vector_field: self.vector_field@,
            metric: self.metric@,
            output_fields: text::texts(self.output_fields@),
            partition: text::text_of(self.partition),
        }
    }
}

/// Whether a metric is a distance, lower for a closer hit.
pub open spec fn is_distance(metric: Seq<char>) -> bool {
    text::lower(metric) == text::lower("L2"@)
}

impl MilvusCollection {
    /// Whether the metric is a distance, lower for a closer hit.
    pub fn is_distance_metric(&self) -> (r: bool)
        ensures
            r == is_distance(self.metric@),
    {
        same_ignoring_ascii_case(self.metric.as_str(), "L2")
    }

    /// A copy of the collection.
    pub fn copy(&self) -> (r: Self)
        ensures
            r@ == self@,
    {
        MilvusCollection {
            collection: self.collection.clone(),
            vector_field: self.vector_field.clone(),
            metric: self.metric.clone(),
            output_fields: copy_texts(&self.output_fields),
            partition: copy_text(&self.partition),
        }
    }
}

/// A field of a collection.
#[derive(Debug)]
pub struct CollectionField {
    pub name: String,
    /// The Milvus type, such as `Int64`, `VarChar` or `FloatVector`.
    pub milvus_type: String,
    pub is_vector: bool,
}

/// What a [`CollectionField`] says.
pub struct FieldDescription {
    pub name: Seq<char>,
    pub milvus_type: Seq<char>,
    pub is_vector: bool,
}

impl View for CollectionField {
    type V = FieldDescription;

    open spec fn view(&self) -> FieldDescription {
        FieldDescription {
            name: self.name@,
            milvus_type: self.milvus_type@,
            is_vector: self.is_vector,
        }
    }
}

/// What a list of fields says.
pub open spec fn descriptions(v: Seq<CollectionField>) -> Seq<FieldDescription> {
    Seq::new(v.len(), |i: int| v[i]@)
}

/// Why a request failed.
#[derive(Debug)]
pub enum MilvusError {
    /// The client could not be built.
    Build(String),
    /// The request failed on its way.
    Http(TransportError),
    /// The API reported an error.
    Api { code: i64, message: String },
    /// The reply could not be read.
    Decode(String),
}

impl MilvusError {
    /// Whether another try may succeed: only after a failure of the transport that
    /// may pass.
    pub open spec fn retryable(self) -> bool {
        match self {
            MilvusError::Http(e) => e.transient(),
            _ => false,
        }
    }

    pub fn is_retryable(&self) -> (r: bool)
        ensures
            r == self.retryable(),
    {
        match self {
            MilvusError::Http(e) => e.is_transient(),
            _ => false,
        }
    }

    /// The error in words.
    pub open spec fn words(self) -> Seq<char> {
        match self {
            MilvusError::Build(m) => "milvus client build error: "@ + m@,
            MilvusError::Http(e) => "milvus http error: "@ + e.message@,
            MilvusError::Api { code, message } => "milvus api error "@ + numeral::signed_decimal(
                code as int,
            ) + ": "@ + message@,
            MilvusError::Decode(m) => "milvus decode error: "@ + m@,
        }
    }

    pub fn text(&self) -> (r: String)
        ensures
            r@ == self.words(),
    {
        match self {
            MilvusError::Build(m) => {
                let mut r = "milvus client build error: ".to_owned();
                r.push_str(m.as_str());
                r
            },
            MilvusError::Http(e) => {
                let mut r = "milvus http error: ".to_owned();
                r.push_str(e.message.as_str());
                r
            },
            MilvusError::Api { code, message } => {
                let mut r = "milvus api error ".to_owned();
                r.push_str(signed_decimal_text(*code).as_str());
                r.push_str(": ");
                r.push_str(message.as_str());
                r
            },
            MilvusError::Decode(m) => {
                let mut r = "milvus decode error: ".to_owned();
                r.push_str(m.as_str());
                r
            },
        }
    }
}

// ---------------------------------------------------------------------------
// Hits
// ---------------------------------------------------------------------------

/// A hit: the values of its fields, and how close it is.
#[derive(Debug)]
pub struct Hit {
    pub fields: Row,
    pub score: Score,
}

/// What a hit holds: its fields by their names, and its score.
pub struct HitModel {
    pub fields: Map<Seq<char>, JsonValue>,
    pub score: ScoreModel,
}

impl View for Hit {
    type V = HitModel;

    open spec fn view(&self) -> HitModel {
        HitModel { fields: self.fields@, score: self.score@ }
    }
}

/// A row of a reply as a hit: its `distance`, or its `score` if there is none, is
/// taken out of the row and becomes the score; what is no number counts as zero.
pub open spec fn hit(row: Map<Seq<char>, JsonValue>, negated: bool) -> HitModel {
    match json::value(row, "distance"@) {
        Some(v) => HitModel {
            fields: row.remove("distance"@),
            score: ScoreModel { number: v.number(), negated },
        },
        None => HitModel {
            fields: row.remove("score"@),
            score: ScoreModel {
                number: match json::value(row, "score"@) {
                    Some(v) => v.number(),
                    None => None,
                },
                negated,
            },
        },
    }
}

fn hit_of(row: Row, negated: bool) -> (r: Hit)
    ensures
        r@ == hit(row@, negated),
{
    match row.get("distance") {
        Some(v) => {
            let number = v.as_number();
            Hit { fields: row.without("distance"), score: Score { number, negated } }
        },
        None => {
            let number = match row.get("score") {
                Some(v) => v.as_number(),
                None => None,
            };
            Hit { fields: row.without("score"), score: Score { number, negated } }
        },
    }
}

// ---------------------------------------------------------------------------
// Requests and replies
// ---------------------------------------------------------------------------

/// What a search asks for.
#[derive(Debug)]
pub struct SearchBody<V> {
    pub collection_name: String,
    /// What to search for: one vector, or one text.
    pub data: Vec<V>,
    pub anns_field: String,
    pub limit: usize,
    pub output_fields: Vec<String>,
    pub filter: Option<String>,
    pub metric_type: String,
    /// The partitions to search in; all of them if none is named.
    pub partition_names: Vec<String>,
}

/// The reply to a search.
#[derive(Debug)]
pub struct SearchResponse {
    pub code: i64,
    pub message: String,
    pub data: Vec<Row>,
}

/// A field as a description names it.
#[derive(Debug)]
pub struct DescribeField {
    pub name: String,
    pub milvus_type: String,
}

/// The reply to a request for a description.
#[derive(Debug)]
pub struct DescribeResponse {
    pub code: i64,
    pub message: String,
    pub fields: Vec<DescribeField>,
}

/// A described field: a vector if its type says so, in any case.
pub open spec fn described(f: DescribeField) -> FieldDescription {
    FieldDescription {
        name: f.name@,
        milvus_type: f.milvus_type@,
        is_vector: text::contains(text::lowercase(f.milvus_type@), "vector"@),
    }
}

/// Where and with which token requests are sent.
#[derive(Debug)]
pub struct MilvusConnection {
    pub base_url: String,
    pub token: Option<String>,
    pub max_retries: u32,
}

impl MilvusConnection {
    pub fn new(cfg: &ConnectionConfig) -> (r: Self)
        ensures
            r.base_url@ == endpoint::url(cfg.secure, cfg.host@, cfg.port),
            text::text_of(r.token) == text::text_of(cfg.token),
            r.max_retries == cfg.max_retries,
    {
        MilvusConnection {
            base_url: server_url(cfg.secure, cfg.host.as_str(), cfg.port),
            token: copy_text(&cfg.token),
            max_retries: cfg.max_retries,
        }
    }

    /// The tries of one search, before the first.
    pub fn tries(&self) -> (r: Retry)
        ensures
            r == (Retry { attempt: 0, max_retries: self.max_retries }),
    {
        Retry::new(self.max_retries)
    }

    /// Where a collection is described.
    pub fn describe_url(&self) -> (r: String)
        ensures
            r@ == self.base_url@ + "/v2/vectordb/collections/describe"@,
    {
        let mut r = self.base_url.clone();
        r.push_str("/v2/vectordb/collections/describe");
        r
    }

    /// Where a collection is searched.
    pub fn search_url(&self) -> (r: String)
        ensures
            r@ == self.base_url@ + "/v2/vectordb/entities/search"@,
    {
        let mut r = self.base_url.clone();
        r.push_str("/v2/vectordb/entities/search");
        r
    }

    /// The fields of a collection, from the reply that describes it. Fails with the
    /// error that the API reports.
    pub fn describe_collection(reply: DescribeResponse) -> (r: Result<
        Vec<CollectionField>,
        MilvusError,
    >)
        ensures
            match r {
                Ok(fields) => reply.code == 0 && fields.len() == reply.fields.len() && forall|i: int|
                    0 <= i < fields.len() ==> (#[trigger] fields[i])@ == described(reply.fields[i]),
                Err(e) => reply.code != 0 && (e matches MilvusError::Api { code, message } && code
                    == reply.code && message == reply.message),
            },
    {
        if reply.code != 0 {
            return Err(MilvusError::Api { code: reply.code, message: reply.message });
        }
        let fields = reply.fields;
        let ghost all = fields@;
        let mut r: Vec<CollectionField> = Vec::new();
        for f in it: fields
            invariant
                it.seq() == all,
                r.len() == it.index(),
                forall|i: int| 0 <= i < r.len() ==> (#[trigger] r[i])@ == described(all[i]),
        {
            let is_vector = contains_text(to_lowercase(f.milvus_type.as_str()).as_str(), "vector");
            r.push(CollectionField { name: f.name, milvus_type: f.milvus_type, is_vector });
        }
        Ok(r)
    }

    /// The request for the hits that are closest to `target`.
    pub fn search<V>(
        coll: &MilvusCollection,
        target: V,
        limit: usize,
        filter: Option<String>,
    ) -> (r: SearchBody<V>)
        ensures
            r.collection_name@ == coll.collection@,
            r.data@ == seq![target],
            r.anns_field@ == coll.vector_field@,
            r.limit == limit,
            text::texts(r.output_fields@) == text::texts(coll.output_fields@),
            r.filter == filter,
            r.metric_type@ == coll.metric@,
            text::texts(r.partition_names@) == match coll.partition {
                Some(p) => seq![p@],
                None => seq![],
            },
            asks(r, coll@, target, limit, text::text_of(filter)),
    {
        let mut data: Vec<V> = Vec::new();
        data.push(target);
        let mut partition_names: Vec<String> = Vec::new();
        if let Some(p) = &coll.partition {
            partition_names.push(p.clone());
        }
        let r = SearchBody {
            collection_name: coll.collection.clone(),
            data,
            anns_field: coll.vector_field.clone(),
            limit,
            output_fields: copy_texts(&coll.output_fields),
            filter,
            metric_type: coll.metric.clone(),
            partition_names,
        };
        assert(r.data@ == seq![target]);
        assert(text::texts(r.partition_names@) == match coll.partition {
            Some(p) => seq![p@],
            None => Seq::<Seq<char>>::empty(),
        });
        r
    }

    /// The hits of a reply, their scores negated where the metric is a distance.
    /// Fails with the error that the API reports.
    pub fn read_hits(reply: SearchResponse, negated: bool) -> (r: Result<Vec<Hit>, MilvusError>)
        ensures
            match r {
                Ok(hits) => reply.code == 0 && hits.len() == reply.data.len() && forall|i: int|
                    0 <= i < hits.len() ==> (#[trigger] hits[i])@ == hit(reply.data[i]@, negated),
                Err(e) => reply.code != 0 && (e matches MilvusError::Api { code, message } && code
                    == reply.code && message == reply.message),
            },
    {
        if reply.code != 0 {
            return Err(MilvusError::Api { code: reply.code, message: reply.message });
        }
        let rows = reply.data;
        let ghost all = rows@;
        let mut r: Vec<Hit> = Vec::new();
        for row in it: rows
            invariant
                it.seq() == all,
                r.len() == it.index(),
                forall|i: int| 0 <= i < r.len() ==> (#[trigger] r[i])@ == hit(all[i]@, negated),
        {
            r.push(hit_of(row, negated));
        }
        Ok(r)
    }
}

// ---------------------------------------------------------------------------
// What a hit is
// ---------------------------------------------------------------------------

/// `number` is how close a row says it is, by the value under a name; what is no number
/// says nothing.
pub open spec fn says_score(
    row: Map<Seq<char>, JsonValue>,
    name: Seq<char>,
    number: Option<Seq<char>>,
) -> bool {
    if row.dom().contains(name) {
        match row[name] {
            JsonValue::Number(n) => number matches Some(t) && crate::batch::is_number(t, n),
            _ => number is None,
        }
    } else {
        number is None
    }
}

/// A hit keeps every field of its row but the one that says how close it is, which is
/// `distance` where there is one and else `score`. The sign is changed where the metric
/// is a distance.
pub proof fn law_hits_keep_their_fields(row: Map<Seq<char>, JsonValue>, negated: bool)
    ensures
        ({
            let key = if row.dom().contains("distance"@) {
                "distance"@
            } else {
                "score"@
            };
            let h = hit(row, negated);
            &&& says_score(row, key, h.score.number)
            &&& h.score.negated == negated
            &&& !h.fields.dom().contains(key)
            &&& forall|n: Seq<char>|
                n != key ==> (#[trigger] h.fields.dom().contains(n) <==> row.dom().contains(n))
            &&& forall|n: Seq<char>|
                n != key && row.dom().contains(n) ==> #[trigger] h.fields[n] == row[n]
        }),
{
    let key = if row.dom().contains("distance"@) {
        "distance"@
    } else {
        "score"@
    };
    if row.dom().contains(key) {
        let v = row[key];
        if let JsonValue::Number(n) = v {
            let values = seq![Some(v)];
            crate::batch::law_columns_hold_the_values(
                crate::columns::DataType::Float64,
                values,
                0,
            );
            assert(values[0] == Some(v));
        }
    }
}

/// Only `L2`, in any case, is a distance: with it a smaller number is closer.
pub proof fn law_only_l2_is_a_distance(metric: Seq<char>)
    ensures
        is_distance(metric) <==> metric.len() == 2 && (metric[0] == 'L' || metric[0] == 'l')
            && metric[1] == '2',
{
    reveal_strlit("L2");
    let l = text::lower("L2"@);
    assert(l.len() == 2 && l[0] == 'l' && l[1] == '2');
    if metric.len() == 2 && (metric[0] == 'L' || metric[0] == 'l') && metric[1] == '2' {
        assert(text::lower(metric) =~= l);
    }
    if is_distance(metric) {
        assert(text::lower(metric).len() == 2);
        assert(text::lower(metric)[0] == 'l' && text::lower(metric)[1] == '2');
    }
}

/// A field keeps its name and its type, and is a vector where its type says so, in any
/// case.
pub proof fn law_fields_are_described(f: DescribeField, k: int)
    requires
        text::all_ascii(f.milvus_type@),
    ensures
        described(f).name == f.name@,
        described(f).milvus_type == f.milvus_type@,
        text::stands_at(text::lower(f.milvus_type@), "vector"@, k) ==> described(f).is_vector,
        described(f).is_vector ==> exists|j: int|
            text::stands_at(text::lower(f.milvus_type@), "vector"@, j),
{
    if text::stands_at(text::lower(f.milvus_type@), "vector"@, k) {
        assert(text::contains(text::lower(f.milvus_type@), "vector"@));
    }
}

/// A failure is worth another try only if it is one of the transport.
pub proof fn law_only_transport_errors_are_retried(e: MilvusError)
    ensures
        e.retryable() ==> (e matches MilvusError::Http(t) && (t.timeout || t.connect || t.request
            || (t.status matches Some(s) && 500 <= s && s < 600))),
        e matches MilvusError::Http(t) ==> (t.timeout || t.connect || t.request || (t.status
            matches Some(s) && 500 <= s && s < 600)) ==> e.retryable(),
{
}

/// A search asks a collection for the hits that are closest to what it looks for.
pub open spec fn asks<V>(
    body: SearchBody<V>,
    coll: CollectionModel,
    target: V,
    limit: usize,
    filter: Option<Seq<char>>,
) -> bool {
    &&& body.collection_name@ == coll.collection && body.anns_field@ == coll.vector_field
    &&& body.metric_type@ == coll.metric && body.limit == limit
    &&& body.data@ == seq![target] && text::text_of(body.filter) == filter
    &&& text::texts(body.output_fields@) == coll.output_fields
    &&& text::texts(body.partition_names@) == match coll.partition {
        Some(p) => seq![p],
        None => seq![],
    }
}

/// Two searches ask for the same only if they are the same: the collection, the field,
/// the metric, the limit, the filter, the fields that are returned, the partition and
/// what is looked for.
pub proof fn law_searches_are_told_apart<V>(
    body: SearchBody<V>,
    a: CollectionModel,
    b: CollectionModel,
    v: V,
    w: V,
    m: usize,
    n: usize,
    f: Option<Seq<char>>,
    g: Option<Seq<char>>,
)
    requires
        asks(body, a, v, m, f),
        asks(body, b, w, n, g),
    ensures
        a == b,
        v == w,
        m == n,
        f == g,
{
    assert(body.data@[0] == v && body.data@[0] == w);
    match (a.partition, b.partition) {
        (Some(p), Some(q)) => {
            assert(seq![p][0] == seq![q][0]);
        },
        (Some(p), None) => {
            assert(seq![p].len() == 1);
        },
        (None, Some(q)) => {
            assert(seq![q].len() == 1);
        },
        (None, None) => {},
    }
}

/// A search is sent as it was asked for: to the collection and the field, by the metric,
/// for as many hits, with the filter, and to the one partition alone where there is one.
pub proof fn law_searches_are_sent_as_asked<V>(
    body: SearchBody<V>,
    coll: CollectionModel,
    target: V,
    limit: usize,
    filter: Option<Seq<char>>,
    i: int,
)
    requires
        asks(body, coll, target, limit, filter),
    ensures
        body.collection_name@ == coll.collection,
        body.anns_field@ == coll.vector_field,
        body.metric_type@ == coll.metric,
        body.limit == limit,
        body.data.len() == 1 && body.data[0] == target,
        text::text_of(body.filter) == filter,
        body.output_fields.len() == coll.output_fields.len(),
        0 <= i < body.output_fields.len() ==> body.output_fields[i]@ == coll.output_fields[i],
        coll.partition is None ==> body.partition_names.len() == 0,
        coll.partition matches Some(p) ==> body.partition_names.len() == 1
            && body.partition_names[0]@ == p,
{
    assert(text::texts(body.output_fields@).len() == body.output_fields.len());
    assert(text::texts(body.partition_names@).len() == body.partition_names.len());
    if let Some(p) = coll.partition {
        assert(text::texts(body.partition_names@)[0] == seq![p][0]);
    }
}

} // verus!
