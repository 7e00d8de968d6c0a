use vstd::prelude::*;

use crate::ids::{id_text, id_to_string, parse_id, parsed_id};
use crate::json::{json_view, JsonValue, JsonView};
use crate::messaging::{publisher_defined, publisher_for, CommunicationMethod, PublisherConfig};
use crate::text::{append_char, append_text};
use crate::versions::{
    is_version, less_than, parsed_version, requirement_matches, requirement_parses, version_less, SemVer, SemVerReq,
    VersionView,
};

verus! {

/// What kind of storage a schema's objects live in, as the API shows it.
#[derive(Clone, Copy, PartialEq, Eq, Structural, Debug)]
pub enum SchemaType {
    DocumentStorage,
    Timeseries,
}

impl SchemaType {
    /// The type with this number on the wire (`0` documents, `1` timeseries).
    pub fn from_number(n: i32) -> (r: Option<SchemaType>)
        ensures
            r == (if n == 0 {
                Some(SchemaType::DocumentStorage)
            } else if n == 1 {
                Some(SchemaType::Timeseries)
            } else {
                None::<SchemaType>
            }),
    {
        if n == 0 {
            Some(SchemaType::DocumentStorage)
        } else if n == 1 {
            Some(SchemaType::Timeseries)
        } else {
            None
        }
    }

    /// The number of the type on the wire.
    pub fn number(&self) -> (r: i32)
        ensures
            r == (match *self {
                SchemaType::DocumentStorage => 0i32,
                SchemaType::Timeseries => 1i32,
            }),
    {
        match self {
            SchemaType::DocumentStorage => 0,
            SchemaType::Timeseries => 1,
        }
    }
}

/// A version of a schema's definition, as the API shows it.
#[derive(Debug)]
pub struct Definition {
    pub definition: JsonValue,
    pub version: String,
}

/// A view of a schema, as the API shows it.
#[derive(Debug)]
pub struct SchemaView {
    pub id: u128,
    pub name: String,
    pub materializer_address: String,
    pub fields: Vec<(String, String)>,
}

/// A schema with its definitions and views, as the API shows it.
#[derive(Debug)]
pub struct FullSchema {
    pub id: u128,
    pub name: String,
    pub insert_destination: String,
    pub query_address: String,
    pub schema_type: SchemaType,
    pub definitions: Vec<Definition>,
    pub views: Vec<SchemaView>,
}

/// A change of a schema's metadata; only the given fields change.
#[derive(Debug)]
pub struct UpdateSchema {
    pub name: Option<String>,
    pub query_address: Option<String>,
    pub insert_destination: Option<String>,
    pub schema_type: Option<SchemaType>,
}

/// A view as the schema registry sends it.
#[derive(Debug)]
pub struct RpcView {
    pub id: String,
    pub name: String,
    pub materializer_address: String,
    pub fields: Vec<(String, String)>,
}

/// A schema as the schema registry sends it (its definitions already read as documents).
#[derive(Debug)]
pub struct RpcFullSchema {
    pub id: String,
    pub name: String,
    pub insert_destination: String,
    pub query_address: String,
    pub schema_type: i32,
    pub definitions: Vec<(String, JsonValue)>,
    pub views: Vec<RpcView>,
}

/// Why the API could not answer.
#[derive(Debug, PartialEq)]
pub enum ApiError {
    /// The schema type number is unknown.
    InvalidSchemaType(i32),
    /// This text is not an identifier.
    InvalidId(String),
    /// This text is not a version requirement.
    InvalidVersionReq(String),
    /// No definition of the schema meets the requirement.
    NoDefinitionMatches,
}

/// The definition's version reads and meets the requirement.
pub open spec fn definition_matches(d: Definition, req: Seq<char>) -> bool {
    match parsed_version(d.version@) {
        Some(v) => requirement_matches(req, v),
        None => false,
    }
}

/// The version that a definition's text reads as (meaningful where it reads).
pub open spec fn def_version(d: Definition) -> VersionView {
    parsed_version(d.version@).unwrap()
}

/// The definition at `i` meets the requirement, no definition that meets it has a greater
/// version, and every later one that meets it has a smaller version: the latest version,
/// the last of equal ones.
pub open spec fn latest_matching_at(defs: Seq<Definition>, req: Seq<char>, i: int) -> bool {
    &&& 0 <= i < defs.len()
    &&& definition_matches(defs[i], req)
    &&& forall|j: int|
        0 <= j < defs.len() && j != i && definition_matches(#[trigger] defs[j], req) ==> !version_less(
            def_version(defs[i]),
            def_version(defs[j]),
        )
    &&& forall|j: int|
        i < j < defs.len() && definition_matches(#[trigger] defs[j], req) ==> version_less(
            def_version(defs[j]),
            def_version(defs[i]),
        )
}

impl FullSchema {
    /// The definition that meets the requirement with the latest version (by semantic
    /// versioning; the last of equal ones), if any meets it.
    pub fn get_definition(&self, version_req: &SemVerReq) -> (r: Option<&Definition>)
        ensures
            match r {
                None => forall|i: int|
                    0 <= i < self.definitions@.len() ==> !definition_matches(
                        #[trigger] self.definitions@[i],
                        version_req@,
                    ),
                Some(d) => exists|i: int|
                    latest_matching_at(self.definitions@, version_req@, i) && self.definitions@[i] == *d,
            },
    {
        let ghost defs = self.definitions@;
        let ghost req = version_req@;
        let mut best: Option<(usize, SemVer)> = None;
        let mut i: usize = 0;
        while i < self.definitions.len()
            invariant
                i <= self.definitions.len(),
                defs == self.definitions@,
                req == version_req@,
                forall|k: int|
                    0 <= k < i && definition_matches(#[trigger] defs[k], req) ==> is_version(
                        def_version(defs[k]),
                    ),
                match best {
                    None => forall|k: int| 0 <= k < i ==> !definition_matches(#[trigger] defs[k], req),
                    Some((b, bv)) => {
                        &&& b < i
                        &&& definition_matches(defs[b as int], req)
                        &&& bv@ == def_version(defs[b as int])
                        &&& forall|k: int|
                            0 <= k < b && definition_matches(#[trigger] defs[k], req) ==> !version_less(
                                bv@,
                                def_version(defs[k]),
                            )
                        &&& forall|k: int|
                            b < k < i && definition_matches(#[trigger] defs[k], req) ==> version_less(
                                def_version(defs[k]),
                                bv@,
                            ) && !version_less(bv@, def_version(defs[k]))
                    },
                },
            decreases self.definitions.len() - i,
        {
            let d = &self.definitions[i];
            match SemVer::parse(d.version.as_str()) {
                None => {
                    assert(!definition_matches(defs[i as int], req));
                },
                Some(v) => {
                    proof {
                        assert(parsed_version(d.version@) == Some(v@));
                        assert(is_version(v@));
                        assert(def_version(defs[i as int]) == v@);
                    }
                    if version_req.matches(&v) {
                        let take = match &best {
                            None => true,
                            Some((_, bv)) => !less_than(&v, bv),
                        };
                        if take {
                            proof {
                                if let Some((b, bv)) = best {
                                    assert forall|k: int|
                                        0 <= k < i && definition_matches(#[trigger] defs[k], req)
                                        implies !version_less(v@, def_version(defs[k])) by {
                                        assert(is_version(def_version(defs[k])));
                                    }
                                }
                            }
                            best = Some((i, v));
                        }
                    } else {
                        assert(!definition_matches(defs[i as int], req));
                    }
                },
            }
            i = i + 1;
        }
        match best {
            None => None,
            Some((b, _)) => {
                assert(latest_matching_at(defs, req, b as int));
                Some(&self.definitions[b])
            },
        }
    }

    /// A schema as the API shows it, from what the registry sent: the type number must be
    /// known, then the schema's id read, then each view's id, in order.
    pub fn from_rpc(schema: RpcFullSchema) -> (r: Result<FullSchema, ApiError>)
        ensures
            match SchemaType::from_number_spec(schema.schema_type) {
                None => r == Err::<FullSchema, ApiError>(ApiError::InvalidSchemaType(schema.schema_type)),
                Some(t) => match parsed_id(schema.id@) {
                    None => r matches Err(ApiError::InvalidId(x)) && x@ == schema.id@,
                    Some(id) => match first_unreadable_view(schema.views@) {
                        Some(k) => r matches Err(ApiError::InvalidId(x)) && x@ == schema.views@[k].id@,
                        None => r matches Ok(f) && f.id == id && f.schema_type == t && f.name@
                            == schema.name@ && f.insert_destination@ == schema.insert_destination@
                            && f.query_address@ == schema.query_address@ && f.definitions@.len()
                            == schema.definitions@.len() && (forall|i: int|
                            0 <= i < f.definitions@.len() ==> (#[trigger] f.definitions@[i]).version@
                                == schema.definitions@[i].0@ && json_view(f.definitions@[i].definition)
                                == json_view(schema.definitions@[i].1)) && f.views@.len()
                            == schema.views@.len() && forall|i: int|
                            0 <= i < f.views@.len() ==> view_from(#[trigger] f.views@[i], schema.views@[i]),
                    },
                },
            },
    {
        let schema_type = match SchemaType::from_number(schema.schema_type) {
            Some(t) => t,
            None => {
                return Err(ApiError::InvalidSchemaType(schema.schema_type));
            },
        };
        let id = match parse_id(schema.id.as_str()) {
            Some(id) => id,
            None => {
                return Err(ApiError::InvalidId(schema.id));
            },
        };
        let mut definitions: Vec<Definition> = Vec::new();
        let mut i: usize = 0;
        while i < schema.definitions.len()
            invariant
                i <= schema.definitions.len(),
                definitions@.len() == i,
                forall|k: int|
                    0 <= k < i ==> (#[trigger] definitions@[k]).version@ == schema.definitions@[k].0@
                        && json_view(definitions@[k].definition) == json_view(schema.definitions@[k].1),
            decreases schema.definitions.len() - i,
        {
            let (version, definition) = &schema.definitions[i];
            definitions.push(Definition { definition: definition.duplicate(), version: version.clone() });
            i = i + 1;
        }
        let mut views: Vec<SchemaView> = Vec::new();
        let mut k: usize = 0;
        while k < schema.views.len()
            invariant
                k <= schema.views.len(),
                views@.len() == k,
                SchemaType::from_number_spec(schema.schema_type) is Some,
                parsed_id(schema.id@) is Some,
                forall|j: int| 0 <= j < k ==> parsed_id(schema.views@[j].id@) is Some,
                forall|j: int| 0 <= j < k ==> view_from(#[trigger] views@[j], schema.views@[j]),
            decreases schema.views.len() - k,
        {
            match SchemaView::from_rpc(&schema.views[k]) {
                Ok(v) => {
                    views.push(v);
                },
                Err(e) => {
                    proof {
                        assert(unreadable_view_at(schema.views@, k as int));
                        assert forall|j: int| 0 <= j < k implies !#[trigger] unreadable_view_at(
                            schema.views@,
                            j,
                        ) by {
                            assert(parsed_id(schema.views@[j].id@) is Some);
                        }
                        assert(first_unreadable_at_view(schema.views@, k as int));
                        let f = first_unreadable_view(schema.views@)->0;
                        assert(first_unreadable_at_view(schema.views@, f));
                        if f < k {
                            assert(parsed_id(schema.views@[f].id@) is Some);
                        } else if f > k {
                            assert(!unreadable_view_at(schema.views@, k as int));
                        }
                    }
                    return Err(e);
                },
            }
            k = k + 1;
        }
        proof {
            assert forall|j: int| !#[trigger] unreadable_view_at(schema.views@, j) by {
                if 0 <= j < schema.views@.len() {
                    assert(parsed_id(schema.views@[j].id@) is Some);
                }
            }
        }
        Ok(
            FullSchema {
                id,
                name: schema.name,
                insert_destination: schema.insert_destination,
                query_address: schema.query_address,
                schema_type,
                definitions,
                views,
            },
        )
    }
}

impl SchemaType {
    pub open spec fn from_number_spec(n: i32) -> Option<SchemaType> {
        if n == 0 {
            Some(SchemaType::DocumentStorage)
        } else if n == 1 {
            Some(SchemaType::Timeseries)
        } else {
            None
        }
    }
}

/// The view is the one the registry sent, with its id read.
pub open spec fn view_from(v: SchemaView, rpc: RpcView) -> bool {
    &&& parsed_id(rpc.id@) == Some(v.id)
    &&& v.name@ == rpc.name@
    &&& v.materializer_address@ == rpc.materializer_address@
    &&& v.fields@.map_values(|p: (String, String)| (p.0@, p.1@)) == rpc.fields@.map_values(
        |p: (String, String)| (p.0@, p.1@),
    )
}

/// The view at `i` has an id that does not read.
pub open spec fn unreadable_view_at(views: Seq<RpcView>, i: int) -> bool {
    0 <= i < views.len() && parsed_id(views[i].id@) is None
}

/// The view at `i` is the first whose id does not read.
pub open spec fn first_unreadable_at_view(views: Seq<RpcView>, i: int) -> bool {
    unreadable_view_at(views, i) && forall|j: int| 0 <= j < i ==> !#[trigger] unreadable_view_at(views, j)
}

/// The index of the first view whose id does not read, if one does not.
pub open spec fn first_unreadable_view(views: Seq<RpcView>) -> Option<int> {
    if exists|i: int| #[trigger] unreadable_view_at(views, i) {
        Some(choose|i: int| first_unreadable_at_view(views, i))
    } else {
        None
    }
}

fn copy_fields(fields: &Vec<(String, String)>) -> (r: Vec<(String, String)>)
    ensures
        r@.map_values(|p: (String, String)| (p.0@, p.1@)) == fields@.map_values(
            |p: (String, String)| (p.0@, p.1@),
        ),
{
    let mut out: Vec<(String, String)> = Vec::new();
    let mut i: usize = 0;
    while i < fields.len()
        invariant
            i <= fields.len(),
            out@.len() == i,
            forall|k: int| 0 <= k < i ==> (#[trigger] out@[k]).0@ == fields@[k].0@ && out@[k].1@ == fields@[k].1@,
        decreases fields.len() - i,
    {
        out.push((fields[i].0.clone(), fields[i].1.clone()));
        i = i + 1;
    }
    assert(out@.map_values(|p: (String, String)| (p.0@, p.1@)) =~= fields@.map_values(
        |p: (String, String)| (p.0@, p.1@),
    ));
    out
}

impl SchemaView {
    /// A view as the API shows it, from what the registry sent: its id must read.
    pub fn from_rpc(view: &RpcView) -> (r: Result<SchemaView, ApiError>)
        ensures
            match parsed_id(view.id@) {
                None => r matches Err(ApiError::InvalidId(x)) && x@ == view.id@,
                Some(_) => r matches Ok(v) && view_from(v, *view),
            },
    {
        match parse_id(view.id.as_str()) {
            Some(id) => Ok(
                SchemaView {
                    id,
                    name: view.name.clone(),
                    materializer_address: view.materializer_address.clone(),
                    fields: copy_fields(&view.fields),
                },
            ),
            None => Err(ApiError::InvalidId(view.id.clone())),
        }
    }
}

/// The definition of a schema for a requirement given as text: the requirement must read,
/// and some definition meet it (see `FullSchema::get_definition`).
pub fn definition_for<'a>(schema: &'a FullSchema, version_req: &str) -> (r: Result<&'a Definition, ApiError>)
    ensures
        match requirement_parses(version_req@) {
            false => r matches Err(ApiError::InvalidVersionReq(x)) && x@ == version_req@,
            true => match r {
                Ok(d) => exists|i: int|
                    latest_matching_at(schema.definitions@, version_req@, i) && schema.definitions@[i] == *d,
                Err(e) => e == ApiError::NoDefinitionMatches && forall|i: int|
                    0 <= i < schema.definitions@.len() ==> !definition_matches(
                        #[trigger] schema.definitions@[i],
                        version_req@,
                    ),
            },
        },
{
    match SemVerReq::parse(version_req) {
        None => Err(ApiError::InvalidVersionReq(version_req.to_string())),
        Some(req) => match schema.get_definition(&req) {
            Some(d) => Ok(d),
            None => Err(ApiError::NoDefinitionMatches),
        },
    }
}

/// The texts of ids joined by commas.
pub open spec fn joined_ids(ids: Seq<u128>) -> Seq<char>
    decreases ids.len(),
{
    if ids.len() == 0 {
        Seq::empty()
    } else if ids.len() == 1 {
        id_text(ids[0])
    } else {
        joined_ids(ids.drop_last()) + seq![','] + id_text(ids.last())
    }
}

/// The ids of objects as the query router takes them in a path: their texts joined by commas.
pub fn join_ids(ids: &Vec<u128>) -> (r: String)
    ensures
        r@ == joined_ids(ids@),
{
    let mut out = String::new();
    let mut i: usize = 0;
    assert(ids@.take(0) =~= Seq::<u128>::empty());
    while i < ids.len()
        invariant
            i <= ids.len(),
            out@ == joined_ids(ids@.take(i as int)),
        decreases ids.len() - i,
    {
        let ghost before = out@;
        assert(ids@.take(i + 1).drop_last() =~= ids@.take(i as int));
        if i > 0 {
            append_char(&mut out, ',');
        }
        let t = id_to_string(ids[i]);
        append_text(&mut out, t.as_str());
        proof {
            if i == 0 {
                assert(out@ =~= id_text(ids@[0]));
            } else {
                assert(out@ =~= before + seq![','] + id_text(ids@[i as int]));
            }
        }
        i = i + 1;
    }
    assert(ids@.take(i as int) =~= ids@);
    out
}

/// The settings of the API service.
#[derive(Clone, Debug)]
pub struct Config {
    pub schema_registry_addr: String,
    pub query_router_addr: String,
    pub input_port: u16,
    pub kafka: KafkaConfig,
    pub report_topic: String,
    pub data_router_topic: String,
}

/// The Kafka settings of the API service.
#[derive(Clone, Debug)]
pub struct KafkaConfig {
    pub group_id: String,
    pub brokers: String,
}

/// The addresses of the services that the API asks.
#[derive(Clone, Debug)]
pub struct ServicesSettings {
    pub schema_registry_url: String,
    pub edge_registry_url: String,
    pub on_demand_materializer_url: String,
    pub query_router_url: String,
}

/// Where the API reads notifications from.
#[derive(Clone, Debug)]
pub struct NotificationConsumerSettings {
    pub source: String,
}

/// The root of the API's queries.
pub struct QueryRoot;

/// The root of the API's mutations.
pub struct MutationRoot;

/// The settings of the API service that choose its publisher.
#[derive(Debug)]
pub struct Settings {
    pub communication_method: CommunicationMethod,
    pub input_port: u16,
    /// The Kafka brokers, where Kafka settings are given.
    pub kafka_brokers: Option<String>,
    /// The AMQP exchange, where AMQP settings are given.
    pub amqp_exchange_url: Option<String>,
    pub services: ServicesSettings,
    pub notification_consumer: Option<NotificationConsumerSettings>,
    pub insert_destination: String,
}

impl Settings {
    /// The publisher of the chosen method (whose settings must be given).
    pub fn publisher(&self) -> (r: PublisherConfig)
        requires
            publisher_defined(self.communication_method, self.kafka_brokers, self.amqp_exchange_url),
        ensures
            match self.communication_method {
                CommunicationMethod::Kafka => r matches PublisherConfig::Kafka { brokers } && brokers@
                    == self.kafka_brokers->0@,
                CommunicationMethod::Amqp => r matches PublisherConfig::Amqp { exchange_url }
                    && exchange_url@ == self.amqp_exchange_url->0@,
                CommunicationMethod::GRpc => r == PublisherConfig::Grpc,
            },
    {
        publisher_for(self.communication_method, &self.kafka_brokers, &self.amqp_exchange_url)
    }
}

} // verus!
