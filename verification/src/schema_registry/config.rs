use vstd::prelude::*;

use crate::ids::{parse_id, parsed_id};
use crate::messaging::{publisher_defined, publisher_for, CommunicationMethod, PublisherConfig};
use crate::schema_registry::db::RegistryError;
use crate::schema_registry::types::VersionedUuid;
use crate::text::{append_decimal, append_text, decimal};
use crate::versions::{parsed_version, requirement_parses, SemVer, SemVerReq};

verus! {

/// How the registry reaches the message queue whose destinations it checks.
#[derive(Clone, Debug)]
pub enum CommunicationMethodConfig {
    Kafka(KafkaConfig),
    Amqp(AmqpConfig),
    Grpc,
}

#[derive(Clone, Debug)]
pub struct KafkaConfig {
    pub brokers: String,
    pub group_id: String,
}

#[derive(Clone, Debug)]
pub struct AmqpConfig {
    pub connection_string: String,
    pub consumer_tag: String,
}

/// Where the registry asks whether an insert destination exists.
#[derive(Debug, PartialEq)]
pub enum MetadataSource {
    /// Kafka, at these brokers.
    Kafka(String),
    /// AMQP, at this connection string.
    Amqp(String),
    /// gRPC, of this service.
    Grpc(String),
}

/// The service that a gRPC metadata source asks.
pub open spec fn grpc_metadata_service() -> Seq<char> {
    seq!['c', 'o', 'm', 'm', 'a', 'n', 'd', '_', 's', 'e', 'r', 'v', 'i', 'c', 'e']
}

/// Where destinations are checked: the Kafka brokers, the AMQP connection string, or the
/// command service over gRPC.
pub fn metadata_source(config: &CommunicationMethodConfig) -> (r: MetadataSource)
    ensures
        match *config {
            CommunicationMethodConfig::Kafka(k) => r matches MetadataSource::Kafka(b) && b@ == k.brokers@,
            CommunicationMethodConfig::Amqp(a) => r matches MetadataSource::Amqp(c) && c@
                == a.connection_string@,
            CommunicationMethodConfig::Grpc => r matches MetadataSource::Grpc(s) && s@
                == grpc_metadata_service(),
        },
{
    match config {
        CommunicationMethodConfig::Kafka(kafka) => MetadataSource::Kafka(kafka.brokers.clone()),
        CommunicationMethodConfig::Amqp(amqp) => MetadataSource::Amqp(amqp.connection_string.clone()),
        CommunicationMethodConfig::Grpc => {
            let s = "command_service".to_string();
            proof {
                reveal_strlit("command_service");
                assert(s@ =~= grpc_metadata_service());
            }
            MetadataSource::Grpc(s)
        },
    }
}

/// The file name of an export made at a time (seconds since the epoch).
pub open spec fn export_file_name(secs: u64) -> Seq<char> {
    seq!['e', 'x', 'p', 'o', 'r', 't', '_'] + decimal(secs as nat) + seq!['.', 'j', 's', 'o', 'n']
}

/// A path joined with a relative file name: a separator goes between them unless the path
/// is empty or already ends with one.
pub open spec fn joined_path(dir: Seq<char>, file: Seq<char>) -> Seq<char> {
    if dir.len() == 0 || dir.last() == '/' {
        dir + file
    } else {
        dir + seq!['/'] + file
    }
}

/// The path of the export file made at a time (seconds since the epoch) in a directory.
pub fn export_path(export_dir_path: String, secs: u64) -> (r: String)
    ensures
        r@ == joined_path(export_dir_path@, export_file_name(secs)),
{
    let mut path = export_dir_path;
    let n = path.unicode_len();
    if n > 0 && path.get_char(n - 1) != '/' {
        append_text(&mut path, "/");
        proof {
            reveal_strlit("/");
        }
    }
    let ghost prefix = path@;
    append_text(&mut path, "export_");
    append_decimal(&mut path, secs);
    append_text(&mut path, ".json");
    proof {
        reveal_strlit("export_");
        reveal_strlit(".json");
        assert(path@ =~= prefix + export_file_name(secs));
        if export_dir_path@.len() == 0 || export_dir_path@.last() == '/' {
            assert(prefix == export_dir_path@);
        } else {
            assert(prefix =~= export_dir_path@ + seq!['/']);
        }
    }
    path
}

/// Why a request to the registry was refused before it reached the store.
#[derive(Debug, PartialEq)]
pub enum RequestError {
    /// This text is not an identifier.
    InvalidId(String),
    /// This text is not a version.
    InvalidVersion(String),
    /// This text is not a version requirement.
    InvalidVersionReq(String),
}

/// Reads an identifier of a request.
pub fn parse_uuid(id: &str) -> (r: Result<u128, RequestError>)
    ensures
        match parsed_id(id@) {
            Some(u) => r == Ok::<u128, RequestError>(u),
            None => r matches Err(RequestError::InvalidId(t)) && t@ == id@,
        },
{
    match parse_id(id) {
        Some(u) => Ok(u),
        None => Err(RequestError::InvalidId(id.to_string())),
    }
}

/// Reads a version of a request.
pub fn parse_version(version: &str) -> (r: Result<SemVer, RequestError>)
    ensures
        match parsed_version(version@) {
            Some(v) => r matches Ok(x) && x@ == v,
            None => r matches Err(RequestError::InvalidVersion(t)) && t@ == version@,
        },
{
    match SemVer::parse(version) {
        Some(v) => Ok(v),
        None => Err(RequestError::InvalidVersion(version.to_string())),
    }
}

/// Reads the version requirement of a request, where it has one.
pub fn parse_optional_version_req(req: &Option<String>) -> (r: Result<Option<SemVerReq>, RequestError>)
    ensures
        match req {
            None => r matches Ok(None),
            Some(t) => if requirement_parses(t@) {
                r matches Ok(Some(q)) && q@ == t@
            } else {
                r matches Err(RequestError::InvalidVersionReq(x)) && x@ == t@
            },
        },
{
    match req {
        None => Ok(None),
        Some(t) => match SemVerReq::parse(t.as_str()) {
            Some(q) => Ok(Some(q)),
            None => Err(RequestError::InvalidVersionReq(t.clone())),
        },
    }
}

/// The schema and version requirement of a request: the id is read first, and a missing
/// requirement is `*`.
pub fn versioned_id(id: &str, version_req: &Option<String>) -> (r: Result<VersionedUuid, RequestError>)
    ensures
        match parsed_id(id@) {
            None => r matches Err(RequestError::InvalidId(t)) && t@ == id@,
            Some(u) => match version_req {
                None => r matches Ok(v) && v.id == u && v.version_req@ == seq!['*'],
                Some(t) => if requirement_parses(t@) {
                    r matches Ok(v) && v.id == u && v.version_req@ == t@
                } else {
                    r matches Err(RequestError::InvalidVersionReq(x)) && x@ == t@
                },
            },
        },
{
    let u = match parse_uuid(id) {
        Ok(u) => u,
        Err(e) => {
            return Err(e);
        },
    };
    let req = match parse_optional_version_req(version_req) {
        Ok(Some(q)) => q,
        Ok(None) => SemVerReq::any(),
        Err(e) => {
            return Err(e);
        },
    };
    Ok(VersionedUuid { id: u, version_req: req })
}

/// Whether adding a schema must check its insert destination: where it names one.
pub fn destination_to_check(insert_destination: &String) -> (r: bool)
    ensures
        r == (insert_destination@.len() > 0),
{
    insert_destination.unicode_len() > 0
}

/// The answer to a destination that the message queue does or does not know.
pub fn destination_verdict(destination: &String, exists: bool) -> (r: Result<(), RegistryError>)
    ensures
        exists ==> r is Ok,
        !exists ==> (r matches Err(RegistryError::NoTopic(d)) && d@ == destination@),
{
    if exists {
        Ok(())
    } else {
        Err(RegistryError::NoTopic(destination.clone()))
    }
}

/// The settings of the schema registry that choose where destinations are checked.
#[derive(Debug)]
pub struct Settings {
    pub communication_method: CommunicationMethod,
    pub input_port: u16,
    pub import_file: Option<String>,
    pub export_dir: Option<String>,
    /// The Kafka brokers, where Kafka settings are given.
    pub kafka_brokers: Option<String>,
    /// The AMQP exchange, where AMQP settings are given.
    pub amqp_exchange_url: Option<String>,
}

impl Settings {
    /// Where destinations are checked: with the chosen method (whose settings must be given).
    pub fn metadata_fetcher(&self) -> (r: PublisherConfig)
        requires
            publisher_defined(self.communication_method, self.kafka_brokers, self.amqp_exchange_url),
        ensures
            match self.communication_method {
                CommunicationMethod::Kafka => r matches PublisherConfig::Kafka { brokers } && brokers@
                    == self.kafka_brokers->0@,
                CommunicationMethod::Amqp => r matches PublisherConfig::Amqp { exchange_url }
                    && exchange_url@ == self.amqp_exchange_url->0@,
                CommunicationMethod::GRpc => r == PublisherConfig::Grpc,
            },
    {
        publisher_for(self.communication_method, &self.kafka_brokers, &self.amqp_exchange_url)
    }
}

} // verus!
