use vstd::prelude::*;

use crate::json::{JsonValue, JsonView};
use crate::text::{append_text};

verus! {

/// How the data router talks to the others.
#[derive(Clone, Copy, PartialEq, Eq, Structural, Debug)]
pub enum CommunicationMethod {
    Kafka,
    Amqp,
    Grpc,
}

/// The settings of the data router.
#[derive(Clone, Debug)]
pub struct Config {
    pub communication_method: CommunicationMethod,
    pub kafka_brokers: Option<String>,
    pub kafka_group_id: Option<String>,
    pub amqp_connection_string: Option<String>,
    pub amqp_consumer_tag: Option<String>,
    /// Kafka topic or AMQP queue.
    pub input_source: Option<String>,
    pub schema_registry_addr: String,
    /// How many entries the cache can hold.
    pub cache_capacity: usize,
    /// Max requests handled in parallel.
    pub task_limit: usize,
    pub grpc_port: Option<u16>,
}

/// A setting that the chosen method needs and that is missing.
#[derive(Clone, Copy, PartialEq, Eq, Structural, Debug)]
pub enum MissingSetting {
    KafkaTopic,
    KafkaBrokers,
    KafkaGroup,
    AmqpQueueName,
    AmqpConnectionString,
    AmqpConsumerTag,
    GrpcPort,
}

/// The consumer that feeds the data router.
#[derive(Debug, PartialEq)]
pub enum ConsumerConfig {
    Kafka { brokers: String, group_id: String, task_limit: usize, topic: String },
    Amqp { connection_string: String, task_limit: usize, consumer_tag: String, queue_name: String },
    /// Listen on `0.0.0.0` at the port.
    Grpc { port: u16 },
}

/// Where the data router publishes.
#[derive(Debug, PartialEq)]
pub enum PublisherConfig {
    Kafka { brokers: String },
    Amqp { connection_string: String },
    /// The command service, over gRPC.
    Grpc,
}

/// The text of a setting that is given.
pub open spec fn given(s: Option<String>) -> Option<Seq<char>> {
    match s {
        Some(t) => Some(t@),
        None => None,
    }
}

fn required(s: &Option<String>, missing: MissingSetting) -> (r: Result<String, MissingSetting>)
    ensures
        match *s {
            Some(t) => r matches Ok(x) && x@ == t@,
            None => r == Err::<String, MissingSetting>(missing),
        },
{
    match s {
        Some(t) => Ok(t.clone()),
        None => Err(missing),
    }
}

/// The consumer of the data router: Kafka needs the topic, the brokers and the group, in
/// that order; AMQP the queue, the connection string and the consumer tag; gRPC the port.
pub fn new_consumer(config: &Config) -> (r: Result<ConsumerConfig, MissingSetting>)
    ensures
        match config.communication_method {
            CommunicationMethod::Kafka => match (
                given(config.input_source),
                given(config.kafka_brokers),
                given(config.kafka_group_id),
            ) {
                (None, _, _) => r == Err::<ConsumerConfig, MissingSetting>(MissingSetting::KafkaTopic),
                (Some(_), None, _) => r == Err::<ConsumerConfig, MissingSetting>(
                    MissingSetting::KafkaBrokers,
                ),
                (Some(_), Some(_), None) => r == Err::<ConsumerConfig, MissingSetting>(
                    MissingSetting::KafkaGroup,
                ),
                (Some(t), Some(b), Some(g)) => r matches Ok(ConsumerConfig::Kafka { brokers, group_id, task_limit, topic })
                    && brokers@ == b && group_id@ == g && topic@ == t && task_limit
                    == config.task_limit,
            },
            CommunicationMethod::Amqp => match (
                given(config.input_source),
                given(config.amqp_connection_string),
                given(config.amqp_consumer_tag),
            ) {
                (None, _, _) => r == Err::<ConsumerConfig, MissingSetting>(
                    MissingSetting::AmqpQueueName,
                ),
                (Some(_), None, _) => r == Err::<ConsumerConfig, MissingSetting>(
                    MissingSetting::AmqpConnectionString,
                ),
                (Some(_), Some(_), None) => r == Err::<ConsumerConfig, MissingSetting>(
                    MissingSetting::AmqpConsumerTag,
                ),
                (Some(q), Some(c), Some(t)) => r matches Ok(ConsumerConfig::Amqp {
                    connection_string,
                    task_limit,
                    consumer_tag,
                    queue_name,
                }) && connection_string@ == c && consumer_tag@ == t && queue_name@ == q
                    && task_limit == config.task_limit,
            },
            CommunicationMethod::Grpc => match config.grpc_port {
                None => r == Err::<ConsumerConfig, MissingSetting>(MissingSetting::GrpcPort),
                Some(p) => r == Ok::<ConsumerConfig, MissingSetting>(ConsumerConfig::Grpc { port: p }),
            },
        },
{
    match config.communication_method {
        CommunicationMethod::Kafka => {
            let topic = required(&config.input_source, MissingSetting::KafkaTopic)?;
            let brokers = required(&config.kafka_brokers, MissingSetting::KafkaBrokers)?;
            let group_id = required(&config.kafka_group_id, MissingSetting::KafkaGroup)?;
            Ok(ConsumerConfig::Kafka { brokers, group_id, task_limit: config.task_limit, topic })
        },
        CommunicationMethod::Amqp => {
            let queue_name = required(&config.input_source, MissingSetting::AmqpQueueName)?;
            let connection_string = required(
                &config.amqp_connection_string,
                MissingSetting::AmqpConnectionString,
            )?;
            let consumer_tag = required(&config.amqp_consumer_tag, MissingSetting::AmqpConsumerTag)?;
            Ok(
                ConsumerConfig::Amqp {
                    connection_string,
                    task_limit: config.task_limit,
                    consumer_tag,
                    queue_name,
                },
            )
        },
        CommunicationMethod::Grpc => match config.grpc_port {
            Some(port) => Ok(ConsumerConfig::Grpc { port }),
            None => Err(MissingSetting::GrpcPort),
        },
    }
}

/// The publisher of the data router: Kafka needs the brokers, AMQP the connection string.
pub fn new_producer(config: &Config) -> (r: Result<PublisherConfig, MissingSetting>)
    ensures
        match config.communication_method {
            CommunicationMethod::Kafka => match config.kafka_brokers {
                None => r == Err::<PublisherConfig, MissingSetting>(MissingSetting::KafkaBrokers),
                Some(b) => r matches Ok(PublisherConfig::Kafka { brokers }) && brokers@ == b@,
            },
            CommunicationMethod::Amqp => match config.amqp_connection_string {
                None => r == Err::<PublisherConfig, MissingSetting>(
                    MissingSetting::AmqpConnectionString,
                ),
                Some(c) => r matches Ok(PublisherConfig::Amqp { connection_string }) && connection_string@
                    == c@,
            },
            CommunicationMethod::Grpc => r == Ok::<PublisherConfig, MissingSetting>(PublisherConfig::Grpc),
        },
{
    match config.communication_method {
        CommunicationMethod::Kafka => {
            let brokers = required(&config.kafka_brokers, MissingSetting::KafkaBrokers)?;
            Ok(PublisherConfig::Kafka { brokers })
        },
        CommunicationMethod::Amqp => {
            let connection_string = required(
                &config.amqp_connection_string,
                MissingSetting::AmqpConnectionString,
            )?;
            Ok(PublisherConfig::Amqp { connection_string })
        },
        CommunicationMethod::Grpc => Ok(PublisherConfig::Grpc),
    }
}

/// An object to insert, as the data router receives it: the object, its schema and its
/// data (as JSON text).
#[derive(Clone, Debug, PartialEq)]
pub struct DataRouterInsertMessage {
    pub object_id: u128,
    pub schema_id: u128,
    pub data: String,
}

/// An object to insert, as the data router sends it on: stamped with the time it was routed.
#[derive(Clone, Debug, PartialEq)]
pub struct InsertMessage {
    pub object_id: u128,
    pub schema_id: u128,
    pub timestamp: i64,
    pub data: String,
}

/// Whether a payload holds several objects (a JSON array) or one.
#[derive(Clone, Copy, PartialEq, Eq, Structural, Debug)]
pub enum PayloadKind {
    Batch,
    Single,
}

/// A payload that is a JSON array holds several objects; any other holds one.
pub fn payload_kind(payload: &JsonValue) -> (r: PayloadKind)
    ensures
        r == (if payload@ is Array {
            PayloadKind::Batch
        } else {
            PayloadKind::Single
        }),
{
    match payload {
        JsonValue::Array(_) => PayloadKind::Batch,
        _ => PayloadKind::Single,
    }
}

/// The message sent on for an object, stamped with a time.
pub fn insert_message(event: &DataRouterInsertMessage, timestamp: i64) -> (r: InsertMessage)
    ensures
        r.object_id == event.object_id,
        r.schema_id == event.schema_id,
        r.timestamp == timestamp,
        r.data@ == event.data@,
{
    InsertMessage {
        object_id: event.object_id,
        schema_id: event.schema_id,
        timestamp,
        data: event.data.clone(),
    }
}

/// Why an object could not be routed (the message of the failure).
#[derive(Clone, Debug, PartialEq)]
pub struct RouteError(pub String);

/// Where and how an object is sent on: to the insert destination of its schema, under the
/// key of the message it came in, stamped with a time.
#[derive(Clone, Debug, PartialEq)]
pub struct Delivery {
    pub destination: String,
    pub key: String,
    pub message: InsertMessage,
}

/// The delivery of an object, given what the schema cache answered for its schema: the
/// schema's insert destination, or the reason it could not be had, which fails the route.
pub fn route_delivery(
    event: &DataRouterInsertMessage,
    message_key: &str,
    insert_destination: Result<String, String>,
    timestamp: i64,
) -> (r: Result<Delivery, RouteError>)
    ensures
        match insert_destination {
            Ok(d) => r matches Ok(x) && x.destination@ == d@ && x.key@ == message_key@
                && x.message.object_id == event.object_id && x.message.schema_id == event.schema_id
                && x.message.timestamp == timestamp && x.message.data@ == event.data@,
            Err(e) => r matches Err(x) && x.0@ == e@,
        },
{
    match insert_destination {
        Ok(destination) => Ok(
            Delivery { destination, key: message_key.to_string(), message: insert_message(event, timestamp) },
        ),
        Err(e) => Err(RouteError(e)),
    }
}

/// The result of a batch, where every object was routed whatever came of the others: the
/// failure of the last object that failed, or success.
pub open spec fn batch_outcome(results: Seq<Result<(), Seq<char>>>) -> Result<(), Seq<char>>
    decreases results.len(),
{
    if results.len() == 0 {
        Ok(())
    } else {
        match results.last() {
            Err(e) => Err(e),
            Ok(_) => batch_outcome(results.drop_last()),
        }
    }
}

pub open spec fn route_results(results: Seq<Result<(), RouteError>>) -> Seq<Result<(), Seq<char>>> {
    results.map_values(
        |r: Result<(), RouteError>|
            match r {
                Ok(_) => Ok(()),
                Err(e) => Err(e.0@),
            },
    )
}

/// The object at `i` is the last of the batch that failed, with this message.
pub open spec fn last_failure(results: Seq<Result<(), RouteError>>, i: int, message: Seq<char>) -> bool {
    &&& 0 <= i < results.len()
    &&& results[i] is Err
    &&& results[i]->Err_0.0@ == message
    &&& forall|j: int| i < j < results.len() ==> results[j] is Ok
}

/// A batch succeeds exactly when every object of it was routed; where some object failed,
/// the batch fails with the message of the last object that failed.
pub proof fn law_batch_fails_iff_an_object_fails(results: Seq<Result<(), RouteError>>)
    ensures
        batch_outcome(route_results(results)) is Ok <==> forall|i: int|
            0 <= i < results.len() ==> (#[trigger] results[i]) is Ok,
        batch_outcome(route_results(results)) matches Err(e) ==> exists|i: int| #[trigger]
            last_failure(results, i, e),
    decreases results.len(),
{
    if results.len() > 0 {
        let prev = results.drop_last();
        law_batch_fails_iff_an_object_fails(prev);
        assert(route_results(results).drop_last() =~= route_results(prev));
        let n = results.len() - 1;
        assert(route_results(results).last() == route_results(results)[n]);
        match results[n] {
            Err(x) => {
                assert(route_results(results)[n] == Err::<(), Seq<char>>(x.0@));
                assert(last_failure(results, n, x.0@));
            },
            Ok(_) => {
                assert(route_results(results)[n] == Ok::<(), Seq<char>>(()));
                if batch_outcome(route_results(results)) is Ok {
                    assert forall|i: int| 0 <= i < results.len() implies (#[trigger] results[i]) is Ok by {
                        if i < n {
                            assert(results[i] == prev[i]);
                        }
                    }
                } else {
                    let e = batch_outcome(route_results(prev))->Err_0;
                    let i = choose|i: int| #[trigger] last_failure(prev, i, e);
                    assert(results[i] == prev[i]);
                    assert forall|j: int| i < j < results.len() implies results[j] is Ok by {
                        if j < n {
                            assert(results[j] == prev[j]);
                        }
                    }
                    assert(last_failure(results, i, e));
                }
                if forall|i: int| 0 <= i < results.len() ==> (#[trigger] results[i]) is Ok {
                    assert forall|i: int| 0 <= i < prev.len() implies (#[trigger] prev[i]) is Ok by {
                        assert(prev[i] == results[i]);
                    }
                }
            },
        }
    }
}

/// Combines the results of routing the objects of a batch (see `batch_outcome`): the batch
/// is routed when every object is, else it fails with the message of the last failure.
pub fn batch_result(results: &Vec<Result<(), RouteError>>) -> (r: Result<(), RouteError>)
    ensures
        match batch_outcome(route_results(results@)) {
            Ok(_) => r is Ok,
            Err(e) => r matches Err(x) && x.0@ == e,
        },
        r is Ok <==> forall|i: int| 0 <= i < results@.len() ==> (#[trigger] results@[i]) is Ok,
        r matches Err(x) ==> exists|i: int| #[trigger] last_failure(results@, i, x.0@),
{
    proof {
        law_batch_fails_iff_an_object_fails(results@);
    }
    let mut result: Result<(), RouteError> = Ok(());
    let mut i: usize = 0;
    assert(route_results(results@.take(0)) =~= Seq::<Result<(), Seq<char>>>::empty());
    while i < results.len()
        invariant
            i <= results.len(),
            match batch_outcome(route_results(results@.take(i as int))) {
                Ok(_) => result is Ok,
                Err(e) => result matches Err(x) && x.0@ == e,
            },
        decreases results.len() - i,
    {
        let ghost t = route_results(results@.take(i + 1));
        assert(t.drop_last() =~= route_results(results@.take(i as int)));
        assert(t.last() == route_results(results@)[i as int]);
        match &results[i] {
            Ok(_) => {},
            Err(e) => {
                result = Err(RouteError(e.0.clone()));
            },
        }
        i = i + 1;
    }
    assert(results@.take(i as int) =~= results@);
    result
}

/// Fetches the insert destination of schemas from the schema registry.
#[derive(Debug)]
pub struct SchemaMetadataFetcher {
    schema_registry_url: String,
}

impl SchemaMetadataFetcher {
    /// The address of the schema registry.
    pub closed spec fn url(&self) -> Seq<char> {
        self.schema_registry_url@
    }

    pub fn boxed(schema_registry_url: String) -> (r: Box<Self>)
        ensures
            r.url() == schema_registry_url@,
    {
        Box::new(Self { schema_registry_url })
    }

    pub fn schema_registry_url(&self) -> (r: &str)
        ensures
            r@ == self.url(),
    {
        self.schema_registry_url.as_str()
    }
}

} // verus!
