use vstd::prelude::*;

use crate::messaging::CommonConsumerConfig;

verus! {

/// How the object builder receives requests.
#[derive(Clone, Copy, PartialEq, Eq, Structural, Debug)]
pub enum CommunicationMethod {
    Kafka,
    Amqp,
    Other,
}

/// The registry that the object builder asks.
#[derive(Clone, Debug)]
pub struct ServicesSettings {
    pub schema_registry_url: String,
}

/// A Kafka consumer's settings.
#[derive(Clone, Debug)]
pub struct ConsumerKafkaSettings {
    pub brokers: String,
    pub group_id: String,
    pub ingest_topic: String,
}

/// An AMQP consumer's settings.
#[derive(Clone, Debug)]
pub struct AmqpSettings {
    pub exchange_url: String,
    pub tag: String,
    pub ingest_queue: String,
}

/// The settings of the object builder.
#[derive(Clone, Debug)]
pub struct Settings {
    pub communication_method: CommunicationMethod,
    pub input_port: u16,
    pub kafka: Option<ConsumerKafkaSettings>,
    pub amqp: Option<AmqpSettings>,
    pub services: ServicesSettings,
}

impl Settings {
    /// Whether the settings of the chosen method are given (where they are not, no
    /// consumer is defined).
    pub open spec fn consumer_defined(&self) -> bool {
        ||| (self.kafka is Some && self.communication_method == CommunicationMethod::Kafka)
        ||| (self.amqp is Some && self.communication_method == CommunicationMethod::Amqp)
    }

    /// The consumer of requests: Kafka's ingest topic, or AMQP's ingest queue.
    pub fn consumer(&self) -> (r: CommonConsumerConfig)
        requires
            self.consumer_defined(),
        ensures
            match (self.kafka, self.amqp, self.communication_method) {
                (Some(k), _, CommunicationMethod::Kafka) => r matches CommonConsumerConfig::Kafka { brokers, group_id, topic }
                    && brokers@ == k.brokers@ && group_id@ == k.group_id@ && topic@
                    == k.ingest_topic@,
                (_, Some(a), CommunicationMethod::Amqp) => r matches CommonConsumerConfig::Amqp {
                    connection_string,
                    consumer_tag,
                    queue_name,
                } && connection_string@ == a.exchange_url@ && consumer_tag@ == a.tag@ && queue_name@
                    == a.ingest_queue@,
                _ => false,
            },
    {
        match (&self.kafka, &self.amqp, self.communication_method) {
            (Some(kafka), _, CommunicationMethod::Kafka) => CommonConsumerConfig::Kafka {
                brokers: kafka.brokers.clone(),
                group_id: kafka.group_id.clone(),
                topic: kafka.ingest_topic.clone(),
            },
            (_, Some(amqp), CommunicationMethod::Amqp) => CommonConsumerConfig::Amqp {
                connection_string: amqp.exchange_url.clone(),
                consumer_tag: amqp.tag.clone(),
                queue_name: amqp.ingest_queue.clone(),
            },
            _ => {
                proof {
                    assert(false);
                }
                CommonConsumerConfig::Amqp {
                    connection_string: String::new(),
                    consumer_tag: String::new(),
                    queue_name: String::new(),
                }
            },
        }
    }
}

/// How the object builder's arguments choose its input.
#[derive(Clone, Copy, PartialEq, Eq, Structural, Debug)]
pub enum ArgsCommunicationMethod {
    Amqp,
    Kafka,
    GRpc,
}

/// The arguments of the object builder.
#[derive(Clone, Debug)]
pub struct Args {
    pub communication_method: ArgsCommunicationMethod,
    pub kafka_brokers: Option<String>,
    pub kafka_group_id: Option<String>,
    pub amqp_connection_string: Option<String>,
    pub amqp_consumer_tag: Option<String>,
    pub grpc_port: Option<u16>,
    pub schema_registry_addr: String,
    pub metrics_port: u16,
}

/// A configuration variable that is needed and missing: its name.
#[derive(Debug, PartialEq)]
pub struct MissingConfigError(pub String);

/// The input of the object builder: gRPC on `0.0.0.0` at the port.
#[derive(Debug, PartialEq)]
pub enum ParallelConsumerConfig {
    Grpc { port: u16 },
}

pub open spec fn grpc_port_variable() -> Seq<char> {
    seq!['G', 'r', 'p', 'c', ' ', 'p', 'o', 'r', 't']
}

impl Args {
    /// The input configuration, for gRPC (the only method with one): the port is needed.
    pub fn communication_config(&self) -> (r: Result<ParallelConsumerConfig, MissingConfigError>)
        requires
            self.communication_method == ArgsCommunicationMethod::GRpc,
        ensures
            match self.grpc_port {
                Some(p) => r == Ok::<ParallelConsumerConfig, MissingConfigError>(
                    ParallelConsumerConfig::Grpc { port: p },
                ),
                None => r matches Err(e) && e.0@ == grpc_port_variable(),
            },
    {
        match self.grpc_port {
            Some(port) => Ok(ParallelConsumerConfig::Grpc { port }),
            None => {
                let name = "Grpc port".to_string();
                proof {
                    reveal_strlit("Grpc port");
                    assert(name@ =~= grpc_port_variable());
                }
                Err(MissingConfigError(name))
            },
        }
    }
}

} // verus!
