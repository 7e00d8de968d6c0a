use vstd::prelude::*;

verus! {

/// A consumer of a message queue.
#[derive(Debug, PartialEq)]
pub enum CommonConsumerConfig {
    Kafka { brokers: String, group_id: String, topic: String },
    Amqp { connection_string: String, consumer_tag: String, queue_name: String },
}

/// How a service talks to the others.
#[derive(Clone, Copy, PartialEq, Eq, Structural, Debug)]
pub enum CommunicationMethod {
    Kafka,
    Amqp,
    GRpc,
}

/// A publisher to a message queue or over gRPC.
#[derive(Debug, PartialEq)]
pub enum PublisherConfig {
    /// Kafka, at these brokers.
    Kafka { brokers: String },
    /// AMQP, at this exchange.
    Amqp { exchange_url: String },
    /// gRPC.
    Grpc,
}

/// Whether the settings of the chosen method are given (gRPC needs none).
pub open spec fn publisher_defined(method: CommunicationMethod, kafka_brokers: Option<String>, amqp_exchange_url: Option<String>) -> bool {
    match method {
        CommunicationMethod::Kafka => kafka_brokers is Some,
        CommunicationMethod::Amqp => amqp_exchange_url is Some,
        CommunicationMethod::GRpc => true,
    }
}

/// The publisher of the chosen method, from its settings.
pub fn publisher_for(
    method: CommunicationMethod,
    kafka_brokers: &Option<String>,
    amqp_exchange_url: &Option<String>,
) -> (r: PublisherConfig)
    requires
        publisher_defined(method, *kafka_brokers, *amqp_exchange_url),
    ensures
        match method {
            CommunicationMethod::Kafka => r matches PublisherConfig::Kafka { brokers } && brokers@
                == kafka_brokers->0@,
            CommunicationMethod::Amqp => r matches PublisherConfig::Amqp { exchange_url } && exchange_url@
                == amqp_exchange_url->0@,
            CommunicationMethod::GRpc => r == PublisherConfig::Grpc,
        },
{
    match method {
        CommunicationMethod::Kafka => match kafka_brokers {
            Some(b) => PublisherConfig::Kafka { brokers: b.clone() },
            None => {
                proof {
                    assert(false);
                }
                PublisherConfig::Grpc
            },
        },
        CommunicationMethod::Amqp => match amqp_exchange_url {
            Some(u) => PublisherConfig::Amqp { exchange_url: u.clone() },
            None => {
                proof {
                    assert(false);
                }
                PublisherConfig::Grpc
            },
        },
        CommunicationMethod::GRpc => PublisherConfig::Grpc,
    }
}

} // verus!
