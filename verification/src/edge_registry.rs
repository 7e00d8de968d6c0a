use vstd::prelude::*;

use crate::messaging::CommonConsumerConfig;

verus! {

/// The lower-case form of a text, as `str::to_lowercase` gives it.
pub uninterp spec fn lowercase(text: Seq<char>) -> Seq<char>;

/// `str::to_lowercase`.
///
/// Trusted: the result is `lowercase` of the text (std's Unicode lower-casing, which is not
/// spelled out here).
#[verifier::external_body]
fn to_lowercase(text: &str) -> (r: String)
    ensures
        r@ == lowercase(text@),
{
    text.to_lowercase()
}

/// How the edge registry receives edges.
#[derive(Clone, Copy, PartialEq, Eq, Structural, Debug)]
pub enum ConsumerMethod {
    Kafka,
    Amqp,
}

pub open spec fn kafka_name() -> Seq<char> {
    seq!['k', 'a', 'f', 'k', 'a']
}

pub open spec fn amqp_name() -> Seq<char> {
    seq!['a', 'm', 'q', 'p']
}

pub open spec fn invalid_method_text() -> Seq<char> {
    seq!['I', 'n', 'v', 'a', 'l', 'i', 'd', ' ', 'c', 'o', 'n', 's', 'u', 'm', 'e', 'r', ' ', 'm', 'e', 't', 'h', 'o', 'd']
}

impl ConsumerMethod {
    /// The method named by a lowercase text: `kafka` or `amqp`.
    pub fn from_lowercase(lower: &str) -> (r: Result<ConsumerMethod, String>)
        ensures
            lower@ == kafka_name() ==> r == Ok::<ConsumerMethod, String>(ConsumerMethod::Kafka),
            lower@ == amqp_name() ==> r == Ok::<ConsumerMethod, String>(ConsumerMethod::Amqp),
            lower@ != kafka_name() && lower@ != amqp_name() ==> (r matches Err(e) && e@
                == invalid_method_text()),
    {
        let lower = lower.to_string();
        let kafka = "kafka".to_string();
        let amqp = "amqp".to_string();
        proof {
            reveal_strlit("kafka");
            reveal_strlit("amqp");
            assert(kafka@ =~= kafka_name());
            assert(amqp@ =~= amqp_name());
        }
        if lower == kafka {
            Ok(ConsumerMethod::Kafka)
        } else if lower == amqp {
            Ok(ConsumerMethod::Amqp)
        } else {
            let e = "Invalid consumer method".to_string();
            proof {
                reveal_strlit("Invalid consumer method");
                assert(e@ =~= invalid_method_text());
            }
            Err(e)
        }
    }

    /// The method named by a text, in any case: `kafka` or `amqp`.
    pub fn parse(s: &str) -> (r: Result<ConsumerMethod, String>)
        ensures
            lowercase(s@) == kafka_name() ==> r == Ok::<ConsumerMethod, String>(ConsumerMethod::Kafka),
            lowercase(s@) == amqp_name() ==> r == Ok::<ConsumerMethod, String>(ConsumerMethod::Amqp),
            lowercase(s@) != kafka_name() && lowercase(s@) != amqp_name() ==> (r matches Err(e)
                && e@ == invalid_method_text()),
    {
        let lower = to_lowercase(s);
        Self::from_lowercase(lower.as_str())
    }
}

/// Where the edge registry receives edges from.
#[derive(Clone, Debug)]
pub struct ConsumerConfig {
    /// Method of ingestion of messages via Message Queue.
    pub method: ConsumerMethod,
    /// Kafka broker or Amqp (eg. RabbitMQ) host.
    pub mq_host: String,
    /// Kafka group id or Amqp consumer tag.
    pub mq_tag: String,
    /// Kafka topic or Amqp queue.
    pub mq_source: String,
}

/// The settings of the edge registry.
#[derive(Clone, Debug)]
pub struct RegistryConfig {
    pub postgres_username: String,
    pub postgres_password: String,
    pub postgres_host: String,
    pub postgres_port: u16,
    pub postgres_dbname: String,
    pub postgres_schema: String,
    /// gRPC server port to host edge-registry on.
    pub communication_port: u16,
    /// Prometheus metrics port.
    pub metrics_port: u16,
    pub consumer_config: ConsumerConfig,
}

impl ConsumerConfig {
    /// The consumer: the host, tag and source are the Kafka brokers, group and topic, or the
    /// AMQP connection, consumer tag and queue.
    pub fn common(&self) -> (r: CommonConsumerConfig)
        ensures
            match self.method {
                ConsumerMethod::Kafka => r matches CommonConsumerConfig::Kafka { brokers, group_id, topic }
                    && brokers@ == self.mq_host@ && group_id@ == self.mq_tag@ && topic@
                    == self.mq_source@,
                ConsumerMethod::Amqp => r matches CommonConsumerConfig::Amqp {
                    connection_string,
                    consumer_tag,
                    queue_name,
                } && connection_string@ == self.mq_host@ && consumer_tag@ == self.mq_tag@
                    && queue_name@ == self.mq_source@,
            },
    {
        match self.method {
            ConsumerMethod::Kafka => CommonConsumerConfig::Kafka {
                brokers: self.mq_host.clone(),
                group_id: self.mq_tag.clone(),
                topic: self.mq_source.clone(),
            },
            ConsumerMethod::Amqp => CommonConsumerConfig::Amqp {
                connection_string: self.mq_host.clone(),
                consumer_tag: self.mq_tag.clone(),
                queue_name: self.mq_source.clone(),
            },
        }
    }
}

} // verus!
