use vstd::prelude::*;

verus! {

/// How a service talks to the others.
#[derive(Clone, Copy, PartialEq, Eq, Structural, Debug)]
pub enum CommunicationMethod {
    Kafka,
    Amqp,
    GRpc,
}

/// The queues that the command service listens to.
#[derive(Debug)]
pub struct ListenerSettings {
    pub ordered_sources: Vec<String>,
    pub unordered_sources: Vec<String>,
}

impl ListenerSettings {
    /// Whether no queue is named.
    pub fn is_empty(&self) -> (r: bool)
        ensures
            r == (self.ordered_sources@.len() == 0 && self.unordered_sources@.len() == 0),
    {
        self.ordered_sources.len() == 0 && self.unordered_sources.len() == 0
    }
}

/// Where the command service stores data.
#[derive(Clone, Copy, PartialEq, Eq, Structural, Debug)]
pub enum RepositoryKind {
    Postgres,
    VictoriaMetrics,
    Druid,
}

/// The storage plugin that the command service starts.
#[derive(Clone, Copy, PartialEq, Eq, Structural, Debug)]
pub enum OutputChoice {
    Postgres,
    VictoriaMetrics,
    Druid,
}

/// Why no storage plugin could be started.
#[derive(Clone, Copy, PartialEq, Eq, Structural, Debug)]
pub enum OutputSetupError {
    /// Druid needs the Kafka settings, which are missing.
    DruidNeedsKafka,
}

/// Whether the settings of the chosen repository are given.
pub open spec fn output_defined(kind: RepositoryKind, postgres: bool, victoria_metrics: bool, druid: bool) -> bool {
    match kind {
        RepositoryKind::Postgres => postgres,
        RepositoryKind::VictoriaMetrics => victoria_metrics,
        RepositoryKind::Druid => druid,
    }
}

/// The storage plugin of the chosen repository, whose settings must be given (each flag
/// tells whether a section is present); Druid also needs the Kafka section.
pub fn output_choice(
    kind: RepositoryKind,
    postgres: bool,
    victoria_metrics: bool,
    druid: bool,
    kafka: bool,
) -> (r: Result<OutputChoice, OutputSetupError>)
    requires
        output_defined(kind, postgres, victoria_metrics, druid),
    ensures
        r == match kind {
            RepositoryKind::Postgres => Ok::<OutputChoice, OutputSetupError>(OutputChoice::Postgres),
            RepositoryKind::VictoriaMetrics => Ok(OutputChoice::VictoriaMetrics),
            RepositoryKind::Druid => if kafka {
                Ok(OutputChoice::Druid)
            } else {
                Err(OutputSetupError::DruidNeedsKafka)
            },
        },
{
    match kind {
        RepositoryKind::Postgres => Ok(OutputChoice::Postgres),
        RepositoryKind::VictoriaMetrics => Ok(OutputChoice::VictoriaMetrics),
        RepositoryKind::Druid => if kafka {
            Ok(OutputChoice::Druid)
        } else {
            Err(OutputSetupError::DruidNeedsKafka)
        },
    }
}

#[derive(Clone, Debug, PartialEq)]
pub struct DruidSettings {
    pub topic: String,
}

#[derive(Clone, Debug, PartialEq)]
pub struct KafkaSettings {
    pub brokers: String,
    pub group_id: String,
}

#[derive(Clone, Debug, PartialEq)]
pub struct AmqpSettings {
    pub exchange_url: String,
    pub tag: String,
}

/// The settings that choose the consumers of the command service.
#[derive(Debug)]
pub struct Settings {
    pub communication_method: CommunicationMethod,
    pub kafka: Option<KafkaSettings>,
    pub amqp: Option<AmqpSettings>,
    /// Whether gRPC settings are given.
    pub grpc: bool,
    pub listener: ListenerSettings,
}

/// A consumer to start.
#[derive(Debug, PartialEq)]
pub enum ConsumerSpec {
    Kafka { brokers: String, group_id: String, topic: String },
    Amqp { connection_string: String, consumer_tag: String, queue_name: String },
    Grpc,
}

/// The consumer is a Kafka consumer of these brokers, group and topic.
pub open spec fn is_kafka_consumer(c: ConsumerSpec, brokers: Seq<char>, group_id: Seq<char>, topic: Seq<char>) -> bool {
    match c {
        ConsumerSpec::Kafka { brokers: b, group_id: g, topic: t } => b@ == brokers && g@ == group_id
            && t@ == topic,
        _ => false,
    }
}

/// The consumer is an AMQP consumer of this connection, tag and queue.
pub open spec fn is_amqp_consumer(c: ConsumerSpec, connection: Seq<char>, tag: Seq<char>, queue: Seq<char>) -> bool {
    match c {
        ConsumerSpec::Amqp { connection_string: c2, consumer_tag: t, queue_name: q } => c2@
            == connection && t@ == tag && q@ == queue,
        _ => false,
    }
}

/// Why no consumer could be chosen.
#[derive(Debug, PartialEq)]
pub enum SettingsError {
    /// A message queue is chosen, but no queue is named.
    MissingListenerQueues,
    /// The chosen method has no settings.
    UnsupportedConsumerSpecification,
}

/// The sources in order: the ordered ones, then the unordered ones.
pub open spec fn all_sources(l: ListenerSettings) -> Seq<Seq<char>> {
    l.ordered_sources@.map_values(|s: String| s@) + l.unordered_sources@.map_values(|s: String| s@)
}

/// The sources of the listener, ordered first.
fn sources(l: &ListenerSettings) -> (r: Vec<String>)
    ensures
        r@.map_values(|s: String| s@) == all_sources(*l),
{
    let mut out: Vec<String> = Vec::new();
    let mut i: usize = 0;
    while i < l.ordered_sources.len()
        invariant
            i <= l.ordered_sources.len(),
            out@.map_values(|s: String| s@) =~= l.ordered_sources@.map_values(|s: String| s@).take(
                i as int,
            ),
        decreases l.ordered_sources.len() - i,
    {
        let ghost prev = out@;
        out.push(l.ordered_sources[i].clone());
        assert(out@.map_values(|s: String| s@) =~= prev.map_values(|s: String| s@).push(
            l.ordered_sources@[i as int]@,
        ));
        assert(l.ordered_sources@.map_values(|s: String| s@).take(i + 1) =~= l.ordered_sources@.map_values(
            |s: String| s@,
        ).take(i as int).push(l.ordered_sources@[i as int]@));
        i = i + 1;
    }
    let mut j: usize = 0;
    while j < l.unordered_sources.len()
        invariant
            j <= l.unordered_sources.len(),
            out@.map_values(|s: String| s@) =~= l.ordered_sources@.map_values(|s: String| s@)
                + l.unordered_sources@.map_values(|s: String| s@).take(j as int),
        decreases l.unordered_sources.len() - j,
    {
        let ghost prev = out@;
        out.push(l.unordered_sources[j].clone());
        assert(out@.map_values(|s: String| s@) =~= prev.map_values(|s: String| s@).push(
            l.unordered_sources@[j as int]@,
        ));
        assert(l.unordered_sources@.map_values(|s: String| s@).take(j + 1) =~= l.unordered_sources@.map_values(
            |s: String| s@,
        ).take(j as int).push(l.unordered_sources@[j as int]@));
        j = j + 1;
    }
    out
}

impl KafkaSettings {
    /// One consumer per topic, in order.
    pub fn parallel_consumers(&self, topics: &Vec<String>) -> (r: Vec<ConsumerSpec>)
        ensures
            r@.len() == topics@.len(),
            forall|i: int|
                0 <= i < r@.len() ==> is_kafka_consumer(#[trigger] r@[i], self.brokers@, self.group_id@, topics@[i]@),
    {
        let mut out: Vec<ConsumerSpec> = Vec::new();
        let mut i: usize = 0;
        while i < topics.len()
            invariant
                i <= topics.len(),
                out@.len() == i,
                forall|k: int|
                    0 <= k < i ==> is_kafka_consumer(#[trigger] out@[k], self.brokers@, self.group_id@, topics@[k]@),
            decreases topics.len() - i,
        {
            out.push(
                ConsumerSpec::Kafka {
                    brokers: self.brokers.clone(),
                    group_id: self.group_id.clone(),
                    topic: topics[i].clone(),
                },
            );
            i = i + 1;
        }
        out
    }
}

impl AmqpSettings {
    /// One consumer per queue, in order.
    pub fn parallel_consumers(&self, queues: &Vec<String>) -> (r: Vec<ConsumerSpec>)
        ensures
            r@.len() == queues@.len(),
            forall|i: int|
                0 <= i < r@.len() ==> is_amqp_consumer(#[trigger] r@[i], self.exchange_url@, self.tag@, queues@[i]@),
    {
        let mut out: Vec<ConsumerSpec> = Vec::new();
        let mut i: usize = 0;
        while i < queues.len()
            invariant
                i <= queues.len(),
                out@.len() == i,
                forall|k: int|
                    0 <= k < i ==> is_amqp_consumer(#[trigger] out@[k], self.exchange_url@, self.tag@, queues@[k]@),
            decreases queues.len() - i,
        {
            out.push(
                ConsumerSpec::Amqp {
                    connection_string: self.exchange_url.clone(),
                    consumer_tag: self.tag.clone(),
                    queue_name: queues[i].clone(),
                },
            );
            i = i + 1;
        }
        out
    }
}

impl Settings {
    /// The consumers to start: for Kafka (with Kafka settings) one per listened queue, for
    /// AMQP (with AMQP settings) one per listened queue, where some queue is named; for gRPC
    /// (with gRPC settings) one.
    pub fn consumers(&self) -> (r: Result<Vec<ConsumerSpec>, SettingsError>)
        ensures
            match (self.kafka, self.amqp, self.communication_method) {
                (Some(k), _, CommunicationMethod::Kafka) => if all_sources(self.listener).len() == 0 {
                    r == Err::<Vec<ConsumerSpec>, SettingsError>(SettingsError::MissingListenerQueues)
                } else {
                    r matches Ok(cs) && cs@.len() == all_sources(self.listener).len() && forall|i: int|
                        0 <= i < cs@.len() ==> is_kafka_consumer(#[trigger] cs@[i], k.brokers@, k.group_id@, all_sources(self.listener)[i])
                },
                (_, Some(a), CommunicationMethod::Amqp) => if all_sources(self.listener).len() == 0 {
                    r == Err::<Vec<ConsumerSpec>, SettingsError>(SettingsError::MissingListenerQueues)
                } else {
                    r matches Ok(cs) && cs@.len() == all_sources(self.listener).len() && forall|i: int|
                        0 <= i < cs@.len() ==> is_amqp_consumer(#[trigger] cs@[i], a.exchange_url@, a.tag@, all_sources(self.listener)[i])
                },
                (_, _, CommunicationMethod::GRpc) => if self.grpc {
                    r matches Ok(cs) && cs@.len() == 1 && cs@[0] == ConsumerSpec::Grpc
                } else {
                    r == Err::<Vec<ConsumerSpec>, SettingsError>(
                        SettingsError::UnsupportedConsumerSpecification,
                    )
                },
                _ => r == Err::<Vec<ConsumerSpec>, SettingsError>(
                    SettingsError::UnsupportedConsumerSpecification,
                ),
            },
    {
        match (&self.kafka, &self.amqp, self.communication_method) {
            (Some(kafka), _, CommunicationMethod::Kafka) => {
                if self.listener.is_empty() {
                    return Err(SettingsError::MissingListenerQueues);
                }
                let all = sources(&self.listener);
                let cs = kafka.parallel_consumers(&all);
                proof {
                    assert forall|i: int| 0 <= i < all@.len() implies all@[i]@ == all_sources(
                        self.listener,
                    )[i] by {
                        assert(all@.map_values(|s: String| s@)[i] == all@[i]@);
                    }
                }
                Ok(cs)
            },
            (_, Some(amqp), CommunicationMethod::Amqp) => {
                if self.listener.is_empty() {
                    return Err(SettingsError::MissingListenerQueues);
                }
                let all = sources(&self.listener);
                let cs = amqp.parallel_consumers(&all);
                proof {
                    assert forall|i: int| 0 <= i < all@.len() implies all@[i]@ == all_sources(
                        self.listener,
                    )[i] by {
                        assert(all@.map_values(|s: String| s@)[i] == all@[i]@);
                    }
                }
                Ok(cs)
            },
            (_, _, CommunicationMethod::GRpc) => {
                if self.grpc {
                    let mut cs: Vec<ConsumerSpec> = Vec::new();
                    cs.push(ConsumerSpec::Grpc);
                    Ok(cs)
                } else {
                    Err(SettingsError::UnsupportedConsumerSpecification)
                }
            },
            _ => Err(SettingsError::UnsupportedConsumerSpecification),
        }
    }
}

} // verus!
