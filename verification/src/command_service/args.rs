use vstd::prelude::*;

use crate::partial_update::tree::texts;
use crate::text::{lemma_split_upto_nonempty, split_on, split_text};

verus! {

/// How the command service receives data.
#[derive(Clone, Copy, PartialEq, Eq, Structural, Debug)]
pub enum IngestionMethod {
    MessageQueue,
    GRpc,
}

/// The settings of the input side of the command service.
#[derive(Clone, Debug)]
pub struct InputArgs {
    pub consumer_tag: Option<String>,
    pub connection_string: Option<String>,
    pub queue_name: Option<String>,
    pub unordered_queue_name: Option<String>,
    /// Amount of tasks that can be spawned, and process data input, at one given time.
    pub task_limit: usize,
    pub grpc_port: Option<u16>,
}

/// The arguments of the command service that choose its input.
#[derive(Clone, Debug)]
pub struct Args {
    pub ingestion_method: IngestionMethod,
    pub input_args: InputArgs,
}

/// A configuration variable that is needed and missing: its name.
#[derive(Debug, PartialEq)]
pub struct MissingConfigError(pub String);

/// Input from message queues.
#[derive(Debug)]
pub struct MessageQueueConfig {
    pub connection_string: String,
    pub consumer_tag: String,
    pub queue_names: Vec<String>,
    pub task_limit: usize,
    pub unordered_queue_names: Vec<String>,
}

/// Input over gRPC.
#[derive(Debug)]
pub struct GRpcConfig {
    pub grpc_port: u16,
}

/// Where the command service takes its input from.
#[derive(Debug)]
pub enum InputConfig {
    MessageQueue(MessageQueueConfig),
    GRpc(GRpcConfig),
}

pub open spec fn consumer_tag_name() -> Seq<char> {
    seq!['C', 'o', 'n', 's', 'u', 'm', 'e', 'r', ' ', 't', 'a', 'g']
}

pub open spec fn connection_string_name() -> Seq<char> {
    seq!['C', 'o', 'n', 'n', 'e', 'c', 't', 'i', 'o', 'n', ' ', 's', 't', 'r', 'i', 'n', 'g']
}

pub open spec fn topic_name() -> Seq<char> {
    seq!['T', 'o', 'p', 'i', 'c']
}

pub open spec fn grpc_port_name() -> Seq<char> {
    seq!['G', 'R', 'P', 'C', ' ', 'p', 'o', 'r', 't']
}

/// The text of an optional setting; empty where it is missing.
pub open spec fn text_or_empty(s: Option<String>) -> Seq<char> {
    match s {
        Some(t) => t@,
        None => Seq::empty(),
    }
}

/// The queue names of a comma-separated list (where the list is missing, of an empty one).
fn split_queue_list(list: &Option<String>) -> (r: Vec<String>)
    ensures
        texts(r@) == split_on(text_or_empty(*list), ','),
{
    match list {
        Some(t) => split_text(t.as_str(), ','),
        None => {
            let empty = String::new();
            split_text(empty.as_str(), ',')
        },
    }
}

impl Args {
    /// The input configuration. Message queues need a consumer tag and a connection string;
    /// the queue names are the comma-separated lists of ordered and unordered queues. gRPC
    /// needs a port.
    pub fn input_config(&self) -> (r: Result<InputConfig, MissingConfigError>)
        ensures
            match self.ingestion_method {
                IngestionMethod::MessageQueue => match self.input_args.consumer_tag {
                    None => r matches Err(e) && e.0@ == consumer_tag_name(),
                    Some(tag) => match self.input_args.connection_string {
                        None => r matches Err(e) && e.0@ == connection_string_name(),
                        Some(cs) => r matches Ok(InputConfig::MessageQueue(c)) && c.consumer_tag@
                            == tag@ && c.connection_string@ == cs@ && texts(c.queue_names@)
                            == split_on(text_or_empty(self.input_args.queue_name), ',') && texts(
                            c.unordered_queue_names@,
                        ) == split_on(text_or_empty(self.input_args.unordered_queue_name), ',')
                            && c.task_limit == self.input_args.task_limit,
                    },
                },
                IngestionMethod::GRpc => match self.input_args.grpc_port {
                    None => r matches Err(e) && e.0@ == grpc_port_name(),
                    Some(p) => r matches Ok(InputConfig::GRpc(g)) && g.grpc_port == p,
                },
            },
    {
        let input_args = &self.input_args;
        match self.ingestion_method {
            IngestionMethod::MessageQueue => {
                let consumer_tag = match &input_args.consumer_tag {
                    Some(t) => t.clone(),
                    None => {
                        let name = "Consumer tag".to_string();
                        proof {
                            reveal_strlit("Consumer tag");
                            assert(name@ =~= consumer_tag_name());
                        }
                        return Err(MissingConfigError(name));
                    },
                };
                let connection_string = match &input_args.connection_string {
                    Some(t) => t.clone(),
                    None => {
                        let name = "Connection string".to_string();
                        proof {
                            reveal_strlit("Connection string");
                            assert(name@ =~= connection_string_name());
                        }
                        return Err(MissingConfigError(name));
                    },
                };
                let queue_names = split_queue_list(&input_args.queue_name);
                let unordered_queue_names = split_queue_list(&input_args.unordered_queue_name);
                let task_limit = input_args.task_limit;
                if queue_names.len() == 0 && unordered_queue_names.len() == 0 {
                    let name = "Topic".to_string();
                    proof {
                        reveal_strlit("Topic");
                        assert(name@ =~= topic_name());
                        lemma_split_upto_nonempty(
                            text_or_empty(input_args.queue_name),
                            ',',
                            text_or_empty(input_args.queue_name).len(),
                        );
                        assert(texts(queue_names@).len() == queue_names@.len());
                    }
                    return Err(MissingConfigError(name));
                }
                Ok(
                    InputConfig::MessageQueue(
                        MessageQueueConfig {
                            connection_string,
                            consumer_tag,
                            queue_names,
                            task_limit,
                            unordered_queue_names,
                        },
                    ),
                )
            },
            IngestionMethod::GRpc => match input_args.grpc_port {
                Some(grpc_port) => Ok(InputConfig::GRpc(GRpcConfig { grpc_port })),
                None => {
                    let name = "GRPC port".to_string();
                    proof {
                        reveal_strlit("GRPC port");
                        assert(name@ =~= grpc_port_name());
                    }
                    Err(MissingConfigError(name))
                },
            },
        }
    }
}

/// A list of queue names always names at least one queue (a missing or empty list names the
/// queue with the empty name), so the message queue input never lacks a topic.
pub proof fn law_queue_list_never_empty(list: Seq<char>)
    ensures
        split_on(list, ',').len() >= 1,
{
    lemma_split_upto_nonempty(list, ',', list.len());
}

} // verus!
