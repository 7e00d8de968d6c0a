use vstd::prelude::*;

verus! {

/// A message that the command service stores.
#[derive(Clone, Debug, PartialEq)]
pub struct GenericMessage {
    pub object_id: u128,
    pub schema_id: u128,
    pub timestamp: i64,
    pub payload: Vec<u8>,
}

/// Where full failure reports go: the topic, and the name of the storage plugin.
#[derive(Clone, Debug, PartialEq)]
pub struct FullReportServiceConfig {
    pub topic: String,
    pub output_plugin: String,
}

/// The reporting of failures for one message.
#[derive(Clone, Debug, PartialEq)]
pub struct FullReportServiceInstance {
    pub topic: String,
    pub output_plugin: String,
    pub msg: GenericMessage,
}

/// Whether and where failures are reported.
#[derive(Clone, Debug, PartialEq)]
pub enum ReportService {
    Full(FullReportServiceConfig),
    Disabled,
}

/// A failure report as it is published: the application, the storage plugin, what went
/// wrong, the object and the message's payload.
#[derive(Debug, PartialEq)]
pub struct StatusReport {
    pub application: String,
    pub output_plugin: String,
    pub description: String,
    pub object_id: u128,
    pub payload: Vec<u8>,
}

/// The name under which the command service reports.
pub open spec fn application_name() -> Seq<char> {
    seq!['C', 'o', 'm', 'm', 'a', 'n', 'd', ' ', 'S', 'e', 'r', 'v', 'i', 'c', 'e']
}

/// The key of published reports.
pub open spec fn report_key() -> Seq<char> {
    seq!['c', 'o', 'm', 'm', 'a', 'n', 'd', '_', 's', 'e', 'r', 'v', 'i', 'c', 'e', '.', 's', 't', 'a', 't', 'u', 's']
}

fn copy_bytes(b: &Vec<u8>) -> (r: Vec<u8>)
    ensures
        r@ == b@,
{
    let mut out: Vec<u8> = Vec::new();
    let mut i: usize = 0;
    while i < b.len()
        invariant
            i <= b.len(),
            out@ =~= b@.take(i as int),
        decreases b.len() - i,
    {
        out.push(b[i]);
        i = i + 1;
    }
    assert(b@.take(i as int) =~= b@);
    out
}

impl ReportService {
    /// The reporting for a message: full reporting keeps the topic, the plugin and the
    /// message; disabled reporting reports nothing.
    pub fn instantiate(&self, msg: &GenericMessage) -> (r: Option<FullReportServiceInstance>)
        ensures
            match *self {
                ReportService::Full(c) => r matches Some(i) && i.topic@ == c.topic@
                    && i.output_plugin@ == c.output_plugin@ && i.msg.object_id == msg.object_id
                    && i.msg.schema_id == msg.schema_id && i.msg.timestamp == msg.timestamp
                    && i.msg.payload@ == msg.payload@,
                ReportService::Disabled => r is None,
            },
    {
        match self {
            ReportService::Full(config) => Some(
                FullReportServiceInstance {
                    topic: config.topic.clone(),
                    output_plugin: config.output_plugin.clone(),
                    msg: GenericMessage {
                        object_id: msg.object_id,
                        schema_id: msg.schema_id,
                        timestamp: msg.timestamp,
                        payload: copy_bytes(&msg.payload),
                    },
                },
            ),
            ReportService::Disabled => None,
        }
    }
}

impl FullReportServiceInstance {
    /// The report of a failure of this message.
    pub fn report(&self, description: &str) -> (r: StatusReport)
        ensures
            r.application@ == application_name(),
            r.output_plugin@ == self.output_plugin@,
            r.description@ == description@,
            r.object_id == self.msg.object_id,
            r.payload@ == self.msg.payload@,
    {
        let application = "Command Service".to_string();
        proof {
            reveal_strlit("Command Service");
            assert(application@ =~= application_name());
        }
        StatusReport {
            application,
            output_plugin: self.output_plugin.clone(),
            description: description.to_string(),
            object_id: self.msg.object_id,
            payload: copy_bytes(&self.msg.payload),
        }
    }

    /// The key under which reports are published.
    pub fn key(&self) -> (r: String)
        ensures
            r@ == report_key(),
    {
        let k = "command_service.status".to_string();
        proof {
            reveal_strlit("command_service.status");
            assert(k@ =~= report_key());
        }
        k
    }
}

/// The connections to the document storage of a Sleigh plugin.
#[derive(Clone, Debug, PartialEq)]
pub struct SleighConnectionManager {
    pub addr: String,
}

} // verus!
