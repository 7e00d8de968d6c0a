use vstd::prelude::*;

use std::sync::Arc;

use crate::command_service::report::ReportService;
use crate::text::append_text;

verus! {

/// What storing a message came to.
#[derive(Debug, PartialEq)]
pub enum Resolution {
    StorageLayerFailure { description: String, object_id: u128 },
    UserFailure { description: String, object_id: u128, context: String },
    CommandServiceFailure { object_id: u128 },
    Success,
}

/// A failure to report: what went wrong, and with which object.
#[derive(Debug, PartialEq)]
pub struct FailureReport {
    pub description: String,
    pub object_id: u128,
}

/// A storage plugin of the command service.
pub trait OutputPlugin {
    /// The name of the plugin.
    fn name(&self) -> &'static str;
}

/// Hands messages to a storage plugin and reports failures.
pub struct MessageRouter<P: OutputPlugin> {
    report_service: Arc<ReportService>,
    output_plugin: P,
}

pub open spec fn caused_by_text(description: Seq<char>, context: Seq<char>) -> Seq<char> {
    description + seq![';', ' ', 'c', 'a', 'u', 's', 'e', 'd', ' ', 'b', 'y', ' ', '`'] + context + seq!['`']
}

pub open spec fn internal_error_text() -> Seq<char> {
    seq!['I', 'n', 't', 'e', 'r', 'n', 'a', 'l', ' ', 's', 'e', 'r', 'v', 'e', 'r', ' ', 'e', 'r', 'r', 'o', 'r']
}

/// The failure to report for a resolution: a failure of the storage layer as it is; a
/// failure of the user with its cause; a failure of the command service as an internal
/// error; nothing for a success.
pub fn failure_report(resolution: &Resolution) -> (r: Option<FailureReport>)
    ensures
        match *resolution {
            Resolution::StorageLayerFailure { description, object_id } => r matches Some(f)
                && f.description@ == description@ && f.object_id == object_id,
            Resolution::UserFailure { description, object_id, context } => r matches Some(f)
                && f.description@ == caused_by_text(description@, context@) && f.object_id
                == object_id,
            Resolution::CommandServiceFailure { object_id } => r matches Some(f) && f.description@
                == internal_error_text() && f.object_id == object_id,
            Resolution::Success => r is None,
        },
{
    match resolution {
        Resolution::StorageLayerFailure { description, object_id } => Some(
            FailureReport { description: description.clone(), object_id: *object_id },
        ),
        Resolution::UserFailure { description, object_id, context } => {
            let mut text = description.clone();
            append_text(&mut text, "; caused by `");
            append_text(&mut text, context.as_str());
            append_text(&mut text, "`");
            proof {
                reveal_strlit("; caused by `");
                reveal_strlit("`");
                assert(text@ =~= caused_by_text(description@, context@));
            }
            Some(FailureReport { description: text, object_id: *object_id })
        },
        Resolution::CommandServiceFailure { object_id } => {
            let text = "Internal server error".to_string();
            proof {
                reveal_strlit("Internal server error");
                assert(text@ =~= internal_error_text());
            }
            Some(FailureReport { description: text, object_id: *object_id })
        },
        Resolution::Success => None,
    }
}

impl<P: OutputPlugin> MessageRouter<P> {
    /// The report service.
    pub closed spec fn reports(&self) -> ReportService {
        *self.report_service
    }

    /// The storage plugin.
    pub closed spec fn plugin(&self) -> P {
        self.output_plugin
    }

    pub fn new(report_service: ReportService, output_plugin: P) -> (r: Self)
        ensures
            r.reports() == report_service,
            r.plugin() == output_plugin,
    {
        Self { report_service: Arc::new(report_service), output_plugin }
    }

    pub fn report_service(&self) -> (r: &ReportService)
        ensures
            *r == self.reports(),
    {
        &self.report_service
    }

    pub fn output_plugin(&self) -> (r: &P)
        ensures
            *r == self.plugin(),
    {
        &self.output_plugin
    }
}

} // verus!
