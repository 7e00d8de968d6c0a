use vstd::prelude::*;

use crate::command_service::communication::Resolution;
use crate::command_service::report::GenericMessage;
use crate::ids::{id_text, id_to_string};

verus! {

/// A record for the Druid topic: keyed by the object's id, stamped with the message's time.
#[derive(Debug, PartialEq)]
pub struct DruidRecord {
    pub topic: String,
    pub key: String,
    pub payload: Vec<u8>,
    pub timestamp: i64,
}

/// The record that stores a message in Druid.
pub fn druid_record(msg: GenericMessage, topic: &str) -> (r: DruidRecord)
    ensures
        r.topic@ == topic@,
        r.key@ == id_text(msg.object_id),
        r.payload@ == msg.payload@,
        r.timestamp == msg.timestamp,
{
    DruidRecord {
        topic: topic.to_string(),
        key: id_to_string(msg.object_id),
        payload: msg.payload,
        timestamp: msg.timestamp,
    }
}

/// What sending a record to Druid came to: a failure of the storage layer with the
/// delivery's error, or success.
pub fn druid_resolution(object_id: u128, delivery: Result<(), String>) -> (r: Resolution)
    ensures
        match delivery {
            Ok(_) => r == Resolution::Success,
            Err(e) => r matches Resolution::StorageLayerFailure { description, object_id: id }
                && description@ == e@ && id == object_id,
        },
{
    match delivery {
        Ok(_) => Resolution::Success,
        Err(e) => Resolution::StorageLayerFailure { description: e, object_id },
    }
}

} // verus!
