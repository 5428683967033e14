//! What the sink hands to the broker: the producer's settings and the record
//! published for each event.
use vstd::prelude::*;
use vstd::string::*;
use vstd::utf8::encode_utf8;
use crate::envelope::{level_name, Level};

verus! {

/// The partition of a record that leaves the choice to the broker.
pub const UNASSIGNED_PARTITION: i32 = -1;

/// Seconds that a producer waits for the broker's acknowledgment.
pub const ACK_TIMEOUT_SECS: u64 = 1;

/// How many brokers must acknowledge a record before a send completes.
#[derive(Clone, Copy, PartialEq, Eq, Debug, Structural)]
pub enum RequiredAcks {
    /// No acknowledgment is awaited.
    NoAck,
    /// The leader's acknowledgment is awaited.
    One,
    /// Every in-sync replica's acknowledgment is awaited.
    All,
}

/// The settings of the producer that publishes an event.
pub struct ProducerConfig {
    pub hosts: Vec<String>,
    pub ack_timeout_secs: u64,
    pub required_acks: RequiredAcks,
}

/// One record to publish: its topic, partition key, partition and payload.
pub struct BrokerRecord {
    pub topic: String,
    pub key: String,
    pub partition: i32,
    pub value: Vec<u8>,
}

impl BrokerRecord {
    /// The record that publishes `payload` to `topic`, keyed by the name of
    /// `level`, with the partition left to the broker.
    pub fn new(topic: &str, level: Level, payload: &str) -> (r: BrokerRecord)
        ensures
            r.topic@ == topic@,
            r.key@ == level_name(level),
            r.partition == UNASSIGNED_PARTITION,
            r.value@ == encode_utf8(payload@),
    {
        BrokerRecord {
            topic: topic.to_owned(),
            key: level.as_str().to_owned(),
            partition: UNASSIGNED_PARTITION,
            value: payload.as_bytes_vec(),
        }
    }
}

} // verus!
