//! The sink: for each event it renders the envelope and describes the record
//! that publishes it to the broker.
use vstd::prelude::*;
use vstd::utf8::encode_utf8;
use crate::envelope::{envelope_text, level_name, render_envelope, Level};
use crate::fields::FieldMap;
use crate::publish::{BrokerRecord, ProducerConfig, RequiredAcks, ACK_TIMEOUT_SECS, UNASSIGNED_PARTITION};
use crate::topic::{topic_name, topic_of};

verus! {

/// The sink, with the settings of the producers it opens: the broker's
/// address, the acknowledgment timeout and the acknowledgments awaited.
pub struct CustomLayer {
    kafka_broker: String,
    ack_timeout_secs: u64,
    required_acks: RequiredAcks,
}

/// The envelope of one event and the record that publishes it.
pub struct PreparedEvent {
    pub json: String,
    pub record: BrokerRecord,
}

impl CustomLayer {
    /// The broker's address, as `host:port`.
    pub closed spec fn broker(&self) -> Seq<char> {
        self.kafka_broker@
    }

    /// Seconds that a producer waits for the broker's acknowledgment.
    pub closed spec fn ack_timeout(&self) -> u64 {
        self.ack_timeout_secs
    }

    /// The acknowledgments that a producer awaits.
    pub closed spec fn acks(&self) -> RequiredAcks {
        self.required_acks
    }

    /// A sink that publishes to the broker at `kafka_broker`, waiting one
    /// second for one acknowledgment.
    pub fn new(kafka_broker: &str) -> (r: Self)
        ensures
            r.broker() == kafka_broker@,
            r.ack_timeout() == ACK_TIMEOUT_SECS,
            r.acks() == RequiredAcks::One,
    {
        CustomLayer::with_settings(kafka_broker, ACK_TIMEOUT_SECS, RequiredAcks::One)
    }

    /// A sink that publishes to the broker at `kafka_broker`, waiting
    /// `ack_timeout_secs` seconds for the acknowledgments `required_acks`.
    pub fn with_settings(kafka_broker: &str, ack_timeout_secs: u64, required_acks: RequiredAcks) -> (r:
        Self)
        ensures
            r.broker() == kafka_broker@,
            r.ack_timeout() == ack_timeout_secs,
            r.acks() == required_acks,
    {
        CustomLayer { kafka_broker: kafka_broker.to_owned(), ack_timeout_secs, required_acks }
    }

    /// The broker's address.
    pub fn broker_address(&self) -> (r: &str)
        ensures
            r@ == self.broker(),
    {
        self.kafka_broker.as_str()
    }

    /// The topic for events of target `input`: every `_` is removed, then each
    /// `::` becomes `-`.
    pub fn to_kafka_topic_name(&self, input: &str) -> (r: String)
        ensures
            r@ == topic_of(input@),
    {
        topic_name(input)
    }

    /// The settings of a producer for this sink: its one broker, and the
    /// sink's acknowledgment timeout and acknowledgments.
    pub fn producer_config(&self) -> (r: ProducerConfig)
        ensures
            r.hosts@.len() == 1,
            r.hosts@[0]@ == self.broker(),
            r.ack_timeout_secs == self.ack_timeout(),
            r.required_acks == self.acks(),
    {
        let mut hosts: Vec<String> = Vec::new();
        hosts.push(self.kafka_broker.clone());
        ProducerConfig {
            hosts,
            ack_timeout_secs: self.ack_timeout_secs,
            required_acks: self.required_acks,
        }
    }

    /// The record that publishes the rendered event `serialized_event` of
    /// target `target` and level `level`.
    pub fn event_record(&self, target: &str, level: Level, serialized_event: &str) -> (r:
        BrokerRecord)
        ensures
            r.topic@ == topic_of(target@),
            r.key@ == level_name(level),
            r.partition == UNASSIGNED_PARTITION,
            r.value@ == encode_utf8(serialized_event@),
    {
        let topic = self.to_kafka_topic_name(target);
        BrokerRecord::new(topic.as_str(), level, serialized_event)
    }

    /// Handles one event: renders its envelope and the record that publishes
    /// that envelope.
    pub fn prepare_event(&self, target: &str, name: &str, level: Level, fields: &FieldMap) -> (r:
        PreparedEvent)
        ensures
            r.json@ == envelope_text(target@, name@, level, fields@),
            r.record.topic@ == topic_of(target@),
            r.record.key@ == level_name(level),
            r.record.partition == UNASSIGNED_PARTITION,
            r.record.value@ == encode_utf8(r.json@),
    {
        let json = render_envelope(target, name, level, fields);
        let record = self.event_record(target, level, json.as_str());
        PreparedEvent { json, record }
    }
}

} // verus!
