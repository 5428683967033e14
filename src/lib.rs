//! An event sink for a tracing pipeline: it gathers an event's fields,
//! renders them in a fixed JSON envelope, derives the broker topic from the
//! event's target and describes the record that is published to the broker.
pub mod custom_layer;
pub mod envelope;
pub mod fields;
pub mod publish;
pub mod topic;

pub use custom_layer::{CustomLayer, PreparedEvent};
pub use envelope::Level;
pub use fields::{FieldMap, FieldValue};
pub use publish::{BrokerRecord, ProducerConfig, RequiredAcks};
