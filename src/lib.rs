//! Client-side session core of an MQTT-style publish/subscribe protocol:
//! topic matching, the subscription registry, the QoS acknowledgement engine
//! and the connection state machine. The core performs no I/O: a driver feeds
//! it transport events and takes back the packets to send and the events to
//! dispatch to the application's handlers.
pub mod client;
pub mod error;
pub mod event;
pub mod inflight;
pub mod message;
pub mod packet;
pub mod registry;
pub mod topic;
pub mod types;

pub use client::{Client, ReconnectPolicy};
pub use error::{Error, Result};
pub use event::{Event, OPERATIONS_ABANDONED, SUBSCRIPTION_REJECTED};
pub use message::{Message, MessageView};
pub use packet::Packet;
pub use types::{ConnectionState, QoS};
