//! A single node of a small message-passing cluster.
//!
//! A [`Node`] answers `init`, `echo`, `generate`, `broadcast`, `read` and
//! `topology` requests. It is a deterministic state machine: every inbound
//! [`Message`] is answered with an ordered batch of outbound messages, and
//! [`Node::handle_message`] is proved to do exactly what the mathematical
//! model in [`model`] says. What follows from the model for whole runs of
//! messages is proved in [`laws`].

pub mod copy;
pub mod error;
pub mod laws;
pub mod message;
pub mod model;
pub mod node;
pub mod node_id;
pub mod topology;

pub use error::NodeError;
pub use message::{Body, Message, MessageType};
pub use node::Node;
pub use topology::Topology;
