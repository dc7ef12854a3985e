//! A networked key-value store's protocol engine: the wire codec (varints,
//! fields, length-prefixed frames), the message schema, the store, the
//! request dispatcher and the backup format, each with its contract.

pub mod framing;
pub mod key_value_store;
pub mod proto;
pub mod socket_interface;
pub mod wire;
