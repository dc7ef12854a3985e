pub mod errors;
pub mod filestore;
pub mod key_value_pair;
pub mod key_value_store;
