pub mod client_requests;
pub mod decode_utils;
pub mod server_impl;
pub mod socket_errors;
