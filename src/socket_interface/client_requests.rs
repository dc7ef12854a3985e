use crate::proto::{
    KeyValuePair, ReqType, encode_envelope, encode_pair_msg, encode_text_msg, envelope_bytes,
    op_code, pair_msg_bytes, text_msg_bytes,
};
use vstd::prelude::*;
use vstd::string::*;

verus! {

/// A request envelope for `op` around an encoded payload.
pub open spec fn request_bytes(op: ReqType, payload: Seq<u8>) -> Seq<u8> {
    envelope_bytes(op_code(op), payload)
}

fn wrap(op: ReqType, payload: Vec<u8>) -> (r: Vec<u8>)
    ensures
        r@ == request_bytes(op, payload@),
{
    encode_envelope(op.code(), payload.as_slice())
}

fn pair_of(key: &str, val: &str) -> (r: Option<KeyValuePair>)
    ensures
        r matches Some(p) && p@ == (key@, val@),
{
    Some(KeyValuePair { key: String::from_str(key), value: String::from_str(val) })
}

/// The request that pings the server with `message`.
pub fn ping_request(message: &str) -> (r: Vec<u8>)
    ensures
        r@ == request_bytes(ReqType::Ping, text_msg_bytes(message@)),
{
    wrap(ReqType::Ping, encode_text_msg(message))
}

/// The request that creates `key` with `val`.
pub fn create_request(key: &str, val: &str) -> (r: Vec<u8>)
    ensures
        r@ == request_bytes(ReqType::Create, pair_msg_bytes(Some((key@, val@)))),
{
    let p = pair_of(key, val);
    wrap(ReqType::Create, encode_pair_msg(&p))
}

/// The request that reads `key`.
pub fn read_request(key: &str) -> (r: Vec<u8>)
    ensures
        r@ == request_bytes(ReqType::Read, text_msg_bytes(key@)),
{
    wrap(ReqType::Read, encode_text_msg(key))
}

/// The request that sets `key` to `val`, present or not.
pub fn update_request(key: &str, val: &str) -> (r: Vec<u8>)
    ensures
        r@ == request_bytes(ReqType::Update, pair_msg_bytes(Some((key@, val@)))),
{
    let p = pair_of(key, val);
    wrap(ReqType::Update, encode_pair_msg(&p))
}

/// The request that deletes `key`.
pub fn delete_request(key: &str) -> (r: Vec<u8>)
    ensures
        r@ == request_bytes(ReqType::Delete, text_msg_bytes(key@)),
{
    wrap(ReqType::Delete, encode_text_msg(key))
}

/// The request that backs the store up under `backup_id`.
pub fn backup_request(backup_id: &str) -> (r: Vec<u8>)
    ensures
        r@ == request_bytes(ReqType::Backup, text_msg_bytes(backup_id@)),
{
    wrap(ReqType::Backup, encode_text_msg(backup_id))
}

/// The request that restores the store from `backup_id`.
pub fn restore_request(backup_id: &str) -> (r: Vec<u8>)
    ensures
        r@ == request_bytes(ReqType::Restore, text_msg_bytes(backup_id@)),
{
    wrap(ReqType::Restore, encode_text_msg(backup_id))
}

} // verus!
