use crate::key_value_store::key_value_pair;
use crate::proto::{
    BackupReq, CreateKvPairReq, DeleteKvPairReq, GenericRequest, KeyValuePair,
    PingRequest, ReadKvPairReq, RestoreReq, UpdateKvPairReq, decode_envelope, decode_flag_msg,
    decode_pair_msg, decode_read_resp, decode_text_msg, opt_pair_view, read_envelope,
    read_flag_msg, read_pair_msg, read_read_resp, read_text_msg,
};
use crate::socket_interface::socket_errors::{ErrorKind, SocketError};
use vstd::prelude::*;
use vstd::string::*;

verus! {

pub fn parse_generic_request(request: &[u8]) -> (r: Result<GenericRequest, SocketError>)
    ensures
        match r {
            Ok(g) => decode_envelope(request@) == Some((g.req_type as nat, g.payload@)),
            Err(e) => decode_envelope(request@) is None && e.kind_ == ErrorKind::ParseError,
        },
{
    match read_envelope(request) {
        Ok((code, payload)) => Ok(GenericRequest { req_type: code, payload }),
        Err(e) => Err(SocketError::parse(e)),
    }
}

pub fn parse_ping_request(request: &[u8]) -> (r: Result<PingRequest, SocketError>)
    ensures
        match r {
            Ok(p) => decode_text_msg(request@) == Some(p.ping_message@),
            Err(e) => decode_text_msg(request@) is None && e.kind_ == ErrorKind::ParseError,
        },
{
    match read_text_msg(request) {
        Ok(m) => Ok(PingRequest { ping_message: m }),
        Err(e) => Err(SocketError::parse(e)),
    }
}

pub fn parse_create_request(request: &[u8]) -> (r: Result<CreateKvPairReq, SocketError>)
    ensures
        match r {
            Ok(c) => decode_pair_msg(request@) == Some(opt_pair_view(c.pair)),
            Err(e) => decode_pair_msg(request@) is None && e.kind_ == ErrorKind::ParseError,
        },
{
    match read_pair_msg(request) {
        Ok(p) => Ok(CreateKvPairReq { pair: p }),
        Err(e) => Err(SocketError::parse(e)),
    }
}

pub fn parse_read_request(request: &[u8]) -> (r: Result<ReadKvPairReq, SocketError>)
    ensures
        match r {
            Ok(q) => decode_text_msg(request@) == Some(q.key@),
            Err(e) => decode_text_msg(request@) is None && e.kind_ == ErrorKind::ParseError,
        },
{
    match read_text_msg(request) {
        Ok(k) => Ok(ReadKvPairReq { key: k }),
        Err(e) => Err(SocketError::parse(e)),
    }
}

pub fn parse_update_request(request: &[u8]) -> (r: Result<UpdateKvPairReq, SocketError>)
    ensures
        match r {
            Ok(u) => decode_pair_msg(request@) == Some(opt_pair_view(u.pair)),
            Err(e) => decode_pair_msg(request@) is None && e.kind_ == ErrorKind::ParseError,
        },
{
    match read_pair_msg(request) {
        Ok(p) => Ok(UpdateKvPairReq { pair: p }),
        Err(e) => Err(SocketError::parse(e)),
    }
}

pub fn parse_delete_request(request: &[u8]) -> (r: Result<DeleteKvPairReq, SocketError>)
    ensures
        match r {
            Ok(d) => decode_text_msg(request@) == Some(d.key@),
            Err(e) => decode_text_msg(request@) is None && e.kind_ == ErrorKind::ParseError,
        },
{
    match read_text_msg(request) {
        Ok(k) => Ok(DeleteKvPairReq { key: k }),
        Err(e) => Err(SocketError::parse(e)),
    }
}

pub fn parse_backup_request(request: &[u8]) -> (r: Result<BackupReq, SocketError>)
    ensures
        match r {
            Ok(b) => decode_text_msg(request@) == Some(b.backup_id@),
            Err(e) => decode_text_msg(request@) is None && e.kind_ == ErrorKind::ParseError,
        },
{
    match read_text_msg(request) {
        Ok(id) => Ok(BackupReq { backup_id: id }),
        Err(e) => Err(SocketError::parse(e)),
    }
}

pub fn parse_restore_request(request: &[u8]) -> (r: Result<RestoreReq, SocketError>)
    ensures
        match r {
            Ok(b) => decode_text_msg(request@) == Some(b.backup_id@),
            Err(e) => decode_text_msg(request@) is None && e.kind_ == ErrorKind::ParseError,
        },
{
    match read_text_msg(request) {
        Ok(id) => Ok(RestoreReq { backup_id: id }),
        Err(e) => Err(SocketError::parse(e)),
    }
}

/// What the client shows for a ping response: the server's message.
pub open spec fn ping_response_text(payload: Seq<u8>) -> Option<Seq<char>> {
    decode_text_msg(payload)
}

/// What the client shows for a create response.
pub open spec fn create_response_text(payload: Seq<u8>) -> Option<Seq<char>> {
    match decode_flag_msg(payload) {
        Some(x) => Some(
            if x {
                "Successfully created pair!"@
            } else {
                "Key already exists!"@
            },
        ),
        None => None,
    }
}

/// What the client shows for a read response: the value, or that the key is
/// missing; a success without a pair is malformed.
pub open spec fn read_response_text(payload: Seq<u8>) -> Option<Seq<char>> {
    match decode_read_resp(payload) {
        Some((x, o)) => if x {
            match o {
                Some(p) => Some(p.1),
                None => None,
            }
        } else {
            Some("Cannot find key!"@)
        },
        None => None,
    }
}

/// What the client shows for a whole response envelope; `None` is a parse
/// error.
pub open spec fn response_text(response: Seq<u8>) -> Option<Seq<char>> {
    match decode_envelope(response) {
        Some((code, payload)) => if code == 0 {
            ping_response_text(payload)
        } else if code == 1 {
            create_response_text(payload)
        } else if code == 2 {
            read_response_text(payload)
        } else {
            Some("I did not understand what the server said"@)
        },
        None => None,
    }
}

fn parse_ping_response(payload: &[u8]) -> (r: Result<String, SocketError>)
    ensures
        match r {
            Ok(s) => ping_response_text(payload@) == Some(s@),
            Err(e) => ping_response_text(payload@) is None && e.kind_ == ErrorKind::ParseError,
        },
{
    match read_text_msg(payload) {
        Ok(m) => Ok(m),
        Err(e) => Err(SocketError::parse(e)),
    }
}

fn parse_create_response(payload: &[u8]) -> (r: Result<String, SocketError>)
    ensures
        match r {
            Ok(s) => create_response_text(payload@) == Some(s@),
            Err(e) => create_response_text(payload@) is None && e.kind_ == ErrorKind::ParseError,
        },
{
    match read_flag_msg(payload) {
        Ok(x) => {
            if x {
                Ok(String::from_str("Successfully created pair!"))
            } else {
                Ok(String::from_str("Key already exists!"))
            }
        },
        Err(e) => Err(SocketError::parse(e)),
    }
}

fn parse_read_response(payload: &[u8]) -> (r: Result<String, SocketError>)
    ensures
        match r {
            Ok(s) => read_response_text(payload@) == Some(s@),
            Err(e) => read_response_text(payload@) is None && e.kind_ == ErrorKind::ParseError,
        },
{
    match read_read_resp(payload) {
        Ok((x, o)) => {
            if x {
                match o {
                    Some(p) => Ok(p.value),
                    None => Err(SocketError::parse(String::from_str("No pair in response"))),
                }
            } else {
                Ok(String::from_str("Cannot find key!"))
            }
        },
        Err(e) => Err(SocketError::parse(e)),
    }
}

/// Turns a response envelope into the line the client shows.
pub fn parse_generic_response(response: &[u8]) -> (r: Result<String, SocketError>)
    ensures
        match r {
            Ok(s) => response_text(response@) == Some(s@),
            Err(e) => response_text(response@) is None && e.kind_ == ErrorKind::ParseError,
        },
{
    let (code, payload) = match read_envelope(response) {
        Ok(x) => x,
        Err(e) => return Err(SocketError::parse(e)),
    };
    if code == 0 {
        parse_ping_response(payload.as_slice())
    } else if code == 1 {
        parse_create_response(payload.as_slice())
    } else if code == 2 {
        parse_read_response(payload.as_slice())
    } else {
        Ok(String::from_str("I did not understand what the server said"))
    }
}

/// The store's pair for a pair that came over the wire.
pub fn kvp_proto_to_kvp_rust(inp: KeyValuePair) -> (r: key_value_pair::KeyValuePair)
    ensures
        r@ == inp@,
{
    key_value_pair::KeyValuePair::new(inp.key.as_str(), inp.value.as_str())
}

} // verus!
