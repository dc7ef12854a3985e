use holocron_db::framing::{decode_frame, encode_frame, FrameRead};
use holocron_db::proto::{read_envelope, read_flag_msg, read_read_resp, ReqType};
use holocron_db::socket_interface::client_requests::{
    backup_request, create_request, delete_request, ping_request, read_request, restore_request,
    update_request,
};
use holocron_db::socket_interface::decode_utils::{
    kvp_proto_to_kvp_rust, parse_create_request, parse_generic_request, parse_generic_response,
    parse_ping_request, parse_read_request,
};
use holocron_db::socket_interface::server_impl::{
    classify_frame, Action, ConstructCacheServer, HolocronDBServer, Incoming,
};
use holocron_db::socket_interface::socket_errors::{ErrorKind, SocketError};

/// Runs one request envelope through the server as a connection would.
fn exchange(server: &mut ConstructCacheServer, request: &[u8]) -> Vec<u8> {
    match classify_frame(request) {
        Incoming::Request(op, payload) => match server.respond(op, &payload) {
            Action::Send(b) => b,
            _ => panic!("unexpected persistence step"),
        },
        _ => panic!("request did not classify"),
    }
}

fn flag_of(response: &[u8]) -> bool {
    let (_, payload) = read_envelope(response).ok().unwrap();
    read_flag_msg(&payload).ok().unwrap()
}

#[test]
fn ping_request_bytes_are_exact() {
    assert_eq!(ping_request("hi"), vec![0x12, 0x04, 0x0a, 0x02, b'h', b'i']);
}

#[test]
fn create_request_bytes_are_exact() {
    assert_eq!(
        create_request("k", "v"),
        vec![0x08, 0x01, 0x12, 0x08, 0x0a, 0x06, 0x0a, 0x01, b'k', 0x12, 0x01, b'v']
    );
}

#[test]
fn request_builders_carry_their_operation() {
    let cases = vec![
        (ping_request("m"), 0u64),
        (create_request("k", "v"), 1),
        (read_request("k"), 2),
        (update_request("k", "v"), 3),
        (delete_request("k"), 4),
        (backup_request("b"), 5),
        (restore_request("b"), 6),
    ];
    for (bytes, code) in cases {
        let req = parse_generic_request(&bytes).ok().unwrap();
        assert_eq!(req.req_type, code);
    }
}

#[test]
fn parse_requests_read_payloads() {
    let env = parse_generic_request(&read_request("Hello")).ok().unwrap();
    assert_eq!(parse_read_request(&env.payload).ok().unwrap().key, "Hello");
    let env = parse_generic_request(&ping_request("yo")).ok().unwrap();
    assert_eq!(parse_ping_request(&env.payload).ok().unwrap().ping_message, "yo");
    let env = parse_generic_request(&create_request("a", "b")).ok().unwrap();
    let pair = parse_create_request(&env.payload).ok().unwrap().pair.unwrap();
    let rust_pair = kvp_proto_to_kvp_rust(pair);
    assert_eq!(rust_pair.key(), "a");
    assert_eq!(rust_pair.value(), "b");
}

#[test]
fn parse_errors_are_parse_errors() {
    match parse_generic_request(&[0x12, 0x09, 0x01]) {
        Ok(_) => panic!("expected failure"),
        Err(e) => assert_eq!(e.kind_, ErrorKind::ParseError),
    }
    match parse_ping_request(&[0x0a, 0x01, 0xff]) {
        Ok(_) => panic!("expected failure"),
        Err(e) => assert_eq!(e.kind_, ErrorKind::ParseError),
    }
    // a varint that never ends
    assert!(parse_generic_request(&[0x08, 0x80, 0x80]).is_err());
    // wire type 7 does not exist
    assert!(parse_generic_request(&[0x0f]).is_err());
    // tag 0 is not a tag
    assert!(parse_generic_request(&[0x00, 0x01]).is_err());
}

#[test]
fn unknown_fields_are_skipped() {
    // field 3 as a varint, field 4 as 32-bit data, then the operation code
    let bytes = vec![0x18, 0x05, 0x25, 1, 2, 3, 4, 0x08, 0x02];
    let req = parse_generic_request(&bytes).ok().unwrap();
    assert_eq!(req.req_type, 2);
    assert!(req.payload.is_empty());
}

#[test]
fn ping_is_acked() {
    let mut server = ConstructCacheServer::new("127.0.0.1:0", "default");
    let resp = exchange(&mut server, &ping_request("Hello"));
    assert_eq!(parse_generic_response(&resp).ok().unwrap(), "Hello acked by server");
    // a ping that does not decode gets an empty reply
    assert!(server.handle_ping_request(&[0x0a, 0x05]).is_empty());
}

#[test]
fn end_to_end_scenario() {
    let mut server = HolocronDBServer::new("127.0.0.1:0", "default");

    let r = exchange(&mut server, &create_request("Hello", "Value1"));
    assert!(flag_of(&r));
    assert_eq!(parse_generic_response(&r).ok().unwrap(), "Successfully created pair!");

    let r = exchange(&mut server, &create_request("Hello", "Value2"));
    assert!(!flag_of(&r));
    assert_eq!(parse_generic_response(&r).ok().unwrap(), "Key already exists!");

    let r = exchange(&mut server, &read_request("Hello"));
    let (code, payload) = read_envelope(&r).ok().unwrap();
    assert_eq!(code, 2);
    let (success, pair) = read_read_resp(&payload).ok().unwrap();
    assert!(success);
    let pair = pair.unwrap();
    assert_eq!(pair.key, "Hello");
    assert_eq!(pair.value, "Value1");
    assert_eq!(parse_generic_response(&r).ok().unwrap(), "Value1");

    let r = exchange(&mut server, &delete_request("Hello"));
    assert!(flag_of(&r));

    let r = exchange(&mut server, &read_request("Hello"));
    let (_, payload) = read_envelope(&r).ok().unwrap();
    let (success, pair) = read_read_resp(&payload).ok().unwrap();
    assert!(!success);
    assert!(pair.is_none());
    assert_eq!(parse_generic_response(&r).ok().unwrap(), "Cannot find key!");
}

#[test]
fn update_always_succeeds() {
    let mut server = ConstructCacheServer::new("a", "s");
    assert!(flag_of(&exchange(&mut server, &update_request("k", "v1"))));
    assert!(flag_of(&exchange(&mut server, &update_request("k", "v2"))));
    let r = exchange(&mut server, &read_request("k"));
    assert_eq!(parse_generic_response(&r).ok().unwrap(), "v2");
    assert!(!flag_of(&exchange(&mut server, &delete_request("missing"))));
}

#[test]
fn bad_payload_gets_failure_reply() {
    let mut server = ConstructCacheServer::new("a", "s");
    assert_eq!(server.handle_create_request(&[0x0a, 0x09]), Vec::<u8>::new());
    assert_eq!(server.handle_update_request(&[0x0a, 0x09]), Vec::<u8>::new());
    assert_eq!(server.handle_delete_request(&[0x0a, 0x09]), Vec::<u8>::new());
    // a create request without a pair
    assert_eq!(server.handle_create_request(&[]), Vec::<u8>::new());
    let r = server.handle_read_request(&[0x0a, 0x09]);
    assert!(r.is_empty());
    // a success flag is field 1 set to 1
    assert_eq!(server.handle_create_request(&create_payload("k", "v")), vec![0x08, 0x01]);
}

fn create_payload(k: &str, v: &str) -> Vec<u8> {
    let env = parse_generic_request(&create_request(k, v)).ok().unwrap();
    env.payload
}

#[test]
fn backup_restore_scenario() {
    let mut server = ConstructCacheServer::new("a", "store");
    exchange(&mut server, &create_request("Hello", "Value1"));
    exchange(&mut server, &create_request("Goodbye", "Value2"));

    let (op, payload) = match classify_frame(&backup_request("b1")) {
        Incoming::Request(op, p) => (op, p),
        _ => panic!("backup did not classify"),
    };
    assert_eq!(op, ReqType::Backup);
    let artifact = match server.respond(op, &payload) {
        Action::WriteArtifact(path, contents) => {
            assert_eq!(path, "b1");
            contents
        }
        _ => panic!("expected a write"),
    };
    assert!(flag_of(&server.backup_reply(true)));

    exchange(&mut server, &delete_request("Hello"));
    exchange(&mut server, &update_request("Goodbye", "changed"));

    let (op, payload) = match classify_frame(&restore_request("b1")) {
        Incoming::Request(op, p) => (op, p),
        _ => panic!("restore did not classify"),
    };
    match server.respond(op, &payload) {
        Action::ReadArtifact(path) => assert_eq!(path, "b1"),
        _ => panic!("expected a read"),
    }
    let reply = server.restore_reply(Ok(artifact));
    assert!(flag_of(&reply));

    let r = exchange(&mut server, &read_request("Hello"));
    assert_eq!(parse_generic_response(&r).ok().unwrap(), "Value1");
    let r = exchange(&mut server, &read_request("Goodbye"));
    assert_eq!(parse_generic_response(&r).ok().unwrap(), "Value2");
}

#[test]
fn failed_restore_keeps_store() {
    let mut server = ConstructCacheServer::new("a", "store");
    exchange(&mut server, &create_request("k", "v"));
    assert!(!flag_of(&server.restore_reply(Ok(b"garbage".to_vec()))));
    let err = holocron_db::key_value_store::errors::RWError::new(
        holocron_db::key_value_store::errors::ErrorKind::FileOpenError,
        "no such file",
    );
    assert!(!flag_of(&server.restore_reply(Err(err))));
    let r = exchange(&mut server, &read_request("k"));
    assert_eq!(parse_generic_response(&r).ok().unwrap(), "v");
}

#[test]
fn malformed_frames_close_only_their_connection() {
    let mut server = ConstructCacheServer::new("a", "s");
    exchange(&mut server, &create_request("k", "v"));
    let good = create_request("x", "y");
    let truncated = &good[..good.len() - 2];
    assert!(matches!(classify_frame(truncated), Incoming::Malformed(_)));
    assert!(matches!(classify_frame(&[0xff]), Incoming::Malformed(_)));
    assert!(matches!(classify_frame(&[]), Incoming::Shutdown));
    assert!(matches!(classify_frame(&[0x08, 0x09]), Incoming::Unknown(9)));
    // the store and other requests are untouched
    let r = exchange(&mut server, &read_request("k"));
    assert_eq!(parse_generic_response(&r).ok().unwrap(), "v");
}

#[test]
fn shared_and_exclusive_operations() {
    assert!(!ReqType::Ping.needs_exclusive());
    assert!(!ReqType::Read.needs_exclusive());
    assert!(ReqType::Create.needs_exclusive());
    assert!(ReqType::Backup.needs_exclusive());
    let mut server = ConstructCacheServer::new("a", "s");
    exchange(&mut server, &create_request("k", "v"));
    let env = parse_generic_request(&read_request("k")).ok().unwrap();
    let r = server.respond_shared(ReqType::Read, &env.payload).unwrap();
    assert_eq!(parse_generic_response(&r).ok().unwrap(), "v");
    assert!(server.respond_shared(ReqType::Delete, &env.payload).is_none());
    assert_eq!(server.listen_addr(), "a");
}

#[test]
fn frames_split_and_join() {
    let f = encode_frame(&[1, 2, 3]).unwrap();
    assert_eq!(f, vec![0, 0, 0, 3, 1, 2, 3]);
    match decode_frame(&f[..5]) {
        FrameRead::Incomplete => {}
        _ => panic!("partial frame"),
    }
    match decode_frame(&f[..2]) {
        FrameRead::Incomplete => {}
        _ => panic!("partial head"),
    }
    let mut two = f.clone();
    two.extend_from_slice(&[0, 0, 0, 1, 9]);
    match decode_frame(&two) {
        FrameRead::Complete(p, n) => {
            assert_eq!(p, vec![1, 2, 3]);
            assert_eq!(n, 7);
            match decode_frame(&two[n..]) {
                FrameRead::Complete(p2, n2) => {
                    assert_eq!(p2, vec![9]);
                    assert_eq!(n2, 5);
                }
                _ => panic!("second frame"),
            }
        }
        _ => panic!("whole frame"),
    }
    match decode_frame(&[0, 0, 0, 0]) {
        FrameRead::Complete(p, n) => {
            assert!(p.is_empty());
            assert_eq!(n, 4);
        }
        _ => panic!("empty frame"),
    }
    match decode_frame(&[1, 0, 0, 0]) {
        FrameRead::Oversized => {}
        _ => panic!("oversized"),
    }
    assert!(encode_frame(&vec![0u8; 8 * 1024 * 1024 + 1]).is_none());
}

#[test]
fn socket_error_messages() {
    let e = SocketError::parse("bad".to_string());
    assert_eq!(e.message(), "Cannot parse payload, context: bad");
}

#[test]
fn unknown_response_operations_are_reported() {
    let r = parse_generic_response(&[0x08, 0x04]).ok().unwrap();
    assert_eq!(r, "I did not understand what the server said");
    // a successful read response without a pair is malformed
    assert!(parse_generic_response(&[0x08, 0x02, 0x12, 0x02, 0x08, 0x01]).is_err());
}
