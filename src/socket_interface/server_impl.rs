use crate::framing::{MAX_FRAME_LEN, frame_bytes};
use crate::key_value_store::errors::RWError;
use crate::key_value_store::filestore::{
    artifact_payload, lemma_artifact_round_trip, store_from_artifact, store_to_artifact,
};
use crate::key_value_store::key_value_store::{
    KeyValueStore, add_spec, delete_spec, entries_map, lemma_serialize_round_trip, update_spec,
};
use crate::proto::{
    CreateKvPairResp, KeyValuePair, PairView, ReqType, decode_envelope, decode_pair_msg,
    decode_store_msg, decode_text_msg, encode_envelope, encode_flag_msg, encode_read_resp,
    encode_text_msg, envelope_bytes, flag_msg_bytes, op_code, op_of_code, read_resp_bytes,
    text_msg_bytes,
};
use crate::socket_interface::decode_utils::{
    kvp_proto_to_kvp_rust, parse_backup_request, parse_create_request, parse_delete_request,
    parse_generic_request, parse_ping_request, parse_read_request, parse_restore_request,
    parse_update_request,
};
use crate::proto::{
    lemma_envelope_len, lemma_envelope_round_trip, lemma_flag_msg_round_trip,
    lemma_pair_msg_round_trip, lemma_read_resp_round_trip, lemma_text_msg_round_trip,
    pair_msg_bytes, decode_flag_msg, lemma_flag_msg_len,
};
use crate::socket_interface::client_requests::request_bytes;
use crate::socket_interface::decode_utils::response_text;
use crate::socket_interface::socket_errors::SocketError;
use vstd::prelude::*;
use vstd::string::*;

verus! {

/// The mapping that a store holds.
pub type StoreMap = Map<Seq<char>, Seq<char>>;

/// The reply to a ping: the message with " acked by server" after it; an
/// empty reply when the request does not decode.
pub open spec fn ping_reply(req: Seq<u8>) -> Seq<u8> {
    match decode_text_msg(req) {
        Some(m) => text_msg_bytes(m + " acked by server"@),
        None => Seq::empty(),
    }
}

/// A create request inserts its pair only when the key is absent, and says
/// whether it did.
pub open spec fn create_outcome(m: StoreMap, req: Seq<u8>) -> (StoreMap, Seq<u8>) {
    match decode_pair_msg(req) {
        Some(Some(p)) => if m.contains_key(p.0) {
            (m, flag_msg_bytes(false))
        } else {
            (m.insert(p.0, p.1), flag_msg_bytes(true))
        },
        _ => (m, flag_msg_bytes(false)),
    }
}

/// A read request answers the key's pair, or failure without a pair.
pub open spec fn read_reply(m: StoreMap, req: Seq<u8>) -> Seq<u8> {
    match decode_text_msg(req) {
        Some(k) => if m.contains_key(k) {
            read_resp_bytes(true, Some((k, m[k])))
        } else {
            read_resp_bytes(false, None)
        },
        None => read_resp_bytes(false, None),
    }
}

/// An update request sets its key, present or not, and succeeds.
pub open spec fn update_outcome(m: StoreMap, req: Seq<u8>) -> (StoreMap, Seq<u8>) {
    match decode_pair_msg(req) {
        Some(Some(p)) => (m.insert(p.0, p.1), flag_msg_bytes(true)),
        _ => (m, flag_msg_bytes(false)),
    }
}

/// A delete request removes its key and says whether it was there.
pub open spec fn delete_outcome(m: StoreMap, req: Seq<u8>) -> (StoreMap, Seq<u8>) {
    match decode_text_msg(req) {
        Some(k) => (m.remove(k), flag_msg_bytes(m.contains_key(k))),
        None => (m, flag_msg_bytes(false)),
    }
}

/// The store that the contents of a backup artifact hold, if any.
pub open spec fn restored(b: Seq<u8>) -> Option<(Seq<char>, Seq<PairView>)> {
    if b.len() == 0 {
        None
    } else {
        match artifact_payload(b) {
            Some(p) => decode_store_msg(p),
            None => None,
        }
    }
}

/// The envelope of a reply to `op`.
pub open spec fn reply_bytes(op: ReqType, payload: Seq<u8>) -> Seq<u8> {
    envelope_bytes(op_code(op), payload)
}

/// The step a backup or restore request takes next.
pub enum PersistStep {
    /// Nothing to do on disk: this is the reply.
    Done(Vec<u8>),
    /// Write these contents to the artifact at `path`, then reply.
    Write { path: String, contents: Vec<u8> },
    /// Read the artifact at `path`, then reply.
    Read { path: String },
}

/// What a request asks of the connection.
pub enum Action {
    /// Send this response envelope.
    Send(Vec<u8>),
    /// Write the artifact, then send `backup_reply`.
    WriteArtifact(String, Vec<u8>),
    /// Read the artifact, then send `restore_reply`.
    ReadArtifact(String),
}

/// What a frame read from a connection calls for.
pub enum Incoming {
    /// A zero-length frame: the peer is done; close without error.
    Shutdown,
    /// The envelope does not decode: framing cannot be trusted, close.
    Malformed(SocketError),
    /// An envelope of an unknown operation code: skip it.
    Unknown(u64),
    /// An operation and its payload.
    Request(ReqType, Vec<u8>),
}

/// Reads one frame of a connection.
pub fn classify_frame(frame: &[u8]) -> (r: Incoming)
    ensures
        frame@.len() == 0 ==> r is Shutdown,
        frame@.len() > 0 ==> match decode_envelope(frame@) {
            None => r is Malformed,
            Some((code, payload)) => match op_of_code(code) {
                None => r matches Incoming::Unknown(c) && c == code,
                Some(op) => r matches Incoming::Request(o, p) && o == op && p@ == payload,
            },
        },
{
    if frame.len() == 0 {
        return Incoming::Shutdown;
    }
    match parse_generic_request(frame) {
        Ok(req) => match ReqType::from_code(req.req_type) {
            Some(op) => Incoming::Request(op, req.payload),
            None => Incoming::Unknown(req.req_type),
        },
        Err(e) => Incoming::Malformed(e),
    }
}

impl ReqType {
    /// Whether the operation changes the store (or holds it still for a
    /// backup): those take the store's lock exclusively.
    pub fn needs_exclusive(&self) -> (r: bool)
        ensures
            r == !(*self == ReqType::Ping || *self == ReqType::Read),
    {
        match self {
            ReqType::Ping => false,
            ReqType::Read => false,
            _ => true,
        }
    }
}

fn invalid_create_resp() -> (r: CreateKvPairResp)
    ensures
        r.success == false,
{
    CreateKvPairResp { success: false }
}

fn flag_reply(x: bool) -> (r: Vec<u8>)
    ensures
        r@ == flag_msg_bytes(x),
{
    encode_flag_msg(x)
}

/// The key-value server: where it listens, and its one store.
pub struct ConstructCacheServer {
    listen_addr_: String,
    kvs_access_: KeyValueStore,
}

/// The server of the earlier name.
pub type HolocronDBServer = ConstructCacheServer;

impl ConstructCacheServer {
    pub closed spec fn wf(&self) -> bool {
        self.kvs_access_.wf()
    }

    /// The mapping the store holds.
    pub closed spec fn store(&self) -> StoreMap {
        self.kvs_access_@
    }

    /// The store's name.
    pub closed spec fn store_name(&self) -> Seq<char> {
        self.kvs_access_.spec_name()
    }

    /// The store's serialized form, as a backup writes it.
    pub closed spec fn serialized(&self) -> Seq<u8> {
        self.kvs_access_.serialized()
    }

    pub closed spec fn spec_listen_addr(&self) -> Seq<char> {
        self.listen_addr_@
    }

    pub fn new(listening_addr: &str, name: &str) -> (r: ConstructCacheServer)
        ensures
            r.wf(),
            r.store() == StoreMap::empty(),
            r.store_name() == name@,
            r.spec_listen_addr() == listening_addr@,
    {
        ConstructCacheServer {
            listen_addr_: String::from_str(listening_addr),
            kvs_access_: KeyValueStore::new(name),
        }
    }

    pub fn listen_addr(&self) -> (r: &str)
        ensures
            r@ == self.spec_listen_addr(),
    {
        self.listen_addr_.as_str()
    }

    pub fn handle_ping_request(&self, binary_req: &[u8]) -> (r: Vec<u8>)
        ensures
            r@ == ping_reply(binary_req@),
    {
        let ping_request = match parse_ping_request(binary_req) {
            Ok(v) => v,
            Err(_) => return Vec::new(),
        };
        let message = ping_request.ping_message;
        let resp = message.concat(" acked by server");
        encode_text_msg(resp.as_str())
    }

    fn add_value(&mut self, pair: KeyValuePair) -> (r: bool)
        requires
            old(self).wf(),
        ensures
            final(self).wf(),
            add_spec(old(self).store(), pair@, r, final(self).store()),
            final(self).store_name() == old(self).store_name(),
    {
        self.kvs_access_.add(kvp_proto_to_kvp_rust(pair))
    }

    fn get_value(&self, key: &str) -> (r: Option<String>)
        requires
            self.wf(),
        ensures
            r is Some <==> self.store().contains_key(key@),
            r matches Some(v) ==> v@ == self.store()[key@],
    {
        match self.kvs_access_.get(key) {
            None => None,
            Some(kvp) => Some(String::from_str(kvp.value())),
        }
    }

    fn update_value(&mut self, pair: KeyValuePair) -> (r: bool)
        requires
            old(self).wf(),
        ensures
            final(self).wf(),
            r,
            update_spec(old(self).store(), pair@, final(self).store()),
            final(self).store_name() == old(self).store_name(),
    {
        self.kvs_access_.update(kvp_proto_to_kvp_rust(pair));
        true
    }

    fn delete_value(&mut self, key: &str) -> (r: bool)
        requires
            old(self).wf(),
        ensures
            final(self).wf(),
            delete_spec(old(self).store(), key@, r, final(self).store()),
            final(self).store_name() == old(self).store_name(),
    {
        self.kvs_access_.delete(key)
    }

    pub fn handle_create_request(&mut self, binary_req: &[u8]) -> (r: Vec<u8>)
        requires
            old(self).wf(),
        ensures
            final(self).wf(),
            (final(self).store(), r@) == create_outcome(old(self).store(), binary_req@),
            final(self).store_name() == old(self).store_name(),
    {
        let create_request = match parse_create_request(binary_req) {
            Ok(v) => v,
            Err(_) => return flag_reply(invalid_create_resp().success),
        };
        match create_request.pair {
            None => flag_reply(invalid_create_resp().success),
            Some(insertable_pair) => {
                let success = self.add_value(insertable_pair);
                flag_reply(success)
            },
        }
    }

    pub fn handle_read_request(&self, binary_req: &[u8]) -> (r: Vec<u8>)
        requires
            self.wf(),
        ensures
            r@ == read_reply(self.store(), binary_req@),
    {
        let read_request = match parse_read_request(binary_req) {
            Ok(v) => v,
            Err(_) => return encode_read_resp(false, &None),
        };
        let key = read_request.key;
        match self.get_value(key.as_str()) {
            None => encode_read_resp(false, &None),
            Some(x) => encode_read_resp(true, &Some(KeyValuePair { key: key, value: x })),
        }
    }

    pub fn handle_update_request(&mut self, binary_req: &[u8]) -> (r: Vec<u8>)
        requires
            old(self).wf(),
        ensures
            final(self).wf(),
            (final(self).store(), r@) == update_outcome(old(self).store(), binary_req@),
            final(self).store_name() == old(self).store_name(),
    {
        let update_request = match parse_update_request(binary_req) {
            Ok(v) => v,
            Err(_) => return flag_reply(false),
        };
        match update_request.pair {
            Some(x) => {
                let success = self.update_value(x);
                flag_reply(success)
            },
            None => flag_reply(false),
        }
    }

    pub fn handle_delete_request(&mut self, binary_req: &[u8]) -> (r: Vec<u8>)
        requires
            old(self).wf(),
        ensures
            final(self).wf(),
            (final(self).store(), r@) == delete_outcome(old(self).store(), binary_req@),
            final(self).store_name() == old(self).store_name(),
    {
        match parse_delete_request(binary_req) {
            Ok(delete_request) => {
                let key = delete_request.key;
                let success = self.delete_value(key.as_str());
                flag_reply(success)
            },
            Err(_) => flag_reply(false),
        }
    }

    /// The store's backup artifact, or the error that stops it.
    fn backup_key_value_store(&self) -> (r: Result<Vec<u8>, RWError>)
        requires
            self.wf(),
        ensures
            match r {
                Ok(b) => self.serialized().len() <= MAX_FRAME_LEN && b@ == frame_bytes(self.serialized()),
                Err(_) => self.serialized().len() > MAX_FRAME_LEN,
            },
    {
        store_to_artifact(&self.kvs_access_)
    }

    /// Replaces the store with the one in the artifact's contents; false,
    /// and the store unchanged, when they hold none.
    fn restore_key_value_store(&mut self, contents: &[u8]) -> (r: bool)
        requires
            old(self).wf(),
        ensures
            final(self).wf(),
            match restored(contents@) {
                Some((n, ps)) => r && final(self).store() == entries_map(ps)
                    && final(self).store_name() == n,
                None => !r && final(self).store() == old(self).store()
                    && final(self).store_name() == old(self).store_name(),
            },
    {
        match store_from_artifact(contents) {
            Ok(s) => {
                self.kvs_access_ = s;
                true
            },
            Err(_) => false,
        }
    }

    /// A backup request: where to write which artifact, or the failure reply.
    pub fn handle_backup_request(&self, binary_req: &[u8]) -> (r: PersistStep)
        requires
            self.wf(),
        ensures
            match decode_text_msg(binary_req@) {
                Some(id) => if self.serialized().len() <= MAX_FRAME_LEN {
                    r matches PersistStep::Write { path, contents } && path@ == id && contents@
                        == frame_bytes(self.serialized())
                } else {
                    r matches PersistStep::Done(b) && b@ == flag_msg_bytes(false)
                },
                None => r matches PersistStep::Done(b) && b@ == flag_msg_bytes(false),
            },
    {
        let backup_request = match parse_backup_request(binary_req) {
            Ok(v) => v,
            Err(_) => return PersistStep::Done(flag_reply(false)),
        };
        match self.backup_key_value_store() {
            Ok(contents) => PersistStep::Write { path: backup_request.backup_id, contents },
            Err(_) => PersistStep::Done(flag_reply(false)),
        }
    }

    /// A restore request: which artifact to read, or the failure reply.
    pub fn handle_restore_request(&self, binary_req: &[u8]) -> (r: PersistStep)
        ensures
            match decode_text_msg(binary_req@) {
                Some(id) => r matches PersistStep::Read { path } && path@ == id,
                None => r matches PersistStep::Done(b) && b@ == flag_msg_bytes(false),
            },
    {
        match parse_restore_request(binary_req) {
            Ok(v) => PersistStep::Read { path: v.backup_id },
            Err(_) => PersistStep::Done(flag_reply(false)),
        }
    }

    /// The reply to a backup once the artifact was written, or not.
    pub fn backup_reply(&self, written: bool) -> (r: Vec<u8>)
        ensures
            r@ == reply_bytes(ReqType::Backup, flag_msg_bytes(written)),
    {
        let b = flag_reply(written);
        encode_envelope(ReqType::Backup.code(), b.as_slice())
    }

    /// Completes a restore with what reading the artifact gave: the store is
    /// replaced when the contents hold one, and the reply says so.
    pub fn restore_reply(&mut self, contents: Result<Vec<u8>, RWError>) -> (r: Vec<u8>)
        requires
            old(self).wf(),
        ensures
            final(self).wf(),
            match contents {
                Ok(b) => match restored(b@) {
                    Some((n, ps)) => final(self).store() == entries_map(ps)
                        && final(self).store_name() == n && r@ == reply_bytes(
                        ReqType::Restore,
                        flag_msg_bytes(true),
                    ),
                    None => final(self).store() == old(self).store() && final(self).store_name()
                        == old(self).store_name() && r@ == reply_bytes(
                        ReqType::Restore,
                        flag_msg_bytes(false),
                    ),
                },
                Err(_) => final(self).store() == old(self).store() && final(self).store_name()
                    == old(self).store_name() && r@ == reply_bytes(
                    ReqType::Restore,
                    flag_msg_bytes(false),
                ),
            },
    {
        let success = match contents {
            Ok(b) => self.restore_key_value_store(b.as_slice()),
            Err(_) => false,
        };
        let b = flag_reply(success);
        encode_envelope(ReqType::Restore.code(), b.as_slice())
    }

    /// Answers the operations that only look at the store; `None` for those
    /// that need it exclusively.
    pub fn respond_shared(&self, op: ReqType, payload: &[u8]) -> (r: Option<Vec<u8>>)
        requires
            self.wf(),
        ensures
            op == ReqType::Ping ==> (r matches Some(b) && b@ == reply_bytes(op, ping_reply(payload@))),
            op == ReqType::Read ==> (r matches Some(b) && b@ == reply_bytes(
                op,
                read_reply(self.store(), payload@),
            )),
            !(op == ReqType::Ping || op == ReqType::Read) ==> r is None,
    {
        let resp = match op {
            ReqType::Ping => self.handle_ping_request(payload),
            ReqType::Read => self.handle_read_request(payload),
            _ => return None,
        };
        Some(encode_envelope(op.code(), resp.as_slice()))
    }

    /// Answers one request with the store held exclusively.
    pub fn respond(&mut self, op: ReqType, payload: &[u8]) -> (r: Action)
        requires
            old(self).wf(),
        ensures
            final(self).wf(),
            op != ReqType::Restore ==> final(self).store_name() == old(self).store_name(),
            match op {
                ReqType::Ping => final(self).store() == old(self).store() && (r matches Action::Send(
                    b,
                ) && b@ == reply_bytes(op, ping_reply(payload@))),
                ReqType::Read => final(self).store() == old(self).store() && (r matches Action::Send(
                    b,
                ) && b@ == reply_bytes(op, read_reply(old(self).store(), payload@))),
                ReqType::Create => r matches Action::Send(b) && (final(self).store(), b@) == (
                create_outcome(old(self).store(), payload@).0,
                reply_bytes(op, create_outcome(old(self).store(), payload@).1)),
                ReqType::Update => r matches Action::Send(b) && (final(self).store(), b@) == (
                update_outcome(old(self).store(), payload@).0,
                reply_bytes(op, update_outcome(old(self).store(), payload@).1)),
                ReqType::Delete => r matches Action::Send(b) && (final(self).store(), b@) == (
                delete_outcome(old(self).store(), payload@).0,
                reply_bytes(op, delete_outcome(old(self).store(), payload@).1)),
                ReqType::Backup => final(self).store() == old(self).store() && (match decode_text_msg(
                    payload@,
                ) {
                    Some(id) => if old(self).serialized().len() <= MAX_FRAME_LEN {
                        r matches Action::WriteArtifact(path, contents) && path@ == id
                            && contents@ == frame_bytes(old(self).serialized())
                    } else {
                        r matches Action::Send(b) && b@ == reply_bytes(op, flag_msg_bytes(false))
                    },
                    None => r matches Action::Send(b) && b@ == reply_bytes(
                        op,
                        flag_msg_bytes(false),
                    ),
                }),
                ReqType::Restore => final(self).store() == old(self).store()
                    && final(self).store_name() == old(self).store_name() && (match decode_text_msg(
                    payload@,
                ) {
                    Some(id) => r matches Action::ReadArtifact(path) && path@ == id,
                    None => r matches Action::Send(b) && b@ == reply_bytes(
                        op,
                        flag_msg_bytes(false),
                    ),
                }),
            },
    {
        let resp = match op {
            ReqType::Ping => self.handle_ping_request(payload),
            ReqType::Create => self.handle_create_request(payload),
            ReqType::Read => self.handle_read_request(payload),
            ReqType::Update => self.handle_update_request(payload),
            ReqType::Delete => self.handle_delete_request(payload),
            ReqType::Backup => match self.handle_backup_request(payload) {
                PersistStep::Done(b) => b,
                PersistStep::Write { path, contents } => {
                    return Action::WriteArtifact(path, contents);
                },
                PersistStep::Read { path } => {
                    return Action::ReadArtifact(path);
                },
            },
            ReqType::Restore => match self.handle_restore_request(payload) {
                PersistStep::Done(b) => b,
                PersistStep::Write { path, contents } => {
                    return Action::WriteArtifact(path, contents);
                },
                PersistStep::Read { path } => {
                    return Action::ReadArtifact(path);
                },
            },
        };
        Action::Send(encode_envelope(op.code(), resp.as_slice()))
    }
}

/// A request that the client builds reaches the server as it was built: the
/// same operation and payload.
pub proof fn lemma_request_arrives(op: ReqType, payload: Seq<u8>)
    requires
        payload.len() < 0x1_0000_0000,
    ensures
        decode_envelope(request_bytes(op, payload)) == Some((op_code(op), payload)),
        op_of_code(op_code(op)) == Some(op),
        request_bytes(op, payload).len() <= payload.len() + 40,
{
    lemma_envelope_len(op_code(op), payload);
    lemma_envelope_round_trip(op_code(op), payload);
}

/// A create request from the client inserts its pair only when the key is
/// absent, and the client reads which of the two happened.
pub proof fn lemma_create_exchange(m: StoreMap, k: Seq<char>, v: Seq<char>)
    requires
        pair_msg_bytes(Some((k, v))).len() < 0x1_0000_0000,
    ensures
        create_outcome(m, pair_msg_bytes(Some((k, v)))) == if m.contains_key(k) {
            (m, flag_msg_bytes(false))
        } else {
            (m.insert(k, v), flag_msg_bytes(true))
        },
        response_text(reply_bytes(ReqType::Create, create_outcome(m, pair_msg_bytes(Some((k, v)))).1))
            == Some(
            if m.contains_key(k) {
                "Key already exists!"@
            } else {
                "Successfully created pair!"@
            },
        ),
{
    lemma_pair_msg_round_trip(Some((k, v)));
    let x = !m.contains_key(k);
    lemma_flag_msg_round_trip(x);
    lemma_flag_msg_len(x);
    lemma_reply_round_trip(ReqType::Create, flag_msg_bytes(x));
}

/// An update request from the client sets the key, present or not, and
/// reports success.
pub proof fn lemma_update_exchange(m: StoreMap, k: Seq<char>, v: Seq<char>)
    requires
        pair_msg_bytes(Some((k, v))).len() < 0x1_0000_0000,
    ensures
        update_outcome(m, pair_msg_bytes(Some((k, v)))) == (m.insert(k, v), flag_msg_bytes(true)),
        decode_flag_msg(update_outcome(m, pair_msg_bytes(Some((k, v)))).1) == Some(true),
{
    lemma_pair_msg_round_trip(Some((k, v)));
    lemma_flag_msg_round_trip(true);
}

/// A delete request from the client removes the key, and its reply says
/// whether the key was there.
pub proof fn lemma_delete_exchange(m: StoreMap, k: Seq<char>)
    requires
        text_msg_bytes(k).len() < 0x1_0000_0000,
    ensures
        delete_outcome(m, text_msg_bytes(k)) == (m.remove(k), flag_msg_bytes(m.contains_key(k))),
        decode_flag_msg(delete_outcome(m, text_msg_bytes(k)).1) == Some(m.contains_key(k)),
{
    lemma_text_msg_round_trip(k);
    lemma_flag_msg_round_trip(m.contains_key(k));
}

/// A read request from the client leaves the store alone, and the client
/// reads the key's value, or that the key is missing.
pub proof fn lemma_read_exchange(m: StoreMap, k: Seq<char>)
    requires
        text_msg_bytes(k).len() < 0x1_0000_0000,
        m.contains_key(k) ==> read_resp_bytes(true, Some((k, m[k]))).len() < 0x1_0000_0000,
    ensures
        response_text(reply_bytes(ReqType::Read, read_reply(m, text_msg_bytes(k)))) == Some(
            if m.contains_key(k) {
                m[k]
            } else {
                "Cannot find key!"@
            },
        ),
{
    lemma_text_msg_round_trip(k);
    if m.contains_key(k) {
        lemma_read_resp_round_trip(true, Some((k, m[k])));
        lemma_reply_round_trip(ReqType::Read, read_resp_bytes(true, Some((k, m[k]))));
    } else {
        lemma_read_resp_round_trip(false, None);
        lemma_reply_round_trip(ReqType::Read, read_resp_bytes(false, None));
    }
}

/// A ping from the client comes back with " acked by server" after it.
pub proof fn lemma_ping_exchange(msg: Seq<char>)
    requires
        text_msg_bytes(msg).len() < 0x1_0000_0000,
        text_msg_bytes(msg + " acked by server"@).len() < 0x1_0000_0000,
    ensures
        response_text(reply_bytes(ReqType::Ping, ping_reply(text_msg_bytes(msg)))) == Some(
            msg + " acked by server"@,
        ),
{
    lemma_text_msg_round_trip(msg);
    lemma_text_msg_round_trip(msg + " acked by server"@);
    lemma_reply_round_trip(ReqType::Ping, text_msg_bytes(msg + " acked by server"@));
}

proof fn lemma_reply_round_trip(op: ReqType, payload: Seq<u8>)
    requires
        payload.len() < 0x1_0000_0000,
    ensures
        decode_envelope(reply_bytes(op, payload)) == Some((op_code(op), payload)),
{
    lemma_envelope_len(op_code(op), payload);
    lemma_envelope_round_trip(op_code(op), payload);
}

/// Restoring from the artifact that a backup wrote gives back the store as it
/// was at the backup: its name and its mapping.
pub proof fn lemma_backup_restore(server: ConstructCacheServer)
    requires
        server.serialized().len() <= MAX_FRAME_LEN,
    ensures
        restored(frame_bytes(server.serialized())) matches Some((n, ps)) && n == server.store_name()
            && entries_map(ps) == server.store(),
{
    lemma_artifact_round_trip(server.kvs_access_);
    lemma_serialize_round_trip(server.kvs_access_);
}

} // verus!
