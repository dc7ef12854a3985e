use crate::framing::{FrameRead, MAX_FRAME_LEN, decode_frame, encode_frame, frame_bytes, frame_len, lemma_frame_len};
use crate::key_value_store::errors::{ErrorKind, RWError};
use crate::key_value_store::key_value_store::{KeyValueStore, entries_map};
use crate::proto::decode_store_msg;
use vstd::prelude::*;

verus! {

/// The store message that a backup artifact holds: the artifact is exactly
/// one frame.
pub open spec fn artifact_payload(b: Seq<u8>) -> Option<Seq<u8>> {
    if b.len() >= 4 && frame_len(b) <= MAX_FRAME_LEN && 4 + frame_len(b) == b.len() {
        Some(b.subrange(4, b.len() as int))
    } else {
        None
    }
}

/// The contents of the backup artifact of `store`: its serialized form in
/// one frame. Fails with `FileWriteError` when that form is over the frame
/// limit.
pub fn store_to_artifact(store: &KeyValueStore) -> (r: Result<Vec<u8>, RWError>)
    ensures
        match r {
            Ok(b) => store.serialized().len() <= MAX_FRAME_LEN && b@ == frame_bytes(store.serialized()),
            Err(e) => e.kind_ == ErrorKind::FileWriteError && store.serialized().len()
                > MAX_FRAME_LEN,
        },
{
    let bytes = store.serialize();
    match encode_frame(bytes.as_slice()) {
        Some(b) => Ok(b),
        None => Err(RWError::new(ErrorKind::FileWriteError, "store too large for one frame")),
    }
}

/// Reads a store back from the contents of a backup artifact. An empty
/// artifact is a `FileReadError`; anything but one frame holding a store
/// message is a `DataDecodeError`.
pub fn store_from_artifact(b: &[u8]) -> (r: Result<KeyValueStore, RWError>)
    ensures
        b@.len() == 0 ==> (r matches Err(e) && e.kind_ == ErrorKind::FileReadError),
        b@.len() > 0 ==> match r {
            Ok(s) => (artifact_payload(b@) matches Some(p) && (decode_store_msg(p) matches Some(
                (n, ps),
            ) && s.wf() && s.spec_name() == n && s@ == entries_map(ps))),
            Err(e) => e.kind_ == ErrorKind::DataDecodeError && match artifact_payload(b@) {
                Some(p) => decode_store_msg(p) is None,
                None => true,
            },
        },
{
    if b.len() == 0 {
        return Err(RWError::new(ErrorKind::FileReadError, "Empty file!"));
    }
    match decode_frame(b) {
        FrameRead::Complete(p, n) => {
            if n != b.len() {
                return Err(RWError::new(ErrorKind::DataDecodeError, "trailing bytes after the store"));
            }
            assert(p@ =~= b@.subrange(4, b@.len() as int));
            match KeyValueStore::deserialize(p.as_slice()) {
                Ok(s) => Ok(s),
                Err(e) => Err(RWError { kind_: ErrorKind::DataDecodeError, context_: e }),
            }
        },
        FrameRead::Incomplete => Err(RWError::new(ErrorKind::DataDecodeError, "truncated store")),
        FrameRead::Oversized => Err(RWError::new(ErrorKind::DataDecodeError, "store over the frame limit")),
    }
}

/// A backup artifact holds the serialized store and nothing else.
pub proof fn lemma_artifact_round_trip(store: KeyValueStore)
    requires
        store.serialized().len() <= MAX_FRAME_LEN,
    ensures
        artifact_payload(frame_bytes(store.serialized())) == Some(store.serialized()),
{
    let p = store.serialized();
    let b = frame_bytes(p);
    lemma_frame_len(p, Seq::empty());
    assert(b + Seq::<u8>::empty() =~= b);
    assert(b.subrange(4, b.len() as int) =~= p);
}

} // verus!
