use holocron_db::key_value_store::errors::{error_kind_to_str, ErrorKind, RWError};
use holocron_db::key_value_store::filestore::{store_from_artifact, store_to_artifact};
use holocron_db::key_value_store::key_value_pair::KeyValuePair;
use holocron_db::key_value_store::key_value_store::KeyValueStore;

fn create_simple_kv_store() -> KeyValueStore {
    let mut kvs = KeyValueStore::new("test");
    kvs.add(KeyValuePair::new("Hello", "Value1"));
    kvs.add(KeyValuePair::new("Goodbye", "Value2"));
    kvs
}

fn equality_test(lhs: KeyValueStore, rhs: KeyValueStore) {
    assert_eq!(lhs.name(), rhs.name(), "Name Mismatch!");
    assert_eq!(lhs.all().len(), rhs.all().len());
    for (k, v) in lhs.all() {
        if let Some(val) = rhs.get(&k.clone()) {
            assert_eq!(v, val.value(), "Mismatch for key: {:?}", k);
        } else {
            assert!(false, "No value found for key {:?}!", k);
        }
    }
}

#[test]
fn test_obj_to_msg_to_obj() {
    let kvs = create_simple_kv_store();
    let msg = kvs.clone().data();
    let kvs_2 = KeyValueStore::from(msg);

    equality_test(kvs, kvs_2);
}

#[test]
fn test_key_value_pair_created() {
    let key = "Hello";
    let value = "World";
    let item = KeyValuePair::new(key, value);
    assert_eq!(item.key(), key);
    assert_eq!(item.value(), value);
}

#[test]
fn test_key_value_pair_updated() {
    let key = "Spicy";
    let value = "Pepper";
    let value_2 = "Curry";
    let mut item = KeyValuePair::new(key, value);
    item.update_value(value_2);
    assert_eq!(item.key(), key);
    assert_eq!(item.value(), value_2);
}

#[test]
fn test_crud() {
    let store_name = "test_store";
    let mut store = KeyValueStore::new(store_name);
    let first_key = "one";
    let first_pair = KeyValuePair::new(first_key, "uno");
    store.add(first_pair);

    // read idempotency
    {
        let val = store.get(first_key).expect("Expected value in store!");
        let val_2 = store.get(first_key).expect("Expected value in store!");
        assert_eq!(val.key(), val_2.key());
        assert_eq!(val.value(), val_2.value());

        assert_eq!(store.get("nonexistent"), None);
        assert_eq!(store.get("nonexistent"), None);
    }

    // adding a duplicate returns false
    {
        let duplicate_add = store.add(KeyValuePair::new(first_key, "uno again"));
        assert_eq!(duplicate_add, false);
        let acceptable_add = store.add(KeyValuePair::new("two", "dos"));
        assert_eq!(acceptable_add, true);
    }

    // update
    {
        store.update(KeyValuePair::new(first_key, "one_again"));
        let new_val = store.get(first_key).expect("Expected value in store!");
        assert_eq!(new_val.value(), "one_again");

        store.update(KeyValuePair::new("another_key", "another_value"));
        let new_val_2 = store.get("another_key").expect("Expected value in store!");
        assert_eq!(new_val_2.value(), "another_value");
    }

    // delete
    {
        let res = store.delete(first_key);
        assert_eq!(res, true);

        let res_2 = store.delete("404");
        assert_eq!(res_2, false);
    }

    assert_eq!(store.name(), store_name);
}

#[test]
fn add_twice_keeps_first_value() {
    let mut store = KeyValueStore::new("s");
    assert!(store.add(KeyValuePair::new("k", "v1")));
    assert!(!store.add(KeyValuePair::new("k", "v2")));
    assert_eq!(store.get("k").unwrap().value(), "v1");
    assert_eq!(store.all().len(), 1);
}

#[test]
fn update_is_upsert() {
    let mut store = KeyValueStore::new("s");
    store.update(KeyValuePair::new("k", "v1"));
    assert_eq!(store.get("k").unwrap().value(), "v1");
    store.update(KeyValuePair::new("k", "v2"));
    assert_eq!(store.get("k").unwrap().value(), "v2");
    assert_eq!(store.all().len(), 1);
}

#[test]
fn delete_then_get_is_absent() {
    let mut store = create_simple_kv_store();
    assert!(store.delete("Hello"));
    assert_eq!(store.get("Hello"), None);
    assert!(!store.delete("Hello"));
    assert_eq!(store.get("Goodbye").unwrap().value(), "Value2");
    assert_eq!(store.all().len(), 1);
}

#[test]
fn get_is_idempotent() {
    let store = create_simple_kv_store();
    assert_eq!(store.get("Hello"), store.get("Hello"));
    assert_eq!(store.get("Hello"), Some(KeyValuePair::new("Hello", "Value1")));
}

#[test]
fn serialize_round_trip() {
    let kvs = create_simple_kv_store();
    let bytes = kvs.serialize();
    let back = KeyValueStore::deserialize(&bytes).ok().expect("decodes");
    equality_test(kvs, back);
}

#[test]
fn serialize_round_trip_empty_and_long() {
    let empty = KeyValueStore::new("");
    assert!(empty.serialize().is_empty());
    let back = KeyValueStore::deserialize(&empty.serialize()).ok().unwrap();
    assert_eq!(back.name(), "");
    assert!(back.all().is_empty());

    let long_value = "x".repeat(300);
    let mut store = KeyValueStore::new("long");
    store.add(KeyValuePair::new("key", &long_value));
    store.add(KeyValuePair::new("", "empty key"));
    let bytes = store.serialize();
    // name field, then the first pair's field with a two-byte length
    assert_eq!(&bytes[0..6], &[0x0a, 0x04, b'l', b'o', b'n', b'g']);
    assert_eq!(&bytes[6..8], &[0x12, 0xb4]);
    assert_eq!(bytes[8], 0x02);
    let back = KeyValueStore::deserialize(&bytes).ok().unwrap();
    equality_test(store, back);
}

#[test]
fn serialized_bytes_are_exact() {
    let mut store = KeyValueStore::new("n");
    store.add(KeyValuePair::new("k", "v"));
    assert_eq!(
        store.serialize(),
        vec![0x0a, 0x01, b'n', 0x12, 0x06, 0x0a, 0x01, b'k', 0x12, 0x01, b'v']
    );
}

#[test]
fn deserialize_later_pair_wins() {
    let bytes = vec![
        0x12, 0x06, 0x0a, 0x01, b'k', 0x12, 0x01, b'a', 0x12, 0x06, 0x0a, 0x01, b'k', 0x12, 0x01,
        b'b',
    ];
    let store = KeyValueStore::deserialize(&bytes).ok().unwrap();
    assert_eq!(store.get("k").unwrap().value(), "b");
    assert_eq!(store.all().len(), 1);
}

#[test]
fn deserialize_rejects_garbage() {
    assert!(KeyValueStore::deserialize(b"This string is garbage").is_err());
    // a truncated length-delimited field
    assert!(KeyValueStore::deserialize(&[0x0a, 0x05, b'a']).is_err());
    // a name field carried as a varint
    assert!(KeyValueStore::deserialize(&[0x08, 0x01]).is_err());
    // invalid UTF-8 in the name
    assert!(KeyValueStore::deserialize(&[0x0a, 0x01, 0xff]).is_err());
}

#[test]
fn artifact_round_trip() {
    let kvs = create_simple_kv_store();
    let artifact = store_to_artifact(&kvs).ok().unwrap();
    let payload = kvs.serialize();
    assert_eq!(&artifact[0..4], &(payload.len() as u32).to_be_bytes());
    assert_eq!(&artifact[4..], &payload[..]);
    let back = store_from_artifact(&artifact).ok().unwrap();
    equality_test(kvs, back);
}

#[test]
fn artifact_read_empty_file() {
    match store_from_artifact(&[]) {
        Ok(_) => assert!(false, "Expected failure!"),
        Err(e) => assert_eq!(e.kind_, ErrorKind::FileReadError),
    }
}

#[test]
fn artifact_read_bad_data() {
    match store_from_artifact(b"This string is garbage") {
        Ok(_) => assert!(false, "Expected failure!"),
        Err(e) => assert_eq!(e.kind_, ErrorKind::DataDecodeError),
    }
    // a whole frame whose payload is no store
    match store_from_artifact(&[0, 0, 0, 2, 0x08, 0x01]) {
        Ok(_) => assert!(false, "Expected failure!"),
        Err(e) => assert_eq!(e.kind_, ErrorKind::DataDecodeError),
    }
    // trailing bytes after the frame
    match store_from_artifact(&[0, 0, 0, 0, 7]) {
        Ok(_) => assert!(false, "Expected failure!"),
        Err(e) => assert_eq!(e.kind_, ErrorKind::DataDecodeError),
    }
}

#[test]
fn rw_error_messages() {
    assert_eq!(error_kind_to_str(ErrorKind::FileOpenError), "Cannot open file");
    assert_eq!(error_kind_to_str(ErrorKind::FileReadError), "Cannot read file");
    assert_eq!(error_kind_to_str(ErrorKind::FileWriteError), "Cannot write to file");
    assert_eq!(error_kind_to_str(ErrorKind::DataDecodeError), "Data decode error");
    assert_eq!(error_kind_to_str(ErrorKind::ErrorNone), "");
    let e = RWError::new(ErrorKind::FileOpenError, "missing");
    assert_eq!(e.message(), "Cannot open file, context: missing");
}
