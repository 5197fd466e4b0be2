use monocore::store::codec::Codec;
use monocore::store::constants::DEFAULT_MAX_NODE_BLOCK_SIZE;
use monocore::store::dual::{Choice, DualStore, DualStoreConfig};
use monocore::store::fastcdc::FastCDCChunker;
use monocore::store::memstore::{MemoryStore, StoreError};

fn default_store() -> MemoryStore {
    MemoryStore::new(FastCDCChunker::default_chunker().chunk_max_size())
}

fn encoded(s: &str) -> Vec<u8> {
    serde_ipld_dagcbor::to_vec(&s).unwrap()
}

fn decoded(bytes: Vec<u8>) -> String {
    serde_ipld_dagcbor::from_slice(&bytes).unwrap()
}

#[test]
fn test_dual_store_default_config() {
    let mut dual_store = DualStore::new(default_store(), default_store(), DualStoreConfig::default_config());
    let cid = dual_store.put_node(encoded("test data"), &vec![]).unwrap();
    assert!(dual_store.get_store_a().has(&cid));
    assert!(!dual_store.get_store_b().has(&cid));
    assert_eq!(decoded(dual_store.get_node_bytes(&cid).unwrap()), "test data");
}

#[test]
fn test_dual_store_basic_operations() {
    let mut dual_store = DualStore::new(default_store(), default_store(), DualStoreConfig::default_config());
    let cid = dual_store.put_node(encoded("test data"), &vec![]).unwrap();
    assert_eq!(decoded(dual_store.get_node_bytes(&cid).unwrap()), "test data");
    assert!(dual_store.get_store_a().has(&cid));
    assert!(!dual_store.get_store_b().has(&cid));
}

#[test]
fn test_dual_store_read_fallback() {
    let config = DualStoreConfig { read_from: Choice::A, write_to: Choice::B };
    let mut dual_store = DualStore::new(default_store(), default_store(), config);
    let cid = dual_store.put_node(encoded("fallback test"), &vec![]).unwrap();
    assert!(!dual_store.get_store_a().has(&cid));
    assert_eq!(decoded(dual_store.get_node_bytes(&cid).unwrap()), "fallback test");
}

#[test]
fn test_dual_store_different_configurations() {
    let config_1 = DualStoreConfig { read_from: Choice::B, write_to: Choice::A };
    let config_2 = DualStoreConfig { read_from: Choice::A, write_to: Choice::B };

    // Both configurations share the two stores: the stores pass from one dual store to the
    // other between the writes.
    let mut dual_store_1 = DualStore::new(default_store(), default_store(), config_1);
    let cid_1 = dual_store_1.put_node(encoded("data 1"), &vec![]).unwrap();
    let (store_a, store_b) = dual_store_1.into_stores();
    let mut dual_store_2 = DualStore::new(store_a, store_b, config_2);
    let cid_2 = dual_store_2.put_node(encoded("data 2"), &vec![]).unwrap();

    assert!(dual_store_2.get_store_a().has(&cid_1));
    assert!(dual_store_2.get_store_b().has(&cid_2));

    assert_eq!(decoded(dual_store_2.get_node_bytes(&cid_1).unwrap()), "data 1");
    assert_eq!(decoded(dual_store_2.get_node_bytes(&cid_2).unwrap()), "data 2");
    let (store_a, store_b) = dual_store_2.into_stores();
    let dual_store_1 = DualStore::new(store_a, store_b, config_1);
    assert_eq!(decoded(dual_store_1.get_node_bytes(&cid_1).unwrap()), "data 1");
    assert_eq!(decoded(dual_store_1.get_node_bytes(&cid_2).unwrap()), "data 2");
}

#[test]
fn test_dual_store_raw_operations() {
    let mut dual_store = DualStore::new(default_store(), default_store(), DualStoreConfig::default_config());
    let data = b"raw test data".to_vec();
    let cid = dual_store.put_raw_block(data.clone()).unwrap();
    assert_eq!(dual_store.get_raw_block(&cid).unwrap(), data);
}

#[test]
fn test_dual_store_metadata() {
    let mut dual_store = DualStore::new(default_store(), default_store(), DualStoreConfig::default_config());
    assert!(dual_store.is_empty());
    assert_eq!(dual_store.get_block_count(), 0);
    dual_store.put_node(encoded("test data 1"), &vec![]).unwrap();
    dual_store.put_node(encoded("test data 2"), &vec![]).unwrap();
    assert!(!dual_store.is_empty());
    assert_eq!(dual_store.get_block_count(), 2);
    assert!(!dual_store.get_supported_codecs().is_empty());
}

#[test]
fn dual_store_errors_and_limits() {
    let mut dual_store = DualStore::new(default_store(), MemoryStore::new(Some(2 * 1048576)), DualStoreConfig::default_config());
    let raw = dual_store.put_raw_block(b"raw".to_vec()).unwrap();
    assert!(matches!(dual_store.get_node_bytes(&raw), Err(StoreError::UnexpectedBlockCodec(Codec::DagCbor, Codec::Raw))));
    let mut other = DualStore::new(default_store(), default_store(), DualStoreConfig::default_config());
    assert!(matches!(other.get_raw_block(&raw), Err(StoreError::BlockNotFound(c)) if c == raw));
    assert!(!other.has(&raw));
    assert_eq!(dual_store.get_max_node_block_size(), Some(DEFAULT_MAX_NODE_BLOCK_SIZE));
    assert_eq!(dual_store.get_max_raw_block_size(), Some(2 * 1048576));
    assert_eq!(dual_store.get_supported_codecs(), vec![Codec::Raw, Codec::DagCbor]);
    assert!(other.put_node_checked(encoded("x"), &vec![raw.clone()]).unwrap().is_ok());
}
