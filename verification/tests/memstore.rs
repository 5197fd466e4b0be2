use ipld_core::cid::Cid;
use monocore::store::codec::Codec;
use monocore::store::constants::DEFAULT_MAX_NODE_BLOCK_SIZE;
use monocore::store::fastcdc::FastCDCChunker;
use monocore::store::memstore::{MemoryStore, StoreError};

fn node_linking(cids: &[Vec<u8>]) -> Vec<u8> {
    let links: Vec<Cid> = cids.iter().map(|c| Cid::try_from(c.as_slice()).unwrap()).collect();
    serde_ipld_dagcbor::to_vec(&links).unwrap()
}

#[test]
fn test_memory_store_raw_block() {
    let mut store = MemoryStore::new(Some(1024));
    let data = b"raw data".to_vec();
    let cid = store.put_raw_block(data.clone()).unwrap();
    assert_eq!(Cid::try_from(cid.as_slice()).unwrap().codec(), Codec::Raw.to_u64());
    assert_eq!(store.get_raw_block(&cid).unwrap(), data);
    assert!(store.has(&cid));
    assert_eq!(store.get_block_count(), 1);
    assert_eq!(store.put_raw_block(data.clone()).unwrap(), cid);
    assert_eq!(store.get_block_count(), 1);
}

#[test]
fn test_memory_store_error_handling() {
    let mut store = MemoryStore::new(None);
    let missing = store.put_raw_block(b"x".to_vec()).unwrap();
    let mut other = MemoryStore::new(None);
    assert!(matches!(other.get_raw_block(&missing), Err(StoreError::BlockNotFound(c)) if c == missing));
    assert!(matches!(store.get_node_bytes(&missing), Err(StoreError::UnexpectedBlockCodec(Codec::DagCbor, Codec::Raw))));
    let too_big = vec![0u8; 1048577];
    assert!(matches!(store.put_raw_block(too_big.clone()), Err(StoreError::RawBlockTooLarge(1048577, 1048576))));
    assert!(matches!(other.put_node_checked(too_big, &vec![]).unwrap(), Err(StoreError::NodeBlockTooLarge(1048577, 1048576))));
}

#[test]
fn raw_limit_is_the_larger_of_chunk_and_node_limits() {
    let mut store = MemoryStore::new(Some(2 * 1048576));
    assert!(store.put_raw_block(vec![1u8; 1048577]).is_ok());
}

#[test]
fn test_memory_store_garbage_collect() {
    let mut store = MemoryStore::new(None);
    let data_cid = store.put_raw_block(b"Hello, World!".to_vec()).unwrap();
    let node_cid = store.put_node_checked(node_linking(&[data_cid.clone()]), &vec![data_cid.clone()]).unwrap().unwrap();
    assert!(store.has(&data_cid));
    assert!(store.has(&node_cid));
    assert_eq!(store.get_node_bytes(&node_cid).unwrap(), node_linking(&[data_cid.clone()]));

    let removed = store.garbage_collect(&data_cid).unwrap();
    assert!(removed.is_empty());
    assert!(store.has(&data_cid));

    let removed = store.garbage_collect(&node_cid).unwrap();
    assert!(removed.contains(&node_cid));
    assert!(removed.contains(&data_cid));
    assert!(!store.has(&node_cid));
    assert!(!store.has(&data_cid));
    assert_eq!(store.get_block_count(), 0);
}

#[test]
fn test_memory_store_complex_garbage_collect() {
    let mut store = MemoryStore::new(None);
    let d1 = store.put_raw_block(b"Data block 1".to_vec()).unwrap();
    let d2 = store.put_raw_block(b"Data block 2".to_vec()).unwrap();
    let d3 = store.put_raw_block(b"Data block 3".to_vec()).unwrap();
    let left = store.put_node_checked(node_linking(&[d1.clone(), d2.clone()]), &vec![d1.clone(), d2.clone()]).unwrap().unwrap();
    let right = store.put_node_checked(node_linking(&[d2.clone(), d3.clone()]), &vec![d2.clone(), d3.clone()]).unwrap().unwrap();
    let root = store.put_node_checked(node_linking(&[left.clone(), right.clone()]), &vec![left.clone(), right.clone()]).unwrap().unwrap();
    assert_eq!(store.get_block_count(), 6);

    assert!(store.garbage_collect(&left).unwrap().is_empty());

    let removed = store.garbage_collect(&root).unwrap();
    assert_eq!(removed.len(), 6);
    for c in [&root, &left, &right, &d1, &d2, &d3] {
        assert!(removed.contains(c));
        assert!(!store.has(c));
    }
}

#[test]
fn shared_block_survives_until_its_last_reference() {
    let mut store = MemoryStore::new(None);
    let d = store.put_raw_block(b"shared".to_vec()).unwrap();
    let a = store.put_node_checked(node_linking(&[d.clone()]), &vec![d.clone()]).unwrap().unwrap();
    let b = store.put_node_checked(node_linking(&[d.clone(), d.clone()]), &vec![d.clone(), d.clone()]).unwrap().unwrap();
    let removed = store.garbage_collect(&a).unwrap();
    assert_eq!(removed, vec![a.clone()]);
    assert!(store.has(&d));
    let removed = store.garbage_collect(&b).unwrap();
    assert!(removed.contains(&b) && removed.contains(&d));
    assert_eq!(store.get_block_count(), 0);
}

#[test]
fn unreadable_links_stop_collection() {
    let mut store = MemoryStore::new(None);
    let bad = store.put_node_checked(vec![0xff, 0x00], &vec![]).unwrap().unwrap();
    assert!(matches!(store.garbage_collect(&bad), Err(StoreError::UnreadableLinks(_))));
    assert!(store.has(&bad));
}

fn default_store() -> MemoryStore {
    MemoryStore::new(FastCDCChunker::default_chunker().chunk_max_size())
}

#[test]
fn test_memory_store_node() {
    let mut store = default_store();
    let node = ("test".to_string(), 42u64, Vec::<Cid>::new());
    let bytes = serde_ipld_dagcbor::to_vec(&node).unwrap();
    let cid = store.put_node(bytes, &vec![]).unwrap();
    let retrieved: (String, u64, Vec<Cid>) =
        serde_ipld_dagcbor::from_slice(&store.get_node_bytes(&cid).unwrap()).unwrap();
    assert_eq!(retrieved.0, node.0);
    assert_eq!(retrieved.1, node.1);
}

#[test]
fn test_memory_store_operations() {
    let mut store = default_store();
    assert!(store.is_empty());
    assert_eq!(store.get_block_count(), 0);
    store.put_raw_block(b"block 1".to_vec()).unwrap();
    store.put_raw_block(b"block 2".to_vec()).unwrap();
    assert!(!store.is_empty());
    assert_eq!(store.get_block_count(), 2);
    let codecs = store.get_supported_codecs();
    assert!(codecs.contains(&Codec::Raw));
    assert!(codecs.contains(&Codec::DagCbor));
    assert_eq!(store.get_max_node_block_size(), Some(DEFAULT_MAX_NODE_BLOCK_SIZE));
    assert_eq!(store.get_max_raw_block_size(), Some(DEFAULT_MAX_NODE_BLOCK_SIZE));
}
