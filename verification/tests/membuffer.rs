use monocore::store::dual::MemoryBufferStore;
use monocore::store::fastcdc::FastCDCChunker;
use monocore::store::memstore::MemoryStore;

fn default_store() -> MemoryStore {
    MemoryStore::new(FastCDCChunker::default_chunker().chunk_max_size())
}

fn flushed_count(store: &mut MemoryBufferStore) -> u64 {
    match store.flush() {
        Some(Ok(n)) => n,
        Some(Err(e)) => panic!("flush failed: {:?}", e),
        None => panic!("flush found no room for references"),
    }
}

#[test]
fn test_flush_empty_store() {
    let mut buffer_store = MemoryBufferStore::new(default_store());
    assert_eq!(flushed_count(&mut buffer_store), 0);
}

#[test]
fn test_flush_with_data() {
    let mut buffer_store = MemoryBufferStore::new(default_store());

    let data1 = b"test data 1".to_vec();
    let data2 = b"test data 2".to_vec();
    let cid1 = buffer_store.put_raw_block(data1.clone()).unwrap();
    let cid2 = buffer_store.put_raw_block(data2.clone()).unwrap();

    assert!(buffer_store.has(&cid1));
    assert!(buffer_store.has(&cid2));
    assert!(!buffer_store.get_backup().has(&cid1));
    assert!(!buffer_store.get_backup().has(&cid2));

    assert_eq!(flushed_count(&mut buffer_store), 2);

    assert!(buffer_store.get_backup().has(&cid1));
    assert!(buffer_store.get_backup().has(&cid2));

    assert_eq!(buffer_store.get_buffer().get_block_count(), 0);

    assert_eq!(buffer_store.get_raw_block(&cid1).unwrap(), data1);
    assert_eq!(buffer_store.get_raw_block(&cid2).unwrap(), data2);
}

#[test]
fn test_flush_with_existing_data() {
    let mut backup_store = default_store();
    let data1 = b"test data 1".to_vec();
    let data2 = b"test data 2".to_vec();
    let cid1 = backup_store.put_raw_block(data1.clone()).unwrap();

    let mut buffer_store = MemoryBufferStore::new(backup_store);
    buffer_store.put_raw_block(data1.clone()).unwrap();
    let cid2 = buffer_store.put_raw_block(data2.clone()).unwrap();

    assert_eq!(flushed_count(&mut buffer_store), 1);

    assert!(buffer_store.get_backup().has(&cid1));
    assert!(buffer_store.get_backup().has(&cid2));

    assert_eq!(buffer_store.get_buffer().get_block_count(), 0);
}

#[test]
fn flushed_nodes_count_their_links_in_the_backup() {
    let mut buffer_store = MemoryBufferStore::new(default_store());
    let leaf = buffer_store.put_raw_block(b"leaf".to_vec()).unwrap();
    let cid = ipld_core::cid::Cid::try_from(leaf.as_slice()).unwrap();
    let node = serde_ipld_dagcbor::to_vec(&vec![cid]).unwrap();
    let node_cid = buffer_store.put_node_checked(node.clone(), &vec![leaf.clone()]).unwrap().unwrap();

    assert_eq!(flushed_count(&mut buffer_store), 2);
    assert_eq!(buffer_store.get_node_bytes(&node_cid).unwrap(), node);
    assert_eq!(buffer_store.get_raw_block(&leaf).unwrap(), b"leaf".to_vec());
    assert_eq!(buffer_store.get_backup().get_block_count(), 2);
}
