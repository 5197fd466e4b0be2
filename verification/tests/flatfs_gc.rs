use ipld_core::cid::Cid;
use monocore::store::flatfs::{count_new_reference, block_path_of_cid, gc_ref_step, gc_start, node_block_cid, raw_block_cid, DirLevels, GcRefStep, GcStart, read_block_bytes};
use monocore::store::codec::Codec;
use monocore::store::memstore::StoreError;
use multihash_codetable::{Code, MultihashDigest};

fn cid(codec: u64, data: &[u8]) -> Vec<u8> {
    Cid::new_v1(codec, Code::Blake3_256.digest(data)).to_bytes()
}

#[test]
fn collection_keeps_blocks_that_are_not_free() {
    let raw = cid(0x55, b"raw");
    assert!(matches!(gc_start(false, Some(0), &raw, b""), Ok(GcStart::Keep)));
    assert!(matches!(gc_start(true, None, &raw, b""), Ok(GcStart::Keep)));
    assert!(matches!(gc_start(true, Some(2), &raw, b""), Ok(GcStart::Keep)));
    assert!(matches!(gc_start(true, Some(0), b"not a cid", b""), Ok(GcStart::Keep)));
    let pb = cid(0x70, b"pb");
    assert!(matches!(gc_start(true, Some(0), &pb, b""), Ok(GcStart::Keep)));
}

#[test]
fn free_raw_block_is_removed() {
    let raw = cid(0x55, b"raw");
    assert!(matches!(gc_start(true, Some(0), &raw, b"raw"), Ok(GcStart::Remove)));
}

#[test]
fn free_node_is_removed_and_its_links_followed() {
    let a = cid(0x55, b"a");
    let b = cid(0x55, b"b");
    let links = vec![Cid::try_from(a.as_slice()).unwrap(), Cid::try_from(b.as_slice()).unwrap()];
    let data = serde_ipld_dagcbor::to_vec(&links).unwrap();
    let node = cid(0x71, &data);
    match gc_start(true, Some(0), &node, &data) {
        Ok(GcStart::RemoveAndFollow(v)) => assert_eq!(v, vec![a, b]),
        other => panic!("unexpected {:?}", other),
    }
}

#[test]
fn unreadable_node_stops_collection() {
    let node = cid(0x71, b"junk");
    assert!(matches!(gc_start(true, Some(0), &node, &[0xff, 0xff]), Err(StoreError::UnreadableLinks(c)) if c == node));
}

#[test]
fn linked_blocks_lose_one_reference() {
    assert_eq!(gc_ref_step(Some(3)), GcRefStep { write: Some(2), collect: false });
    assert_eq!(gc_ref_step(Some(1)), GcRefStep { write: Some(0), collect: true });
    assert_eq!(gc_ref_step(Some(0)), GcRefStep { write: None, collect: false });
    assert_eq!(gc_ref_step(None), GcRefStep { write: None, collect: false });
}

#[test]
fn blocks_are_filed_under_their_cids() {
    let data = b"some bytes".to_vec();
    let raw = raw_block_cid(&data, Some(100)).unwrap();
    assert_eq!(raw, cid(0x55, &data));
    assert_ne!(raw, data);
    assert_eq!(raw_block_cid(&data, None).unwrap(), raw);
    assert!(matches!(raw_block_cid(&data, Some(5)), Err(StoreError::RawBlockTooLarge(10, 5))));
    let node = node_block_cid(&data).unwrap();
    assert_eq!(node, cid(0x71, &data));
    assert_eq!(Cid::try_from(node.as_slice()).unwrap().codec(), 0x71);
    let big = vec![0u8; 1048577];
    assert!(matches!(node_block_cid(&big), Err(StoreError::NodeBlockTooLarge(1048577, 1048576))));
}

#[test]
fn block_paths_follow_the_cid_digest() {
    let c = cid(0x55, b"hello");
    let hex = hex::encode(Cid::try_from(c.as_slice()).unwrap().hash().digest());
    assert_eq!(block_path_of_cid(&c, DirLevels::Zero).unwrap(), vec![hex.clone()]);
    assert_eq!(block_path_of_cid(&c, DirLevels::One).unwrap(), vec![hex[0..2].to_string(), hex.clone()]);
    assert_eq!(
        block_path_of_cid(&c, DirLevels::Two).unwrap(),
        vec![hex[0..2].to_string(), hex[2..4].to_string(), hex.clone()]
    );
    assert!(block_path_of_cid(b"not a cid", DirLevels::One).is_none());
}

#[test]
fn block_bytes_follow_the_count_and_the_codec() {
    let c = cid(0x55, b"hi");
    let file = vec![0, 0, 0, 0, 0, 0, 0, 1, b'h', b'i'];
    assert_eq!(read_block_bytes(&c, &file, true, Codec::Raw).unwrap(), b"hi".to_vec());
    assert_eq!(read_block_bytes(&c, b"hi", false, Codec::Raw).unwrap(), b"hi".to_vec());
    assert!(read_block_bytes(&c, &[0, 0], true, Codec::Raw).unwrap().is_empty());
    assert!(matches!(
        read_block_bytes(&c, &file, true, Codec::DagCbor),
        Err(StoreError::UnexpectedBlockCodec(Codec::DagCbor, Codec::Raw))
    ));
    assert!(matches!(read_block_bytes(b"nope", &file, true, Codec::Raw), Err(StoreError::BlockNotFound(v)) if v == b"nope".to_vec()));
}

#[test]
fn stored_nodes_count_one_more_reference() {
    assert_eq!(count_new_reference(Some(0)), Some(1));
    assert_eq!(count_new_reference(Some(41)), Some(42));
    assert_eq!(count_new_reference(None), None);
    assert_eq!(gc_ref_step(count_new_reference(Some(0))), GcRefStep { write: Some(0), collect: true });
}
