use ipld_core::cid::Cid;
use monocore::store::gcrun::{GcAction, GcEvent, GcRun};
use multihash_codetable::{Code, MultihashDigest};
use std::collections::BTreeMap;

fn cid(codec: u64, data: &[u8]) -> Vec<u8> {
    Cid::new_v1(codec, Code::Blake3_256.digest(data)).to_bytes()
}

fn node(links: &[Vec<u8>]) -> (Vec<u8>, Vec<u8>) {
    let cids: Vec<Cid> = links.iter().map(|l| Cid::try_from(l.as_slice()).unwrap()).collect();
    let data = serde_ipld_dagcbor::to_vec(&cids).unwrap();
    (cid(0x71, &data), data)
}

/// Drives a run against blocks held in memory: CID to count and bytes.
fn collect(store: &mut BTreeMap<Vec<u8>, (u64, Vec<u8>)>, enable: bool, root: &[u8]) -> Vec<Vec<u8>> {
    let (mut run, mut action) = GcRun::new(enable, root);
    loop {
        let event = match action {
            GcAction::Finish(removed) => return removed,
            GcAction::Fail(e) => panic!("collection failed: {:?}", e),
            GcAction::ReadBlock(c) => match store.get(&c) {
                Some((n, data)) => GcEvent::Block(Some(*n), if *n == 0 { data.clone() } else { Vec::new() }),
                None => GcEvent::Block(None, Vec::new()),
            },
            GcAction::RemoveBlock(c) => {
                store.remove(&c);
                GcEvent::Done
            }
            GcAction::ReadCount(c) => GcEvent::Count(store.get(&c).map(|(n, _)| *n)),
            GcAction::WriteCount(c, n) => {
                if let Some(entry) = store.get_mut(&c) {
                    entry.0 = n;
                }
                GcEvent::Done
            }
        };
        action = run.step(event);
    }
}

#[test]
fn collection_follows_links_that_lose_their_last_reference() {
    let a = cid(0x55, b"a");
    let b = cid(0x55, b"b");
    let (n, data) = node(&[a.clone(), b.clone()]);
    let mut store = BTreeMap::new();
    store.insert(a.clone(), (1, b"a".to_vec()));
    store.insert(b.clone(), (2, b"b".to_vec()));
    store.insert(n.clone(), (0, data));
    let removed = collect(&mut store, true, &n);
    assert_eq!(removed, vec![n.clone(), a.clone()]);
    assert!(!store.contains_key(&n));
    assert!(!store.contains_key(&a));
    assert_eq!(store.get(&b).unwrap().0, 1);
}

#[test]
fn referenced_block_is_kept() {
    let a = cid(0x55, b"a");
    let mut store = BTreeMap::new();
    store.insert(a.clone(), (1, b"a".to_vec()));
    assert!(collect(&mut store, true, &a).is_empty());
    assert!(store.contains_key(&a));
}

#[test]
fn collection_without_counting_removes_nothing() {
    let a = cid(0x55, b"a");
    let mut store = BTreeMap::new();
    store.insert(a.clone(), (0, b"a".to_vec()));
    assert!(collect(&mut store, false, &a).is_empty());
    assert!(store.contains_key(&a));
}

#[test]
fn nested_nodes_are_collected_depth_first_and_listed_once() {
    let leaf = cid(0x55, b"leaf");
    let (inner, inner_data) = node(&[leaf.clone()]);
    let (outer, outer_data) = node(&[inner.clone(), leaf.clone()]);
    let mut store = BTreeMap::new();
    store.insert(leaf.clone(), (2, b"leaf".to_vec()));
    store.insert(inner.clone(), (1, inner_data));
    store.insert(outer.clone(), (0, outer_data));
    let removed = collect(&mut store, true, &outer);
    assert_eq!(removed, vec![outer, inner, leaf]);
    assert!(store.is_empty());
}

#[test]
fn unreadable_links_stop_the_collection() {
    let bad = cid(0x71, b"not cbor");
    let (mut run, action) = GcRun::new(true, &bad);
    assert!(matches!(action, GcAction::ReadBlock(_)));
    let next = run.step(GcEvent::Block(Some(0), vec![0xff, 0xff]));
    assert!(matches!(next, GcAction::Fail(_)));
}
