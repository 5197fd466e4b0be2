//! An in-memory block store with reference counting: blocks are kept under their CIDs (held
//! as bytes) with a count of the references to them, and a block whose count is zero can be
//! collected together with the blocks that only it kept alive.

use vstd::prelude::*;
use ipld_core::codec::Links;
use multihash_codetable::MultihashDigest;
use crate::store::codec::{codec_code, codec_of, Codec};
use crate::store::constants::DEFAULT_MAX_NODE_BLOCK_SIZE;
use crate::store::dual::{max_limit, option_max};

verus! {

/// The CID (as bytes) that `make_cid` gives for data under a codec: a CIDv1 of the data's
/// BLAKE3-256 digest.
pub uninterp spec fn cid_of(codec: u64, data: Seq<u8>) -> Seq<u8>;

/// The codec that the CID with these bytes names, if the bytes are a CID.
pub uninterp spec fn cid_codec_of(cid: Seq<u8>) -> Option<u64>;

/// The CIDs (as bytes) that DAG-CBOR data links to, in order, if the data can be read.
pub uninterp spec fn dagcbor_links_of(data: Seq<u8>) -> Option<Seq<Seq<u8>>>;

/// Makes the CID of data under a codec (`Cid::new_v1(codec, Code::Blake3_256.digest(data))`,
/// as bytes). The `cid` crate's source writes the codec into the CID, so reading the bytes
/// back gives that codec.
#[verifier::external_body]
pub(crate) fn make_cid(codec: u64, data: &[u8]) -> (r: Vec<u8>)
    ensures
        r@ == cid_of(codec, data@),
        cid_codec_of(r@) == Some(codec),
{
    let digest = multihash_codetable::Code::Blake3_256.digest(data);
    ipld_core::cid::Cid::new_v1(codec, digest).to_bytes()
}

/// Reads the codec from the bytes of a CID (`Cid::try_from(bytes)`, then `Cid::codec`).
#[verifier::external_body]
pub(crate) fn cid_codec(cid: &[u8]) -> (r: Option<u64>)
    ensures
        r == cid_codec_of(cid@),
{
    match ipld_core::cid::Cid::try_from(cid) {
        Ok(c) => Some(c.codec()),
        Err(_) => None,
    }
}

/// The CIDs that DAG-CBOR data links to (`DagCborCodec::links`), as bytes, in order; `None`
/// when the data cannot be read.
#[verifier::external_body]
pub(crate) fn dagcbor_links(data: &[u8]) -> (r: Option<Vec<Vec<u8>>>)
    ensures
        match r {
            Some(v) => dagcbor_links_of(data@) == Some(v.deep_view()),
            None => dagcbor_links_of(data@) is None,
        },
{
    match serde_ipld_dagcbor::codec::DagCborCodec::links(data) {
        Ok(links) => Some(links.map(|c| c.to_bytes()).collect()),
        Err(_) => None,
    }
}

/// An error of a block store.
#[derive(Debug)]
pub enum StoreError {
    /// No block has this CID.
    BlockNotFound(Vec<u8>),
    /// A node block is larger than the store takes: its size and the limit.
    NodeBlockTooLarge(u64, u64),
    /// A raw block is larger than the store takes: its size and the limit.
    RawBlockTooLarge(u64, u64),
    /// The block has another codec than the one expected: the expected one, then the one it
    /// has.
    UnexpectedBlockCodec(Codec, Codec),
    /// The links of a DAG-CBOR block could not be read.
    UnreadableLinks(Vec<u8>),
}

/// A block: its CID, the number of references to it, and its bytes.
pub struct Block {
    cid: Vec<u8>,
    count: usize,
    bytes: Vec<u8>,
}

/// What the store holds: for each CID, the reference count and the bytes.
pub type BlockMap = Map<Seq<u8>, (int, Seq<u8>)>;

/// Whether a block is filed under the CID of its bytes with the codec that its CID names.
spec fn addressed(b: Block) -> bool {
    cid_codec_of(b.cid@) matches Some(c) && b.cid@ == cid_of(c, b.bytes@)
}

/// Whether a CID is that of the bytes under the codec it names.
pub open spec fn cid_fits(cid: Seq<u8>, bytes: Seq<u8>) -> bool {
    cid_codec_of(cid) matches Some(c) && cid == cid_of(c, bytes)
}

/// The map of a list of blocks.
spec fn view_of(bs: Seq<Block>) -> BlockMap
    decreases bs.len(),
{
    if bs.len() == 0 {
        Map::empty()
    } else {
        view_of(bs.drop_last()).insert(bs.last().cid@, (bs.last().count as int, bs.last().bytes@))
    }
}

/// Whether no CID occurs twice.
spec fn cids_distinct(bs: Seq<Block>) -> bool {
    forall|i: int, j: int| 0 <= i < bs.len() && 0 <= j < bs.len() && i != j ==> bs[i].cid@ != bs[j].cid@
}

/// The blocks hold exactly the CIDs of the list, with their counts and bytes.
proof fn lemma_view_of(bs: Seq<Block>)
    requires
        cids_distinct(bs),
    ensures
        view_of(bs).dom().finite(),
        view_of(bs).dom().len() == bs.len(),
        forall|k: Seq<u8>| view_of(bs).contains_key(k) <==> exists|i: int| 0 <= i < bs.len() && #[trigger] bs[i].cid@ == k,
        forall|i: int| 0 <= i < bs.len() ==> #[trigger] view_of(bs)[bs[i].cid@] == (bs[i].count as int, bs[i].bytes@),
    decreases bs.len(),
{
    if bs.len() > 0 {
        let p = bs.drop_last();
        assert(cids_distinct(p));
        lemma_view_of(p);
        let k = bs.last().cid@;
        assert(!view_of(p).contains_key(k)) by {
            if view_of(p).contains_key(k) {
                let i = choose|i: int| 0 <= i < p.len() && #[trigger] p[i].cid@ == k;
                assert(bs[i].cid@ == bs[bs.len() - 1].cid@);
            }
        }
        assert forall|k2: Seq<u8>| view_of(bs).contains_key(k2) implies exists|i: int| 0 <= i < bs.len() && #[trigger] bs[i].cid@ == k2 by {
            if k2 == k {
                assert(bs[bs.len() - 1].cid@ == k2);
            } else {
                let i = choose|i: int| 0 <= i < p.len() && #[trigger] p[i].cid@ == k2;
                assert(bs[i].cid@ == k2);
            }
        }
        assert forall|k2: Seq<u8>| (exists|i: int| 0 <= i < bs.len() && #[trigger] bs[i].cid@ == k2) implies view_of(bs).contains_key(k2) by {
            let i = choose|i: int| 0 <= i < bs.len() && #[trigger] bs[i].cid@ == k2;
            if i < bs.len() - 1 {
                assert(p[i].cid@ == k2);
            }
        }
        assert forall|i: int| 0 <= i < bs.len() implies #[trigger] view_of(bs)[bs[i].cid@] == (bs[i].count as int, bs[i].bytes@) by {
            if i < bs.len() - 1 {
                assert(p[i] == bs[i]);
                assert(bs[i].cid@ != k);
            }
        }
    }
}

/// Replacing a block by one with the same CID replaces its entry.
proof fn lemma_view_update(bs: Seq<Block>, i: int, b: Block)
    requires
        cids_distinct(bs),
        0 <= i < bs.len(),
        b.cid@ == bs[i].cid@,
    ensures
        cids_distinct(bs.update(i, b)),
        view_of(bs.update(i, b)) == view_of(bs).insert(b.cid@, (b.count as int, b.bytes@)),
    decreases bs.len(),
{
    let u = bs.update(i, b);
    assert(cids_distinct(u)) by {
        assert forall|x: int, y: int| 0 <= x < u.len() && 0 <= y < u.len() && x != y implies u[x].cid@ != u[y].cid@ by {
            assert(bs[x].cid@ != bs[y].cid@);
        }
    }
    if i == bs.len() - 1 {
        assert(u.drop_last() =~= bs.drop_last());
        assert(view_of(bs).insert(b.cid@, (b.count as int, b.bytes@)) =~= view_of(bs.drop_last()).insert(
            b.cid@,
            (b.count as int, b.bytes@),
        ));
    } else {
        let p = bs.drop_last();
        assert(cids_distinct(p));
        lemma_view_update(p, i, b);
        assert(u.drop_last() =~= p.update(i, b));
        assert(u.last() == bs.last());
        assert(bs.last().cid@ != b.cid@) by {
            assert(bs[bs.len() - 1].cid@ != bs[i].cid@);
        }
        assert(view_of(u) =~= view_of(bs).insert(b.cid@, (b.count as int, b.bytes@)));
    }
}

/// Dropping a block drops its entry.
proof fn lemma_view_remove(bs: Seq<Block>, i: int)
    requires
        cids_distinct(bs),
        0 <= i < bs.len(),
    ensures
        cids_distinct(bs.remove(i)),
        view_of(bs.remove(i)) == view_of(bs).remove(bs[i].cid@),
    decreases bs.len(),
{
    let r = bs.remove(i);
    assert(cids_distinct(r)) by {
        assert forall|x: int, y: int| 0 <= x < r.len() && 0 <= y < r.len() && x != y implies r[x].cid@ != r[y].cid@ by {
            let x0 = if x < i { x } else { x + 1 };
            let y0 = if y < i { y } else { y + 1 };
            assert(r[x] == bs[x0]);
            assert(r[y] == bs[y0]);
        }
    }
    let p = bs.drop_last();
    assert(cids_distinct(p));
    lemma_view_of(p);
    if i == bs.len() - 1 {
        assert(r =~= p);
        assert(!view_of(p).contains_key(bs[i].cid@)) by {
            if view_of(p).contains_key(bs[i].cid@) {
                let j = choose|j: int| 0 <= j < p.len() && #[trigger] p[j].cid@ == bs[i].cid@;
                assert(bs[j].cid@ == bs[i].cid@);
            }
        }
        assert(view_of(bs).remove(bs[i].cid@) =~= view_of(p));
    } else {
        lemma_view_remove(p, i);
        assert(r.drop_last() =~= p.remove(i));
        assert(r.last() == bs.last());
        assert(bs.last().cid@ != bs[i].cid@) by {
            assert(bs[bs.len() - 1].cid@ != bs[i].cid@);
        }
        assert(view_of(r) =~= view_of(bs).remove(bs[i].cid@));
    }
}

/// Whether two byte strings are equal.
pub(crate) fn bytes_eq(a: &[u8], b: &[u8]) -> (r: bool)
    ensures
        r == (a@ == b@),
{
    if a.len() != b.len() {
        return false;
    }
    let mut i: usize = 0;
    while i < a.len()
        invariant
            a@.len() == b@.len(),
            i <= a@.len(),
            forall|j: int| 0 <= j < i ==> a@[j] == b@[j],
        decreases a.len() - i,
    {
        if a[i] != b[i] {
            return false;
        }
        i = i + 1;
    }
    assert(a@ =~= b@);
    true
}

/// Copies bytes.
pub(crate) fn copy_bytes(a: &[u8]) -> (r: Vec<u8>)
    ensures
        r@ == a@,
{
    let mut r: Vec<u8> = Vec::new();
    let mut i: usize = 0;
    while i < a.len()
        invariant
            i <= a@.len(),
            r@ == a@.take(i as int),
        decreases a.len() - i,
    {
        r.push(a[i]);
        i = i + 1;
        assert(r@ =~= a@.take(i as int));
    }
    assert(a@.take(i as int) =~= a@);
    r
}

/// An in-memory block store with reference counts.
pub struct MemoryStore {
    blocks: Vec<Block>,
    max_raw_block_size: Option<u64>,
}

impl MemoryStore {
    /// The blocks, by CID: reference count and bytes.
    pub closed spec fn spec_blocks(&self) -> BlockMap {
        view_of(self.blocks@)
    }

    /// The largest raw block that the store takes, if it has a limit.
    pub closed spec fn spec_max_raw(&self) -> Option<u64> {
        self.max_raw_block_size
    }

    /// Whether the store is well formed: no CID twice, and every CID names its codec.
    pub closed spec fn wf(&self) -> bool {
        &&& cids_distinct(self.blocks@)
        &&& forall|i: int| 0 <= i < self.blocks@.len() ==> (#[trigger] cid_codec_of(self.blocks@[i].cid@)) is Some
        &&& forall|i: int| 0 <= i < self.blocks@.len() ==> #[trigger] addressed(self.blocks@[i])
    }

    /// Every CID that the store holds names its codec; the store holds finitely many blocks.
    pub proof fn lemma_wf(&self)
        requires
            self.wf(),
        ensures
            self.spec_blocks().dom().finite(),
            forall|k: Seq<u8>| #[trigger] self.spec_blocks().contains_key(k) ==> cid_codec_of(k) is Some,
    {
        lemma_view_of(self.blocks@);
        assert forall|k: Seq<u8>| #[trigger] self.spec_blocks().contains_key(k) implies cid_codec_of(k) is Some by {
            let i = choose|i: int| 0 <= i < self.blocks@.len() && #[trigger] self.blocks@[i].cid@ == k;
            assert(cid_codec_of(self.blocks@[i].cid@) is Some);
        }
    }

    /// An empty store whose raw blocks may be as large as the larger of the chunker's largest
    /// chunk and the largest node block.
    pub fn new(chunk_max_size: Option<u64>) -> (s: Self)
        ensures
            s.wf(),
            s.spec_blocks() == BlockMap::empty(),
            s.spec_max_raw() == option_max(chunk_max_size, Some(DEFAULT_MAX_NODE_BLOCK_SIZE)),
    {
        MemoryStore { blocks: Vec::new(), max_raw_block_size: max_limit(chunk_max_size, Some(DEFAULT_MAX_NODE_BLOCK_SIZE)) }
    }

    /// The index of the block with the given CID, if the store holds it.
    fn find(&self, cid: &[u8]) -> (r: Option<usize>)
        requires
            self.wf(),
        ensures
            match r {
                Some(i) => i < self.blocks@.len() && self.blocks@[i as int].cid@ == cid@,
                None => !self.spec_blocks().contains_key(cid@),
            },
    {
        proof {
            lemma_view_of(self.blocks@);
        }
        let mut i: usize = 0;
        while i < self.blocks.len()
            invariant
                self.wf(),
                i <= self.blocks@.len(),
                forall|j: int| 0 <= j < i ==> self.blocks@[j].cid@ != cid@,
            decreases self.blocks.len() - i,
        {
            if bytes_eq(self.blocks[i].cid.as_slice(), cid) {
                return Some(i);
            }
            i = i + 1;
        }
        None
    }

    /// The blocks in the order the store holds them, each as its CID and bytes.
    pub closed spec fn spec_block_list(&self) -> Seq<(Seq<u8>, Seq<u8>)> {
        self.blocks@.map_values(|b: Block| (b.cid@, b.bytes@))
    }

    /// The list of blocks names each block of the store once, with its bytes, and nothing
    /// else; each of its CIDs names a codec.
    pub proof fn lemma_block_list(&self)
        requires
            self.wf(),
        ensures
            self.spec_block_list().len() == self.spec_blocks().dom().len(),
            forall|i: int, j: int| 0 <= i < j < self.spec_block_list().len() ==> (#[trigger] self.spec_block_list()[i]).0
                != (#[trigger] self.spec_block_list()[j]).0,
            forall|i: int| 0 <= i < self.spec_block_list().len() ==> {
                &&& self.spec_blocks().contains_key((#[trigger] self.spec_block_list()[i]).0)
                &&& self.spec_blocks()[self.spec_block_list()[i].0].1 == self.spec_block_list()[i].1
                &&& cid_fits(self.spec_block_list()[i].0, self.spec_block_list()[i].1)
            },
            forall|k: Seq<u8>| #[trigger] self.spec_blocks().contains_key(k) ==> exists|i: int|
                0 <= i < self.spec_block_list().len() && (#[trigger] self.spec_block_list()[i]).0 == k,
    {
        lemma_view_of(self.blocks@);
        let l = self.spec_block_list();
        assert forall|i: int| 0 <= i < l.len() implies {
            &&& self.spec_blocks().contains_key((#[trigger] l[i]).0)
            &&& self.spec_blocks()[l[i].0].1 == l[i].1
            &&& cid_fits(l[i].0, l[i].1)
        } by {
            assert(l[i] == (self.blocks@[i].cid@, self.blocks@[i].bytes@));
            assert(addressed(self.blocks@[i]));
        }
        assert forall|k: Seq<u8>| #[trigger] self.spec_blocks().contains_key(k) implies exists|i: int|
            0 <= i < l.len() && (#[trigger] l[i]).0 == k by {
            let i = choose|i: int| 0 <= i < self.blocks@.len() && #[trigger] self.blocks@[i].cid@ == k;
            assert(l[i].0 == k);
        }
        assert forall|i: int, j: int| 0 <= i < j < l.len() implies (#[trigger] l[i]).0 != (#[trigger] l[j]).0 by {
            assert(l[i].0 == self.blocks@[i].cid@);
            assert(l[j].0 == self.blocks@[j].cid@);
        }
    }

    /// The blocks, each as its CID and bytes, in the order the store holds them.
    pub fn block_list(&self) -> (r: Vec<(Vec<u8>, Vec<u8>)>)
        ensures
            r@.map_values(|p: (Vec<u8>, Vec<u8>)| (p.0@, p.1@)) == self.spec_block_list(),
    {
        let mut r: Vec<(Vec<u8>, Vec<u8>)> = Vec::new();
        let mut i: usize = 0;
        while i < self.blocks.len()
            invariant
                i <= self.blocks@.len(),
                r@.map_values(|p: (Vec<u8>, Vec<u8>)| (p.0@, p.1@)) == self.spec_block_list().take(i as int),
            decreases self.blocks.len() - i,
        {
            let cid = copy_bytes(self.blocks[i].cid.as_slice());
            let bytes = copy_bytes(self.blocks[i].bytes.as_slice());
            let ghost before = r@;
            let ghost entry = (cid@, bytes@);
            assert(self.spec_block_list()[i as int] == entry);
            r.push((cid, bytes));
            assert(r@.map_values(|p: (Vec<u8>, Vec<u8>)| (p.0@, p.1@)) =~= before.map_values(
                |p: (Vec<u8>, Vec<u8>)| (p.0@, p.1@),
            ).push(entry));
            assert(self.spec_block_list().take(i + 1) =~= self.spec_block_list().take(i as int).push(entry));
            i = i + 1;
        }
        assert(self.spec_block_list().take(i as int) =~= self.spec_block_list());
        r
    }

    /// Removes every block; the limit stays.
    pub fn clear(&mut self)
        ensures
            final(self).wf(),
            final(self).spec_blocks() == BlockMap::empty(),
            final(self).spec_max_raw() == old(self).spec_max_raw(),
    {
        self.blocks = Vec::new();
        assert(self.spec_blocks() == view_of(Seq::<Block>::empty()));
    }

    /// Whether the store holds a block with the given CID.
    pub fn has(&self, cid: &[u8]) -> (r: bool)
        requires
            self.wf(),
        ensures
            r == self.spec_blocks().contains_key(cid@),
    {
        proof {
            lemma_view_of(self.blocks@);
        }
        match self.find(cid) {
            Some(i) => {
                assert(self.blocks@[i as int].cid@ == cid@);
                true
            },
            None => false,
        }
    }

    /// The number of blocks in the store.
    pub fn get_block_count(&self) -> (r: u64)
        requires
            self.wf(),
        ensures
            r == self.spec_blocks().dom().len(),
    {
        proof {
            lemma_view_of(self.blocks@);
        }
        self.blocks.len() as u64
    }

    /// Whether the store holds no blocks.
    pub fn is_empty(&self) -> (r: bool)
        requires
            self.wf(),
        ensures
            r == (self.spec_blocks().dom().len() == 0),
    {
        self.get_block_count() == 0
    }

    /// The codecs whose blocks the store takes: raw bytes and DAG-CBOR.
    pub fn get_supported_codecs(&self) -> (r: Vec<Codec>)
        ensures
            r@ == seq![Codec::Raw, Codec::DagCbor],
    {
        let mut r: Vec<Codec> = Vec::new();
        r.push(Codec::Raw);
        r.push(Codec::DagCbor);
        r
    }

    /// The size of the largest node block the store takes.
    pub fn get_max_node_block_size(&self) -> (r: Option<u64>)
        ensures
            r == Some(DEFAULT_MAX_NODE_BLOCK_SIZE),
    {
        Some(DEFAULT_MAX_NODE_BLOCK_SIZE)
    }

    /// The size of the largest raw block the store takes.
    pub fn get_max_raw_block_size(&self) -> (r: Option<u64>)
        ensures
            r == self.spec_max_raw(),
    {
        self.max_raw_block_size
    }

    /// Stores bytes under the CID that they have with the codec, with no references, unless a
    /// block with that CID is there already; gives the CID and whether it was there.
    fn store_raw(&mut self, bytes: Vec<u8>, codec: &Codec) -> (r: (Vec<u8>, bool))
        requires
            old(self).wf(),
        ensures
            final(self).wf(),
            final(self).spec_max_raw() == old(self).spec_max_raw(),
            r.0@ == cid_of(codec_code(*codec), bytes@),
            cid_codec_of(r.0@) == Some(codec_code(*codec)),
            r.1 == old(self).spec_blocks().contains_key(r.0@),
            r.1 ==> final(self).spec_blocks() == old(self).spec_blocks(),
            !r.1 ==> final(self).spec_blocks() == old(self).spec_blocks().insert(r.0@, (0, bytes@)),
    {
        let cid = make_cid(codec.to_u64(), bytes.as_slice());
        if self.find(cid.as_slice()).is_some() {
            proof {
                lemma_view_of(self.blocks@);
            }
            return (cid, true);
        }
        let key = copy_bytes(cid.as_slice());
        let ghost before = self.blocks@;
        self.blocks.push(Block { cid: key, count: 0, bytes });
        proof {
            assert(self.blocks@.drop_last() =~= before);
            assert(cids_distinct(self.blocks@)) by {
                lemma_view_of(before);
                assert forall|x: int, y: int| 0 <= x < self.blocks@.len() && 0 <= y < self.blocks@.len() && x != y implies self.blocks@[x].cid@
                    != self.blocks@[y].cid@ by {
                    if x < before.len() && y < before.len() {
                        assert(before[x].cid@ != before[y].cid@);
                    } else if x < before.len() {
                        assert(before[x].cid@ != cid@);
                    } else {
                        assert(before[y].cid@ != cid@);
                    }
                }
            }
            assert forall|i: int| 0 <= i < self.blocks@.len() implies (#[trigger] cid_codec_of(self.blocks@[i].cid@)) is Some by {
                if i < before.len() {
                    assert(self.blocks@[i] == before[i]);
                }
            }
            assert forall|i: int| 0 <= i < self.blocks@.len() implies #[trigger] addressed(self.blocks@[i]) by {
                if i < before.len() {
                    assert(self.blocks@[i] == before[i]);
                }
            }
        }
        (cid, false)
    }

    /// Stores a raw block, giving its CID; a block larger than the store's limit gives
    /// `RawBlockTooLarge` with its size and the limit.
    pub fn put_raw_block(&mut self, bytes: Vec<u8>) -> (r: Result<Vec<u8>, StoreError>)
        requires
            old(self).wf(),
        ensures
            final(self).wf(),
            final(self).spec_max_raw() == old(self).spec_max_raw(),
            raw_put_matches(old(self).spec_blocks(), old(self).spec_max_raw(), bytes@, final(self).spec_blocks(), r),
    {
        let n = bytes.len() as u64;
        if let Some(max) = self.max_raw_block_size {
            if n > max {
                return Err(StoreError::RawBlockTooLarge(n, max));
            }
        }
        let (cid, _) = self.store_raw(bytes, &Codec::Raw);
        Ok(cid)
    }

    /// The bytes of the raw block with the given CID: `BlockNotFound` when the store lacks it,
    /// and `UnexpectedBlockCodec` when its CID names another codec.
    pub fn get_raw_block(&self, cid: &[u8]) -> (r: Result<Vec<u8>, StoreError>)
        requires
            self.wf(),
        ensures
            read_matches(self.spec_blocks(), cid@, Codec::Raw, r),
    {
        proof {
            lemma_view_of(self.blocks@);
        }
        self.read_block(cid, Codec::Raw)
    }

    /// The bytes of the node block with the given CID: `BlockNotFound` when the store lacks
    /// it, and `UnexpectedBlockCodec` when its CID names a codec other than DAG-CBOR.
    pub fn get_node_bytes(&self, cid: &[u8]) -> (r: Result<Vec<u8>, StoreError>)
        requires
            self.wf(),
        ensures
            read_matches(self.spec_blocks(), cid@, Codec::DagCbor, r),
    {
        proof {
            lemma_view_of(self.blocks@);
        }
        self.read_block(cid, Codec::DagCbor)
    }

    /// Reads a block that must have the codec `want`.
    fn read_block(&self, cid: &[u8], want: Codec) -> (r: Result<Vec<u8>, StoreError>)
        requires
            self.wf(),
            want == Codec::Raw || want == Codec::DagCbor,
        ensures
            read_matches(self.spec_blocks(), cid@, want, r),
    {
        proof {
            lemma_view_of(self.blocks@);
        }
        let i = match self.find(cid) {
            Some(i) => i,
            None => return Err(StoreError::BlockNotFound(copy_bytes(cid))),
        };
        assert(self.spec_blocks()[cid@] == (self.blocks@[i as int].count as int, self.blocks@[i as int].bytes@));
        let code = match cid_codec(cid) {
            Some(c) => c,
            None => {
                assert(cid_codec_of(self.blocks@[i as int].cid@) is Some);
                return Err(StoreError::BlockNotFound(copy_bytes(cid)));
            },
        };
        let codec = match Codec::try_from_u64(code) {
            Ok(c) => c,
            Err(_) => return Err(StoreError::BlockNotFound(copy_bytes(cid))),
        };
        let same = match (&codec, &want) {
            (Codec::Raw, Codec::Raw) => true,
            (Codec::DagCbor, Codec::DagCbor) => true,
            _ => false,
        };
        if same {
            Ok(copy_bytes(self.blocks[i].bytes.as_slice()))
        } else {
            Err(StoreError::UnexpectedBlockCodec(want, codec))
        }
    }
}

/// The counts after one more reference to `c`, if the store holds it.
pub open spec fn bump_one(m: BlockMap, c: Seq<u8>) -> BlockMap {
    if m.contains_key(c) {
        m.insert(c, (m[c].0 + 1, m[c].1))
    } else {
        m
    }
}

/// The counts after one more reference to each CID of `cids` that the store holds, in order.
pub open spec fn bumped(m: BlockMap, cids: Seq<Seq<u8>>) -> BlockMap
    decreases cids.len(),
{
    if cids.len() == 0 {
        m
    } else {
        bump_one(bumped(m, cids.drop_last()), cids.last())
    }
}

/// Whether counting the references of `cids` in order keeps every count within `usize`.
pub open spec fn bumps_fit(m: BlockMap, cids: Seq<Seq<u8>>) -> bool
    decreases cids.len(),
{
    cids.len() == 0 || (bumps_fit(m, cids.drop_last()) && (bumped(m, cids.drop_last()).contains_key(cids.last())
        ==> bumped(m, cids.drop_last())[cids.last()].0 < usize::MAX))
}

/// The counts after one reference to `r` is dropped: a count at zero stays there.
pub open spec fn decremented(m: BlockMap, r: Seq<u8>) -> BlockMap {
    m.insert(r, (if m[r].0 > 0 { m[r].0 - 1 } else { 0 }, m[r].1))
}

/// The multicodec number of DAG-CBOR.
pub open spec fn dagcbor_code() -> u64 {
    0x71
}

/// The multicodec number of raw bytes.
pub open spec fn raw_code() -> u64 {
    0x55
}

/// What collecting the block `c` gives: the blocks left, the CIDs removed, and whether it
/// went through. Only a block with no references is collected: a raw block is removed; a
/// DAG-CBOR block is removed after its links are read, and each block it links to loses a
/// reference and is collected in turn when that was its last; a block whose links cannot be
/// read stops the collection.
pub open spec fn gc_spec(m: BlockMap, c: Seq<u8>) -> (BlockMap, Set<Seq<u8>>, bool)
    decreases m.dom().len(), 0int,
{
    if !m.dom().finite() || !m.contains_key(c) || m[c].0 != 0 {
        (m, Set::empty(), true)
    } else {
        match cid_codec_of(c) {
            Some(code) => if code == dagcbor_code() {
                match dagcbor_links_of(m[c].1) {
                    None => (m, Set::empty(), false),
                    Some(refs) => {
                        proof {
                            assert(m.remove(c).dom() =~= m.dom().remove(c));
                        }
                        let out = gc_refs(m.remove(c), refs, 0);
                        (out.0, out.1.insert(c), out.2)
                    },
                }
            } else if code == raw_code() {
                (m.remove(c), Set::empty().insert(c), true)
            } else {
                (m, Set::empty(), true)
            },
            None => (m, Set::empty(), true),
        }
    }
}

/// What dropping the references `refs[i..]` gives, in order: each linked block that the
/// store holds loses a reference, and one left with none is collected.
pub open spec fn gc_refs(m: BlockMap, refs: Seq<Seq<u8>>, i: int) -> (BlockMap, Set<Seq<u8>>, bool)
    decreases m.dom().len(), refs.len() - i + 1,
{
    if i < 0 || i >= refs.len() || !m.dom().finite() {
        (m, Set::empty(), true)
    } else {
        let r = refs[i];
        if m.contains_key(r) {
            let m2 = decremented(m, r);
            proof {
                assert(m2.dom() =~= m.dom());
            }
            if m2[r].0 == 0 {
                let sub = gc_spec(m2, r);
                if !sub.2 {
                    (sub.0, sub.1, false)
                } else if sub.0.dom().finite() && sub.0.dom().len() <= m.dom().len() {
                    let rest = gc_refs(sub.0, refs, i + 1);
                    (rest.0, sub.1.union(rest.1), rest.2)
                } else {
                    (sub.0, sub.1, true)
                }
            } else {
                gc_refs(m2, refs, i + 1)
            }
        } else {
            gc_refs(m, refs, i + 1)
        }
    }
}

/// The CIDs of a list, as a set.
pub open spec fn cid_set(v: Seq<Seq<u8>>) -> Set<Seq<u8>> {
    Set::new(|k: Seq<u8>| exists|j: int| 0 <= j < v.len() && v[j] == k)
}

/// What reading the block `cid` that must have the codec `want` gives from the blocks `m`:
/// `BlockNotFound` when there is no such block, its bytes when its CID names `want`, and
/// `UnexpectedBlockCodec` with `want` and the CID's codec otherwise.
pub open spec fn read_matches(m: BlockMap, cid: Seq<u8>, want: Codec, r: Result<Vec<u8>, StoreError>) -> bool {
    if !m.contains_key(cid) {
        r matches Err(StoreError::BlockNotFound(c)) && c@ == cid
    } else if codec_of(cid_codec_of(cid)->Some_0) == want {
        r matches Ok(b) && b@ == m[cid].1
    } else {
        r matches Err(StoreError::UnexpectedBlockCodec(w, got)) && w == want && got == codec_of(cid_codec_of(cid)->Some_0)
    }
}

/// What storing the raw block `bytes` into the blocks `m` under the limit `max` gives: the
/// blocks `m2` after it and the result `r`. A block over the limit gives `RawBlockTooLarge`
/// and changes nothing; otherwise the result is the block's CID, and a block that was not
/// there is added with no references.
pub open spec fn raw_put_matches(
    m: BlockMap,
    max: Option<u64>,
    bytes: Seq<u8>,
    m2: BlockMap,
    r: Result<Vec<u8>, StoreError>,
) -> bool {
    match max {
        Some(mx) if bytes.len() > mx => r matches Err(StoreError::RawBlockTooLarge(n, l)) && n == bytes.len() && l == mx
            && m2 == m,
        _ => r matches Ok(cid) && cid@ == cid_of(raw_code(), bytes) && cid_codec_of(cid@) == Some(raw_code()) && m2 == (
            if m.contains_key(cid@) {
                m
            } else {
                m.insert(cid@, (0, bytes))
            }
        ),
    }
}

/// Whether storing the node `bytes` that links to `refs` into the blocks `m` keeps every
/// count within `usize`.
pub open spec fn node_put_fits(m: BlockMap, bytes: Seq<u8>, refs: Seq<Seq<u8>>) -> bool {
    bytes.len() <= DEFAULT_MAX_NODE_BLOCK_SIZE && !m.contains_key(cid_of(dagcbor_code(), bytes)) ==> bumps_fit(
        m.insert(cid_of(dagcbor_code(), bytes), (0, bytes)),
        refs,
    )
}

/// What storing the node `bytes` that links to `refs` into the blocks `m` gives: the blocks
/// `m2` after it and the result `r`. A node over the largest node block gives
/// `NodeBlockTooLarge` and changes nothing; otherwise the result is the node's CID, and a
/// node that was not there is added with no references and counts one more reference to
/// each block it links to.
pub open spec fn node_put_matches(
    m: BlockMap,
    bytes: Seq<u8>,
    refs: Seq<Seq<u8>>,
    m2: BlockMap,
    r: Result<Vec<u8>, StoreError>,
) -> bool {
    if bytes.len() > DEFAULT_MAX_NODE_BLOCK_SIZE {
        r matches Err(StoreError::NodeBlockTooLarge(n, l)) && n == bytes.len() && l == DEFAULT_MAX_NODE_BLOCK_SIZE
            && m2 == m
    } else {
        r matches Ok(cid) && cid@ == cid_of(dagcbor_code(), bytes) && cid_codec_of(cid@) == Some(dagcbor_code()) && m2 == (
            if m.contains_key(cid@) {
                m
            } else {
                bumped(m.insert(cid@, (0, bytes)), refs)
            }
        )
    }
}

impl MemoryStore {
    /// Replaces the count of block `i`.
    fn set_count(&mut self, i: usize, count: usize)
        requires
            old(self).wf(),
            i < old(self).blocks@.len(),
        ensures
            final(self).wf(),
            final(self).spec_max_raw() == old(self).spec_max_raw(),
            final(self).blocks@.len() == old(self).blocks@.len(),
            final(self).blocks@[i as int].cid@ == old(self).blocks@[i as int].cid@,
            final(self).spec_blocks() == old(self).spec_blocks().insert(
                old(self).blocks@[i as int].cid@,
                (count as int, old(self).spec_blocks()[old(self).blocks@[i as int].cid@].1),
            ),
    {
        proof {
            lemma_view_of(self.blocks@);
        }
        let ghost before = self.blocks@;
        let b = self.blocks.remove(i);
        let nb = Block { cid: b.cid, count, bytes: b.bytes };
        let ghost nbv = nb;
        self.blocks.insert(i, nb);
        proof {
            assert(self.blocks@ =~= before.update(i as int, nbv));
            lemma_view_update(before, i as int, nbv);
            assert forall|j: int| 0 <= j < self.blocks@.len() implies (#[trigger] cid_codec_of(self.blocks@[j].cid@)) is Some by {
                if j != i {
                    assert(self.blocks@[j] == before[j]);
                } else {
                    assert(cid_codec_of(before[j].cid@) is Some);
                }
            }
            assert forall|j: int| 0 <= j < self.blocks@.len() implies #[trigger] addressed(self.blocks@[j]) by {
                if j != i {
                    assert(self.blocks@[j] == before[j]);
                } else {
                    assert(addressed(before[j]));
                }
            }
        }
    }

    /// Removes block `i`.
    fn drop_block(&mut self, i: usize)
        requires
            old(self).wf(),
            i < old(self).blocks@.len(),
        ensures
            final(self).wf(),
            final(self).spec_max_raw() == old(self).spec_max_raw(),
            final(self).spec_blocks() == old(self).spec_blocks().remove(old(self).blocks@[i as int].cid@),
    {
        let ghost before = self.blocks@;
        self.blocks.remove(i);
        proof {
            lemma_view_remove(before, i as int);
            assert forall|j: int| 0 <= j < self.blocks@.len() implies (#[trigger] cid_codec_of(self.blocks@[j].cid@)) is Some by {
                if j < i {
                    assert(self.blocks@[j] == before[j]);
                } else {
                    assert(self.blocks@[j] == before[j + 1]);
                }
            }
            assert forall|j: int| 0 <= j < self.blocks@.len() implies #[trigger] addressed(self.blocks@[j]) by {
                if j < i {
                    assert(self.blocks@[j] == before[j]);
                } else {
                    assert(self.blocks@[j] == before[j + 1]);
                }
            }
        }
    }

    /// Adds one reference to each block of `cids` that the store holds, in order.
    fn increment_reference_counts(&mut self, cids: &Vec<Vec<u8>>)
        requires
            old(self).wf(),
            bumps_fit(old(self).spec_blocks(), cids.deep_view()),
        ensures
            final(self).wf(),
            final(self).spec_max_raw() == old(self).spec_max_raw(),
            final(self).spec_blocks() == bumped(old(self).spec_blocks(), cids.deep_view()),
    {
        let ghost m0 = self.spec_blocks();
        let ghost cv = cids.deep_view();
        let mut k: usize = 0;
        while k < cids.len()
            invariant
                self.wf(),
                self.spec_max_raw() == old(self).spec_max_raw(),
                m0 == old(self).spec_blocks(),
                cv == cids.deep_view(),
                bumps_fit(m0, cv),
                k <= cv.len(),
                self.spec_blocks() == bumped(m0, cv.take(k as int)),
            decreases cids.len() - k,
        {
            proof {
                assert(cv.take(k + 1).drop_last() =~= cv.take(k as int));
                lemma_bumps_fit_prefix(m0, cv, k + 1);
                lemma_view_of(self.blocks@);
            }
            assert(cids@[k as int]@ == cv[k as int]);
            match self.find(cids[k].as_slice()) {
                Some(i) => {
                    let c = self.blocks[i].count;
                    assert(self.spec_blocks()[cv[k as int]] == (c as int, self.blocks@[i as int].bytes@));
                    self.set_count(i, c + 1);
                },
                None => {},
            }
            k = k + 1;
        }
        assert(cv.take(k as int) =~= cv);
    }

    /// Stores a DAG-CBOR node block with the CIDs it links to: a block larger than the largest
    /// node block gives `NodeBlockTooLarge`; a new block counts one more reference to each
    /// block it links to that the store holds; a block already there changes nothing.
    pub fn put_node(&mut self, bytes: Vec<u8>, refs: &Vec<Vec<u8>>) -> (r: Result<Vec<u8>, StoreError>)
        requires
            old(self).wf(),
            node_put_fits(old(self).spec_blocks(), bytes@, refs.deep_view()),
        ensures
            final(self).wf(),
            final(self).spec_max_raw() == old(self).spec_max_raw(),
            node_put_matches(old(self).spec_blocks(), bytes@, refs.deep_view(), final(self).spec_blocks(), r),
    {
        let n = bytes.len() as u64;
        if n > DEFAULT_MAX_NODE_BLOCK_SIZE {
            return Err(StoreError::NodeBlockTooLarge(n, DEFAULT_MAX_NODE_BLOCK_SIZE));
        }
        let (cid, existed) = self.store_raw(bytes, &Codec::DagCbor);
        if !existed {
            self.increment_reference_counts(refs);
        }
        Ok(cid)
    }
}

/// A raw block that was stored can be read back: after `put_raw_block` succeeds, the store
/// holds a block under the CID it gave, with the bytes that were stored, and that CID names
/// the raw codec, so that `get_raw_block` gives the bytes back. This holds unless a block
/// with other bytes was already filed under the same CID.
pub proof fn law_raw_read_after_write(
    m: BlockMap,
    max: Option<u64>,
    bytes: Seq<u8>,
    m2: BlockMap,
    r: Result<Vec<u8>, StoreError>,
)
    requires
        raw_put_matches(m, max, bytes, m2, r),
        r is Ok,
        m.contains_key(cid_of(raw_code(), bytes)) ==> m[cid_of(raw_code(), bytes)].1 == bytes,
    ensures
        m2.contains_key(r->Ok_0@),
        m2[r->Ok_0@].1 == bytes,
        codec_of(cid_codec_of(r->Ok_0@)->Some_0) == Codec::Raw,
{
}

/// Counting references keeps the blocks and their bytes.
pub proof fn lemma_bumped_keeps_bytes(m: BlockMap, cids: Seq<Seq<u8>>)
    ensures
        bumped(m, cids).dom() == m.dom(),
        forall|c: Seq<u8>| #[trigger] m.contains_key(c) ==> bumped(m, cids)[c].1 == m[c].1,
    decreases cids.len(),
{
    if cids.len() > 0 {
        lemma_bumped_keeps_bytes(m, cids.drop_last());
        let prev = bumped(m, cids.drop_last());
        assert(bump_one(prev, cids.last()).dom() =~= prev.dom());
    }
}

/// A node that was stored can be read back: after `put_node` succeeds, the store holds a
/// block under the CID it gave, with the encoded node that was stored, and that CID names
/// DAG-CBOR, so that `get_node_bytes` gives the node back. This holds unless a block with
/// other bytes was already filed under the same CID.
pub proof fn law_node_read_after_write(
    m: BlockMap,
    bytes: Seq<u8>,
    refs: Seq<Seq<u8>>,
    m2: BlockMap,
    r: Result<Vec<u8>, StoreError>,
)
    requires
        node_put_matches(m, bytes, refs, m2, r),
        r is Ok,
        m.contains_key(cid_of(dagcbor_code(), bytes)) ==> m[cid_of(dagcbor_code(), bytes)].1 == bytes,
    ensures
        m2.contains_key(r->Ok_0@),
        m2[r->Ok_0@].1 == bytes,
        codec_of(cid_codec_of(r->Ok_0@)->Some_0) == Codec::DagCbor,
{
    let cid = r->Ok_0@;
    if !m.contains_key(cid) {
        let m1 = m.insert(cid, (0, bytes));
        lemma_bumped_keeps_bytes(m1, refs);
        assert(m1.contains_key(cid) && m1[cid].1 == bytes);
        assert(bumped(m1, refs)[cid].1 == bytes);
    }
}

/// Counting the references of a prefix fits when counting all of them does.
proof fn lemma_bumps_fit_prefix(m: BlockMap, cids: Seq<Seq<u8>>, k: int)
    requires
        bumps_fit(m, cids),
        0 <= k <= cids.len(),
    ensures
        bumps_fit(m, cids.take(k)),
    decreases cids.len() - k,
{
    if k < cids.len() {
        lemma_bumps_fit_prefix(m, cids, k + 1);
        assert(cids.take(k + 1).drop_last() =~= cids.take(k));
    } else {
        assert(cids.take(k) =~= cids);
    }
}

/// The CIDs of two lists together are those of either.
proof fn lemma_cid_set_concat(a: Seq<Seq<u8>>, b: Seq<Seq<u8>>)
    ensures
        cid_set(a + b) == cid_set(a).union(cid_set(b)),
{
    assert forall|k: Seq<u8>| cid_set(a + b).contains(k) <==> cid_set(a).union(cid_set(b)).contains(k) by {
        if cid_set(a + b).contains(k) {
            let j = choose|j: int| 0 <= j < (a + b).len() && (a + b)[j] == k;
            if j < a.len() {
                assert(a[j] == k);
            } else {
                assert(b[j - a.len()] == k);
            }
        }
        if cid_set(a).contains(k) {
            let j = choose|j: int| 0 <= j < a.len() && a[j] == k;
            assert((a + b)[j] == k);
        }
        if cid_set(b).contains(k) {
            let j = choose|j: int| 0 <= j < b.len() && b[j] == k;
            assert((a + b)[a.len() + j] == k);
        }
    }
    assert(cid_set(a + b) =~= cid_set(a).union(cid_set(b)));
}

impl MemoryStore {
    /// Collects the block with the given CID if no reference to it is left, giving the CIDs
    /// of the blocks removed: a raw block is removed; a DAG-CBOR block is removed, each block
    /// it links to loses a reference, and those left with none are collected in turn. A
    /// block with references, one the store lacks, or one of another codec is left alone; a
    /// DAG-CBOR block whose links cannot be read stops the collection with
    /// `UnreadableLinks`, leaving what was removed before.
    pub fn garbage_collect(&mut self, cid: &[u8]) -> (r: Result<Vec<Vec<u8>>, StoreError>)
        requires
            old(self).wf(),
        ensures
            final(self).wf(),
            final(self).spec_max_raw() == old(self).spec_max_raw(),
            final(self).spec_blocks() == gc_spec(old(self).spec_blocks(), cid@).0,
            r is Ok <==> gc_spec(old(self).spec_blocks(), cid@).2,
            r matches Ok(v) ==> cid_set(v.deep_view()) == gc_spec(old(self).spec_blocks(), cid@).1,
            r matches Err(e) ==> e is UnreadableLinks,
            final(self).spec_blocks().dom().len() <= old(self).spec_blocks().dom().len(),
        decreases old(self).spec_blocks().dom().len(),
    {
        proof {
            self.lemma_wf();
            lemma_view_of(self.blocks@);
        }
        let ghost m0 = self.spec_blocks();
        let i = match self.find(cid) {
            Some(i) => i,
            None => {
                let v: Vec<Vec<u8>> = Vec::new();
                assert(cid_set(v.deep_view()) =~= Set::<Seq<u8>>::empty());
                return Ok(v);
            },
        };
        assert(m0[cid@] == (self.blocks@[i as int].count as int, self.blocks@[i as int].bytes@));
        if self.blocks[i].count != 0 {
            let v: Vec<Vec<u8>> = Vec::new();
            assert(cid_set(v.deep_view()) =~= Set::<Seq<u8>>::empty());
            return Ok(v);
        }
        let code = match cid_codec(cid) {
            Some(c) => c,
            None => {
                let v: Vec<Vec<u8>> = Vec::new();
                assert(cid_set(v.deep_view()) =~= Set::<Seq<u8>>::empty());
                return Ok(v);
            },
        };
        if code == 0x55 {
            self.drop_block(i);
            let mut v: Vec<Vec<u8>> = Vec::new();
            v.push(copy_bytes(cid));
            assert(cid_set(v.deep_view()) =~= Set::<Seq<u8>>::empty().insert(cid@)) by {
                assert(v.deep_view()[0] == cid@);
            }
            return Ok(v);
        }
        if code != 0x71 {
            let v: Vec<Vec<u8>> = Vec::new();
            assert(cid_set(v.deep_view()) =~= Set::<Seq<u8>>::empty());
            return Ok(v);
        }
        let refs = match dagcbor_links(self.blocks[i].bytes.as_slice()) {
            Some(r) => r,
            None => return Err(StoreError::UnreadableLinks(copy_bytes(cid))),
        };
        self.drop_block(i);
        let ghost m1 = self.spec_blocks();
        let ghost rv = refs.deep_view();
        let ghost total = gc_refs(m1, rv, 0);
        proof {
            assert(m1.dom() =~= m0.dom().remove(cid@));
            assert(gc_spec(m0, cid@) == (total.0, total.1.insert(cid@), total.2));
        }
        let mut removed: Vec<Vec<u8>> = Vec::new();
        removed.push(copy_bytes(cid));
        proof {
            assert(cid_set(removed.deep_view()) =~= Set::<Seq<u8>>::empty().insert(cid@)) by {
                assert(removed.deep_view()[0] == cid@);
            }
        }
        let mut k: usize = 0;
        while k < refs.len()
            invariant
                self.wf(),
                self.spec_max_raw() == old(self).spec_max_raw(),
                m0 == old(self).spec_blocks(),
                m0.dom().finite(),
                gc_spec(m0, cid@) == (total.0, total.1.insert(cid@), total.2),
                rv == refs.deep_view(),
                k <= rv.len(),
                self.spec_blocks().dom().finite(),
                self.spec_blocks().dom().len() < m0.dom().len(),
                total.0 == gc_refs(self.spec_blocks(), rv, k as int).0,
                total.2 == gc_refs(self.spec_blocks(), rv, k as int).2,
                cid_set(removed.deep_view()).union(gc_refs(self.spec_blocks(), rv, k as int).1) == total.1.insert(cid@),
            decreases refs.len() - k,
        {
            let ghost cur = self.spec_blocks();
            let ghost rr = rv[k as int];
            assert(refs@[k as int]@ == rr);
            proof {
                self.lemma_wf();
                lemma_view_of(self.blocks@);
            }
            match self.find(refs[k].as_slice()) {
                None => {
                    assert(gc_refs(cur, rv, k as int) == gc_refs(cur, rv, k + 1));
                },
                Some(j) => {
                    let c = self.blocks[j].count;
                    assert(cur[rr] == (c as int, self.blocks@[j as int].bytes@));
                    let nc: usize = if c > 0 {
                        c - 1
                    } else {
                        0
                    };
                    self.set_count(j, nc);
                    let ghost cur2 = self.spec_blocks();
                    assert(cur2 == decremented(cur, rr));
                    assert(cur2.dom() =~= cur.dom());
                    if nc == 0 {
                        proof {
                            self.lemma_wf();
                        }
                        let sub = self.garbage_collect(refs[k].as_slice());
                        match sub {
                            Err(e) => {
                                assert(gc_refs(cur, rv, k as int).2 == false);
                                assert(gc_refs(cur, rv, k as int).0 == self.spec_blocks());
                                return Err(e);
                            },
                            Ok(mut sv) => {
                                let ghost before = removed.deep_view();
                                let ghost before_v = removed@;
                                let ghost svd = sv.deep_view();
                                let ghost sv_v = sv@;
                                removed.append(&mut sv);
                                proof {
                                    assert(removed.deep_view() =~= before + svd) by {
                                        assert forall|x: int| 0 <= x < removed@.len() implies removed.deep_view()[x] == (before + svd)[x] by {
                                            if x < before.len() {
                                                assert(removed@[x] == before_v[x]);
                                            } else {
                                                assert(removed@[x] == sv_v[x - before.len()]);
                                            }
                                        }
                                    }
                                    lemma_cid_set_concat(before, svd);
                                    self.lemma_wf();
                                    let s = gc_spec(cur2, rr);
                                    assert(gc_refs(cur, rv, k as int) == (gc_refs(s.0, rv, k + 1).0, s.1.union(gc_refs(s.0, rv, k + 1).1), gc_refs(s.0, rv, k + 1).2));
                                    assert(cid_set(removed.deep_view()).union(gc_refs(self.spec_blocks(), rv, k + 1).1) =~= total.1.insert(cid@));
                                }
                            },
                        }
                    } else {
                        assert(gc_refs(cur, rv, k as int) == gc_refs(cur2, rv, k + 1));
                    }
                },
            }
            k = k + 1;
        }
        proof {
            assert(gc_refs(self.spec_blocks(), rv, k as int).1 =~= Set::<Seq<u8>>::empty());
            assert(cid_set(removed.deep_view()) =~= total.1.insert(cid@));
        }
        Ok(removed)
    }
}

/// Collecting a block and the blocks it links to removes exactly the CIDs it reports, and
/// no others: every block left keeps its bytes, and no count grows or goes below zero.
pub proof fn law_gc_removes_what_it_reports(m: BlockMap, c: Seq<u8>)
    requires
        m.dom().finite(),
        forall|k: Seq<u8>| #[trigger] m.contains_key(k) ==> m[k].0 >= 0,
    ensures
        ({
            let o = gc_spec(m, c);
            &&& o.0.dom().finite()
            &&& o.0.dom().len() <= m.dom().len()
            &&& o.1.subset_of(m.dom())
            &&& o.0.dom() == m.dom().difference(o.1)
            &&& forall|k: Seq<u8>| #[trigger] o.0.contains_key(k) ==> o.0[k].1 == m[k].1 && 0 <= o.0[k].0 <= m[k].0
        }),
    decreases m.dom().len(), 0int,
{
    let o = gc_spec(m, c);
    if !m.contains_key(c) || m[c].0 != 0 {
        assert(m.dom().difference(Set::empty()) =~= m.dom());
    } else {
        match cid_codec_of(c) {
            Some(code) => if code == dagcbor_code() {
                match dagcbor_links_of(m[c].1) {
                    None => {
                        assert(m.dom().difference(Set::empty()) =~= m.dom());
                    },
                    Some(refs) => {
                        let m1 = m.remove(c);
                        assert(m1.dom() =~= m.dom().remove(c));
                        lemma_gc_refs_removes(m1, refs, 0);
                        let out = gc_refs(m1, refs, 0);
                        assert(o.0.dom() =~= m.dom().difference(o.1));
                        vstd::set_lib::lemma_len_subset(o.0.dom(), m.dom());
                    },
                }
            } else if code == raw_code() {
                assert(o.0.dom() =~= m.dom().difference(o.1));
            } else {
                assert(m.dom().difference(Set::empty()) =~= m.dom());
            },
            None => {
                assert(m.dom().difference(Set::empty()) =~= m.dom());
            },
        }
    }
}

/// Dropping references removes exactly the CIDs it reports, and no others.
proof fn lemma_gc_refs_removes(m: BlockMap, refs: Seq<Seq<u8>>, i: int)
    requires
        m.dom().finite(),
        forall|k: Seq<u8>| #[trigger] m.contains_key(k) ==> m[k].0 >= 0,
    ensures
        ({
            let o = gc_refs(m, refs, i);
            &&& o.0.dom().finite()
            &&& o.0.dom().len() <= m.dom().len()
            &&& o.1.subset_of(m.dom())
            &&& o.0.dom() == m.dom().difference(o.1)
            &&& forall|k: Seq<u8>| #[trigger] o.0.contains_key(k) ==> o.0[k].1 == m[k].1 && 0 <= o.0[k].0 <= m[k].0
        }),
    decreases m.dom().len(), refs.len() - i + 1,
{
    let o = gc_refs(m, refs, i);
    if i < 0 || i >= refs.len() {
        assert(m.dom().difference(Set::empty()) =~= m.dom());
    } else {
        let r = refs[i];
        if m.contains_key(r) {
            let m2 = decremented(m, r);
            assert(m2.dom() =~= m.dom());
            if m2[r].0 == 0 {
                law_gc_removes_what_it_reports(m2, r);
                let sub = gc_spec(m2, r);
                if !sub.2 {
                    assert(o.0.dom() =~= m.dom().difference(o.1));
                } else {
                    lemma_gc_refs_removes(sub.0, refs, i + 1);
                    let rest = gc_refs(sub.0, refs, i + 1);
                    assert(o.0.dom() =~= m.dom().difference(o.1));
                    vstd::set_lib::lemma_len_subset(o.0.dom(), m.dom());
                }
            } else {
                lemma_gc_refs_removes(m2, refs, i + 1);
            }
        } else {
            lemma_gc_refs_removes(m, refs, i + 1);
        }
    }
}

/// A block that is still referenced, or that the store lacks, is never collected: the
/// store stays as it was and nothing is removed.
pub proof fn law_referenced_block_stays(m: BlockMap, c: Seq<u8>)
    requires
        !m.contains_key(c) || m[c].0 > 0,
    ensures
        gc_spec(m, c) == (m, Set::<Seq<u8>>::empty(), true),
{
}

/// A raw block with no references left is removed, alone.
pub proof fn law_unreferenced_raw_block_goes(m: BlockMap, c: Seq<u8>)
    requires
        m.dom().finite(),
        m.contains_key(c),
        m[c].0 == 0,
        cid_codec_of(c) == Some(raw_code()),
    ensures
        gc_spec(m, c) == (m.remove(c), Set::<Seq<u8>>::empty().insert(c), true),
{
}

/// A block that a node links to loses its last reference when the node is collected, and is
/// collected with it: collecting a node whose only link is `d`, the last reference to a raw
/// block `d`, removes both.
pub proof fn law_collection_follows_links(m: BlockMap, c: Seq<u8>, d: Seq<u8>)
    requires
        m.dom().finite(),
        m.contains_key(c),
        m.contains_key(d),
        c != d,
        m[c].0 == 0,
        m[d].0 == 1,
        cid_codec_of(c) == Some(dagcbor_code()),
        cid_codec_of(d) == Some(raw_code()),
        dagcbor_links_of(m[c].1) == Some(seq![d]),
    ensures
        gc_spec(m, c).2,
        gc_spec(m, c).1 == set![c, d],
        gc_spec(m, c).0 == m.remove(c).remove(d),
{
    let m1 = m.remove(c);
    assert(m1.dom() =~= m.dom().remove(c));
    let m2 = decremented(m1, d);
    assert(m2.dom() =~= m1.dom());
    assert(m2.remove(d) =~= m.remove(c).remove(d));
    let s = gc_spec(m2, d);
    assert(s == (m2.remove(d), Set::<Seq<u8>>::empty().insert(d), true));
    assert(s.0.dom() =~= m1.dom().remove(d));
    vstd::set_lib::lemma_len_subset(s.0.dom(), m1.dom());
    assert(gc_refs(s.0, seq![d], 1) == (s.0, Set::<Seq<u8>>::empty(), true));
    assert(gc_spec(m, c).1 =~= set![c, d]);
}

/// Whether every count leaves room for `n` more references.
pub open spec fn counts_leave_room(m: BlockMap, n: int) -> bool {
    forall|k: Seq<u8>| #[trigger] m.contains_key(k) ==> m[k].0 + n <= usize::MAX
}

/// Counting the first `k` references raises no count by more than `k` and adds no block.
proof fn lemma_bumped_bound(m: BlockMap, cids: Seq<Seq<u8>>, k: int)
    requires
        0 <= k <= cids.len(),
    ensures
        bumped(m, cids.take(k)).dom() == m.dom(),
        forall|c: Seq<u8>| #[trigger] m.contains_key(c) ==> bumped(m, cids.take(k))[c].0 <= m[c].0 + k,
    decreases k,
{
    if k > 0 {
        lemma_bumped_bound(m, cids, k - 1);
        assert(cids.take(k).drop_last() =~= cids.take(k - 1));
        let b = bumped(m, cids.take(k - 1));
        let last = cids.take(k).last();
        assert(bumped(m, cids.take(k)) == bump_one(b, last));
        assert(bump_one(b, last).dom() =~= m.dom());
    }
}

/// Counts that leave room for every reference of `cids` are never pushed past `usize`.
proof fn lemma_room_fits(m: BlockMap, cids: Seq<Seq<u8>>, k: int)
    requires
        counts_leave_room(m, cids.len() as int),
        0 <= k <= cids.len(),
    ensures
        bumps_fit(m, cids.take(k)),
    decreases k,
{
    if k > 0 {
        lemma_room_fits(m, cids, k - 1);
        assert(cids.take(k).drop_last() =~= cids.take(k - 1));
        lemma_bumped_bound(m, cids, k - 1);
        let b = bumped(m, cids.take(k - 1));
        let last = cids.take(k).last();
        if b.contains_key(last) {
            assert(m.contains_key(last));
            assert(b[last].0 <= m[last].0 + (k - 1));
            assert(m[last].0 + cids.len() <= usize::MAX);
        }
    }
}

impl MemoryStore {
    /// Whether every block's count leaves room for `n` more references.
    fn room_for(&self, n: usize) -> (r: bool)
        requires
            self.wf(),
        ensures
            r == counts_leave_room(self.spec_blocks(), n as int),
    {
        proof {
            lemma_view_of(self.blocks@);
        }
        let limit = usize::MAX - n;
        let mut i: usize = 0;
        while i < self.blocks.len()
            invariant
                self.wf(),
                limit == usize::MAX - n,
                i <= self.blocks@.len(),
                forall|j: int| 0 <= j < i ==> self.blocks@[j].count <= limit,
            decreases self.blocks.len() - i,
        {
            if self.blocks[i].count > limit {
                proof {
                    lemma_view_of(self.blocks@);
                    let k = self.blocks@[i as int].cid@;
                    assert(self.spec_blocks().contains_key(k));
                    assert(self.spec_blocks()[k].0 + n > usize::MAX);
                }
                return false;
            }
            i = i + 1;
        }
        proof {
            lemma_view_of(self.blocks@);
            assert forall|k: Seq<u8>| #[trigger] self.spec_blocks().contains_key(k) implies self.spec_blocks()[k].0 + n
                <= usize::MAX by {
                let j = choose|j: int| 0 <= j < self.blocks@.len() && #[trigger] self.blocks@[j].cid@ == k;
                assert(self.spec_blocks()[self.blocks@[j].cid@] == (self.blocks@[j].count as int, self.blocks@[j].bytes@));
            }
        }
        true
    }

    /// `put_node`, for any store: `None`, with nothing stored, when some block's count leaves
    /// no room for one more reference from each of `refs`, where counting could pass the
    /// largest `usize`.
    pub fn put_node_checked(&mut self, bytes: Vec<u8>, refs: &Vec<Vec<u8>>) -> (r: Option<Result<Vec<u8>, StoreError>>)
        requires
            old(self).wf(),
        ensures
            final(self).wf(),
            final(self).spec_max_raw() == old(self).spec_max_raw(),
            r is None <==> !counts_leave_room(old(self).spec_blocks(), refs@.len() as int),
            r is None ==> final(self).spec_blocks() == old(self).spec_blocks(),
            r matches Some(x) ==> node_put_matches(old(self).spec_blocks(), bytes@, refs.deep_view(), final(self).spec_blocks(), x),
    {
        if !self.room_for(refs.len()) {
            return None;
        }
        proof {
            let m1 = self.spec_blocks().insert(cid_of(dagcbor_code(), bytes@), (0, bytes@));
            assert(counts_leave_room(m1, refs.deep_view().len() as int));
            lemma_room_fits(m1, refs.deep_view(), refs.deep_view().len() as int);
            assert(refs.deep_view().take(refs.deep_view().len() as int) =~= refs.deep_view());
        }
        Some(self.put_node(bytes, refs))
    }
}

} // verus!
