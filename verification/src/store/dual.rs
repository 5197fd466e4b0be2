//! A store made of two stores: writes go to the one configured, and a read looks first in the
//! one configured and, for a block that it lacks, in the other. A buffer store is such a pair
//! with an in-memory buffer in front of a backup, which a flush copies into the backup.

use vstd::prelude::*;
use crate::store::codec::Codec;
use crate::store::constants::{DEFAULT_CHUNK_MAX_SIZE, DEFAULT_MAX_NODE_BLOCK_SIZE};
use crate::store::codec::codec_of;
use crate::store::memstore::{
    bumped, cid_codec, cid_codec_of, cid_fits, cid_of, copy_bytes, lemma_bumped_keeps_bytes, counts_leave_room, dagcbor_code, dagcbor_links,
    dagcbor_links_of, law_raw_read_after_write, node_put_fits, node_put_matches, raw_code, raw_put_matches,
    read_matches, BlockMap, MemoryStore, StoreError,
};

verus! {

/// One of the two stores.
#[derive(Clone, Copy, Debug, PartialEq, Eq, Structural)]
pub enum Choice {
    /// The first store.
    A,
    /// The second store.
    B,
}

impl Choice {
    /// The other store.
    pub fn other(&self) -> (r: Choice)
        ensures
            r != *self,
    {
        match self {
            Choice::A => Choice::B,
            Choice::B => Choice::A,
        }
    }
}

/// Which store a dual store writes to and which it reads from first.
#[derive(Debug, Clone, Copy, PartialEq, Eq, Structural)]
pub struct DualStoreConfig {
    /// The store that writes go to.
    pub write_to: Choice,
    /// The store that reads try first.
    pub read_from: Choice,
}

impl DualStoreConfig {
    /// The default configuration: write to and read from the first store.
    pub fn default_config() -> (c: DualStoreConfig)
        ensures
            c.write_to == Choice::A,
            c.read_from == Choice::A,
    {
        DualStoreConfig { write_to: Choice::A, read_from: Choice::A }
    }

    /// Where a read goes after the first store answered: a block that the first store does
    /// not hold is looked for in the other store; any other answer is final.
    pub fn after_first_read(&self, not_found: bool) -> (r: Option<Choice>)
        ensures
            not_found ==> r == Some(if self.read_from == Choice::A { Choice::B } else { Choice::A }),
            !not_found ==> r is None,
    {
        if not_found {
            Some(self.read_from.other())
        } else {
            None
        }
    }

    /// Whether a block is held: by the store read first, or else by the other.
    pub fn has_after_first(&self, first: bool) -> (r: Option<Choice>)
        ensures
            first ==> r is None,
            !first ==> r == Some(if self.read_from == Choice::A { Choice::B } else { Choice::A }),
    {
        if first {
            None
        } else {
            Some(self.read_from.other())
        }
    }
}

/// The larger of two optional limits, where no limit counts as the smallest
/// (`Option::max`).
pub open spec fn option_max(a: Option<u64>, b: Option<u64>) -> Option<u64> {
    match (a, b) {
        (None, _) => b,
        (_, None) => a,
        (Some(x), Some(y)) => if x >= y { a } else { b },
    }
}

/// The larger of the two stores' limits.
pub fn max_limit(a: Option<u64>, b: Option<u64>) -> (r: Option<u64>)
    ensures
        r == option_max(a, b),
{
    match (a, b) {
        (None, _) => b,
        (_, None) => a,
        (Some(x), Some(y)) => if x >= y {
            a
        } else {
            b
        },
    }
}

/// The number of blocks of both stores together.
pub fn total_block_count(a: u64, b: u64) -> (r: u64)
    requires
        a + b <= u64::MAX,
    ensures
        r == a + b,
{
    a + b
}

/// The other of the two stores.
pub open spec fn other_of(c: Choice) -> Choice {
    match c {
        Choice::A => Choice::B,
        Choice::B => Choice::A,
    }
}

/// A store made of two memory stores and a configuration of where writes go and where reads
/// look first.
pub struct DualStore {
    store_a: MemoryStore,
    store_b: MemoryStore,
    config: DualStoreConfig,
}

impl DualStore {
    /// The first store.
    pub closed spec fn spec_a(&self) -> MemoryStore {
        self.store_a
    }

    /// The second store.
    pub closed spec fn spec_b(&self) -> MemoryStore {
        self.store_b
    }

    /// The configuration.
    pub closed spec fn spec_config(&self) -> DualStoreConfig {
        self.config
    }

    /// The store that a choice names.
    pub open spec fn store_of(&self, c: Choice) -> MemoryStore {
        match c {
            Choice::A => self.spec_a(),
            Choice::B => self.spec_b(),
        }
    }

    /// Both stores are well formed.
    pub open spec fn wf(&self) -> bool {
        self.spec_a().wf() && self.spec_b().wf()
    }

    /// A dual store of the two stores with the configuration.
    pub fn new(store_a: MemoryStore, store_b: MemoryStore, config: DualStoreConfig) -> (d: Self)
        ensures
            d.spec_a() == store_a,
            d.spec_b() == store_b,
            d.spec_config() == config,
    {
        DualStore { store_a, store_b, config }
    }

    /// The first store.
    pub fn get_store_a(&self) -> (r: &MemoryStore)
        ensures
            *r == self.spec_a(),
    {
        &self.store_a
    }

    /// The second store.
    pub fn get_store_b(&self) -> (r: &MemoryStore)
        ensures
            *r == self.spec_b(),
    {
        &self.store_b
    }

    /// The configuration.
    pub fn get_config(&self) -> (r: DualStoreConfig)
        ensures
            r == self.spec_config(),
    {
        self.config
    }

    /// The two stores, taken apart.
    pub fn into_stores(self) -> (r: (MemoryStore, MemoryStore))
        ensures
            r.0 == self.spec_a(),
            r.1 == self.spec_b(),
    {
        (self.store_a, self.store_b)
    }

    /// Stores a raw block in the store that writes go to; the other store is unchanged.
    pub fn put_raw_block(&mut self, bytes: Vec<u8>) -> (r: Result<Vec<u8>, StoreError>)
        requires
            old(self).wf(),
        ensures
            final(self).wf(),
            final(self).spec_config() == old(self).spec_config(),
            raw_put_matches(
                old(self).store_of(old(self).spec_config().write_to).spec_blocks(),
                old(self).store_of(old(self).spec_config().write_to).spec_max_raw(),
                bytes@,
                final(self).store_of(old(self).spec_config().write_to).spec_blocks(),
                r,
            ),
            final(self).store_of(old(self).spec_config().write_to).spec_max_raw() == old(self).store_of(
                old(self).spec_config().write_to,
            ).spec_max_raw(),
            final(self).store_of(other_of(old(self).spec_config().write_to)) == old(self).store_of(
                other_of(old(self).spec_config().write_to),
            ),
    {
        match self.config.write_to {
            Choice::A => self.store_a.put_raw_block(bytes),
            Choice::B => self.store_b.put_raw_block(bytes),
        }
    }

    /// Stores an encoded DAG-CBOR node that links to `refs` in the store that writes go to;
    /// the other store is unchanged.
    pub fn put_node(&mut self, bytes: Vec<u8>, refs: &Vec<Vec<u8>>) -> (r: Result<Vec<u8>, StoreError>)
        requires
            old(self).wf(),
            node_put_fits(old(self).store_of(old(self).spec_config().write_to).spec_blocks(), bytes@, refs.deep_view()),
        ensures
            final(self).wf(),
            final(self).spec_config() == old(self).spec_config(),
            node_put_matches(
                old(self).store_of(old(self).spec_config().write_to).spec_blocks(),
                bytes@,
                refs.deep_view(),
                final(self).store_of(old(self).spec_config().write_to).spec_blocks(),
                r,
            ),
            final(self).store_of(old(self).spec_config().write_to).spec_max_raw() == old(self).store_of(
                old(self).spec_config().write_to,
            ).spec_max_raw(),
            final(self).store_of(other_of(old(self).spec_config().write_to)) == old(self).store_of(
                other_of(old(self).spec_config().write_to),
            ),
    {
        match self.config.write_to {
            Choice::A => self.store_a.put_node(bytes, refs),
            Choice::B => self.store_b.put_node(bytes, refs),
        }
    }

    /// `put_node`, for any store: `None`, with nothing stored, when some block's count in
    /// the store that writes go to leaves no room for one more reference from each of `refs`.
    pub fn put_node_checked(&mut self, bytes: Vec<u8>, refs: &Vec<Vec<u8>>) -> (r: Option<Result<Vec<u8>, StoreError>>)
        requires
            old(self).wf(),
        ensures
            final(self).wf(),
            final(self).spec_config() == old(self).spec_config(),
            r is None <==> !counts_leave_room(
                old(self).store_of(old(self).spec_config().write_to).spec_blocks(),
                refs@.len() as int,
            ),
            r is None ==> final(self).store_of(old(self).spec_config().write_to).spec_blocks() == old(self).store_of(
                old(self).spec_config().write_to,
            ).spec_blocks(),
            r matches Some(x) ==> node_put_matches(
                old(self).store_of(old(self).spec_config().write_to).spec_blocks(),
                bytes@,
                refs.deep_view(),
                final(self).store_of(old(self).spec_config().write_to).spec_blocks(),
                x,
            ),
            final(self).store_of(old(self).spec_config().write_to).spec_max_raw() == old(self).store_of(
                old(self).spec_config().write_to,
            ).spec_max_raw(),
            final(self).store_of(other_of(old(self).spec_config().write_to)) == old(self).store_of(
                other_of(old(self).spec_config().write_to),
            ),
    {
        match self.config.write_to {
            Choice::A => self.store_a.put_node_checked(bytes, refs),
            Choice::B => self.store_b.put_node_checked(bytes, refs),
        }
    }

    /// Reads a raw block (for `raw`) or a node block from one store.
    fn read_in(&self, cid: &[u8], raw: bool, c: Choice) -> (r: Result<Vec<u8>, StoreError>)
        requires
            self.wf(),
        ensures
            read_matches(self.store_of(c).spec_blocks(), cid@, if raw { Codec::Raw } else { Codec::DagCbor }, r),
    {
        match c {
            Choice::A => if raw {
                self.store_a.get_raw_block(cid)
            } else {
                self.store_a.get_node_bytes(cid)
            },
            Choice::B => if raw {
                self.store_b.get_raw_block(cid)
            } else {
                self.store_b.get_node_bytes(cid)
            },
        }
    }

    /// Reads a raw block (for `raw`) or a node block: from the store read first, or, when that
    /// store lacks it, from the other.
    fn read_either(&self, cid: &[u8], raw: bool) -> (r: Result<Vec<u8>, StoreError>)
        requires
            self.wf(),
        ensures
            if self.store_of(self.spec_config().read_from).spec_blocks().contains_key(cid@) {
                read_matches(
                    self.store_of(self.spec_config().read_from).spec_blocks(),
                    cid@,
                    if raw { Codec::Raw } else { Codec::DagCbor },
                    r,
                )
            } else {
                read_matches(
                    self.store_of(other_of(self.spec_config().read_from)).spec_blocks(),
                    cid@,
                    if raw { Codec::Raw } else { Codec::DagCbor },
                    r,
                )
            },
    {
        let first = self.config.read_from;
        match self.read_in(cid, raw, first) {
            Err(StoreError::BlockNotFound(c)) => {
                let second = first.other();
                assert(second == other_of(first));
                self.read_in(cid, raw, second)
            },
            other => other,
        }
    }

    /// The bytes of a raw block: from the store read first, or, when that store lacks the
    /// block, from the other.
    pub fn get_raw_block(&self, cid: &[u8]) -> (r: Result<Vec<u8>, StoreError>)
        requires
            self.wf(),
        ensures
            if self.store_of(self.spec_config().read_from).spec_blocks().contains_key(cid@) {
                read_matches(self.store_of(self.spec_config().read_from).spec_blocks(), cid@, Codec::Raw, r)
            } else {
                read_matches(self.store_of(other_of(self.spec_config().read_from)).spec_blocks(), cid@, Codec::Raw, r)
            },
    {
        self.read_either(cid, true)
    }

    /// The bytes of a node block: from the store read first, or, when that store lacks the
    /// block, from the other.
    pub fn get_node_bytes(&self, cid: &[u8]) -> (r: Result<Vec<u8>, StoreError>)
        requires
            self.wf(),
        ensures
            if self.store_of(self.spec_config().read_from).spec_blocks().contains_key(cid@) {
                read_matches(self.store_of(self.spec_config().read_from).spec_blocks(), cid@, Codec::DagCbor, r)
            } else {
                read_matches(
                    self.store_of(other_of(self.spec_config().read_from)).spec_blocks(),
                    cid@,
                    Codec::DagCbor,
                    r,
                )
            },
    {
        self.read_either(cid, false)
    }

    /// Whether either store holds the block.
    pub fn has(&self, cid: &[u8]) -> (r: bool)
        requires
            self.wf(),
        ensures
            r == (self.spec_a().spec_blocks().contains_key(cid@) || self.spec_b().spec_blocks().contains_key(cid@)),
    {
        let first = match self.config.read_from {
            Choice::A => self.store_a.has(cid),
            Choice::B => self.store_b.has(cid),
        };
        if first {
            true
        } else {
            match self.config.read_from {
                Choice::A => self.store_b.has(cid),
                Choice::B => self.store_a.has(cid),
            }
        }
    }

    /// The codecs that either store takes: raw bytes and DAG-CBOR.
    pub fn get_supported_codecs(&self) -> (r: Vec<Codec>)
        ensures
            r@ == seq![Codec::Raw, Codec::DagCbor],
    {
        let mut r = self.store_a.get_supported_codecs();
        let more = self.store_b.get_supported_codecs();
        let mut i: usize = 0;
        while i < more.len()
            invariant
                more@ == seq![Codec::Raw, Codec::DagCbor],
                i <= more@.len(),
                r@ == seq![Codec::Raw, Codec::DagCbor],
            decreases more.len() - i,
        {
            let mut j: usize = 0;
            let mut found = false;
            while j < r.len()
                invariant
                    i < more@.len(),
                    more@ == seq![Codec::Raw, Codec::DagCbor],
                    r@ == seq![Codec::Raw, Codec::DagCbor],
                    j <= r@.len(),
                    found <==> exists|k: int| 0 <= k < j && r@[k] == more@[i as int],
                decreases r.len() - j,
            {
                if r[j] == more[i] {
                    found = true;
                }
                j = j + 1;
            }
            assert(more@[i as int] == r@[i as int]);
            if !found {
                r.push(more[i].clone());
            }
            i = i + 1;
        }
        r
    }

    /// The size of the largest node block: the larger of the two stores'.
    pub fn get_max_node_block_size(&self) -> (r: Option<u64>)
        ensures
            r == Some(DEFAULT_MAX_NODE_BLOCK_SIZE),
    {
        max_limit(self.store_a.get_max_node_block_size(), self.store_b.get_max_node_block_size())
    }

    /// The size of the largest raw block: the larger of the two stores'.
    pub fn get_max_raw_block_size(&self) -> (r: Option<u64>)
        ensures
            r == option_max(self.spec_a().spec_max_raw(), self.spec_b().spec_max_raw()),
    {
        max_limit(self.store_a.get_max_raw_block_size(), self.store_b.get_max_raw_block_size())
    }

    /// Whether both stores are empty.
    pub fn is_empty(&self) -> (r: bool)
        requires
            self.wf(),
        ensures
            r == (self.spec_a().spec_blocks().dom().len() == 0 && self.spec_b().spec_blocks().dom().len() == 0),
    {
        self.store_a.is_empty() && self.store_b.is_empty()
    }

    /// The number of blocks in both stores together.
    pub fn get_block_count(&self) -> (r: u64)
        requires
            self.wf(),
            self.spec_a().spec_blocks().dom().len() + self.spec_b().spec_blocks().dom().len() <= u64::MAX,
        ensures
            r == self.spec_a().spec_blocks().dom().len() + self.spec_b().spec_blocks().dom().len(),
    {
        total_block_count(self.store_a.get_block_count(), self.store_b.get_block_count())
    }
}

/// A raw block written through a dual store is read back through it, whichever store reads
/// try first: `before` and `after` are the dual store around a `put_raw_block` of `bytes`
/// that gave `r`. After it, the store read first holds the bytes under the CID, or it lacks
/// that CID and the other store holds the bytes under it, and the CID names the raw codec.
/// This holds unless a block with other bytes was already filed under the same CID.
pub proof fn law_dual_read_after_write(
    before: DualStore,
    bytes: Seq<u8>,
    after: DualStore,
    r: Result<Vec<u8>, StoreError>,
)
    requires
        after.spec_config() == before.spec_config(),
        raw_put_matches(
            before.store_of(before.spec_config().write_to).spec_blocks(),
            before.store_of(before.spec_config().write_to).spec_max_raw(),
            bytes,
            after.store_of(before.spec_config().write_to).spec_blocks(),
            r,
        ),
        after.store_of(other_of(before.spec_config().write_to)) == before.store_of(
            other_of(before.spec_config().write_to),
        ),
        r is Ok,
        forall|c: Choice| #[trigger]
            before.store_of(c).spec_blocks().contains_key(cid_of(raw_code(), bytes)) ==> before.store_of(
                c,
            ).spec_blocks()[cid_of(raw_code(), bytes)].1 == bytes,
    ensures
        ({
            let cid = r->Ok_0@;
            let first = after.store_of(after.spec_config().read_from).spec_blocks();
            let second = after.store_of(other_of(after.spec_config().read_from)).spec_blocks();
            &&& first.contains_key(cid) ==> first[cid].1 == bytes
            &&& !first.contains_key(cid) ==> second.contains_key(cid) && second[cid].1 == bytes
            &&& codec_of(cid_codec_of(cid)->Some_0) == crate::store::codec::Codec::Raw
        }),
{
    let w = before.spec_config().write_to;
    assert(before.store_of(w).spec_blocks().contains_key(cid_of(raw_code(), bytes)) ==> before.store_of(
        w,
    ).spec_blocks()[cid_of(raw_code(), bytes)].1 == bytes);
    assert(before.store_of(other_of(w)).spec_blocks().contains_key(cid_of(raw_code(), bytes)) ==> before.store_of(
        other_of(w),
    ).spec_blocks()[cid_of(raw_code(), bytes)].1 == bytes);
    law_raw_read_after_write(
        before.store_of(w).spec_blocks(),
        before.store_of(w).spec_max_raw(),
        bytes,
        after.store_of(w).spec_blocks(),
        r,
    );
}

/// Why flushing a buffer stopped.
pub enum FlushFault {
    /// A raw block is larger than the backup takes: its size and the limit.
    RawTooLarge(u64, u64),
    /// A node block is larger than the backup takes: its size and the limit.
    NodeTooLarge(u64, u64),
    /// The links of the DAG-CBOR block with this CID could not be read.
    Unreadable(Seq<u8>),
    /// A block has a codec other than raw bytes and DAG-CBOR.
    OtherCodec(Codec),
}

/// Whether `e` is the error that reports `f`.
pub open spec fn flush_fault_matches(e: StoreError, f: FlushFault) -> bool {
    match f {
        FlushFault::RawTooLarge(n, l) => e matches StoreError::RawBlockTooLarge(a, b) && a == n && b == l,
        FlushFault::NodeTooLarge(n, l) => e matches StoreError::NodeBlockTooLarge(a, b) && a == n && b == l,
        FlushFault::Unreadable(c) => e matches StoreError::UnreadableLinks(v) && v@ == c,
        FlushFault::OtherCodec(c) => e matches StoreError::UnexpectedBlockCodec(w, got) && w == Codec::DagCbor && got == c,
    }
}

/// Where flushing a buffer stands: the backup's blocks and the number of blocks copied, or
/// the backup's blocks where it stopped, with the fault, or because a reference count in the
/// backup had no room for the links of a node.
pub enum Flush {
    /// Flushing goes on.
    Going(BlockMap, nat),
    /// Flushing stopped with a fault.
    Failed(BlockMap, FlushFault),
    /// Flushing stopped: a count had no room for more references.
    NoRoom(BlockMap),
}

/// One step of flushing the block `blk` (CID and bytes) into a backup whose largest raw block
/// is `max_raw`: a block the backup holds is skipped; a raw block is stored as a raw block; a
/// DAG-CBOR block is stored as a node with the links it holds; any other codec stops it.
pub open spec fn flush_step(st: Flush, blk: (Seq<u8>, Seq<u8>), max_raw: Option<u64>) -> Flush {
    match st {
        Flush::Going(m, n) => {
            let cid = blk.0;
            let bytes = blk.1;
            if m.contains_key(cid) {
                Flush::Going(m, n)
            } else {
                match cid_codec_of(cid) {
                    None => Flush::Going(m, n),
                    Some(code) => if code == raw_code() {
                        match max_raw {
                            Some(mx) if bytes.len() > mx => Flush::Failed(m, FlushFault::RawTooLarge(bytes.len() as u64, mx)),
                            _ => {
                                let c = cid_of(raw_code(), bytes);
                                Flush::Going(if m.contains_key(c) { m } else { m.insert(c, (0, bytes)) }, n + 1)
                            },
                        }
                    } else if code == dagcbor_code() {
                        match dagcbor_links_of(bytes) {
                            None => Flush::Failed(m, FlushFault::Unreadable(cid)),
                            Some(links) => if !counts_leave_room(m, links.len() as int) {
                                Flush::NoRoom(m)
                            } else if bytes.len() > DEFAULT_MAX_NODE_BLOCK_SIZE {
                                Flush::Failed(m, FlushFault::NodeTooLarge(bytes.len() as u64, DEFAULT_MAX_NODE_BLOCK_SIZE))
                            } else {
                                let c = cid_of(dagcbor_code(), bytes);
                                Flush::Going(if m.contains_key(c) { m } else { bumped(m.insert(c, (0, bytes)), links) }, n + 1)
                            },
                        }
                    } else {
                        Flush::Failed(m, FlushFault::OtherCodec(codec_of(code)))
                    },
                }
            }
        },
        other => other,
    }
}

/// Flushing the blocks `list` in order into a backup holding `m`.
pub open spec fn flush_all(list: Seq<(Seq<u8>, Seq<u8>)>, m: BlockMap, max_raw: Option<u64>) -> Flush
    decreases list.len(),
{
    if list.len() == 0 {
        Flush::Going(m, 0)
    } else {
        flush_step(flush_all(list.drop_last(), m, max_raw), list.last(), max_raw)
    }
}

/// Once flushing stops, it stays stopped where it was.
proof fn lemma_flush_stops(list: Seq<(Seq<u8>, Seq<u8>)>, m: BlockMap, max_raw: Option<u64>, k: int, j: int)
    requires
        0 <= k <= j <= list.len(),
        !(flush_all(list.take(k), m, max_raw) is Going),
    ensures
        flush_all(list.take(j), m, max_raw) == flush_all(list.take(k), m, max_raw),
    decreases j - k,
{
    if j > k {
        lemma_flush_stops(list, m, max_raw, k, j - 1);
        assert(list.take(j).drop_last() =~= list.take(j - 1));
    }
}

/// What flushing a prefix of the blocks keeps: the backup's blocks with their bytes, and
/// each block flushed so far with its bytes, and nothing else.
proof fn lemma_flush_going(list: Seq<(Seq<u8>, Seq<u8>)>, m: BlockMap, max_raw: Option<u64>, k: int)
    requires
        0 <= k <= list.len(),
        forall|i: int| 0 <= i < list.len() ==> cid_fits((#[trigger] list[i]).0, list[i].1),
        forall|i: int, j: int| 0 <= i < j < list.len() ==> (#[trigger] list[i]).0 != (#[trigger] list[j]).0,
        forall|i: int| 0 <= i < list.len() && m.contains_key((#[trigger] list[i]).0) ==> m[list[i].0].1 == list[i].1,
    ensures
        flush_all(list.take(k), m, max_raw) matches Flush::Going(mk, _) ==> {
            &&& forall|key: Seq<u8>| #[trigger] m.contains_key(key) ==> mk.contains_key(key) && mk[key].1 == m[key].1
            &&& forall|j: int| 0 <= j < k ==> mk.contains_key((#[trigger] list[j]).0) && mk[list[j].0].1 == list[j].1
            &&& forall|key: Seq<u8>| #[trigger] mk.contains_key(key) ==> m.contains_key(key) || exists|j: int|
                0 <= j < k && (#[trigger] list[j]).0 == key
        },
    decreases k,
{
    if k > 0 {
        lemma_flush_going(list, m, max_raw, k - 1);
        let t = list.take(k);
        assert(t.drop_last() =~= list.take(k - 1));
        assert(t.last() == list[k - 1]);
        if let Flush::Going(mp, np) = flush_all(list.take(k - 1), m, max_raw) {
            let cid = list[k - 1].0;
            let bytes = list[k - 1].1;
            if let Flush::Going(mk, nk) = flush_all(t, m, max_raw) {
                if mp.contains_key(cid) {
                    if !m.contains_key(cid) {
                        let j = choose|j: int| 0 <= j < k - 1 && (#[trigger] list[j]).0 == cid;
                        assert(list[j].0 != list[k - 1].0);
                    }
                } else {
                    let code = cid_codec_of(cid)->Some_0;
                    assert(cid == cid_of(code, bytes));
                    let links = dagcbor_links_of(bytes)->Some_0;
                    let mi = mp.insert(cid, (0, bytes));
                    if code == dagcbor_code() {
                        lemma_bumped_keeps_bytes(mi, links);
                        assert(mk == bumped(mi, links));
                    } else {
                        assert(mk == mi);
                    }
                    assert forall|key: Seq<u8>| #[trigger] mk.contains_key(key) implies m.contains_key(key) || exists|j: int|
                        0 <= j < k && (#[trigger] list[j]).0 == key by {
                        if key == cid {
                            assert(list[k - 1].0 == key);
                        } else {
                            assert(mp.contains_key(key));
                        }
                    }
                }
            }
        }
    }
}

/// The bytes a buffer store reads under `cid`: the buffer's, or else the backup's.
pub open spec fn seen(buffer: BlockMap, backup: BlockMap, cid: Seq<u8>) -> Option<Seq<u8>> {
    if buffer.contains_key(cid) {
        Some(buffer[cid].1)
    } else if backup.contains_key(cid) {
        Some(backup[cid].1)
    } else {
        None
    }
}

/// A flush that completes copies every block of the buffer to the backup with its bytes,
/// every block the backup held keeps its bytes, and the backup gains no other block; so
/// reading any CID through the store, buffer first, sees the same bytes before the flush and
/// after it, when the buffer is empty. This holds where the backup files no other bytes
/// under a CID of the buffer.
pub proof fn law_flush_copies_every_block(buffer: MemoryStore, m: BlockMap, max_raw: Option<u64>)
    requires
        buffer.wf(),
        forall|k: Seq<u8>| #[trigger] m.contains_key(k) && buffer.spec_blocks().contains_key(k) ==> m[k].1
            == buffer.spec_blocks()[k].1,
    ensures
        flush_all(buffer.spec_block_list(), m, max_raw) matches Flush::Going(m2, _) ==> {
            &&& forall|k: Seq<u8>| #[trigger] buffer.spec_blocks().contains_key(k) ==> m2.contains_key(k) && m2[k].1
                == buffer.spec_blocks()[k].1
            &&& forall|k: Seq<u8>| #[trigger] m.contains_key(k) ==> m2.contains_key(k) && m2[k].1 == m[k].1
            &&& forall|k: Seq<u8>| #[trigger] m2.contains_key(k) ==> m.contains_key(k) || buffer.spec_blocks().contains_key(k)
            &&& forall|k: Seq<u8>| #[trigger] seen(buffer.spec_blocks(), m, k) == seen(BlockMap::empty(), m2, k)
        },
{
    let list = buffer.spec_block_list();
    buffer.lemma_block_list();
    assert forall|i: int| 0 <= i < list.len() && m.contains_key((#[trigger] list[i]).0) implies m[list[i].0].1 == list[i].1 by {
        assert(buffer.spec_blocks().contains_key(list[i].0));
    }
    lemma_flush_going(list, m, max_raw, list.len() as int);
    assert(list.take(list.len() as int) =~= list);
    if let Flush::Going(m2, _) = flush_all(list, m, max_raw) {
        assert forall|k: Seq<u8>| #[trigger] buffer.spec_blocks().contains_key(k) implies m2.contains_key(k) && m2[k].1
            == buffer.spec_blocks()[k].1 by {
            let i = choose|i: int| 0 <= i < list.len() && (#[trigger] list[i]).0 == k;
            assert(m2.contains_key(list[i].0));
        }
        assert forall|k: Seq<u8>| #[trigger] m2.contains_key(k) implies m.contains_key(k) || buffer.spec_blocks().contains_key(k) by {
            if !m.contains_key(k) {
                let j = choose|j: int| 0 <= j < list.len() && (#[trigger] list[j]).0 == k;
                assert(buffer.spec_blocks().contains_key(list[j].0));
            }
        }
        assert forall|k: Seq<u8>| #[trigger] seen(buffer.spec_blocks(), m, k) == seen(BlockMap::empty(), m2, k) by {
            if buffer.spec_blocks().contains_key(k) {
                let i = choose|i: int| 0 <= i < list.len() && (#[trigger] list[i]).0 == k;
                assert(m2.contains_key(list[i].0));
            } else if m.contains_key(k) {
            } else if m2.contains_key(k) {
                let j = choose|j: int| 0 <= j < list.len() && (#[trigger] list[j]).0 == k;
                assert(buffer.spec_blocks().contains_key(list[j].0));
            }
        }
    }
}

/// A store that buffers writes in memory in front of a backup store: writes go to the
/// buffer, and reads look in the buffer first and then in the backup.
pub struct MemoryBufferStore {
    inner: DualStore,
}

impl MemoryBufferStore {
    /// The buffer.
    pub closed spec fn spec_buffer(&self) -> MemoryStore {
        self.inner.spec_a()
    }

    /// The backup.
    pub closed spec fn spec_backup(&self) -> MemoryStore {
        self.inner.spec_b()
    }

    /// Both stores are well formed, and writes go to the buffer, which reads try first.
    pub closed spec fn wf(&self) -> bool {
        &&& self.inner.wf()
        &&& self.inner.spec_config() == DualStoreConfig { write_to: Choice::A, read_from: Choice::A }
    }

    /// Both stores are well formed.
    pub proof fn lemma_wf(&self)
        requires
            self.wf(),
        ensures
            self.spec_buffer().wf(),
            self.spec_backup().wf(),
    {
    }

    /// A buffer store in front of `backup`, with an empty buffer whose raw blocks may be as
    /// large as the default chunk size of fixed-size chunking, or the largest node block.
    pub fn new(backup: MemoryStore) -> (s: Self)
        requires
            backup.wf(),
        ensures
            s.wf(),
            s.spec_backup() == backup,
            s.spec_buffer().spec_blocks() == BlockMap::empty(),
            s.spec_buffer().spec_max_raw() == option_max(Some(DEFAULT_CHUNK_MAX_SIZE), Some(DEFAULT_MAX_NODE_BLOCK_SIZE)),
    {
        let buffer = MemoryStore::new(Some(DEFAULT_CHUNK_MAX_SIZE));
        MemoryBufferStore { inner: DualStore::new(buffer, backup, DualStoreConfig::default_config()) }
    }

    /// The buffer.
    pub fn get_buffer(&self) -> (r: &MemoryStore)
        ensures
            *r == self.spec_buffer(),
    {
        self.inner.get_store_a()
    }

    /// The backup.
    pub fn get_backup(&self) -> (r: &MemoryStore)
        ensures
            *r == self.spec_backup(),
    {
        self.inner.get_store_b()
    }

    /// Stores a raw block in the buffer; the backup is unchanged.
    pub fn put_raw_block(&mut self, bytes: Vec<u8>) -> (r: Result<Vec<u8>, StoreError>)
        requires
            old(self).wf(),
        ensures
            final(self).wf(),
            raw_put_matches(
                old(self).spec_buffer().spec_blocks(),
                old(self).spec_buffer().spec_max_raw(),
                bytes@,
                final(self).spec_buffer().spec_blocks(),
                r,
            ),
            final(self).spec_buffer().spec_max_raw() == old(self).spec_buffer().spec_max_raw(),
            final(self).spec_backup() == old(self).spec_backup(),
    {
        self.inner.put_raw_block(bytes)
    }

    /// Stores an encoded DAG-CBOR node that links to `refs` in the buffer: `None`, with
    /// nothing stored, when some count in the buffer leaves no room for one more reference
    /// from each of `refs`; the backup is unchanged.
    pub fn put_node_checked(&mut self, bytes: Vec<u8>, refs: &Vec<Vec<u8>>) -> (r: Option<Result<Vec<u8>, StoreError>>)
        requires
            old(self).wf(),
        ensures
            final(self).wf(),
            r is None <==> !counts_leave_room(old(self).spec_buffer().spec_blocks(), refs@.len() as int),
            r is None ==> final(self).spec_buffer().spec_blocks() == old(self).spec_buffer().spec_blocks(),
            r matches Some(x) ==> node_put_matches(
                old(self).spec_buffer().spec_blocks(),
                bytes@,
                refs.deep_view(),
                final(self).spec_buffer().spec_blocks(),
                x,
            ),
            final(self).spec_buffer().spec_max_raw() == old(self).spec_buffer().spec_max_raw(),
            final(self).spec_backup() == old(self).spec_backup(),
    {
        self.inner.put_node_checked(bytes, refs)
    }

    /// The bytes of a raw block: from the buffer, or, when the buffer lacks it, from the
    /// backup.
    pub fn get_raw_block(&self, cid: &[u8]) -> (r: Result<Vec<u8>, StoreError>)
        requires
            self.wf(),
        ensures
            if self.spec_buffer().spec_blocks().contains_key(cid@) {
                read_matches(self.spec_buffer().spec_blocks(), cid@, Codec::Raw, r)
            } else {
                read_matches(self.spec_backup().spec_blocks(), cid@, Codec::Raw, r)
            },
    {
        self.inner.get_raw_block(cid)
    }

    /// The bytes of a node block: from the buffer, or, when the buffer lacks it, from the
    /// backup.
    pub fn get_node_bytes(&self, cid: &[u8]) -> (r: Result<Vec<u8>, StoreError>)
        requires
            self.wf(),
        ensures
            if self.spec_buffer().spec_blocks().contains_key(cid@) {
                read_matches(self.spec_buffer().spec_blocks(), cid@, Codec::DagCbor, r)
            } else {
                read_matches(self.spec_backup().spec_blocks(), cid@, Codec::DagCbor, r)
            },
    {
        self.inner.get_node_bytes(cid)
    }

    /// Whether the buffer or the backup holds the block.
    pub fn has(&self, cid: &[u8]) -> (r: bool)
        requires
            self.wf(),
        ensures
            r == (self.spec_buffer().spec_blocks().contains_key(cid@) || self.spec_backup().spec_blocks().contains_key(
                cid@,
            )),
    {
        self.inner.has(cid)
    }

    /// Copies the blocks of the buffer, in the order it holds them, to the backup, skipping
    /// those the backup holds: raw blocks as raw blocks and DAG-CBOR blocks as nodes with the
    /// links they hold, so that the backup counts their references. Then empties the buffer
    /// and gives the number of blocks copied. A fault stops it with its error, and a count in
    /// the backup with no room for more references stops it with `None`; either way what was
    /// copied stays in the backup and the buffer is kept.
    pub fn flush(&mut self) -> (r: Option<Result<u64, StoreError>>)
        requires
            old(self).wf(),
        ensures
            final(self).wf(),
            final(self).spec_backup().spec_max_raw() == old(self).spec_backup().spec_max_raw(),
            final(self).spec_buffer().spec_max_raw() == old(self).spec_buffer().spec_max_raw(),
            match flush_all(
                old(self).spec_buffer().spec_block_list(),
                old(self).spec_backup().spec_blocks(),
                old(self).spec_backup().spec_max_raw(),
            ) {
                Flush::Going(m, n) => {
                    &&& r matches Some(Ok(k)) && k == n
                    &&& final(self).spec_backup().spec_blocks() == m
                    &&& final(self).spec_buffer().spec_blocks() == BlockMap::empty()
                },
                Flush::Failed(m, f) => {
                    &&& r matches Some(Err(e)) && flush_fault_matches(e, f)
                    &&& final(self).spec_backup().spec_blocks() == m
                    &&& final(self).spec_buffer() == old(self).spec_buffer()
                },
                Flush::NoRoom(m) => {
                    &&& r is None
                    &&& final(self).spec_backup().spec_blocks() == m
                    &&& final(self).spec_buffer() == old(self).spec_buffer()
                },
            },
    {
        let list = self.inner.store_a.block_list();
        let ghost lv = list@.map_values(|p: (Vec<u8>, Vec<u8>)| (p.0@, p.1@));
        let ghost m0 = self.inner.store_b.spec_blocks();
        let ghost mr = self.inner.store_b.spec_max_raw();
        let ghost buffer0 = self.inner.store_a;
        let mut copied: usize = 0;
        let mut i: usize = 0;
        assert(lv.take(0) =~= Seq::<(Seq<u8>, Seq<u8>)>::empty());
        while i < list.len()
            invariant
                i <= list@.len(),
                lv == list@.map_values(|p: (Vec<u8>, Vec<u8>)| (p.0@, p.1@)),
                lv == old(self).spec_buffer().spec_block_list(),
                m0 == old(self).spec_backup().spec_blocks(),
                mr == old(self).spec_backup().spec_max_raw(),
                buffer0 == old(self).spec_buffer(),
                self.inner.store_a == buffer0,
                self.inner.config == old(self).inner.config,
                self.wf(),
                self.inner.store_b.wf(),
                self.inner.store_a.wf(),
                self.inner.store_b.spec_max_raw() == mr,
                copied <= i,
                flush_all(lv.take(i as int), m0, mr) == Flush::Going(self.inner.store_b.spec_blocks(), copied as nat),
            decreases list.len() - i,
        {
            let ghost m = self.inner.store_b.spec_blocks();
            let ghost n = copied as nat;
            proof {
                assert(lv.take(i + 1).drop_last() =~= lv.take(i as int));
                assert(lv.take(i + 1).last() == lv[i as int]);
                assert(lv[i as int] == (list@[i as int].0@, list@[i as int].1@));
            }
            let cid = list[i].0.as_slice();
            let bytes = list[i].1.as_slice();
            if self.inner.store_b.has(cid) {
                i = i + 1;
                continue;
            }
            let code = match cid_codec(cid) {
                Some(c) => c,
                None => {
                    i = i + 1;
                    continue;
                },
            };
            if code == 0x55 {
                match self.inner.store_b.put_raw_block(copy_bytes(bytes)) {
                    Ok(_) => {},
                    Err(e) => {
                        proof {
                        lemma_flush_stops(lv, m0, mr, i + 1, lv.len() as int);
                        assert(lv.take(lv.len() as int) =~= lv);
                    }
                    return Some(Err(e));
                    },
                }
            } else if code == 0x71 {
                let links = match dagcbor_links(bytes) {
                    Some(l) => l,
                    None => {
                        proof {
                        lemma_flush_stops(lv, m0, mr, i + 1, lv.len() as int);
                        assert(lv.take(lv.len() as int) =~= lv);
                    }
                    return Some(Err(StoreError::UnreadableLinks(copy_bytes(cid))));
                    },
                };
                match self.inner.store_b.put_node_checked(copy_bytes(bytes), &links) {
                    None => {
                        proof {
                        lemma_flush_stops(lv, m0, mr, i + 1, lv.len() as int);
                        assert(lv.take(lv.len() as int) =~= lv);
                    }
                    return None;
                    },
                    Some(Ok(_)) => {},
                    Some(Err(e)) => {
                        proof {
                        lemma_flush_stops(lv, m0, mr, i + 1, lv.len() as int);
                        assert(lv.take(lv.len() as int) =~= lv);
                    }
                    return Some(Err(e));
                    },
                }
            } else {
                let got = match Codec::try_from_u64(code) {
                    Ok(c) => c,
                    Err(_) => Codec::Unknown(code),
                };
                proof {
                    lemma_flush_stops(lv, m0, mr, i + 1, lv.len() as int);
                    assert(lv.take(lv.len() as int) =~= lv);
                }
                return Some(Err(StoreError::UnexpectedBlockCodec(Codec::DagCbor, got)));
            }
            copied = copied + 1;
            i = i + 1;
        }
        proof {
            assert(lv.take(i as int) =~= lv);
        }
        self.inner.store_a.clear();
        Some(Ok(copied as u64))
    }
}

} // verus!
