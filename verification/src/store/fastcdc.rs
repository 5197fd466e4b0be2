//! Content-defined chunking with the FastCDC algorithm.
//!
//! Data is split where a rolling hash over the bytes matches a mask; the mask depends on how
//! far the current chunk is from the desired size, and the minimum and maximum sizes bound
//! every chunk but the last.

use vstd::prelude::*;
use std::sync::Arc;
use vstd::arithmetic::power2::{pow2, lemma_pow2_unfold};
use crate::store::constants::{
    DEFAULT_DESIRED_CHUNK_SIZE, DEFAULT_GEAR_TABLE, DEFAULT_MAX_CHUNK_SIZE, DEFAULT_MIN_CHUNK_SIZE,
};

verus! {

/// The largest chunk size that the chunker accepts: 2^48.
pub const MAX_CHUNK_SIZE_LIMIT: u64 = 0x1_0000_0000_0000;

/// One step of the rolling hash: the hash shifted left by one (dropping the top bit), plus the
/// gear value of the byte (wrapping), mixed by xor with the hash's top 11 bits.
pub open spec fn roll_hash(table: Seq<u64>, h: u64, b: u8) -> u64 {
    h.wrapping_shl(1).wrapping_add(table[b as int]) ^ (h >> 53u64)
}

/// A rolling hash over a gear table of 256 pseudo-random values, used to find chunk
/// boundaries.
#[derive(Clone, Debug)]
pub struct FastHasher {
    gear_table: Arc<[u64; 256]>,
    hash: u64,
}

impl FastHasher {
    /// The gear table, one value for each byte value.
    pub closed spec fn spec_table(&self) -> Seq<u64> {
        (*self.gear_table)@
    }

    /// The current hash value.
    pub closed spec fn spec_hash(&self) -> u64 {
        self.hash
    }

    /// Creates a new hasher with the given gear table and a zero hash.
    pub fn new(gear_table: Arc<[u64; 256]>) -> (h: Self)
        ensures
            h.spec_table() == (*gear_table)@,
            h.spec_hash() == 0,
    {
        FastHasher { gear_table, hash: 0 }
    }

    /// Updates the rolling hash with a new byte.
    pub fn roll(&mut self, byte: u8)
        ensures
            final(self).spec_table() == old(self).spec_table(),
            final(self).spec_hash() == roll_hash(old(self).spec_table(), old(self).spec_hash(), byte),
    {
        let shifted = self.hash.wrapping_shl(1);
        let gear = (*self.gear_table)[byte as usize];
        let mixed = shifted.wrapping_add(gear);
        self.hash = mixed ^ (self.hash >> 53);
    }

    /// Returns the current hash value.
    pub fn fingerprint(&self) -> (h: u64)
        ensures
            h == self.spec_hash(),
    {
        self.hash
    }

    /// Whether the current hash indicates a chunk boundary: no bit of the mask is set in it.
    pub fn boundary_check(&self, mask: u64) -> (b: bool)
        ensures
            b == (self.spec_hash() & mask == 0),
    {
        (self.hash & mask) == 0
    }

    /// Resets the hash to zero, keeping the gear table.
    pub fn reset(&mut self)
        ensures
            final(self).spec_table() == old(self).spec_table(),
            final(self).spec_hash() == 0,
    {
        self.hash = 0;
    }
}

/// The least `k` with `2^k >= n`.
pub open spec fn ceil_log2(n: nat) -> nat
    decreases n,
{
    if n <= 1 {
        0
    } else {
        1 + ceil_log2(((n + 1) / 2) as nat)
    }
}

/// The number of bits set in the mask for a size: the base-2 logarithm of the size rounded
/// up, and one for the size 1.
pub open spec fn mask_bit_count(size: nat) -> nat {
    if size == 1 {
        1
    } else {
        ceil_log2(size)
    }
}

/// The mask with bits at positions `63`, `63 - spacing`, ..., one for each of the first `n`
/// multiples of `spacing`.
pub open spec fn place_bits(spacing: nat, n: nat) -> u64
    decreases n,
{
    if n == 0 {
        0
    } else {
        place_bits(spacing, (n - 1) as nat) | (1u64 << ((63 - (n - 1) * spacing) as u64))
    }
}

/// The mask for a size: `mask_bit_count(size)` bits spread evenly over the top 48 bits,
/// starting at the most significant one.
pub open spec fn size_mask(size: nat) -> u64 {
    let bits = mask_bit_count(size);
    place_bits(48nat / bits, bits)
}

/// Whether the bit at position `j` of the mask for a size is set.
pub open spec fn size_mask_has_bit(size: nat, j: int) -> bool {
    let bits = mask_bit_count(size);
    let spacing = 48nat / bits;
    0 <= j <= 63 && (63 - j) % (spacing as int) == 0 && (63 - j) / (spacing as int) < bits
}

/// Whether the sizes satisfy `0 < min <= desired <= max <= 2^48`.
pub open spec fn valid_chunk_sizes(desired: u64, min: u64, max: u64) -> bool {
    0 < min <= desired <= max <= MAX_CHUNK_SIZE_LIMIT
}

/// A chunker that splits data into variable-size chunks with the FastCDC algorithm.
#[derive(Clone, Debug)]
pub struct FastCDCChunker {
    gear_table: Arc<[u64; 256]>,
    desired_chunk_size: u64,
    min_chunk_size: u64,
    max_chunk_size: u64,
}

impl FastCDCChunker {
    /// The gear table.
    pub closed spec fn spec_table(&self) -> Seq<u64> {
        (*self.gear_table)@
    }

    /// The desired chunk size.
    pub closed spec fn spec_desired(&self) -> u64 {
        self.desired_chunk_size
    }

    /// The minimum size of each chunk but the last.
    pub closed spec fn spec_min(&self) -> u64 {
        self.min_chunk_size
    }

    /// The maximum size of each chunk.
    pub closed spec fn spec_max(&self) -> u64 {
        self.max_chunk_size
    }

    /// Whether the sizes of the chunker are valid.
    pub open spec fn wf(&self) -> bool {
        valid_chunk_sizes(self.spec_desired(), self.spec_min(), self.spec_max())
    }

    /// Creates a chunker with the given sizes and gear table; the sizes must satisfy
    /// `0 < min <= desired <= max <= 2^48`.
    pub fn new(desired_chunk_size: u64, min_chunk_size: u64, max_chunk_size: u64, gear_table: [u64; 256]) -> (c: Self)
        requires
            valid_chunk_sizes(desired_chunk_size, min_chunk_size, max_chunk_size),
        ensures
            c.wf(),
            c.spec_desired() == desired_chunk_size,
            c.spec_min() == min_chunk_size,
            c.spec_max() == max_chunk_size,
            c.spec_table() == gear_table@,
    {
        FastCDCChunker { gear_table: Arc::new(gear_table), desired_chunk_size, min_chunk_size, max_chunk_size }
    }

    /// Creates a chunker with the default sizes and gear table.
    pub fn default_chunker() -> (c: Self)
        ensures
            c.wf(),
            c.spec_desired() == DEFAULT_DESIRED_CHUNK_SIZE,
            c.spec_min() == DEFAULT_MIN_CHUNK_SIZE,
            c.spec_max() == DEFAULT_MAX_CHUNK_SIZE,
            c.spec_table() == DEFAULT_GEAR_TABLE@,
    {
        Self::new(DEFAULT_DESIRED_CHUNK_SIZE, DEFAULT_MIN_CHUNK_SIZE, DEFAULT_MAX_CHUNK_SIZE, DEFAULT_GEAR_TABLE)
    }

    /// The largest chunk that the chunker produces.
    pub fn chunk_max_size(&self) -> (r: Option<u64>)
        ensures
            r == Some(self.spec_max()),
    {
        Some(self.max_chunk_size)
    }

    /// Computes the base-2 logarithm of `n` rounded up.
    fn ceil_log2_of(n: u64) -> (k: u64)
        requires
            n > 0,
        ensures
            k == ceil_log2(n as nat),
    {
        let mut m = n;
        let mut k: u64 = 0;
        while m > 1
            invariant
                m >= 1,
                k <= n,
                m + k <= n,
                k + ceil_log2(m as nat) == ceil_log2(n as nat),
            decreases m,
        {
            m = m / 2 + m % 2;
            k = k + 1;
        }
        k
    }

    /// Converts a size to a mask: `mask_bit_count(size)` bits spread evenly over the top 48
    /// bits, leaving the lower 16 bits zero.
    pub fn size_to_mask(size: u64) -> (mask: u64)
        requires
            0 < size <= MAX_CHUNK_SIZE_LIMIT,
        ensures
            mask == size_mask(size as nat),
    {
        let bits: u64 = if size == 1 {
            1
        } else {
            Self::ceil_log2_of(size)
        };
        proof {
            lemma_mask_bit_count_range(size as nat);
        }
        let spacing = 48 / bits;
        proof {
            lemma_spacing_fits(bits as nat);
        }
        let mut mask: u64 = 0;
        let mut i: u64 = 0;
        while i < bits
            invariant
                1 <= bits <= 48,
                spacing == 48u64 / bits,
                spacing * bits <= 48,
                spacing >= 1,
                i <= bits,
                mask == place_bits(spacing as nat, i as nat),
            decreases bits - i,
        {
            proof {
                lemma_position_fits(i as nat, spacing as nat, bits as nat);
            }
            mask = mask | (1u64 << (63 - i * spacing));
            i = i + 1;
        }
        mask
    }

    /// Derives the small-chunk and large-chunk masks from the desired size: the mask for four
    /// times the desired size (more bits, fewer cut points), and the mask for a quarter of it
    /// (fewer bits, more cut points).
    pub fn derive_masks(desired_chunk_size: u64) -> (r: (u64, u64))
        requires
            4 <= desired_chunk_size,
            desired_chunk_size * 4 <= MAX_CHUNK_SIZE_LIMIT,
        ensures
            r.0 == size_mask((desired_chunk_size * 4) as nat),
            r.1 == size_mask((desired_chunk_size / 4) as nat),
    {
        assert(desired_chunk_size << 2 == desired_chunk_size * 4) by (bit_vector)
            requires
                desired_chunk_size * 4 <= 0x1_0000_0000_0000u64,
        ;
        assert(desired_chunk_size >> 2 == desired_chunk_size / 4) by (bit_vector);
        let mask_s = Self::size_to_mask(desired_chunk_size << 2);
        let mask_l = Self::size_to_mask(desired_chunk_size >> 2);
        (mask_s, mask_l)
    }
}

/// The mask that a chunk of `len` bytes is checked against: the mask for a quarter of the
/// desired size below it, for four times the desired size above it, and for the desired size
/// itself at it.
pub open spec fn mask_for(c: FastCDCChunker, len: nat) -> u64 {
    let d = c.spec_desired() as nat;
    if len < d {
        size_mask(d / 4)
    } else if len > d {
        size_mask(d * 4)
    } else {
        size_mask(d)
    }
}

/// Whether a chunk that has grown to `len` bytes, leaving the hash `h`, ends there: at the
/// maximum size always, and from the minimum size on where the hash has no bit of the mask.
pub open spec fn is_cut(c: FastCDCChunker, len: nat, h: u64) -> bool {
    len >= c.spec_max() || (len >= c.spec_min() && h & mask_for(c, len) == 0)
}

/// Feeds `data` to the chunker in the state (`pending` bytes, hash `h`): each byte joins the
/// pending chunk and rolls the hash, and the chunk is emitted where it is cut. The result is
/// the new pending bytes, the new hash and the chunks emitted, in order.
pub open spec fn cdc_feed(c: FastCDCChunker, pending: Seq<u8>, h: u64, data: Seq<u8>) -> (Seq<u8>, u64, Seq<Seq<u8>>)
    decreases data.len(),
{
    if data.len() == 0 {
        (pending, h, Seq::empty())
    } else {
        let prev = cdc_feed(c, pending, h, data.drop_last());
        let b = data.last();
        let p2 = prev.0.push(b);
        let h2 = roll_hash(c.spec_table(), prev.1, b);
        if is_cut(c, p2.len(), h2) {
            (Seq::empty(), h2, prev.2.push(p2))
        } else {
            (p2, h2, prev.2)
        }
    }
}

/// The chunks of `data`: those emitted from the initial state (no pending bytes, zero hash),
/// then the bytes left pending, if any.
pub open spec fn cdc_chunks(c: FastCDCChunker, data: Seq<u8>) -> Seq<Seq<u8>> {
    let r = cdc_feed(c, Seq::empty(), 0, data);
    if r.0.len() > 0 {
        r.2.push(r.0)
    } else {
        r.2
    }
}

/// What feeding keeps: the chunks emitted and the pending bytes, in order, are the pending
/// bytes before and the data; every chunk emitted holds between the minimum and the maximum
/// number of bytes; fewer than the maximum stay pending.
proof fn lemma_feed(c: FastCDCChunker, pending: Seq<u8>, h: u64, data: Seq<u8>)
    requires
        c.wf(),
        pending.len() < c.spec_max(),
    ensures
        ({
            let r = cdc_feed(c, pending, h, data);
            &&& r.2.flatten_alt() + r.0 == pending + data
            &&& r.0.len() < c.spec_max()
            &&& forall|i: int| 0 <= i < r.2.len() ==> c.spec_min() <= #[trigger] r.2[i].len() <= c.spec_max()
        }),
    decreases data.len(),
{
    if data.len() > 0 {
        lemma_feed(c, pending, h, data.drop_last());
        let prev = cdc_feed(c, pending, h, data.drop_last());
        let b = data.last();
        let p2 = prev.0.push(b);
        let r = cdc_feed(c, pending, h, data);
        assert(pending + data =~= (pending + data.drop_last()).push(b));
        if is_cut(c, p2.len(), roll_hash(c.spec_table(), prev.1, b)) {
            assert(r.2.drop_last() =~= prev.2);
            assert(r.2.flatten_alt() == prev.2.flatten_alt() + p2);
            assert(r.2.flatten_alt() + r.0 =~= pending + data);
            assert forall|i: int| 0 <= i < r.2.len() implies c.spec_min() <= #[trigger] r.2[i].len() <= c.spec_max() by {
                if i < prev.2.len() {
                    assert(r.2[i] == prev.2[i]);
                }
            }
        } else {
            assert(r.2.flatten_alt() + r.0 =~= pending + data);
        }
    }
}

/// Where a chunk ends, byte by byte: one more byte on the pending bytes `pending` rolls the
/// hash, and the chunk, grown by the byte to `len` bytes, is emitted exactly when it reaches
/// the maximum size, or, from the minimum size on, when the rolled hash has no bit of the
/// mask for a quarter of the desired size below it, of the mask for four times the desired
/// size above it, and of the mask for the desired size at it. Below the minimum size nothing
/// is emitted. An emitted chunk is the pending bytes and the byte, and nothing stays pending.
pub proof fn law_cut_points(c: FastCDCChunker, pending: Seq<u8>, h: u64, b: u8)
    ensures
        ({
            let f = cdc_feed(c, pending, h, seq![b]);
            let h2 = roll_hash(c.spec_table(), h, b);
            let len = pending.len() + 1;
            let d = c.spec_desired() as nat;
            &&& f.1 == h2
            &&& f.2.len() <= 1
            &&& f.2.len() == 1 ==> f.2[0] == pending.push(b) && f.0 == Seq::<u8>::empty()
            &&& f.2.len() == 0 ==> f.0 == pending.push(b)
            &&& len >= c.spec_max() ==> f.2.len() == 1
            &&& len < c.spec_max() && len < c.spec_min() ==> f.2.len() == 0
            &&& len < c.spec_max() && c.spec_min() <= len < d ==> (f.2.len() == 1 <==> h2 & size_mask(d / 4) == 0)
            &&& len < c.spec_max() && c.spec_min() <= len && d < len ==> (f.2.len() == 1 <==> h2 & size_mask(d * 4) == 0)
            &&& len < c.spec_max() && c.spec_min() <= len && len == d ==> (f.2.len() == 1 <==> h2 & size_mask(d) == 0)
        }),
{
    let one = seq![b];
    assert(one.drop_last() =~= Seq::<u8>::empty());
    assert(one.last() == b);
    let e = cdc_feed(c, pending, h, Seq::<u8>::empty());
    assert(e == (pending, h, Seq::<Seq<u8>>::empty()));
}

/// The chunks of any data, joined in order, are the data.
pub proof fn law_chunks_join_to_data(c: FastCDCChunker, data: Seq<u8>)
    requires
        c.wf(),
    ensures
        cdc_chunks(c, data).flatten() == data,
{
    lemma_feed(c, Seq::empty(), 0, data);
    let r = cdc_feed(c, Seq::empty(), 0, data);
    let chunks = cdc_chunks(c, data);
    chunks.lemma_flatten_and_flatten_alt_are_equivalent();
    if r.0.len() > 0 {
        assert(chunks.drop_last() =~= r.2);
    }
    assert(Seq::<u8>::empty() + data =~= data);
    assert(r.2.flatten_alt() + Seq::<u8>::empty() =~= r.2.flatten_alt());
}

/// Every chunk is non-empty and holds at most the maximum number of bytes; every chunk but
/// the last holds at least the minimum number.
pub proof fn law_chunk_sizes(c: FastCDCChunker, data: Seq<u8>)
    requires
        c.wf(),
    ensures
        forall|i: int| 0 <= i < cdc_chunks(c, data).len() ==> 0 < #[trigger] cdc_chunks(c, data)[i].len() <= c.spec_max(),
        forall|i: int| 0 <= i < cdc_chunks(c, data).len() - 1 ==> #[trigger] cdc_chunks(c, data)[i].len() >= c.spec_min(),
{
    lemma_feed(c, Seq::empty(), 0, data);
    let r = cdc_feed(c, Seq::empty(), 0, data);
    let chunks = cdc_chunks(c, data);
    assert forall|i: int| 0 <= i < chunks.len() implies 0 < #[trigger] chunks[i].len() <= c.spec_max() by {
        if i < r.2.len() {
            assert(chunks[i] == r.2[i]);
        }
    }
    assert forall|i: int| 0 <= i < chunks.len() - 1 implies #[trigger] chunks[i].len() >= c.spec_min() by {
        assert(chunks[i] == r.2[i]);
    }
}

/// Empty data gives no chunks.
pub proof fn law_no_chunks_of_empty_data(c: FastCDCChunker)
    ensures
        cdc_chunks(c, Seq::empty()).len() == 0,
{
}

/// The base-2 logarithm of a power of two, rounded up, is its exponent.
pub proof fn lemma_ceil_log2_of_pow2(k: nat)
    ensures
        ceil_log2(pow2(k)) == k,
    decreases k,
{
    if k > 0 {
        lemma_pow2_unfold(k);
        lemma_pow2_positive((k - 1) as nat);
        let half = pow2((k - 1) as nat);
        assert((2 * half + 1) / 2 == half);
        lemma_ceil_log2_of_pow2((k - 1) as nat);
    } else {
        vstd::arithmetic::power::lemma_pow0(2);
    }
}

proof fn lemma_pow2_positive(k: nat)
    ensures
        pow2(k) >= 1,
    decreases k,
{
    if k > 0 {
        lemma_pow2_unfold(k);
        lemma_pow2_positive((k - 1) as nat);
    } else {
        vstd::arithmetic::power::lemma_pow0(2);
    }
}

/// For a desired size that is a power of two, 8 or more, the mask for four times the size
/// (the small-chunk mask) has two bits more than the mask for the size, and the mask for a
/// quarter of it (the large-chunk mask) two bits fewer.
pub proof fn law_derived_masks_differ_by_two_bits(k: nat)
    requires
        3 <= k,
    ensures
        mask_bit_count(4 * pow2(k)) == mask_bit_count(pow2(k)) + 2,
        mask_bit_count(pow2(k) / 4) + 2 == mask_bit_count(pow2(k)),
{
    lemma_pow2_unfold(k);
    lemma_pow2_unfold(k + 1);
    lemma_pow2_unfold(k + 2);
    lemma_pow2_unfold((k - 1) as nat);
    lemma_pow2_unfold((k - 2) as nat);
    lemma_pow2_positive((k - 2) as nat);
    assert(pow2(k + 2) == 4 * pow2(k));
    assert(pow2(k) == 4 * pow2((k - 2) as nat));
    assert(pow2(k) / 4 == pow2((k - 2) as nat));
    lemma_ceil_log2_of_pow2(k);
    lemma_ceil_log2_of_pow2(k + 2);
    lemma_ceil_log2_of_pow2((k - 2) as nat);
}

/// Splits a stream of bytes into chunks, byte by byte, the way a `FastCDCChunker` describes;
/// the bytes can arrive in pieces of any size.
pub struct FastCdcSplitter {
    chunker: FastCDCChunker,
    hasher: FastHasher,
    current: Vec<u8>,
    mask_s: u64,
    mask_d: u64,
    mask_l: u64,
}

impl FastCdcSplitter {
    /// The chunker whose rules the splitter follows.
    pub closed spec fn spec_chunker(&self) -> FastCDCChunker {
        self.chunker
    }

    /// The bytes of the chunk in progress.
    pub closed spec fn pending(&self) -> Seq<u8> {
        self.current@
    }

    /// The current rolling hash.
    pub closed spec fn hash(&self) -> u64 {
        self.hasher.spec_hash()
    }

    /// Whether the splitter's masks and hasher agree with its chunker, and the chunk in
    /// progress is shorter than the maximum.
    pub closed spec fn wf(&self) -> bool {
        let d = self.chunker.spec_desired() as nat;
        &&& self.chunker.wf()
        &&& 4 <= d && d * 4 <= MAX_CHUNK_SIZE_LIMIT
        &&& self.mask_s == size_mask(d * 4)
        &&& self.mask_d == size_mask(d)
        &&& self.mask_l == size_mask(d / 4)
        &&& self.hasher.spec_table() == self.chunker.spec_table()
        &&& self.hasher.spec_table().len() == 256
        &&& self.current@.len() < self.chunker.spec_max()
    }

    /// Creates a splitter for the chunker, with nothing pending and a zero hash. The desired
    /// size must lie between 4 and 2^46, so that the masks around it can be derived.
    pub fn new(c: &FastCDCChunker) -> (s: Self)
        requires
            c.wf(),
            4 <= c.spec_desired(),
            c.spec_desired() * 4 <= MAX_CHUNK_SIZE_LIMIT,
        ensures
            s.wf(),
            s.spec_chunker().spec_table() == c.spec_table(),
            s.spec_chunker().spec_desired() == c.spec_desired(),
            s.spec_chunker().spec_min() == c.spec_min(),
            s.spec_chunker().spec_max() == c.spec_max(),
            s.pending() == Seq::<u8>::empty(),
            s.hash() == 0,
    {
        let mask_d = FastCDCChunker::size_to_mask(c.desired_chunk_size);
        let (mask_s, mask_l) = FastCDCChunker::derive_masks(c.desired_chunk_size);
        let table: [u64; 256] = *c.gear_table;
        let chunker = FastCDCChunker::new(c.desired_chunk_size, c.min_chunk_size, c.max_chunk_size, table);
        let hasher = FastHasher::new(Arc::new(table));
        FastCdcSplitter { chunker, hasher, current: Vec::new(), mask_s, mask_d, mask_l }
    }

    /// Takes one byte: it joins the chunk in progress and rolls the hash, and the chunk is
    /// handed out when it is cut there.
    pub fn push_byte(&mut self, b: u8) -> (r: Option<Vec<u8>>)
        requires
            old(self).wf(),
        ensures
            final(self).wf(),
            final(self).spec_chunker() == old(self).spec_chunker(),
            ({
                let f = cdc_feed(old(self).spec_chunker(), old(self).pending(), old(self).hash(), seq![b]);
                &&& final(self).pending() == f.0
                &&& final(self).hash() == f.1
                &&& f.2.len() <= 1
                &&& (r is Some <==> f.2.len() == 1)
                &&& (r matches Some(v) ==> v@ == f.2[0])
            }),
    {
        proof {
            let one = seq![b];
            assert(one.drop_last() =~= Seq::<u8>::empty());
            let e = cdc_feed(self.spec_chunker(), self.pending(), self.hash(), Seq::<u8>::empty());
            assert(e == (self.pending(), self.hash(), Seq::<Seq<u8>>::empty()));
        }
        self.current.push(b);
        self.hasher.roll(b);
        let len = self.current.len() as u64;
        let cut = if len >= self.chunker.max_chunk_size {
            true
        } else if len >= self.chunker.min_chunk_size {
            let mask = if len < self.chunker.desired_chunk_size {
                self.mask_l
            } else if len > self.chunker.desired_chunk_size {
                self.mask_s
            } else {
                self.mask_d
            };
            self.hasher.boundary_check(mask)
        } else {
            false
        };
        if cut {
            let mut out: Vec<u8> = Vec::new();
            std::mem::swap(&mut out, &mut self.current);
            Some(out)
        } else {
            None
        }
    }

    /// Takes a piece of the stream and hands out the chunks that it completes, in order.
    pub fn feed(&mut self, data: &[u8]) -> (out: Vec<Vec<u8>>)
        requires
            old(self).wf(),
        ensures
            final(self).wf(),
            final(self).spec_chunker() == old(self).spec_chunker(),
            (final(self).pending(), final(self).hash(), out.deep_view()) == cdc_feed(
                old(self).spec_chunker(),
                old(self).pending(),
                old(self).hash(),
                data@,
            ),
    {
        let ghost c = self.spec_chunker();
        let ghost p0 = self.pending();
        let ghost h0 = self.hash();
        let mut out: Vec<Vec<u8>> = Vec::new();
        let mut i: usize = 0;
        assert(data@.take(0) =~= Seq::<u8>::empty());
        while i < data.len()
            invariant
                self.wf(),
                self.spec_chunker() == c,
                i <= data@.len(),
                (self.pending(), self.hash(), out.deep_view()) == cdc_feed(c, p0, h0, data@.take(i as int)),
            decreases data.len() - i,
        {
            let ghost before = out.deep_view();
            let ghost prev_v = out@;
            assert(data@.take(i + 1) =~= data@.take(i as int).push(data@[i as int]));
            proof {
                lemma_feed_one(c, p0, h0, data@.take(i as int), data@[i as int]);
            }
            let r = self.push_byte(data[i]);
            match r {
                Some(chunk) => {
                    let ghost cv = chunk@;
                    let ghost cd = chunk.deep_view();
                    assert(cd =~= cv);
                    out.push(chunk);
                    proof {
                        assert(out@[before.len() as int].deep_view() == cd);
                        assert forall|j: int| 0 <= j < before.len() implies out.deep_view()[j] == before[j] by {
                            assert(out@[j] == prev_v[j]);
                        }
                        assert(out.deep_view() =~= before.push(cv));
                    }
                },
                None => {},
            }
            i = i + 1;
        }
        assert(data@.take(i as int) =~= data@);
        out
    }

    /// Ends the stream: the bytes still pending, if any, form the last chunk.
    pub fn finish(self) -> (r: Option<Vec<u8>>)
        ensures
            r is Some <==> self.pending().len() > 0,
            r matches Some(v) ==> v@ == self.pending(),
    {
        if self.current.len() > 0 {
            Some(self.current)
        } else {
            None
        }
    }
}

impl FastCDCChunker {
    /// Splits the whole of `data` into chunks.
    pub fn chunk_bytes(&self, data: &[u8]) -> (r: Vec<Vec<u8>>)
        requires
            self.wf(),
            4 <= self.spec_desired(),
            self.spec_desired() * 4 <= MAX_CHUNK_SIZE_LIMIT,
        ensures
            r.deep_view() == cdc_chunks(*self, data@),
    {
        let mut s = FastCdcSplitter::new(self);
        proof {
            lemma_same_chunker(s.spec_chunker(), *self, Seq::empty(), 0, data@);
        }
        let mut out = s.feed(data);
        let ghost before = out.deep_view();
        let ghost prev_v = out@;
        match s.finish() {
            Some(last) => {
                let ghost cv = last@;
                let ghost cd = last.deep_view();
                assert(cd =~= cv);
                out.push(last);
                proof {
                    assert(out@[before.len() as int].deep_view() == cd);
                    assert forall|j: int| 0 <= j < before.len() implies out.deep_view()[j] == before[j] by {
                        assert(out@[j] == prev_v[j]);
                    }
                    assert(out.deep_view() =~= before.push(cv));
                }
            },
            None => {},
        }
        out
    }
}

/// Feeding one more byte continues from where feeding the data before it stopped.
proof fn lemma_feed_one(c: FastCDCChunker, pending: Seq<u8>, h: u64, data: Seq<u8>, b: u8)
    ensures
        ({
            let prev = cdc_feed(c, pending, h, data);
            let one = cdc_feed(c, prev.0, prev.1, seq![b]);
            cdc_feed(c, pending, h, data.push(b)) == (one.0, one.1, prev.2 + one.2)
        }),
{
    let prev = cdc_feed(c, pending, h, data);
    assert(data.push(b).drop_last() =~= data);
    assert(seq![b].drop_last() =~= Seq::<u8>::empty());
    let e = cdc_feed(c, prev.0, prev.1, Seq::<u8>::empty());
    assert(e == (prev.0, prev.1, Seq::<Seq<u8>>::empty()));
    assert(prev.2 + Seq::<Seq<u8>>::empty() =~= prev.2);
    let p2 = prev.0.push(b);
    assert(prev.2 + seq![p2] =~= prev.2.push(p2));
}

/// Chunkers that agree on their table and sizes feed alike.
proof fn lemma_same_chunker(a: FastCDCChunker, b: FastCDCChunker, pending: Seq<u8>, h: u64, data: Seq<u8>)
    requires
        a.spec_table() == b.spec_table(),
        a.spec_desired() == b.spec_desired(),
        a.spec_min() == b.spec_min(),
        a.spec_max() == b.spec_max(),
    ensures
        cdc_feed(a, pending, h, data) == cdc_feed(b, pending, h, data),
    decreases data.len(),
{
    if data.len() > 0 {
        lemma_same_chunker(a, b, pending, h, data.drop_last());
    }
}

/// Setting bit `p` sets bit `p` and leaves every other bit as it was.
proof fn lemma_or_bit(m: u64, p: u64, j: u64)
    by (bit_vector)
    requires
        p < 64,
        j < 64,
    ensures
        (((m | (1u64 << p)) >> j) & 1u64 == 1u64) == (((m >> j) & 1u64 == 1u64) || j == p),
        (m & 0xFFFFu64 == 0u64 && 16 <= p) ==> ((m | (1u64 << p)) & 0xFFFFu64 == 0u64),
{
}

/// The bits of `place_bits(s, n)` are those at `63 - i * s` for `i < n`, all above the lower
/// 16 bits.
proof fn lemma_place_bits(s: nat, n: nat, j: u64)
    requires
        s >= 1,
        n * s <= 48,
        j < 64,
    ensures
        ((place_bits(s, n) >> j) & 1u64 == 1u64) == ((63 - j) % (s as int) == 0 && (63 - j) / (s as int) < n),
        place_bits(s, n) & 0xFFFFu64 == 0u64,
    decreases n,
{
    let x: int = 63 - j;
    vstd::arithmetic::div_mod::lemma_fundamental_div_mod(x, s as int);
    assert(x / (s as int) >= 0) by {
        vstd::arithmetic::div_mod::lemma_div_pos_is_pos(x, s as int);
    }
    if n == 0 {
        assert((0u64 >> j) & 1u64 == 0u64) by (bit_vector);
        assert(0u64 & 0xFFFFu64 == 0u64) by (bit_vector);
    } else {
        let k = (n - 1) as nat;
        assert(k * s <= 47) by (nonlinear_arith)
            requires
                n * s <= 48,
                s >= 1,
                k == n - 1,
        ;
        lemma_place_bits(s, k, j);
        let p = (63 - k * s) as u64;
        lemma_or_bit(place_bits(s, k), p, j);
        if j == p {
            assert(x == k * s);
            vstd::arithmetic::div_mod::lemma_div_multiples_vanish(k as int, s as int);
            vstd::arithmetic::div_mod::lemma_mod_multiples_basic(k as int, s as int);
            assert(x / (s as int) == k) by (nonlinear_arith)
                requires
                    x == k * s,
                    s >= 1,
                    ((k * s) as int) / (s as int) == k as int,
            ;
        } else {
            if x % (s as int) == 0 && x / (s as int) == k {
                assert(x == (s as int) * k);
                assert(x == k * s) by (nonlinear_arith)
                    requires
                        x == (s as int) * k,
                ;
            }
        }
    }
}

/// The mask for a size has its bits exactly at the positions that `size_mask_has_bit` names,
/// and none in the lower 16 bits.
pub proof fn law_size_mask_bits(size: nat)
    requires
        0 < size <= MAX_CHUNK_SIZE_LIMIT,
    ensures
        forall|j: u64| j < 64 ==> (((#[trigger] (size_mask(size) >> j)) & 1u64 == 1u64) == size_mask_has_bit(size, j as int)),
        size_mask(size) & 0xFFFFu64 == 0u64,
{
    lemma_mask_bit_count_range(size);
    let bits = mask_bit_count(size);
    lemma_spacing_fits(bits);
    let s = 48nat / bits;
    assert(bits * s <= 48) by (nonlinear_arith)
        requires
            s * bits <= 48,
    ;
    assert forall|j: u64| j < 64 implies (((#[trigger] (size_mask(size) >> j)) & 1u64 == 1u64) == size_mask_has_bit(size, j as int)) by {
        lemma_place_bits(s, bits, j);
    }
    lemma_place_bits(s, bits, 0);
}

/// The logarithm of a size up to `2^b` is at most `b`.
proof fn lemma_ceil_log2_le(n: nat, b: nat)
    requires
        n <= pow2(b),
    ensures
        ceil_log2(n) <= b,
    decreases b,
{
    if n > 1 {
        if b == 0 {
            vstd::arithmetic::power2::lemma2_to64();
        } else {
            lemma_pow2_unfold(b);
            lemma_ceil_log2_le(((n + 1) / 2) as nat, (b - 1) as nat);
        }
    }
}

/// The bit count of a valid size lies between 1 and 48.
proof fn lemma_mask_bit_count_range(size: nat)
    requires
        0 < size <= MAX_CHUNK_SIZE_LIMIT,
    ensures
        1 <= mask_bit_count(size) <= 48,
{
    if size > 1 {
        vstd::arithmetic::power2::lemma2_to64();
        vstd::arithmetic::power2::lemma2_to64_rest();
        lemma_ceil_log2_le(size, 48);
    }
}

/// The spacing times the bit count stays within 48 bits.
proof fn lemma_spacing_fits(bits: nat)
    requires
        1 <= bits <= 48,
    ensures
        (48nat / bits) * bits <= 48,
        48nat / bits >= 1,
{
    assert((48nat / bits) * bits <= 48 && 48nat / bits >= 1) by (nonlinear_arith)
        requires
            1 <= bits <= 48,
    ;
}

/// Each bit position placed lies in the top 48 bits.
proof fn lemma_position_fits(i: nat, spacing: nat, bits: nat)
    requires
        i < bits,
        spacing >= 1,
        spacing * bits <= 48,
    ensures
        i * spacing < 48,
        i * spacing <= 47,
{
    assert(i * spacing <= 47) by (nonlinear_arith)
        requires
            i < bits,
            spacing >= 1,
            spacing * bits <= 48,
    ;
}

} // verus!
