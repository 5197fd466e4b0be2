//! The on-disk layout of a store that keeps each block in a file of its own: where a block's
//! file lies, the reference count at the head of each file, and how many blocks a directory
//! tree holds.

use vstd::prelude::*;
use crate::text::copy_str;
use crate::store::codec::{codec_of, Codec};
use crate::store::constants::DEFAULT_MAX_NODE_BLOCK_SIZE;
use crate::store::memstore::{
    cid_codec, cid_codec_of, cid_of, dagcbor_code, dagcbor_links, dagcbor_links_of, make_cid, raw_code, StoreError,
};

verus! {

/// How many levels of directories lie between the store's directory and a block's file.
#[derive(Debug, Clone, Copy, PartialEq, Eq, Structural)]
pub enum DirLevels {
    /// Blocks lie in the store's directory.
    Zero,
    /// Blocks lie in directories named by the first two hex digits of their digest.
    One,
    /// Blocks lie in directories named by the first and the second two hex digits.
    Two,
}

impl DirLevels {
    /// The default: one level.
    pub fn default_levels() -> (d: DirLevels)
        ensures
            d == DirLevels::One,
    {
        DirLevels::One
    }

    /// The number of directory levels.
    pub open spec fn depth(self) -> nat {
        match self {
            DirLevels::Zero => 0,
            DirLevels::One => 1,
            DirLevels::Two => 2,
        }
    }
}

/// The lowercase hex digit of a value below 16.
pub open spec fn hex_digit(v: u8) -> char {
    if v < 10 {
        ((v + 48) as u8) as char
    } else {
        ((v + 87) as u8) as char
    }
}

/// The lowercase hex text of bytes: two digits for each byte, the high one first.
pub open spec fn hex_of(bytes: Seq<u8>) -> Seq<char>
    decreases bytes.len(),
{
    if bytes.len() == 0 {
        Seq::empty()
    } else {
        hex_of(bytes.drop_last()) + seq![hex_digit(bytes.last() / 16), hex_digit(bytes.last() % 16)]
    }
}

/// Encodes bytes as lowercase hex text (`hex::encode`): two digits from `0123456789abcdef`
/// for each byte, the high four bits first.
#[verifier::external_body]
fn hex_encode(bytes: &[u8]) -> (r: String)
    ensures
        r@ == hex_of(bytes@),
{
    hex::encode(bytes)
}

/// The hex text has two digits for each byte.
proof fn lemma_hex_len(bytes: Seq<u8>)
    ensures
        hex_of(bytes).len() == 2 * bytes.len(),
    decreases bytes.len(),
{
    if bytes.len() > 0 {
        lemma_hex_len(bytes.drop_last());
    }
}

/// The components of a block's file path below the store's directory: the directories named
/// by the first two and next two hex digits of the digest, as many as the levels ask, then
/// the whole digest in hex.
pub open spec fn block_rel_path(hex: Seq<char>, levels: DirLevels) -> Seq<Seq<char>> {
    match levels {
        DirLevels::Zero => seq![hex],
        DirLevels::One => seq![hex.subrange(0, 2), hex],
        DirLevels::Two => seq![hex.subrange(0, 2), hex.subrange(2, 4), hex],
    }
}

/// Different values below 16 have different hex digits.
proof fn lemma_hex_digit_injective(a: u8, b: u8)
    requires
        a < 16,
        b < 16,
        hex_digit(a) == hex_digit(b),
    ensures
        a == b,
{
    assert(hex_digit(a) as int == if a < 10 { a + 48 } else { a + 87 });
    assert(hex_digit(b) as int == if b < 10 { b + 48 } else { b + 87 });
}

/// Different bytes have different hex text.
proof fn lemma_hex_injective(b1: Seq<u8>, b2: Seq<u8>)
    requires
        hex_of(b1) == hex_of(b2),
    ensures
        b1 == b2,
    decreases b1.len(),
{
    lemma_hex_len(b1);
    lemma_hex_len(b2);
    if b1.len() > 0 {
        let h = hex_of(b1);
        let n = b1.len() as int;
        lemma_hex_len(b1.drop_last());
        lemma_hex_len(b2.drop_last());
        assert(h[2 * n - 2] == hex_digit(b1.last() / 16) && h[2 * n - 2] == hex_digit(b2.last() / 16));
        assert(h[2 * n - 1] == hex_digit(b1.last() % 16) && h[2 * n - 1] == hex_digit(b2.last() % 16));
        lemma_hex_digit_injective(b1.last() / 16, b2.last() / 16);
        lemma_hex_digit_injective(b1.last() % 16, b2.last() % 16);
        assert(hex_of(b1.drop_last()) =~= h.subrange(0, 2 * n - 2));
        assert(hex_of(b2.drop_last()) =~= h.subrange(0, 2 * n - 2));
        lemma_hex_injective(b1.drop_last(), b2.drop_last());
        assert(b1 =~= b2.drop_last().push(b2.last()));
        assert(b2 =~= b2.drop_last().push(b2.last()));
    } else {
        assert(b1 =~= b2);
    }
}

/// Two blocks share a file exactly when their digests are equal: every digest has a file of
/// its own, and storing a block again writes the same file.
pub proof fn law_one_block_file_per_digest(d1: Seq<u8>, d2: Seq<u8>, levels: DirLevels)
    ensures
        block_rel_path(hex_of(d1), levels) == block_rel_path(hex_of(d2), levels) <==> d1 == d2,
{
    if block_rel_path(hex_of(d1), levels) == block_rel_path(hex_of(d2), levels) {
        let k = levels.depth() as int;
        assert(block_rel_path(hex_of(d1), levels)[k] == hex_of(d1));
        assert(block_rel_path(hex_of(d2), levels)[k] == hex_of(d2));
        lemma_hex_injective(d1, d2);
    }
}

/// Copies the characters `start..end` of a string.
fn substring(s: &str, start: usize, end: usize) -> (r: String)
    requires
        start <= end <= s@.len(),
    ensures
        r@ == s@.subrange(start as int, end as int),
{
    let cs = crate::text::chars_of(s);
    crate::text::string_of(&cs.as_slice()[start..end])
}

/// The components of the file path of the block with the given digest, below the store's
/// directory. A digest of at least two bytes is needed for the directory levels.
pub fn block_path_components(digest: &[u8], levels: DirLevels) -> (r: Vec<String>)
    requires
        levels != DirLevels::Zero ==> digest@.len() >= 2,
    ensures
        r.deep_view() == block_rel_path(hex_of(digest@), levels),
{
    let hex = hex_encode(digest);
    proof {
        lemma_hex_len(digest@);
    }
    let mut r: Vec<String> = Vec::new();
    match levels {
        DirLevels::Zero => {},
        DirLevels::One => {
            r.push(substring(hex.as_str(), 0, 2));
        },
        DirLevels::Two => {
            r.push(substring(hex.as_str(), 0, 2));
            r.push(substring(hex.as_str(), 2, 4));
        },
    }
    r.push(hex);
    assert(r.deep_view() =~= block_rel_path(hex_of(digest@), levels));
    r
}

/// The digest of the multihash inside the CID with these bytes, if the bytes are a CID.
pub uninterp spec fn cid_digest_of(cid: Seq<u8>) -> Option<Seq<u8>>;

/// Reads the digest of the multihash inside a CID (`Cid::try_from(bytes)`, then `Cid::hash`
/// and `Multihash::digest`); `None` when the bytes are not a CID.
#[verifier::external_body]
fn cid_digest(cid: &[u8]) -> (r: Option<Vec<u8>>)
    ensures
        r is Some <==> cid_digest_of(cid@) is Some,
        r matches Some(d) ==> cid_digest_of(cid@) == Some(d@),
{
    match ipld_core::cid::Cid::try_from(cid) {
        Ok(c) => Some(c.hash().digest().to_vec()),
        Err(_) => None,
    }
}

/// The components of the file path of the block with the given CID, below the store's
/// directory: those of its digest. `None` when the bytes are not a CID, or when the digest is
/// shorter than the two bytes that the directory levels name.
pub fn block_path_of_cid(cid: &[u8], levels: DirLevels) -> (r: Option<Vec<String>>)
    ensures
        match cid_digest_of(cid@) {
            Some(d) => if levels != DirLevels::Zero && d.len() < 2 {
                r is None
            } else {
                r matches Some(p) && p.deep_view() == block_rel_path(hex_of(d), levels)
            },
            None => r is None,
        },
{
    match cid_digest(cid) {
        Some(d) => {
            let short = match levels {
                DirLevels::Zero => false,
                _ => d.len() < 2,
            };
            if short {
                None
            } else {
                Some(block_path_components(d.as_slice(), levels))
            }
        },
        None => None,
    }
}

/// The eight bytes of a reference count, most significant first.
pub open spec fn be_u64(v: u64) -> Seq<u8> {
    Seq::new(8, |i: int| (((v as nat) / pow256((7 - i) as nat)) % 256) as u8)
}

/// 256 to the power `k`.
pub open spec fn pow256(k: nat) -> nat
    decreases k,
{
    if k == 0 {
        1
    } else {
        256 * pow256((k - 1) as nat)
    }
}

/// The value of eight bytes, most significant first.
pub open spec fn u64_of_be(b: Seq<u8>) -> nat
    decreases b.len(),
{
    if b.len() == 0 {
        0
    } else {
        u64_of_be(b.drop_last()) * 256 + b.last() as nat
    }
}

/// Encodes a reference count in eight bytes, most significant first (`u64::to_be_bytes`).
pub fn encode_refcount(v: u64) -> (r: Vec<u8>)
    ensures
        r@.len() == 8,
        u64_of_be(r@) == v,
{
    let mut r: Vec<u8> = Vec::new();
    let mut k: usize = 0;
    proof {
        assert(pow256(8) == 0x1_0000_0000_0000_0000) by {
            reveal_with_fuel(pow256, 9);
        }
        vstd::arithmetic::div_mod::lemma_basic_div(v as int, pow256(8) as int);
    }
    while k < 8
        invariant
            k <= 8,
            r@.len() == k,
            u64_of_be(r@) == (v as nat) / pow256((8 - k) as nat),
        decreases 8 - k,
    {
        let shift: u64 = 8 * (7 - k as u64);
        let byte = (#[verifier::truncate] (((v >> shift) & 0xff) as u8));
        proof {
            lemma_shift_byte(v, (7 - k) as nat);
            assert(r@.push(byte).drop_last() =~= r@);
            lemma_pow256_step((7 - k) as nat);
            lemma_pow256_bound((7 - k) as nat);
            lemma_div_split(v as nat, pow256((7 - k) as nat));
            assert((8 - k) as nat == ((7 - k) as nat) + 1);
        }
        r.push(byte);
        k = k + 1;
    }
    proof {
        assert(pow256(0) == 1);
        assert((v as nat) / 1 == v as nat);
    }
    r
}

/// Decodes a reference count from the first eight bytes, most significant first
/// (`u64::from_be_bytes`); `None` when fewer than eight bytes are there.
pub fn decode_refcount(bytes: &[u8]) -> (r: Option<u64>)
    ensures
        bytes@.len() < 8 ==> r is None,
        bytes@.len() >= 8 ==> r == Some(u64_of_be(bytes@.take(8)) as u64),
{
    if bytes.len() < 8 {
        return None;
    }
    let mut v: u64 = 0;
    let mut k: usize = 0;
    while k < 8
        invariant
            k <= 8,
            bytes@.len() >= 8,
            v == u64_of_be(bytes@.take(k as int)),
            v < pow256(k as nat),
        decreases 8 - k,
    {
        proof {
            lemma_pow256_step(k as nat);
            assert(bytes@.take(k + 1).drop_last() =~= bytes@.take(k as int));
            lemma_pow256_bound(k as nat);
            assert(v * 256 + bytes@[k as int] < pow256((k + 1) as nat)) by (nonlinear_arith)
                requires
                    v < pow256(k as nat),
                    pow256((k + 1) as nat) == 256 * pow256(k as nat),
                    bytes@[k as int] < 256,
            ;
            assert(pow256((k + 1) as nat) <= pow256(8)) by {
                lemma_pow256_mono((k + 1) as nat, 8);
            }
            assert(pow256(8) == 0x1_0000_0000_0000_0000) by {
                reveal_with_fuel(pow256, 9);
            }
        }
        v = v * 256 + bytes[k] as u64;
        k = k + 1;
    }
    Some(v)
}

/// The contents of a new block's file: a zero reference count first when counting is on,
/// then the block's bytes.
pub fn new_block_file(bytes: &[u8], enable_refcount: bool) -> (r: Vec<u8>)
    ensures
        enable_refcount ==> r@ == Seq::new(8, |i: int| 0u8) + bytes@,
        !enable_refcount ==> r@ == bytes@,
{
    let mut r: Vec<u8> = Vec::new();
    if enable_refcount {
        let mut k: usize = 0;
        while k < 8
            invariant
                k <= 8,
                r@ == Seq::new(k as nat, |i: int| 0u8),
            decreases 8 - k,
        {
            r.push(0u8);
            k = k + 1;
            assert(r@ =~= Seq::new(k as nat, |i: int| 0u8));
        }
    }
    let ghost head = r@;
    let mut i: usize = 0;
    while i < bytes.len()
        invariant
            i <= bytes@.len(),
            r@ == head + bytes@.take(i as int),
        decreases bytes.len() - i,
    {
        r.push(bytes[i]);
        i = i + 1;
        assert(r@ =~= head + bytes@.take(i as int));
    }
    assert(bytes@.take(i as int) =~= bytes@);
    assert(r@ =~= head + bytes@);
    r
}

/// The block's bytes within the contents of its file: everything after the eight bytes of
/// the reference count when counting is on (nothing, for a shorter file), everything
/// otherwise.
pub fn block_data(file: &[u8], enable_refcount: bool) -> (r: Vec<u8>)
    ensures
        r@ == if enable_refcount {
            if file@.len() >= 8 { file@.skip(8) } else { Seq::empty() }
        } else {
            file@
        },
{
    let start: usize = if enable_refcount {
        if file.len() >= 8 { 8 } else { file.len() }
    } else {
        0
    };
    let mut r: Vec<u8> = Vec::new();
    let mut i = start;
    while i < file.len()
        invariant
            start <= i <= file@.len(),
            r@ == file@.subrange(start as int, i as int),
        decreases file.len() - i,
    {
        r.push(file[i]);
        i = i + 1;
        assert(r@ =~= file@.subrange(start as int, i as int));
    }
    assert(r@ =~= (if enable_refcount {
        if file@.len() >= 8 { file@.skip(8) } else { Seq::<u8>::empty() }
    } else {
        file@
    }));
    r
}

/// The bytes of a block read from its file, when its CID names the codec that the reader
/// wants: `BlockNotFound` when the bytes are not a CID, and `UnexpectedBlockCodec` with the
/// wanted codec and the CID's when the codecs differ.
pub fn read_block_bytes(cid: &[u8], file: &[u8], enable_refcount: bool, want: Codec) -> (r: Result<Vec<u8>, StoreError>)
    ensures
        match cid_codec_of(cid@) {
            None => r matches Err(StoreError::BlockNotFound(c)) && c@ == cid@,
            Some(code) => if codec_of(code) == want {
                r matches Ok(b) && b@ == (if enable_refcount {
                    if file@.len() >= 8 { file@.skip(8) } else { Seq::<u8>::empty() }
                } else {
                    file@
                })
            } else {
                r matches Err(StoreError::UnexpectedBlockCodec(w, got)) && w == want && got == codec_of(code)
            },
        },
{
    let code = match cid_codec(cid) {
        Some(code) => code,
        None => {
            return Err(StoreError::BlockNotFound(crate::store::memstore::copy_bytes(cid)));
        },
    };
    let got = match Codec::try_from_u64(code) {
        Ok(c) => c,
        Err(_) => Codec::Unknown(code),
    };
    if got == want {
        Ok(block_data(file, enable_refcount))
    } else {
        Err(StoreError::UnexpectedBlockCodec(want, got))
    }
}

/// An entry of a directory tree as the store sees it: a file, a directory with its entries,
/// or anything else.
#[derive(Debug)]
pub enum FsNode {
    /// A regular file.
    File,
    /// A directory and its entries.
    Dir(Vec<FsNode>),
    /// Anything else, such as a symbolic link.
    Other,
}

/// The number of files at exactly `depth` directories below the entry (the entry itself at
/// depth 0).
pub open spec fn files_at(n: FsNode, depth: nat) -> nat
    decreases n, 0nat,
{
    match n {
        FsNode::File => if depth == 0 { 1 } else { 0 },
        FsNode::Dir(cs) => if depth == 0 { 0 } else { files_in(cs@, (depth - 1) as nat) },
        FsNode::Other => 0,
    }
}

/// The number of files at exactly `depth` directories below the entries.
pub open spec fn files_in(cs: Seq<FsNode>, depth: nat) -> nat
    decreases cs, 1nat,
{
    if cs.len() == 0 {
        0
    } else {
        files_in(cs.drop_last(), depth) + files_at(cs.last(), depth)
    }
}

/// Counts the files at exactly `depth` directories below the entry.
pub fn count_files_at(n: &FsNode, depth: u64) -> (c: u64)
    requires
        files_at(*n, depth as nat) <= u64::MAX,
    ensures
        c == files_at(*n, depth as nat),
    decreases n,
{
    match n {
        FsNode::File => if depth == 0 { 1 } else { 0 },
        FsNode::Dir(cs) => if depth == 0 { 0 } else { count_files_in(cs, depth - 1) },
        FsNode::Other => 0,
    }
}

/// Counts the files at exactly `depth` directories below the entries.
pub fn count_files_in(cs: &Vec<FsNode>, depth: u64) -> (c: u64)
    requires
        files_in(cs@, depth as nat) <= u64::MAX,
    ensures
        c == files_in(cs@, depth as nat),
    decreases cs,
{
    let mut total: u64 = 0;
    let mut i: usize = 0;
    while i < cs.len()
        invariant
            i <= cs@.len(),
            files_in(cs@, depth as nat) <= u64::MAX,
            total == files_in(cs@.take(i as int), depth as nat),
        decreases cs.len() - i,
    {
        proof {
            assert(cs@.take(i + 1).drop_last() =~= cs@.take(i as int));
            lemma_files_in_prefix(cs@, i + 1, depth as nat);
        }
        let c = count_files_at(&cs[i], depth);
        total = total + c;
        i = i + 1;
    }
    assert(cs@.take(i as int) =~= cs@);
    total
}

/// The files of a prefix of the entries are no more than those of all of them.
proof fn lemma_files_in_prefix(cs: Seq<FsNode>, k: int, depth: nat)
    requires
        0 <= k <= cs.len(),
    ensures
        files_in(cs.take(k), depth) <= files_in(cs, depth),
    decreases cs.len() - k,
{
    if k < cs.len() {
        lemma_files_in_prefix(cs, k + 1, depth);
        assert(cs.take(k + 1).drop_last() =~= cs.take(k));
    } else {
        assert(cs.take(k) =~= cs);
    }
}

/// The number of blocks of a store whose directory holds the given entries: the files at
/// the depth of the directory levels.
pub fn get_block_count(root: &Vec<FsNode>, levels: DirLevels) -> (c: u64)
    requires
        files_in(root@, levels.depth()) <= u64::MAX,
    ensures
        c == files_in(root@, levels.depth()),
{
    let depth: u64 = match levels {
        DirLevels::Zero => 0,
        DirLevels::One => 1,
        DirLevels::Two => 2,
    };
    count_files_in(root, depth)
}

/// The CID under which a raw block is filed; a block larger than the store's limit gives
/// `RawBlockTooLarge` with its size and the limit.
pub fn raw_block_cid(bytes: &[u8], max_raw_block_size: Option<u64>) -> (r: Result<Vec<u8>, StoreError>)
    ensures
        match max_raw_block_size {
            Some(max) if bytes@.len() > max => r matches Err(StoreError::RawBlockTooLarge(n, m)) && n == bytes@.len()
                && m == max,
            _ => r matches Ok(cid) && cid@ == cid_of(raw_code(), bytes@),
        },
{
    let n = bytes.len() as u64;
    if let Some(max) = max_raw_block_size {
        if n > max {
            return Err(StoreError::RawBlockTooLarge(n, max));
        }
    }
    Ok(make_cid(0x55, bytes))
}

/// The CID under which an encoded DAG-CBOR node is filed; a node larger than the largest node
/// block gives `NodeBlockTooLarge` with its size and that limit.
pub fn node_block_cid(bytes: &[u8]) -> (r: Result<Vec<u8>, StoreError>)
    ensures
        bytes@.len() > DEFAULT_MAX_NODE_BLOCK_SIZE ==> (r matches Err(StoreError::NodeBlockTooLarge(n, m)) && n
            == bytes@.len() && m == DEFAULT_MAX_NODE_BLOCK_SIZE),
        bytes@.len() <= DEFAULT_MAX_NODE_BLOCK_SIZE ==> (r matches Ok(cid) && cid@ == cid_of(dagcbor_code(), bytes@)),
{
    let n = bytes.len() as u64;
    if n > DEFAULT_MAX_NODE_BLOCK_SIZE {
        return Err(StoreError::NodeBlockTooLarge(n, DEFAULT_MAX_NODE_BLOCK_SIZE));
    }
    Ok(make_cid(0x71, bytes))
}

/// What collecting a block does once its file has been read.
#[derive(Debug)]
pub enum GcStart {
    /// Nothing is removed.
    Keep,
    /// The block's file is removed; it links to nothing.
    Remove,
    /// The block's file is removed, then each block it links to, in this order, loses a
    /// reference.
    RemoveAndFollow(Vec<Vec<u8>>),
}

/// Whether collection removes the block: counting is on, its file was there with a count of
/// zero, and its CID names a codec.
pub open spec fn gc_takes(enable_refcount: bool, count: Option<u64>, cid: Seq<u8>) -> bool {
    enable_refcount && count == Some(0u64) && cid_codec_of(cid) is Some
}

/// Decides how collection starts on a block. `count` is the reference count read from the
/// block's file (`None` when the file could not be opened) and `data` the block's bytes
/// after the count. Only a block with a count of zero is removed: a raw block by itself, a
/// DAG-CBOR block together with the list of its links, read before anything is removed; a
/// block of another codec is kept, and DAG-CBOR data whose links cannot be read stops the
/// collection with `UnreadableLinks`.
pub fn gc_start(enable_refcount: bool, count: Option<u64>, cid: &[u8], data: &[u8]) -> (r: Result<GcStart, StoreError>)
    ensures
        !gc_takes(enable_refcount, count, cid@) ==> r matches Ok(GcStart::Keep),
        gc_takes(enable_refcount, count, cid@) ==> match cid_codec_of(cid@) {
            Some(code) => if code == raw_code() {
                r matches Ok(GcStart::Remove)
            } else if code == dagcbor_code() {
                match dagcbor_links_of(data@) {
                    Some(links) => r matches Ok(GcStart::RemoveAndFollow(v)) && v.deep_view() == links,
                    None => r matches Err(StoreError::UnreadableLinks(c)) && c@ == cid@,
                }
            } else {
                r matches Ok(GcStart::Keep)
            },
            None => false,
        },
{
    if !enable_refcount {
        return Ok(GcStart::Keep);
    }
    match count {
        Some(c) => {
            if c != 0 {
                return Ok(GcStart::Keep);
            }
        },
        None => {
            return Ok(GcStart::Keep);
        },
    }
    let code = match cid_codec(cid) {
        Some(code) => code,
        None => {
            return Ok(GcStart::Keep);
        },
    };
    if code == 0x55 {
        Ok(GcStart::Remove)
    } else if code == 0x71 {
        match dagcbor_links(data) {
            Some(links) => Ok(GcStart::RemoveAndFollow(links)),
            None => Err(StoreError::UnreadableLinks(crate::store::memstore::copy_bytes(cid))),
        }
    } else {
        Ok(GcStart::Keep)
    }
}

/// What collection does to a block that a removed block linked to.
#[derive(Debug, PartialEq, Eq, Structural)]
pub struct GcRefStep {
    /// The count to write back into the block's file, if any.
    pub write: Option<u64>,
    /// Whether the block is collected next.
    pub collect: bool,
}

/// What happens to a block that a removed block linked to, from the count read from its
/// file (`None` when the file could not be opened): a count above zero loses one, and the
/// block is collected when that leaves zero; a missing file or a count of zero is left as it
/// is.
pub open spec fn ref_step(count: Option<u64>) -> GcRefStep {
    match count {
        Some(c) => if c > 0 {
            GcRefStep { write: Some((c - 1) as u64), collect: c == 1 }
        } else {
            GcRefStep { write: None, collect: false }
        },
        None => GcRefStep { write: None, collect: false },
    }
}

/// Decides what happens to a block that a removed block linked to.
pub fn gc_ref_step(count: Option<u64>) -> (r: GcRefStep)
    ensures
        r == ref_step(count),
{
    match count {
        Some(c) => {
            if c > 0 {
                GcRefStep { write: Some(c - 1), collect: c == 1 }
            } else {
                GcRefStep { write: None, collect: false }
            }
        },
        None => GcRefStep { write: None, collect: false },
    }
}

/// A block that a removed block linked to is collected exactly when the count written back
/// to its file is zero, and a count that is written is one less than the one read.
pub proof fn law_collected_when_count_reaches_zero(count: Option<u64>)
    ensures
        ref_step(count).collect <==> ref_step(count).write == Some(0u64),
        ref_step(count).write matches Some(w) ==> count == Some((w + 1) as u64),
{
}

/// The count to write back into the file of a block that a newly stored node links to, from
/// the count read from it (`None` when the file could not be opened): one more reference; a
/// block whose file is not there is left alone.
pub open spec fn ref_increment(count: Option<u64>) -> Option<u64> {
    match count {
        Some(c) => Some((c + 1) as u64),
        None => None,
    }
}

/// Decides the count to write back for a block that a newly stored node links to.
pub fn count_new_reference(count: Option<u64>) -> (r: Option<u64>)
    requires
        count matches Some(c) ==> c < u64::MAX,
    ensures
        r == ref_increment(count),
{
    match count {
        Some(c) => Some(c + 1),
        None => None,
    }
}

/// The reference that storing a node counts is the one that collecting it takes back: after
/// one more reference is counted, dropping one writes back the count that was there, and the
/// block is collected only if nothing else referred to it.
pub proof fn law_reference_counted_then_dropped(c: u64)
    requires
        c < u64::MAX,
    ensures
        ref_step(ref_increment(Some(c))).write == Some(c),
        ref_step(ref_increment(Some(c))).collect <==> c == 0,
{
}

/// Reading back an encoded reference count gives it back.
pub proof fn law_refcount_roundtrip(v: u64, r: Seq<u8>)
    requires
        r.len() == 8,
        u64_of_be(r) == v,
    ensures
        u64_of_be(r.take(8)) as u64 == v,
{
    assert(r.take(8) =~= r);
}

/// A new block's file holds the block's bytes, after a zero count when counting is on.
pub proof fn law_block_file_roundtrip(bytes: Seq<u8>, enable_refcount: bool)
    ensures
        ({
            let file = if enable_refcount { Seq::new(8, |i: int| 0u8) + bytes } else { bytes };
            &&& (if enable_refcount { if file.len() >= 8 { file.skip(8) } else { Seq::empty() } } else { file }) == bytes
            &&& enable_refcount ==> u64_of_be(file.take(8)) == 0
        }),
{
    let z = Seq::new(8, |i: int| 0u8);
    if enable_refcount {
        let file = z + bytes;
        assert(file.skip(8) =~= bytes);
        assert(file.take(8) =~= z);
        lemma_zero_bytes(8);
    }
}

/// Zero bytes encode zero.
proof fn lemma_zero_bytes(n: nat)
    ensures
        u64_of_be(Seq::new(n, |i: int| 0u8)) == 0,
    decreases n,
{
    if n > 0 {
        assert(Seq::new(n, |i: int| 0u8).drop_last() =~= Seq::new((n - 1) as nat, |i: int| 0u8));
        lemma_zero_bytes((n - 1) as nat);
    }
}

proof fn lemma_pow256_step(k: nat)
    ensures
        pow256(k + 1) == 256 * pow256(k),
{
}

proof fn lemma_pow256_bound(k: nat)
    ensures
        pow256(k) >= 1,
    decreases k,
{
    if k > 0 {
        lemma_pow256_bound((k - 1) as nat);
    }
}

proof fn lemma_pow256_mono(a: nat, b: nat)
    requires
        a <= b,
    ensures
        pow256(a) <= pow256(b),
    decreases b - a,
{
    if a < b {
        lemma_pow256_mono(a, (b - 1) as nat);
        lemma_pow256_bound((b - 1) as nat);
    }
}

/// Splitting a value by a power of 256: the quotient by the larger power times 256 plus the
/// next digit is the quotient by the smaller power.
proof fn lemma_div_split(v: nat, p: nat)
    requires
        p >= 1,
    ensures
        (v / (256 * p)) * 256 + (v / p) % 256 == v / p,
{
    vstd::arithmetic::div_mod::lemma_div_denominator(v as int, p as int, 256);
    vstd::arithmetic::div_mod::lemma_fundamental_div_mod((v / p) as int, 256);
    assert(v / (256 * p) == (v / p) / 256) by {
        vstd::arithmetic::mul::lemma_mul_is_commutative(256, p as int);
    }
}

/// The byte at a shift of `8 * k` bits is the `k`th base-256 digit.
proof fn lemma_shift_byte(v: u64, k: nat)
    requires
        k <= 7,
    ensures
        ((v >> (8 * k) as u64) & 0xff) as u8 == (((v as nat) / pow256(k)) % 256) as u8,
{
    assert(pow256(k) == vstd::arithmetic::power2::pow2(8 * k)) by {
        lemma_pow256_pow2(k);
    }
    vstd::bits::lemma_u64_shr_is_div(v, (8 * k) as u64);
    let q = v >> (8 * k) as u64;
    assert((q & 0xff) == q % 256) by (bit_vector);
}

proof fn lemma_pow256_pow2(k: nat)
    ensures
        pow256(k) == vstd::arithmetic::power2::pow2(8 * k),
    decreases k,
{
    if k > 0 {
        lemma_pow256_pow2((k - 1) as nat);
        vstd::arithmetic::power2::lemma_pow2_adds(8 * (k - 1) as nat, 8);
        vstd::arithmetic::power2::lemma2_to64();
    } else {
        vstd::arithmetic::power2::lemma2_to64();
    }
}

} // verus!
