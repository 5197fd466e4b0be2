//! XDR (External Data Representation): the big-endian encoding of the NFS wire format.
//!
//! Encoding appends to a byte vector. Decoding reads from a byte slice at a position and
//! reports one of three outcomes: the input ends too early, it is malformed, or a value was
//! read together with the position after it.

use vstd::prelude::*;
use crate::nfs::error::NfsError;
use crate::text::string_of;

verus! {

/// The four bytes of `v`, most significant first.
pub open spec fn be_u32(v: u32) -> Seq<u8> {
    seq![(v / 0x1000000) as u8, ((v / 0x10000) % 0x100) as u8, ((v / 0x100) % 0x100) as u8, (v % 0x100) as u8]
}

/// The value of the first four bytes, most significant first.
pub open spec fn u32_of(b: Seq<u8>) -> u32 {
    (b[0] * 0x1000000 + b[1] * 0x10000 + b[2] * 0x100 + b[3]) as u32
}

/// Why decoding failed on input that was long enough.
pub enum XdrFault {
    /// The bytes of a string are not UTF-8.
    BadUtf8,
    /// An RPC error with this message.
    Rpc(Seq<char>),
    /// An NFS error with this message.
    Nfs(Seq<char>),
}

/// The abstract outcome of decoding.
pub enum Parse<V> {
    /// The input ends before the value does.
    Short,
    /// The input is malformed.
    Fail(XdrFault),
    /// The value, and the number of bytes it takes.
    Done(V, nat),
}

/// The outcome of decoding.
#[derive(Debug)]
pub enum Decoded<T> {
    /// The input ends before the value does.
    Short,
    /// The input is malformed.
    Failed(NfsError),
    /// The value, and the position just after it.
    Done(T, usize),
}

/// Whether `e` reports the fault `f`.
pub open spec fn fault_is(e: NfsError, f: XdrFault) -> bool {
    match f {
        XdrFault::BadUtf8 => e is Xdr,
        XdrFault::Rpc(m) => e matches NfsError::Rpc(s) && s@ == m,
        XdrFault::Nfs(m) => e matches NfsError::Nfs(s) && s@ == m,
    }
}

/// Whether the outcome of decoding at `pos` is the abstract outcome `p`.
pub open spec fn decoded_matches<T: View>(r: Decoded<T>, p: Parse<T::V>, pos: int) -> bool {
    match p {
        Parse::Short => r is Short,
        Parse::Fail(f) => r matches Decoded::Failed(e) && fault_is(e, f),
        Parse::Done(v, n) => r matches Decoded::Done(x, q) && x@ == v && q == pos + n,
    }
}

/// The abstract outcome of reading a `u32`.
pub open spec fn parse_u32(b: Seq<u8>) -> Parse<u32> {
    if b.len() < 4 {
        Parse::Short
    } else {
        Parse::Done(u32_of(b), 4)
    }
}

/// Decoding the encoding of a `u32` gives it back.
pub proof fn law_u32_roundtrip(v: u32, rest: Seq<u8>)
    ensures
        be_u32(v).len() == 4,
        u32_of(be_u32(v) + rest) == v,
        parse_u32(be_u32(v) + rest) == Parse::Done(v, 4),
{
    let b = be_u32(v) + rest;
    assert(b[0] == (v / 0x1000000) as u8 && b[1] == ((v / 0x10000) % 0x100) as u8 && b[2] == ((v / 0x100) % 0x100) as u8
        && b[3] == (v % 0x100) as u8);
    assert((((v / 0x1000000) as u8) * 0x1000000 + (((v / 0x10000) % 0x100) as u8) * 0x10000 + (((v / 0x100)
        % 0x100) as u8) * 0x100 + ((v % 0x100) as u8)) == v) by (bit_vector);
}

/// Appends `v` in four bytes, most significant first (`BufMut::put_u32`).
pub fn put_u32(buf: &mut Vec<u8>, v: u32)
    ensures
        final(buf)@ == old(buf)@ + be_u32(v),
{
    let b0 = (v >> 24) as u8;
    let b1 = ((v >> 16) & 0xff) as u8;
    let b2 = ((v >> 8) & 0xff) as u8;
    let b3 = (v & 0xff) as u8;
    assert(b0 == (v / 0x1000000) as u8 && b1 == ((v / 0x10000) % 0x100) as u8 && b2 == ((v / 0x100) % 0x100) as u8
        && b3 == (v % 0x100) as u8) by (bit_vector)
        requires
            b0 == (v >> 24) as u8,
            b1 == ((v >> 16) & 0xff) as u8,
            b2 == ((v >> 8) & 0xff) as u8,
            b3 == (v & 0xff) as u8,
    ;
    buf.push(b0);
    buf.push(b1);
    buf.push(b2);
    buf.push(b3);
    assert(final(buf)@ =~= old(buf)@ + be_u32(v));
}

/// Reads four bytes at `pos` as a `u32`, most significant first (`Buf::get_u32`); `None` when
/// fewer than four bytes remain.
pub fn get_u32(buf: &[u8], pos: usize) -> (r: Option<u32>)
    requires
        pos <= buf@.len(),
    ensures
        match parse_u32(buf@.skip(pos as int)) {
            Parse::Done(v, _) => r == Some(v),
            _ => r is None,
        },
{
    if buf.len() - pos < 4 {
        return None;
    }
    let b0 = buf[pos];
    let b1 = buf[pos + 1];
    let b2 = buf[pos + 2];
    let b3 = buf[pos + 3];
    let v = ((b0 as u32) << 24) | ((b1 as u32) << 16) | ((b2 as u32) << 8) | (b3 as u32);
    assert(v == (b0 * 0x1000000 + b1 * 0x10000 + b2 * 0x100 + b3) as u32) by (bit_vector)
        requires
            v == ((b0 as u32) << 24) | ((b1 as u32) << 16) | ((b2 as u32) << 8) | (b3 as u32),
    ;
    let ghost s = buf@.skip(pos as int);
    assert(s[0] == b0 && s[1] == b1 && s[2] == b2 && s[3] == b3);
    Some(v)
}

/// Copies `n` bytes of `buf` starting at `start`.
pub fn copy_bytes(buf: &[u8], start: usize, n: usize) -> (r: Vec<u8>)
    requires
        start + n <= buf@.len(),
    ensures
        r@ == buf@.subrange(start as int, start + n),
{
    let mut r: Vec<u8> = Vec::new();
    let mut i: usize = 0;
    let blen = buf.len();
    while i < n
        invariant
            start + n <= buf@.len(),
            blen == buf@.len(),
            i <= n,
            r@ == buf@.subrange(start as int, start + i),
        decreases n - i,
    {
        r.push(buf[start + i]);
        i = i + 1;
        assert(r@ =~= buf@.subrange(start as int, start + i));
    }
    r
}

/// Appends bytes (`BufMut::put_slice`).
pub fn put_slice(buf: &mut Vec<u8>, data: &[u8])
    ensures
        final(buf)@ == old(buf)@ + data@,
{
    let ghost b0 = buf@;
    let mut i: usize = 0;
    while i < data.len()
        invariant
            i <= data@.len(),
            buf@ == b0 + data@.subrange(0, i as int),
        decreases data.len() - i,
    {
        buf.push(data[i]);
        i = i + 1;
        assert(buf@ =~= b0 + data@.subrange(0, i as int));
    }
    assert(data@.subrange(0, data@.len() as int) =~= data@);
}

/// The number of zero bytes that pad `len` bytes to a multiple of four.
pub open spec fn pad_len(len: nat) -> nat {
    ((4 - len % 4) % 4) as nat
}

/// The encoding of a string: its length in bytes, its UTF-8 bytes, and zero bytes up to a
/// multiple of four.
pub open spec fn xdr_string(s: Seq<char>) -> Seq<u8> {
    let bytes = vstd::utf8::encode_utf8(s);
    be_u32(bytes.len() as u32) + bytes + Seq::new(pad_len(bytes.len()), |i: int| 0u8)
}

/// The abstract outcome of reading a string: the length, that many bytes, and the padding
/// after them; bytes that are not UTF-8 fail.
pub open spec fn parse_string(b: Seq<u8>) -> Parse<Seq<char>> {
    if b.len() < 4 {
        Parse::Short
    } else {
        let len = u32_of(b) as nat;
        if b.len() < 4 + len + pad_len(len) {
            Parse::Short
        } else {
            let bytes = b.subrange(4, 4 + len as int);
            if !vstd::utf8::valid_utf8(bytes) {
                Parse::Fail(XdrFault::BadUtf8)
            } else {
                Parse::Done(vstd::utf8::decode_utf8(bytes), 4 + len + pad_len(len))
            }
        }
    }
}

/// Converts bytes to a string (`String::from_utf8`): the string the bytes encode when they
/// are UTF-8, and otherwise the XDR error whose message quotes the conversion error.
#[verifier::external_body]
pub(crate) fn string_from_utf8(bytes: Vec<u8>) -> (r: Result<String, NfsError>)
    ensures
        r is Ok <==> vstd::utf8::valid_utf8(bytes@),
        r matches Ok(s) ==> s@ == vstd::utf8::decode_utf8(bytes@),
        r matches Err(e) ==> e is Xdr,
{
    match String::from_utf8(bytes) {
        Ok(s) => Ok(s),
        Err(e) => Err(NfsError::Xdr(format!("Invalid UTF-8: {}", e))),
    }
}

/// Appends a string in XDR form.
pub fn encode_string(s: &str, buf: &mut Vec<u8>)
    ensures
        final(buf)@ == old(buf)@ + xdr_string(s@),
{
    let bytes = s.as_bytes();
    proof {
        assert(bytes@ == vstd::utf8::encode_utf8(s@));
    }
    let len = bytes.len();
    put_u32(buf, len as u32);
    let mut i: usize = 0;
    let ghost b0 = buf@;
    while i < len
        invariant
            len == bytes@.len(),
            i <= len,
            buf@ == b0 + bytes@.subrange(0, i as int),
        decreases len - i,
    {
        buf.push(bytes[i]);
        i = i + 1;
        assert(buf@ =~= b0 + bytes@.subrange(0, i as int));
    }
    let padding = (4 - (len % 4)) % 4;
    let ghost b1 = buf@;
    let mut k: usize = 0;
    while k < padding
        invariant
            k <= padding,
            padding <= 3,
            buf@ == b1 + Seq::new(k as nat, |i: int| 0u8),
        decreases padding - k,
    {
        buf.push(0u8);
        k = k + 1;
        assert(buf@ =~= b1 + Seq::new(k as nat, |i: int| 0u8));
    }
    assert(bytes@.subrange(0, len as int) =~= bytes@);
    assert(buf@ =~= old(buf)@ + xdr_string(s@));
}

/// Reads a string in XDR form at `pos`.
pub fn decode_string(buf: &[u8], pos: usize) -> (r: Decoded<String>)
    requires
        pos <= buf@.len(),
    ensures
        decoded_matches(r, parse_string(buf@.skip(pos as int)), pos as int),
{
    let blen = buf.len();
    let len = match get_u32(buf, pos) {
        Some(v) => v as usize,
        None => return Decoded::Short,
    };
    let start = pos + 4;
    let padding = (4 - (len % 4)) % 4;
    if buf.len() - start < len || buf.len() - start - len < padding {
        return Decoded::Short;
    }
    let bytes = copy_bytes(buf, start, len);
    proof {
        assert(bytes@ =~= buf@.skip(pos as int).subrange(4, 4 + len));
    }
    match string_from_utf8(bytes) {
        Ok(s) => Decoded::Done(s, start + len + padding),
        Err(e) => Decoded::Failed(e),
    }
}

/// Decoding the encoding of a string gives it back, for strings of fewer than 2^32 bytes.
pub proof fn law_string_roundtrip(s: Seq<char>, rest: Seq<u8>)
    requires
        vstd::utf8::encode_utf8(s).len() <= u32::MAX,
    ensures
        parse_string(xdr_string(s) + rest) == Parse::Done(s, xdr_string(s).len()),
{
    let bytes = vstd::utf8::encode_utf8(s);
    let len = bytes.len();
    let b = xdr_string(s) + rest;
    law_u32_roundtrip(len as u32, bytes + Seq::new(pad_len(len), |i: int| 0u8) + rest);
    assert(b =~= be_u32(len as u32) + (bytes + Seq::new(pad_len(len), |i: int| 0u8) + rest));
    assert(b.subrange(4, 4 + len as int) =~= bytes);
    vstd::utf8::encode_utf8_valid_utf8(s);
    vstd::utf8::encode_utf8_decode_utf8(s);
}

/// Appends a signed integer in XDR form (`BufMut::put_i32`): its two's-complement bits as a
/// `u32`.
pub fn put_i32(buf: &mut Vec<u8>, v: i32)
    ensures
        final(buf)@ == old(buf)@ + be_u32(v as u32),
{
    put_u32(buf, v as u32);
}

/// Reads a signed integer at `pos` (`Buf::get_i32`): the `u32` there, read as two's
/// complement.
pub fn get_i32(buf: &[u8], pos: usize) -> (r: Option<i32>)
    requires
        pos <= buf@.len(),
    ensures
        match parse_u32(buf@.skip(pos as int)) {
            Parse::Done(v, _) => r == Some(v as i32),
            _ => r is None,
        },
{
    match get_u32(buf, pos) {
        Some(v) => Some(v as i32),
        None => None,
    }
}

/// Appends a boolean in XDR form: 1 for true, 0 for false.
pub fn put_bool(buf: &mut Vec<u8>, b: bool)
    ensures
        final(buf)@ == old(buf)@ + be_u32(if b { 1 } else { 0 }),
{
    put_u32(buf, if b { 1 } else { 0 });
}

/// Reads a boolean at `pos`: any `u32` but 0 is true.
pub fn get_bool(buf: &[u8], pos: usize) -> (r: Option<bool>)
    requires
        pos <= buf@.len(),
    ensures
        match parse_u32(buf@.skip(pos as int)) {
            Parse::Done(v, _) => r == Some(v != 0),
            _ => r is None,
        },
{
    match get_u32(buf, pos) {
        Some(v) => Some(v != 0),
        None => None,
    }
}

/// The abstract outcome of reading `count` items one after another, each with `item`: the
/// first item that does not read stops the list with its outcome.
pub open spec fn parse_list<V>(b: Seq<u8>, count: nat, item: spec_fn(Seq<u8>) -> Parse<V>) -> Parse<Seq<V>>
    decreases count,
{
    if count == 0 {
        Parse::Done(Seq::empty(), 0)
    } else {
        match item(b) {
            Parse::Short => Parse::Short,
            Parse::Fail(f) => Parse::Fail(f),
            Parse::Done(v, n) => match parse_list(b.skip(n as int), (count - 1) as nat, item) {
                Parse::Done(vs, m) => Parse::Done(seq![v] + vs, n + m),
                Parse::Short => Parse::Short,
                Parse::Fail(f) => Parse::Fail(f),
            },
        }
    }
}

/// The outcome `p` of reading the rest of a list, after items `vs` that took `n` bytes.
pub open spec fn after_items<V>(vs: Seq<V>, n: nat, p: Parse<Seq<V>>) -> Parse<Seq<V>> {
    match p {
        Parse::Done(ws, m) => Parse::Done(vs + ws, n + m),
        Parse::Short => Parse::Short,
        Parse::Fail(f) => Parse::Fail(f),
    }
}

/// Reading a list is reading its first item, then the rest.
pub proof fn lemma_parse_list_step<V>(
    b: Seq<u8>,
    c: nat,
    count: nat,
    item: spec_fn(Seq<u8>) -> Parse<V>,
    vs: Seq<V>,
)
    requires
        count > 0,
        c <= b.len(),
    ensures
        match item(b.skip(c as int)) {
            Parse::Done(v, n) => c + n <= b.len() ==> after_items(vs, c, parse_list(b.skip(c as int), count, item))
                == after_items(vs.push(v), c + n, parse_list(b.skip((c + n) as int), (count - 1) as nat, item)),
            Parse::Short => after_items(vs, c, parse_list(b.skip(c as int), count, item)) == Parse::<Seq<V>>::Short,
            Parse::Fail(f) => after_items(vs, c, parse_list(b.skip(c as int), count, item)) == Parse::<Seq<V>>::Fail(f),
        },
{
    match item(b.skip(c as int)) {
        Parse::Done(v, n) => {
            if c + n <= b.len() {
                assert(b.skip(c as int).skip(n as int) =~= b.skip((c + n) as int));
                match parse_list(b.skip((c + n) as int), (count - 1) as nat, item) {
                    Parse::Done(ws, m) => {
                        assert(vs + (seq![v] + ws) =~= vs.push(v) + ws);
                    },
                    _ => {},
                }
            }
        },
        _ => {},
    }
}

/// The encoding of a list of items, each encoded with `item`, one after another.
pub open spec fn xdr_list<V>(vs: Seq<V>, item: spec_fn(V) -> Seq<u8>) -> Seq<u8>
    decreases vs.len(),
{
    if vs.len() == 0 {
        Seq::empty()
    } else {
        xdr_list(vs.drop_last(), item) + item(vs.last())
    }
}

/// The encoding of a non-empty list is its first item's, then the rest's.
proof fn lemma_xdr_list_first<V>(vs: Seq<V>, item: spec_fn(V) -> Seq<u8>)
    requires
        vs.len() > 0,
    ensures
        xdr_list(vs, item) == item(vs[0]) + xdr_list(vs.drop_first(), item),
    decreases vs.len(),
{
    if vs.len() == 1 {
        assert(vs.drop_last() =~= Seq::<V>::empty());
        assert(vs.drop_first() =~= Seq::<V>::empty());
        assert(item(vs[0]) + Seq::<u8>::empty() =~= item(vs[0]));
    } else {
        lemma_xdr_list_first(vs.drop_last(), item);
        assert(vs.drop_last().drop_first() =~= vs.drop_first().drop_last());
        assert(vs.drop_first().last() == vs.last());
        assert(xdr_list(vs.drop_first(), item) == xdr_list(vs.drop_first().drop_last(), item) + item(vs.drop_first().last()));
        assert(item(vs[0]) + xdr_list(vs.drop_last().drop_first(), item) + item(vs.last())
            =~= item(vs[0]) + (xdr_list(vs.drop_first().drop_last(), item) + item(vs.drop_first().last())));
    }
}

/// Reading back a list of `u32`s, each in four bytes, gives the list and its length.
pub proof fn lemma_u32_list_roundtrip(vs: Seq<u32>, item: spec_fn(u32) -> Seq<u8>, rest: Seq<u8>)
    requires
        forall|g: u32| #[trigger] item(g) == be_u32(g),
    ensures
        xdr_list(vs, item).len() == 4 * vs.len(),
        parse_list(xdr_list(vs, item) + rest, vs.len(), |x: Seq<u8>| parse_u32(x)) == Parse::Done(vs, 4 * vs.len()),
    decreases vs.len(),
{
    let p = |x: Seq<u8>| parse_u32(x);
    if vs.len() == 0 {
        assert(vs =~= Seq::<u32>::empty());
    } else {
        lemma_xdr_list_first(vs, item);
        lemma_u32_list_roundtrip(vs.drop_first(), item, rest);
        let tail = xdr_list(vs.drop_first(), item) + rest;
        let b = xdr_list(vs, item) + rest;
        assert(b =~= be_u32(vs[0]) + tail);
        law_u32_roundtrip(vs[0], tail);
        assert(b.skip(4) =~= tail);
        assert(seq![vs[0]] + vs.drop_first() =~= vs);
    }
}

} // verus!
