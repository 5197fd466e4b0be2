//! The NFSv4 protocol: operation codes, file handles and compound requests and replies.

use vstd::prelude::*;
use crate::nfs::error::{NfsError, NfsResult};
use crate::nfs::xdr::{
    after_items, be_u32, copy_bytes, decoded_matches, get_u32, lemma_parse_list_step, parse_list, parse_u32,
    put_slice, put_u32, u32_of, law_u32_roundtrip, xdr_list, Decoded, Parse, XdrFault,
};
use crate::text::{decimal, decimal_string};

verus! {

/// NFS version 4 operation codes.
#[derive(Debug, Clone, Copy, PartialEq, Eq, Structural)]
pub enum NfsOpcode {
    /// Access rights
    Access,
    /// Close file
    Close,
    /// Commit writes
    Commit,
    /// Create file
    Create,
    /// Delegations
    DelegPurge,
    /// Return delegation
    DelegReturn,
    /// Get file attributes
    GetAttr,
    /// Get filesystem attributes
    GetFh,
    /// Lock file
    Lock,
    /// Lock with owner
    LockT,
    /// Unlock file
    LockU,
    /// Look up file name
    Lookup,
    /// Look up parent directory
    LookupP,
    /// Get filesystem locations
    NVerify,
    /// Open file
    Open,
    /// Open downgrade
    OpenAttr,
    /// Open confirm
    OpenConfirm,
    /// Open downgrade
    OpenDgrd,
    /// Put public file handle
    PutFh,
    /// Put root file handle
    PutPubFh,
    /// Put root file handle
    PutRootFh,
    /// Read from file
    Read,
    /// Read directory
    ReadDir,
    /// Read symbolic link
    ReadLink,
    /// Remove file system object
    Remove,
    /// Rename file
    Rename,
    /// Renew lease
    Renew,
    /// Restore file handle
    RestoreFh,
    /// Save file handle
    SaveFh,
    /// Security
    Secinfo,
    /// Set file attributes
    SetAttr,
    /// Verify file attributes
    Verify,
    /// Write to file
    Write,
    /// Release lock owner
    RelLockOwner,
}

/// The number of an operation code on the wire.
pub open spec fn opcode_code(op: NfsOpcode) -> u32 {
    match op {
        NfsOpcode::Access => 3,
        NfsOpcode::Close => 4,
        NfsOpcode::Commit => 5,
        NfsOpcode::Create => 6,
        NfsOpcode::DelegPurge => 7,
        NfsOpcode::DelegReturn => 8,
        NfsOpcode::GetAttr => 9,
        NfsOpcode::GetFh => 10,
        NfsOpcode::Lock => 11,
        NfsOpcode::LockT => 12,
        NfsOpcode::LockU => 13,
        NfsOpcode::Lookup => 14,
        NfsOpcode::LookupP => 15,
        NfsOpcode::NVerify => 16,
        NfsOpcode::Open => 17,
        NfsOpcode::OpenAttr => 18,
        NfsOpcode::OpenConfirm => 19,
        NfsOpcode::OpenDgrd => 20,
        NfsOpcode::PutFh => 21,
        NfsOpcode::PutPubFh => 22,
        NfsOpcode::PutRootFh => 23,
        NfsOpcode::Read => 24,
        NfsOpcode::ReadDir => 25,
        NfsOpcode::ReadLink => 26,
        NfsOpcode::Remove => 27,
        NfsOpcode::Rename => 28,
        NfsOpcode::Renew => 29,
        NfsOpcode::RestoreFh => 30,
        NfsOpcode::SaveFh => 31,
        NfsOpcode::Secinfo => 32,
        NfsOpcode::SetAttr => 33,
        NfsOpcode::Verify => 34,
        NfsOpcode::Write => 35,
        NfsOpcode::RelLockOwner => 36,
    }
}

/// The operation code with the number `v`, if any: the numbers run from 3 to 36.
pub open spec fn opcode_of(v: u32) -> Option<NfsOpcode> {
    if v == 3 {
        Some(NfsOpcode::Access)
    } else if v == 4 {
        Some(NfsOpcode::Close)
    } else if v == 5 {
        Some(NfsOpcode::Commit)
    } else if v == 6 {
        Some(NfsOpcode::Create)
    } else if v == 7 {
        Some(NfsOpcode::DelegPurge)
    } else if v == 8 {
        Some(NfsOpcode::DelegReturn)
    } else if v == 9 {
        Some(NfsOpcode::GetAttr)
    } else if v == 10 {
        Some(NfsOpcode::GetFh)
    } else if v == 11 {
        Some(NfsOpcode::Lock)
    } else if v == 12 {
        Some(NfsOpcode::LockT)
    } else if v == 13 {
        Some(NfsOpcode::LockU)
    } else if v == 14 {
        Some(NfsOpcode::Lookup)
    } else if v == 15 {
        Some(NfsOpcode::LookupP)
    } else if v == 16 {
        Some(NfsOpcode::NVerify)
    } else if v == 17 {
        Some(NfsOpcode::Open)
    } else if v == 18 {
        Some(NfsOpcode::OpenAttr)
    } else if v == 19 {
        Some(NfsOpcode::OpenConfirm)
    } else if v == 20 {
        Some(NfsOpcode::OpenDgrd)
    } else if v == 21 {
        Some(NfsOpcode::PutFh)
    } else if v == 22 {
        Some(NfsOpcode::PutPubFh)
    } else if v == 23 {
        Some(NfsOpcode::PutRootFh)
    } else if v == 24 {
        Some(NfsOpcode::Read)
    } else if v == 25 {
        Some(NfsOpcode::ReadDir)
    } else if v == 26 {
        Some(NfsOpcode::ReadLink)
    } else if v == 27 {
        Some(NfsOpcode::Remove)
    } else if v == 28 {
        Some(NfsOpcode::Rename)
    } else if v == 29 {
        Some(NfsOpcode::Renew)
    } else if v == 30 {
        Some(NfsOpcode::RestoreFh)
    } else if v == 31 {
        Some(NfsOpcode::SaveFh)
    } else if v == 32 {
        Some(NfsOpcode::Secinfo)
    } else if v == 33 {
        Some(NfsOpcode::SetAttr)
    } else if v == 34 {
        Some(NfsOpcode::Verify)
    } else if v == 35 {
        Some(NfsOpcode::Write)
    } else if v == 36 {
        Some(NfsOpcode::RelLockOwner)
    } else {
        None
    }
}

impl NfsOpcode {
    /// The number of the operation code on the wire.
    pub fn code(self) -> (v: u32)
        ensures
            v == opcode_code(self),
    {
        match self {
        NfsOpcode::Access => 3,
        NfsOpcode::Close => 4,
        NfsOpcode::Commit => 5,
        NfsOpcode::Create => 6,
        NfsOpcode::DelegPurge => 7,
        NfsOpcode::DelegReturn => 8,
        NfsOpcode::GetAttr => 9,
        NfsOpcode::GetFh => 10,
        NfsOpcode::Lock => 11,
        NfsOpcode::LockT => 12,
        NfsOpcode::LockU => 13,
        NfsOpcode::Lookup => 14,
        NfsOpcode::LookupP => 15,
        NfsOpcode::NVerify => 16,
        NfsOpcode::Open => 17,
        NfsOpcode::OpenAttr => 18,
        NfsOpcode::OpenConfirm => 19,
        NfsOpcode::OpenDgrd => 20,
        NfsOpcode::PutFh => 21,
        NfsOpcode::PutPubFh => 22,
        NfsOpcode::PutRootFh => 23,
        NfsOpcode::Read => 24,
        NfsOpcode::ReadDir => 25,
        NfsOpcode::ReadLink => 26,
        NfsOpcode::Remove => 27,
        NfsOpcode::Rename => 28,
        NfsOpcode::Renew => 29,
        NfsOpcode::RestoreFh => 30,
        NfsOpcode::SaveFh => 31,
        NfsOpcode::Secinfo => 32,
        NfsOpcode::SetAttr => 33,
        NfsOpcode::Verify => 34,
        NfsOpcode::Write => 35,
        NfsOpcode::RelLockOwner => 36,
        }
    }

    /// The operation code with the number `v`, if any.
    pub fn from_code(v: u32) -> (r: Option<NfsOpcode>)
        ensures
            r == opcode_of(v),
    {
        if v == 3 {
            Some(NfsOpcode::Access)
        } else if v == 4 {
            Some(NfsOpcode::Close)
        } else if v == 5 {
            Some(NfsOpcode::Commit)
        } else if v == 6 {
            Some(NfsOpcode::Create)
        } else if v == 7 {
            Some(NfsOpcode::DelegPurge)
        } else if v == 8 {
            Some(NfsOpcode::DelegReturn)
        } else if v == 9 {
            Some(NfsOpcode::GetAttr)
        } else if v == 10 {
            Some(NfsOpcode::GetFh)
        } else if v == 11 {
            Some(NfsOpcode::Lock)
        } else if v == 12 {
            Some(NfsOpcode::LockT)
        } else if v == 13 {
            Some(NfsOpcode::LockU)
        } else if v == 14 {
            Some(NfsOpcode::Lookup)
        } else if v == 15 {
            Some(NfsOpcode::LookupP)
        } else if v == 16 {
            Some(NfsOpcode::NVerify)
        } else if v == 17 {
            Some(NfsOpcode::Open)
        } else if v == 18 {
            Some(NfsOpcode::OpenAttr)
        } else if v == 19 {
            Some(NfsOpcode::OpenConfirm)
        } else if v == 20 {
            Some(NfsOpcode::OpenDgrd)
        } else if v == 21 {
            Some(NfsOpcode::PutFh)
        } else if v == 22 {
            Some(NfsOpcode::PutPubFh)
        } else if v == 23 {
            Some(NfsOpcode::PutRootFh)
        } else if v == 24 {
            Some(NfsOpcode::Read)
        } else if v == 25 {
            Some(NfsOpcode::ReadDir)
        } else if v == 26 {
            Some(NfsOpcode::ReadLink)
        } else if v == 27 {
            Some(NfsOpcode::Remove)
        } else if v == 28 {
            Some(NfsOpcode::Rename)
        } else if v == 29 {
            Some(NfsOpcode::Renew)
        } else if v == 30 {
            Some(NfsOpcode::RestoreFh)
        } else if v == 31 {
            Some(NfsOpcode::SaveFh)
        } else if v == 32 {
            Some(NfsOpcode::Secinfo)
        } else if v == 33 {
            Some(NfsOpcode::SetAttr)
        } else if v == 34 {
            Some(NfsOpcode::Verify)
        } else if v == 35 {
            Some(NfsOpcode::Write)
        } else if v == 36 {
            Some(NfsOpcode::RelLockOwner)
        } else {
            None
        }
    }
}

/// Each operation code is read back from its number, and a number read as an operation code
/// is that code's number.
pub proof fn law_opcode_roundtrip(op: NfsOpcode, v: u32)
    ensures
        opcode_of(opcode_code(op)) == Some(op),
        opcode_of(v) matches Some(o) ==> opcode_code(o) == v,
        opcode_of(v) is Some <==> 3 <= v <= 36,
{
}

/// The message of the error for the operation number `v` that names no operation.
pub open spec fn invalid_opcode_message(v: u32) -> Seq<char> {
    "Invalid opcode: No discriminant in enum `NfsOpcode` matches the value `"@ + decimal(v as nat) + "`"@
}

/// Builds the message of the error for the operation number `v`.
fn invalid_opcode_error(v: u32) -> (e: NfsError)
    ensures
        e matches NfsError::Nfs(s) && s@ == invalid_opcode_message(v),
{
    let mut s = String::from_str("Invalid opcode: No discriminant in enum `NfsOpcode` matches the value `");
    s.append(decimal_string(v as u64).as_str());
    s.append("`");
    NfsError::Nfs(s)
}

/// An NFS file handle.
#[derive(Debug, Clone)]
pub struct FileHandle(pub Vec<u8>);

impl View for FileHandle {
    type V = Seq<u8>;

    open spec fn view(&self) -> Seq<u8> {
        self.0@
    }
}

/// The encoding of a file handle: its length, then its bytes.
pub open spec fn xdr_file_handle(h: Seq<u8>) -> Seq<u8> {
    be_u32(h.len() as u32) + h
}

/// The abstract outcome of reading a file handle: handles longer than 128 bytes fail.
pub open spec fn parse_file_handle(b: Seq<u8>) -> Parse<Seq<u8>> {
    match parse_u32(b) {
        Parse::Done(len, _) => if len > 128 {
            Parse::Fail(XdrFault::Nfs("File handle too long"@))
        } else if b.len() < 4 + len {
            Parse::Short
        } else {
            Parse::Done(b.subrange(4, 4 + len), 4 + len as nat)
        },
        _ => Parse::Short,
    }
}

impl FileHandle {
    /// Appends the handle in XDR form.
    pub fn encode(&self, buf: &mut Vec<u8>) -> (r: NfsResult<()>)
        ensures
            r is Ok,
            final(buf)@ == old(buf)@ + xdr_file_handle(self@),
    {
        put_u32(buf, self.0.len() as u32);
        put_slice(buf, self.0.as_slice());
        assert(final(buf)@ =~= old(buf)@ + xdr_file_handle(self@));
        Ok(())
    }

    /// Reads a handle in XDR form at `pos`.
    pub fn decode(buf: &[u8], pos: usize) -> (r: Decoded<FileHandle>)
        requires
            pos <= buf@.len(),
        ensures
            decoded_matches(r, parse_file_handle(buf@.skip(pos as int)), pos as int),
    {
        let blen = buf.len();
        let len = match get_u32(buf, pos) {
            Some(v) => v,
            None => return Decoded::Short,
        };
        if len > 128 {
            proof {
                reveal_strlit("File handle too long");
            }
            return Decoded::Failed(NfsError::Nfs(String::from_str("File handle too long")));
        }
        let start = pos + 4;
        if blen - start < len as usize {
            return Decoded::Short;
        }
        let data = copy_bytes(buf, start, len as usize);
        assert(data@ =~= buf@.skip(pos as int).subrange(4, 4 + len));
        Decoded::Done(FileHandle(data), start + len as usize)
    }
}

/// Decoding the encoding of a file handle of at most 128 bytes gives it back.
pub proof fn law_file_handle_roundtrip(h: Seq<u8>, rest: Seq<u8>)
    requires
        h.len() <= 128,
    ensures
        parse_file_handle(xdr_file_handle(h) + rest) == Parse::Done(h, xdr_file_handle(h).len()),
{
    law_u32_roundtrip(h.len() as u32, h + rest);
    let b = xdr_file_handle(h) + rest;
    assert(b =~= be_u32(h.len() as u32) + (h + rest));
    assert(b.subrange(4, 4 + h.len() as int) =~= h);
}

/// An operation of a compound request: its code and its arguments in XDR form.
#[derive(Debug)]
pub struct CompoundOp {
    /// Operation code
    pub opcode: NfsOpcode,
    /// Operation arguments (encoded in XDR)
    pub data: Vec<u8>,
}

impl View for CompoundOp {
    type V = (NfsOpcode, Seq<u8>);

    open spec fn view(&self) -> (NfsOpcode, Seq<u8>) {
        (self.opcode, self.data@)
    }
}

/// The encoding of an operation: the code's number, the length of the data, the data.
pub open spec fn xdr_op(op: (NfsOpcode, Seq<u8>)) -> Seq<u8> {
    be_u32(opcode_code(op.0)) + be_u32(op.1.len() as u32) + op.1
}

/// The abstract outcome of reading an operation: a number that names no operation fails.
pub open spec fn parse_op(b: Seq<u8>) -> Parse<(NfsOpcode, Seq<u8>)> {
    match parse_u32(b) {
        Parse::Done(code, _) => match opcode_of(code) {
            None => Parse::Fail(XdrFault::Nfs(invalid_opcode_message(code))),
            Some(op) => match parse_u32(b.skip(4)) {
                Parse::Done(len, _) => if b.len() < 8 + len {
                    Parse::Short
                } else {
                    Parse::Done((op, b.subrange(8, 8 + len)), 8 + len as nat)
                },
                _ => Parse::Short,
            },
        },
        _ => Parse::Short,
    }
}

/// Reads `len` bytes of data at `start`, after a length field.
fn read_data(buf: &[u8], start: usize, len: u32) -> (r: Option<Vec<u8>>)
    requires
        start <= buf@.len(),
    ensures
        buf@.len() < start + len ==> r is None,
        buf@.len() >= start + len ==> (r matches Some(v) && v@ == buf@.subrange(start as int, start + len)),
{
    let blen = buf.len();
    if blen - start < len as usize {
        return None;
    }
    Some(copy_bytes(buf, start, len as usize))
}

impl CompoundOp {
    /// Appends the operation in XDR form.
    pub fn encode(&self, buf: &mut Vec<u8>) -> (r: NfsResult<()>)
        ensures
            r is Ok,
            final(buf)@ == old(buf)@ + xdr_op(self@),
    {
        put_u32(buf, self.opcode.code());
        put_u32(buf, self.data.len() as u32);
        put_slice(buf, self.data.as_slice());
        assert(final(buf)@ =~= old(buf)@ + xdr_op(self@));
        Ok(())
    }

    /// Reads an operation in XDR form at `pos`.
    pub fn decode(buf: &[u8], pos: usize) -> (r: Decoded<CompoundOp>)
        requires
            pos <= buf@.len(),
        ensures
            decoded_matches(r, parse_op(buf@.skip(pos as int)), pos as int),
    {
        let blen = buf.len();
        let ghost b = buf@.skip(pos as int);
        let code = match get_u32(buf, pos) {
            Some(v) => v,
            None => return Decoded::Short,
        };
        let opcode = match NfsOpcode::from_code(code) {
            Some(op) => op,
            None => return Decoded::Failed(invalid_opcode_error(code)),
        };
        assert(buf@.skip(pos + 4) =~= b.skip(4));
        let len = match get_u32(buf, pos + 4) {
            Some(v) => v,
            None => return Decoded::Short,
        };
        let data = match read_data(buf, pos + 8, len) {
            Some(d) => d,
            None => return Decoded::Short,
        };
        assert(data@ =~= b.subrange(8, 8 + len));
        Decoded::Done(CompoundOp { opcode, data }, pos + 8 + len as usize)
    }
}

/// Decoding the encoding of an operation gives it back, for data of fewer than 2^32 bytes.
pub proof fn law_op_roundtrip(op: (NfsOpcode, Seq<u8>), rest: Seq<u8>)
    requires
        op.1.len() <= u32::MAX,
    ensures
        parse_op(xdr_op(op) + rest) == Parse::Done(op, xdr_op(op).len()),
{
    let b = xdr_op(op) + rest;
    law_u32_roundtrip(opcode_code(op.0), be_u32(op.1.len() as u32) + op.1 + rest);
    assert(b =~= be_u32(opcode_code(op.0)) + (be_u32(op.1.len() as u32) + op.1 + rest));
    law_u32_roundtrip(op.1.len() as u32, op.1 + rest);
    assert(b.skip(4) =~= be_u32(op.1.len() as u32) + (op.1 + rest));
    assert(b.subrange(8, 8 + op.1.len() as int) =~= op.1);
    law_opcode_roundtrip(op.0, 0);
}

/// Reads one operation, as a function.
pub open spec fn op_parser() -> spec_fn(Seq<u8>) -> Parse<(NfsOpcode, Seq<u8>)> {
    |x: Seq<u8>| parse_op(x)
}

/// Reads one operation's result, as a function.
pub open spec fn result_parser() -> spec_fn(Seq<u8>) -> Parse<(u32, Seq<u8>)> {
    |x: Seq<u8>| parse_result(x)
}

/// A compound request: the minor version and the operations.
#[derive(Debug)]
pub struct CompoundRequest {
    /// Minor version (0 for NFSv4.0)
    pub minor_version: u32,
    /// Array of operations
    pub operations: Vec<CompoundOp>,
}

impl View for CompoundRequest {
    type V = (u32, Seq<(NfsOpcode, Seq<u8>)>);

    open spec fn view(&self) -> (u32, Seq<(NfsOpcode, Seq<u8>)>) {
        (self.minor_version, self.operations@.map_values(|o: CompoundOp| o@))
    }
}

/// The encoding of a compound request: the minor version, the number of operations, and the
/// operations.
pub open spec fn xdr_request(r: (u32, Seq<(NfsOpcode, Seq<u8>)>)) -> Seq<u8> {
    be_u32(r.0) + be_u32(r.1.len() as u32) + xdr_list(r.1, |o: (NfsOpcode, Seq<u8>)| xdr_op(o))
}

/// The abstract outcome of reading a compound request.
pub open spec fn parse_request(b: Seq<u8>) -> Parse<(u32, Seq<(NfsOpcode, Seq<u8>)>)> {
    match parse_u32(b) {
        Parse::Done(minor, _) => match parse_u32(b.skip(4)) {
            Parse::Done(count, _) => match parse_list(b.skip(8), count as nat, op_parser()) {
                Parse::Done(ops, n) => Parse::Done((minor, ops), 8 + n),
                Parse::Short => Parse::Short,
                Parse::Fail(f) => Parse::Fail(f),
            },
            _ => Parse::Short,
        },
        _ => Parse::Short,
    }
}

impl CompoundRequest {
    /// Appends the request in XDR form.
    pub fn encode(&self, buf: &mut Vec<u8>) -> (r: NfsResult<()>)
        ensures
            r is Ok,
            final(buf)@ == old(buf)@ + xdr_request(self@),
    {
        let ghost ops = self@.1;
        let ghost f = |o: (NfsOpcode, Seq<u8>)| xdr_op(o);
        put_u32(buf, self.minor_version);
        put_u32(buf, self.operations.len() as u32);
        let ghost b0 = buf@;
        let mut i: usize = 0;
        assert(ops.take(0) =~= Seq::<(NfsOpcode, Seq<u8>)>::empty());
        while i < self.operations.len()
            invariant
                i <= self.operations@.len(),
                ops == self@.1,
                ops.len() == self.operations@.len(),
                f == (|o: (NfsOpcode, Seq<u8>)| xdr_op(o)),
                buf@ == b0 + xdr_list(ops.take(i as int), f),
            decreases self.operations.len() - i,
        {
            self.operations[i].encode(buf);
            assert(ops.take(i + 1).drop_last() =~= ops.take(i as int));
            assert(ops.take(i + 1).last() == self.operations@[i as int]@);
            i = i + 1;
            assert(buf@ =~= b0 + xdr_list(ops.take(i as int), f));
        }
        assert(ops.take(i as int) =~= ops);
        assert(final(buf)@ =~= old(buf)@ + xdr_request(self@));
        Ok(())
    }

    /// Reads a request in XDR form at `pos`.
    pub fn decode(buf: &[u8], pos: usize) -> (r: Decoded<CompoundRequest>)
        requires
            pos <= buf@.len(),
        ensures
            decoded_matches(r, parse_request(buf@.skip(pos as int)), pos as int),
    {
        let blen = buf.len();
        let ghost b = buf@.skip(pos as int);
        let minor_version = match get_u32(buf, pos) {
            Some(v) => v,
            None => return Decoded::Short,
        };
        assert(buf@.skip(pos + 4) =~= b.skip(4));
        let count = match get_u32(buf, pos + 4) {
            Some(v) => v,
            None => return Decoded::Short,
        };
        let start = pos + 8;
        let ghost item = op_parser();
        let ghost lb = buf@.skip(start as int);
        assert(lb =~= b.skip(8));
        let mut operations: Vec<CompoundOp> = Vec::new();
        let mut p = start;
        let mut k: u32 = 0;
        proof {
            assert(lb.skip(0) =~= lb);
            assert(operations@.map_values(|o: CompoundOp| o@) =~= Seq::empty());
            match parse_list(lb, count as nat, item) {
                Parse::Done(ws, m) => {
                    assert(operations@.map_values(|o: CompoundOp| o@) + ws =~= ws);
                },
                _ => {},
            }
        }
        while k < count
            invariant
                blen == buf@.len(),
                start <= p <= blen,
                k <= count,
                lb == buf@.skip(start as int),
                item == op_parser(),
                b == buf@.skip(pos as int),
                parse_u32(b) is Done,
                parse_u32(b.skip(4)) == Parse::<u32>::Done(count, 4),
                lb == b.skip(8),
                start == pos + 8,
                parse_list(lb, count as nat, item) == after_items(
                    operations@.map_values(|o: CompoundOp| o@),
                    (p - start) as nat,
                    parse_list(lb.skip(p - start), (count - k) as nat, item),
                ),
            decreases count - k,
        {
            proof {
                lemma_parse_list_step(lb, (p - start) as nat, (count - k) as nat, item, operations@.map_values(|o: CompoundOp| o@));
                assert(lb.skip(p - start) =~= buf@.skip(p as int));
            }
            match CompoundOp::decode(buf, p) {
                Decoded::Short => return Decoded::Short,
                Decoded::Failed(e) => return Decoded::Failed(e),
                Decoded::Done(op, q) => {
                    let ghost before = operations@.map_values(|o: CompoundOp| o@);
                    let ghost ov = op@;
                    operations.push(op);
                    assert(operations@.map_values(|o: CompoundOp| o@) =~= before.push(ov));
                    assert(lb.skip(q - start) =~= lb.skip((p - start) + (q - p)));
                    p = q;
                },
            }
            k = k + 1;
        }
        proof {
            assert(parse_list(lb.skip(p - start), 0, item) == Parse::<Seq<(NfsOpcode, Seq<u8>)>>::Done(Seq::empty(), 0));
            assert(operations@.map_values(|o: CompoundOp| o@) + Seq::<(NfsOpcode, Seq<u8>)>::empty() =~= operations@.map_values(|o: CompoundOp| o@));
        }
        Decoded::Done(CompoundRequest { minor_version, operations }, p)
    }
}

/// The result of one operation of a compound: its status and its data in XDR form.
#[derive(Debug)]
pub struct CompoundResult {
    /// Status of this operation
    pub status: u32,
    /// Operation-specific result data
    pub data: Vec<u8>,
}

impl View for CompoundResult {
    type V = (u32, Seq<u8>);

    open spec fn view(&self) -> (u32, Seq<u8>) {
        (self.status, self.data@)
    }
}

/// The encoding of an operation's result: the status, the length of the data, the data.
pub open spec fn xdr_result(r: (u32, Seq<u8>)) -> Seq<u8> {
    be_u32(r.0) + be_u32(r.1.len() as u32) + r.1
}

/// The abstract outcome of reading an operation's result.
pub open spec fn parse_result(b: Seq<u8>) -> Parse<(u32, Seq<u8>)> {
    match parse_u32(b) {
        Parse::Done(status, _) => match parse_u32(b.skip(4)) {
            Parse::Done(len, _) => if b.len() < 8 + len {
                Parse::Short
            } else {
                Parse::Done((status, b.subrange(8, 8 + len)), 8 + len as nat)
            },
            _ => Parse::Short,
        },
        _ => Parse::Short,
    }
}

impl CompoundResult {
    /// Appends the result in XDR form.
    pub fn encode(&self, buf: &mut Vec<u8>) -> (r: NfsResult<()>)
        ensures
            r is Ok,
            final(buf)@ == old(buf)@ + xdr_result(self@),
    {
        put_u32(buf, self.status);
        put_u32(buf, self.data.len() as u32);
        put_slice(buf, self.data.as_slice());
        assert(final(buf)@ =~= old(buf)@ + xdr_result(self@));
        Ok(())
    }

    /// Reads a result in XDR form at `pos`.
    pub fn decode(buf: &[u8], pos: usize) -> (r: Decoded<CompoundResult>)
        requires
            pos <= buf@.len(),
        ensures
            decoded_matches(r, parse_result(buf@.skip(pos as int)), pos as int),
    {
        let blen = buf.len();
        let ghost b = buf@.skip(pos as int);
        let status = match get_u32(buf, pos) {
            Some(v) => v,
            None => return Decoded::Short,
        };
        assert(buf@.skip(pos + 4) =~= b.skip(4));
        let len = match get_u32(buf, pos + 4) {
            Some(v) => v,
            None => return Decoded::Short,
        };
        let data = match read_data(buf, pos + 8, len) {
            Some(d) => d,
            None => return Decoded::Short,
        };
        assert(data@ =~= b.subrange(8, 8 + len));
        Decoded::Done(CompoundResult { status, data }, pos + 8 + len as usize)
    }
}

/// A compound reply: the overall status and the results of the operations.
#[derive(Debug)]
pub struct CompoundReply {
    /// Status of the compound operation
    pub status: u32,
    /// Array of operation results
    pub results: Vec<CompoundResult>,
}

impl View for CompoundReply {
    type V = (u32, Seq<(u32, Seq<u8>)>);

    open spec fn view(&self) -> (u32, Seq<(u32, Seq<u8>)>) {
        (self.status, self.results@.map_values(|r: CompoundResult| r@))
    }
}

/// The encoding of a compound reply: the status, the number of results, and the results.
pub open spec fn xdr_reply(r: (u32, Seq<(u32, Seq<u8>)>)) -> Seq<u8> {
    be_u32(r.0) + be_u32(r.1.len() as u32) + xdr_list(r.1, |x: (u32, Seq<u8>)| xdr_result(x))
}

/// The abstract outcome of reading a compound reply.
pub open spec fn parse_reply(b: Seq<u8>) -> Parse<(u32, Seq<(u32, Seq<u8>)>)> {
    match parse_u32(b) {
        Parse::Done(status, _) => match parse_u32(b.skip(4)) {
            Parse::Done(count, _) => match parse_list(b.skip(8), count as nat, result_parser()) {
                Parse::Done(rs, n) => Parse::Done((status, rs), 8 + n),
                Parse::Short => Parse::Short,
                Parse::Fail(f) => Parse::Fail(f),
            },
            _ => Parse::Short,
        },
        _ => Parse::Short,
    }
}

impl CompoundReply {
    /// Appends the reply in XDR form.
    pub fn encode(&self, buf: &mut Vec<u8>) -> (r: NfsResult<()>)
        ensures
            r is Ok,
            final(buf)@ == old(buf)@ + xdr_reply(self@),
    {
        let ghost rs = self@.1;
        let ghost f = |x: (u32, Seq<u8>)| xdr_result(x);
        put_u32(buf, self.status);
        put_u32(buf, self.results.len() as u32);
        let ghost b0 = buf@;
        let mut i: usize = 0;
        assert(rs.take(0) =~= Seq::<(u32, Seq<u8>)>::empty());
        while i < self.results.len()
            invariant
                i <= self.results@.len(),
                rs == self@.1,
                rs.len() == self.results@.len(),
                f == (|x: (u32, Seq<u8>)| xdr_result(x)),
                buf@ == b0 + xdr_list(rs.take(i as int), f),
            decreases self.results.len() - i,
        {
            self.results[i].encode(buf);
            assert(rs.take(i + 1).drop_last() =~= rs.take(i as int));
            assert(rs.take(i + 1).last() == self.results@[i as int]@);
            i = i + 1;
            assert(buf@ =~= b0 + xdr_list(rs.take(i as int), f));
        }
        assert(rs.take(i as int) =~= rs);
        assert(final(buf)@ =~= old(buf)@ + xdr_reply(self@));
        Ok(())
    }

    /// Reads a reply in XDR form at `pos`.
    pub fn decode(buf: &[u8], pos: usize) -> (r: Decoded<CompoundReply>)
        requires
            pos <= buf@.len(),
        ensures
            decoded_matches(r, parse_reply(buf@.skip(pos as int)), pos as int),
    {
        let blen = buf.len();
        let ghost b = buf@.skip(pos as int);
        let status = match get_u32(buf, pos) {
            Some(v) => v,
            None => return Decoded::Short,
        };
        assert(buf@.skip(pos + 4) =~= b.skip(4));
        let count = match get_u32(buf, pos + 4) {
            Some(v) => v,
            None => return Decoded::Short,
        };
        let start = pos + 8;
        let ghost item = result_parser();
        let ghost lb = buf@.skip(start as int);
        assert(lb =~= b.skip(8));
        let mut results: Vec<CompoundResult> = Vec::new();
        let mut p = start;
        let mut k: u32 = 0;
        proof {
            assert(lb.skip(0) =~= lb);
            assert(results@.map_values(|r: CompoundResult| r@) =~= Seq::empty());
            match parse_list(lb, count as nat, item) {
                Parse::Done(ws, m) => {
                    assert(results@.map_values(|r: CompoundResult| r@) + ws =~= ws);
                },
                _ => {},
            }
        }
        while k < count
            invariant
                blen == buf@.len(),
                start <= p <= blen,
                k <= count,
                lb == buf@.skip(start as int),
                item == result_parser(),
                b == buf@.skip(pos as int),
                parse_u32(b) is Done,
                parse_u32(b.skip(4)) == Parse::<u32>::Done(count, 4),
                lb == b.skip(8),
                start == pos + 8,
                parse_list(lb, count as nat, item) == after_items(
                    results@.map_values(|r: CompoundResult| r@),
                    (p - start) as nat,
                    parse_list(lb.skip(p - start), (count - k) as nat, item),
                ),
            decreases count - k,
        {
            proof {
                lemma_parse_list_step(lb, (p - start) as nat, (count - k) as nat, item, results@.map_values(|r: CompoundResult| r@));
                assert(lb.skip(p - start) =~= buf@.skip(p as int));
            }
            match CompoundResult::decode(buf, p) {
                Decoded::Short => return Decoded::Short,
                Decoded::Failed(e) => return Decoded::Failed(e),
                Decoded::Done(res, q) => {
                    let ghost before = results@.map_values(|r: CompoundResult| r@);
                    let ghost rv = res@;
                    results.push(res);
                    assert(results@.map_values(|r: CompoundResult| r@) =~= before.push(rv));
                    assert(lb.skip(q - start) =~= lb.skip((p - start) + (q - p)));
                    p = q;
                },
            }
            k = k + 1;
        }
        proof {
            assert(parse_list(lb.skip(p - start), 0, item) == Parse::<Seq<(u32, Seq<u8>)>>::Done(Seq::empty(), 0));
            assert(results@.map_values(|r: CompoundResult| r@) + Seq::<(u32, Seq<u8>)>::empty() =~= results@.map_values(|r: CompoundResult| r@));
        }
        Decoded::Done(CompoundReply { status, results }, p)
    }
}

} // verus!
