//! The decisions of the NFSv4 server: how a record marker frames a message, which messages
//! are answered, and what each operation of a COMPOUND request needs from the file system.

use vstd::prelude::*;
use crate::nfs::error::NfsError;
use crate::nfs::proto::{parse_request, CompoundOp, CompoundReply, CompoundRequest, CompoundResult, NfsOpcode};
use crate::nfs::rpc::{parse_call, parse_header, MessageType, RpcCall, RpcHeader};
use crate::nfs::xdr::{be_u32, decode_string, fault_is, parse_string, put_u32, u32_of, Decoded, Parse};

verus! {

/// The NFS program number.
pub const NFS_PROGRAM: u32 = 100003;

/// The NFS version served.
pub const NFS_VERSION: u32 = 4;

/// The procedure number of COMPOUND.
pub const COMPOUND_PROCEDURE: u32 = 1;

/// The length of the message that a record marker announces: its lower 31 bits.
pub fn record_length(marker: &[u8]) -> (n: u32)
    requires
        marker@.len() == 4,
    ensures
        n == u32_of(marker@) & 0x7fff_ffff,
{
    let v = match crate::nfs::xdr::get_u32(marker, 0) {
        Some(v) => v,
        None => 0,
    };
    assert(marker@.skip(0) =~= marker@);
    v & 0x7fff_ffff
}

/// The record marker of a reply of `len` bytes: the length with the last-fragment bit set.
pub fn reply_marker(len: u32) -> (m: Vec<u8>)
    ensures
        m@ == be_u32(len | 0x8000_0000),
{
    let mut m: Vec<u8> = Vec::new();
    put_u32(&mut m, len | 0x8000_0000);
    assert(m@ =~= be_u32(len | 0x8000_0000));
    m
}

/// What the server does with a message.
#[derive(Debug)]
pub enum MessageStep {
    /// Answer the COMPOUND request of the call with this transaction id.
    Compound {
        /// The transaction id.
        xid: u32,
        /// The request.
        request: CompoundRequest,
    },
    /// A call of another procedure: nothing is answered.
    Ignore,
    /// The message ends before what it holds does.
    Short,
    /// The message is refused with this error.
    Fail(NfsError),
}

/// Whether `r` is what the server does with the message `b`: a reply is refused; a call must
/// be to the NFS program's version 4; a COMPOUND call is answered and any other procedure is
/// not.
pub open spec fn message_matches(r: MessageStep, b: Seq<u8>) -> bool {
    match parse_header(b) {
        Parse::Short => r is Short,
        Parse::Fail(f) => r matches MessageStep::Fail(e) && fault_is(e, f),
        Parse::Done((xid, t), n1) => match t {
            MessageType::Reply => r matches MessageStep::Fail(NfsError::Rpc(s)) && s@ == "Unexpected RPC reply"@,
            MessageType::Call => match parse_call(b.skip(n1 as int)) {
                Parse::Short => r is Short,
                Parse::Fail(f) => r matches MessageStep::Fail(e) && fault_is(e, f),
                Parse::Done(c, n2) => if c.1 != NFS_PROGRAM || c.2 != NFS_VERSION {
                    r matches MessageStep::Fail(NfsError::Rpc(s)) && s@ == "Invalid program or version"@
                } else if c.3 != COMPOUND_PROCEDURE {
                    r is Ignore
                } else {
                    match parse_request(b.skip((n1 + n2) as int)) {
                        Parse::Short => r is Short,
                        Parse::Fail(f) => r matches MessageStep::Fail(e) && fault_is(e, f),
                        Parse::Done(req, _) => r matches MessageStep::Compound { xid: x, request } && x == xid && request@ == req,
                    }
                },
            },
        },
    }
}

/// Decides what to do with a message read from a connection.
pub fn handle_message(msg: &[u8]) -> (r: MessageStep)
    ensures
        message_matches(r, msg@),
{
    proof {
        reveal_strlit("Unexpected RPC reply");
        reveal_strlit("Invalid program or version");
        assert(msg@.skip(0) =~= msg@);
    }
    let (header, p1) = match RpcHeader::decode(msg, 0) {
        Decoded::Done(h, p) => (h, p),
        Decoded::Short => return MessageStep::Short,
        Decoded::Failed(e) => return MessageStep::Fail(e),
    };
    match header.msg_type {
        MessageType::Reply => MessageStep::Fail(NfsError::Rpc(String::from_str("Unexpected RPC reply"))),
        MessageType::Call => {
            let (call, p2) = match RpcCall::decode(msg, p1) {
                Decoded::Done(c, p) => (c, p),
                Decoded::Short => return MessageStep::Short,
                Decoded::Failed(e) => return MessageStep::Fail(e),
            };
            if call.program != NFS_PROGRAM || call.version != NFS_VERSION {
                return MessageStep::Fail(NfsError::Rpc(String::from_str("Invalid program or version")));
            }
            if call.procedure != COMPOUND_PROCEDURE {
                return MessageStep::Ignore;
            }
            proof {
                assert(msg@.skip(p1 as int).skip(p2 - p1) =~= msg@.skip(p2 as int));
            }
            match CompoundRequest::decode(msg, p2) {
                Decoded::Done(request, _) => MessageStep::Compound { xid: header.xid, request },
                Decoded::Short => MessageStep::Short,
                Decoded::Failed(e) => MessageStep::Fail(e),
            }
        },
    }
}

/// What an operation of a COMPOUND request needs.
#[derive(Debug)]
pub enum CompoundNeed {
    /// The root file handle, which becomes the current one.
    RootFilehandle,
    /// The file handle of `name` in the directory `parent`, which becomes the current one.
    Lookup {
        /// The handle of the directory.
        parent: Vec<u8>,
        /// The name looked up.
        name: String,
    },
    /// Nothing: this is the operation's result.
    Answer(CompoundResult),
    /// The operation's data ends before the name does.
    Short,
    /// The operation fails the request with this error.
    Fail(NfsError),
}

/// The status of a result that says there is no current file handle.
pub const NO_FILEHANDLE: u32 = 1;

/// The status of a result that says the operation is not supported.
pub const NOT_SUPPORTED: u32 = 2;

/// The state of a COMPOUND request under way: the current file handle and the results so far.
pub struct CompoundRun {
    /// The current file handle, if any.
    pub current_fh: Option<Vec<u8>>,
    /// The results of the operations done.
    pub results: Vec<CompoundResult>,
}

/// Whether `r` is what the operation `op` needs when `fh` is the current file handle: the
/// root handle for PUTROOTFH; for LOOKUP, the name in the operation's data looked up in the
/// current handle, or the status "no file handle" when there is none; any other operation is
/// answered "not supported".
pub open spec fn need_matches(r: CompoundNeed, op: (NfsOpcode, Seq<u8>), fh: Option<Seq<u8>>) -> bool {
    match op.0 {
        NfsOpcode::PutRootFh => r is RootFilehandle,
        NfsOpcode::Lookup => match fh {
            None => r matches CompoundNeed::Answer(a) && a@ == (NO_FILEHANDLE, Seq::<u8>::empty()),
            Some(p) => match parse_string(op.1) {
                Parse::Short => r is Short,
                Parse::Fail(f) => r matches CompoundNeed::Fail(e) && fault_is(e, f),
                Parse::Done(name, _) => r matches CompoundNeed::Lookup { parent, name: n } && parent@ == p && n@ == name,
            },
        },
        _ => r matches CompoundNeed::Answer(a) && a@ == (NOT_SUPPORTED, Seq::<u8>::empty()),
    }
}

/// Every operation that does not fail the request gets one result: an operation answered
/// without the file system gets status 1 (no current file handle) or 2 (not supported), with
/// no data, and one that needs a file handle gets status 0 once it is found (`handle_found`).
pub proof fn law_operation_statuses(r: CompoundNeed, op: (NfsOpcode, Seq<u8>), fh: Option<Seq<u8>>)
    requires
        need_matches(r, op, fh),
    ensures
        r matches CompoundNeed::Answer(a) ==> (a@.0 == NO_FILEHANDLE || a@.0 == NOT_SUPPORTED) && a@.1.len() == 0,
        r matches CompoundNeed::Answer(a) ==> (a@.0 == NO_FILEHANDLE <==> op.0 == NfsOpcode::Lookup),
        r is RootFilehandle <==> op.0 == NfsOpcode::PutRootFh,
        op.0 != NfsOpcode::PutRootFh && op.0 != NfsOpcode::Lookup ==> r is Answer,
{
}

/// Copies a byte vector.
fn copy_vec(v: &Vec<u8>) -> (r: Vec<u8>)
    ensures
        r@ == v@,
{
    let mut r: Vec<u8> = Vec::new();
    let mut i: usize = 0;
    while i < v.len()
        invariant
            i <= v@.len(),
            r@ == v@.take(i as int),
        decreases v.len() - i,
    {
        r.push(v[i]);
        i = i + 1;
        assert(r@ =~= v@.take(i as int));
    }
    assert(v@.take(i as int) =~= v@);
    r
}

impl CompoundRun {
    /// A request with no current file handle and no results yet.
    pub fn new() -> (r: Self)
        ensures
            r.current_fh is None,
            r.results@.len() == 0,
    {
        CompoundRun { current_fh: None, results: Vec::new() }
    }

    /// What the operation needs.
    pub fn step(&self, op: &CompoundOp) -> (r: CompoundNeed)
        ensures
            need_matches(
                r,
                op@,
                match self.current_fh {
                    Some(v) => Some(v@),
                    None => None,
                },
            ),
    {
        match op.opcode {
            NfsOpcode::PutRootFh => CompoundNeed::RootFilehandle,
            NfsOpcode::Lookup => match &self.current_fh {
                None => CompoundNeed::Answer(CompoundResult { status: NO_FILEHANDLE, data: Vec::new() }),
                Some(parent) => {
                    proof {
                        assert(op.data@.skip(0) =~= op.data@);
                    }
                    match decode_string(op.data.as_slice(), 0) {
                        Decoded::Done(name, _) => CompoundNeed::Lookup { parent: copy_vec(parent), name },
                        Decoded::Short => CompoundNeed::Short,
                        Decoded::Failed(e) => CompoundNeed::Fail(e),
                    }
                },
            },
            _ => CompoundNeed::Answer(CompoundResult { status: NOT_SUPPORTED, data: Vec::new() }),
        }
    }

    /// Takes the file handle that the file system gave: it becomes the current one, and the
    /// operation succeeds with no data.
    pub fn handle_found(&mut self, fh: Vec<u8>)
        ensures
            final(self).current_fh == Some(fh),
            final(self).results@.len() == old(self).results@.len() + 1,
            final(self).results@.last()@ == (0u32, Seq::<u8>::empty()),
            final(self).results@.drop_last() == old(self).results@,
    {
        self.current_fh = Some(fh);
        self.results.push(CompoundResult { status: 0, data: Vec::new() });
        assert(self.results@.drop_last() =~= old(self).results@);
    }

    /// Records the result of an operation answered without the file system.
    pub fn answered(&mut self, result: CompoundResult)
        ensures
            final(self).current_fh == old(self).current_fh,
            final(self).results@ == old(self).results@.push(result),
    {
        self.results.push(result);
    }

    /// The reply: status 0 and the results in order.
    pub fn reply(self) -> (r: CompoundReply)
        ensures
            r.status == 0,
            r.results@ == self.results@,
    {
        CompoundReply { status: 0, results: self.results }
    }
}

} // verus!
