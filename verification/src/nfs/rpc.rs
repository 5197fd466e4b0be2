//! RPC (Remote Procedure Call) messages: headers, calls and their credentials.

use vstd::prelude::*;
use crate::nfs::error::{NfsError, NfsResult};
use crate::nfs::xdr::{
    after_items, be_u32, copy_bytes, decode_string, decoded_matches, encode_string, get_u32, lemma_parse_list_step, lemma_u32_list_roundtrip, law_string_roundtrip, law_u32_roundtrip,
    parse_list, parse_string, parse_u32, put_slice, put_u32, xdr_list, xdr_string, Decoded, Parse, XdrFault,
};
use crate::text::{decimal, decimal_string};

verus! {

/// RPC message types.
#[derive(Debug, Clone, Copy, PartialEq, Eq, Structural)]
pub enum MessageType {
    /// RPC call message
    Call,
    /// RPC reply message
    Reply,
}

/// RPC authentication status.
#[derive(Debug, Clone, Copy, PartialEq, Eq, Structural)]
pub enum AuthStatus {
    /// Success
    AuthOk,
    /// Bad credential (not authenticated)
    BadCred,
    /// Bad verifier (not authenticated)
    BadVerf,
    /// Invalid client credential (rejected)
    RejectedCred,
    /// Invalid client verifier (rejected)
    RejectedVerf,
    /// Too weak authentication (rejected)
    TooWeak,
}

/// The number of a message type on the wire.
pub open spec fn message_type_code(t: MessageType) -> u32 {
    match t {
        MessageType::Call => 0,
        MessageType::Reply => 1,
    }
}

/// The message type with the number `v`, if any.
pub open spec fn message_type_of(v: u32) -> Option<MessageType> {
    if v == 0 {
        Some(MessageType::Call)
    } else if v == 1 {
        Some(MessageType::Reply)
    } else {
        None
    }
}

/// The number of an authentication status on the wire.
pub open spec fn auth_status_code(s: AuthStatus) -> u32 {
    match s {
        AuthStatus::AuthOk => 0,
        AuthStatus::BadCred => 1,
        AuthStatus::BadVerf => 2,
        AuthStatus::RejectedCred => 3,
        AuthStatus::RejectedVerf => 4,
        AuthStatus::TooWeak => 5,
    }
}

/// The authentication status with the number `v`, if any.
pub open spec fn auth_status_of(v: u32) -> Option<AuthStatus> {
    if v == 0 {
        Some(AuthStatus::AuthOk)
    } else if v == 1 {
        Some(AuthStatus::BadCred)
    } else if v == 2 {
        Some(AuthStatus::BadVerf)
    } else if v == 3 {
        Some(AuthStatus::RejectedCred)
    } else if v == 4 {
        Some(AuthStatus::RejectedVerf)
    } else if v == 5 {
        Some(AuthStatus::TooWeak)
    } else {
        None
    }
}

impl MessageType {
    /// The number of the message type on the wire.
    pub fn code(self) -> (v: u32)
        ensures
            v == message_type_code(self),
    {
        match self {
            MessageType::Call => 0,
            MessageType::Reply => 1,
        }
    }

    /// The message type with the number `v`, if any.
    pub fn from_code(v: u32) -> (r: Option<MessageType>)
        ensures
            r == message_type_of(v),
    {
        if v == 0 {
            Some(MessageType::Call)
        } else if v == 1 {
            Some(MessageType::Reply)
        } else {
            None
        }
    }
}

impl AuthStatus {
    /// The number of the status on the wire.
    pub fn code(self) -> (v: u32)
        ensures
            v == auth_status_code(self),
    {
        match self {
            AuthStatus::AuthOk => 0,
            AuthStatus::BadCred => 1,
            AuthStatus::BadVerf => 2,
            AuthStatus::RejectedCred => 3,
            AuthStatus::RejectedVerf => 4,
            AuthStatus::TooWeak => 5,
        }
    }

    /// The status with the number `v`, if any.
    pub fn from_code(v: u32) -> (r: Option<AuthStatus>)
        ensures
            r == auth_status_of(v),
    {
        if v == 0 {
            Some(AuthStatus::AuthOk)
        } else if v == 1 {
            Some(AuthStatus::BadCred)
        } else if v == 2 {
            Some(AuthStatus::BadVerf)
        } else if v == 3 {
            Some(AuthStatus::RejectedCred)
        } else if v == 4 {
            Some(AuthStatus::RejectedVerf)
        } else if v == 5 {
            Some(AuthStatus::TooWeak)
        } else {
            None
        }
    }
}

/// Each message type and status is read back from its number, and a number read as one is
/// that one's number.
pub proof fn law_rpc_codes_roundtrip(t: MessageType, s: AuthStatus, v: u32)
    ensures
        message_type_of(message_type_code(t)) == Some(t),
        message_type_of(v) matches Some(x) ==> message_type_code(x) == v,
        auth_status_of(auth_status_code(s)) == Some(s),
        auth_status_of(v) matches Some(x) ==> auth_status_code(x) == v,
{
}

/// The message of the error for the message type number `v` that names no type.
pub open spec fn invalid_message_type_message(v: u32) -> Seq<char> {
    "Invalid message type: No discriminant in enum `MessageType` matches the value `"@ + decimal(v as nat) + "`"@
}

/// Builds the error for the message type number `v`.
fn invalid_message_type_error(v: u32) -> (e: NfsError)
    ensures
        e matches NfsError::Rpc(s) && s@ == invalid_message_type_message(v),
{
    let mut s = String::from_str("Invalid message type: No discriminant in enum `MessageType` matches the value `");
    s.append(decimal_string(v as u64).as_str());
    s.append("`");
    NfsError::Rpc(s)
}

/// An RPC message header.
#[derive(Debug)]
pub struct RpcHeader {
    /// Transaction ID
    pub xid: u32,
    /// Message type (call or reply)
    pub msg_type: MessageType,
}

impl View for RpcHeader {
    type V = (u32, MessageType);

    open spec fn view(&self) -> (u32, MessageType) {
        (self.xid, self.msg_type)
    }
}

/// The encoding of a header: the transaction id, then the message type's number.
pub open spec fn xdr_header(h: (u32, MessageType)) -> Seq<u8> {
    be_u32(h.0) + be_u32(message_type_code(h.1))
}

/// The abstract outcome of reading a header: a number that names no message type fails.
pub open spec fn parse_header(b: Seq<u8>) -> Parse<(u32, MessageType)> {
    match parse_u32(b) {
        Parse::Done(xid, _) => match parse_u32(b.skip(4)) {
            Parse::Done(t, _) => match message_type_of(t) {
                Some(mt) => Parse::Done((xid, mt), 8),
                None => Parse::Fail(XdrFault::Rpc(invalid_message_type_message(t))),
            },
            _ => Parse::Short,
        },
        _ => Parse::Short,
    }
}

impl RpcHeader {
    /// Appends the header in XDR form.
    pub fn encode(&self, buf: &mut Vec<u8>) -> (r: NfsResult<()>)
        ensures
            r is Ok,
            final(buf)@ == old(buf)@ + xdr_header(self@),
    {
        put_u32(buf, self.xid);
        put_u32(buf, self.msg_type.code());
        assert(final(buf)@ =~= old(buf)@ + xdr_header(self@));
        Ok(())
    }

    /// Reads a header in XDR form at `pos`.
    pub fn decode(buf: &[u8], pos: usize) -> (r: Decoded<RpcHeader>)
        requires
            pos <= buf@.len(),
        ensures
            decoded_matches(r, parse_header(buf@.skip(pos as int)), pos as int),
    {
        let blen = buf.len();
        let ghost b = buf@.skip(pos as int);
        let xid = match get_u32(buf, pos) {
            Some(v) => v,
            None => return Decoded::Short,
        };
        assert(buf@.skip(pos + 4) =~= b.skip(4));
        let t = match get_u32(buf, pos + 4) {
            Some(v) => v,
            None => return Decoded::Short,
        };
        match MessageType::from_code(t) {
            Some(msg_type) => Decoded::Done(RpcHeader { xid, msg_type }, pos + 8),
            None => Decoded::Failed(invalid_message_type_error(t)),
        }
    }
}

/// AUTH_SYS credentials (basic Unix-style).
#[derive(Debug)]
pub struct AuthSys {
    /// Timestamp
    pub stamp: u32,
    /// Machine name
    pub machinename: String,
    /// User ID
    pub uid: u32,
    /// Group ID
    pub gid: u32,
    /// Auxiliary group IDs
    pub gids: Vec<u32>,
}

/// AUTH_NONE verifier (no authentication).
#[derive(Debug)]
pub struct AuthNone;

impl View for AuthSys {
    type V = (u32, Seq<char>, u32, u32, Seq<u32>);

    open spec fn view(&self) -> (u32, Seq<char>, u32, u32, Seq<u32>) {
        (self.stamp, self.machinename@, self.uid, self.gid, self.gids@)
    }
}

/// Reads one `u32`, as a function.
pub open spec fn u32_parser() -> spec_fn(Seq<u8>) -> Parse<u32> {
    |x: Seq<u8>| parse_u32(x)
}

/// The encoding of credentials: the stamp, the machine name as a string, the user and group
/// ids, the number of auxiliary groups and the groups.
pub open spec fn xdr_auth_sys(a: (u32, Seq<char>, u32, u32, Seq<u32>)) -> Seq<u8> {
    be_u32(a.0) + xdr_string(a.1) + be_u32(a.2) + be_u32(a.3) + be_u32(a.4.len() as u32) + xdr_list(
        a.4,
        |g: u32| be_u32(g),
    )
}

/// The abstract outcome of reading credentials.
#[verifier::opaque]
pub open spec fn parse_auth_sys(b: Seq<u8>) -> Parse<(u32, Seq<char>, u32, u32, Seq<u32>)> {
    match parse_u32(b) {
        Parse::Done(stamp, _) => match parse_string(b.skip(4)) {
            Parse::Done(name, n) => match parse_u32(b.skip(4 + n as int)) {
                Parse::Done(uid, _) => match parse_u32(b.skip(8 + n as int)) {
                    Parse::Done(gid, _) => match parse_u32(b.skip(12 + n as int)) {
                        Parse::Done(count, _) => match parse_list(b.skip(16 + n as int), count as nat, u32_parser()) {
                            Parse::Done(gids, m) => Parse::Done((stamp, name, uid, gid, gids), 16 + n + m),
                            Parse::Short => Parse::Short,
                            Parse::Fail(f) => Parse::Fail(f),
                        },
                        _ => Parse::Short,
                    },
                    _ => Parse::Short,
                },
                _ => Parse::Short,
            },
            Parse::Short => Parse::Short,
            Parse::Fail(f) => Parse::Fail(f),
        },
        _ => Parse::Short,
    }
}

impl AuthSys {
    /// Appends the credentials in XDR form.
    pub fn encode(&self, buf: &mut Vec<u8>) -> (r: NfsResult<()>)
        ensures
            r is Ok,
            final(buf)@ == old(buf)@ + xdr_auth_sys(self@),
    {
        let ghost gs = self.gids@;
        let ghost f = |g: u32| be_u32(g);
        put_u32(buf, self.stamp);
        encode_string(self.machinename.as_str(), buf);
        put_u32(buf, self.uid);
        put_u32(buf, self.gid);
        put_u32(buf, self.gids.len() as u32);
        let ghost b0 = buf@;
        let mut i: usize = 0;
        assert(gs.take(0) =~= Seq::<u32>::empty());
        while i < self.gids.len()
            invariant
                i <= self.gids@.len(),
                gs == self.gids@,
                f == (|g: u32| be_u32(g)),
                buf@ == b0 + xdr_list(gs.take(i as int), f),
            decreases self.gids.len() - i,
        {
            put_u32(buf, self.gids[i]);
            assert(gs.take(i + 1).drop_last() =~= gs.take(i as int));
            i = i + 1;
            assert(buf@ =~= b0 + xdr_list(gs.take(i as int), f));
        }
        assert(gs.take(i as int) =~= gs);
        assert(final(buf)@ =~= old(buf)@ + xdr_auth_sys(self@));
        Ok(())
    }

    /// Reads credentials in XDR form at `pos`.
    pub fn decode(buf: &[u8], pos: usize) -> (r: Decoded<AuthSys>)
        requires
            pos <= buf@.len(),
        ensures
            decoded_matches(r, parse_auth_sys(buf@.skip(pos as int)), pos as int),
    {
        reveal(parse_auth_sys);
        let blen = buf.len();
        let ghost b = buf@.skip(pos as int);
        let stamp = match get_u32(buf, pos) {
            Some(v) => v,
            None => return Decoded::Short,
        };
        assert(buf@.skip(pos + 4) =~= b.skip(4));
        let (machinename, p1) = match decode_string(buf, pos + 4) {
            Decoded::Done(s, q) => (s, q),
            Decoded::Short => return Decoded::Short,
            Decoded::Failed(e) => return Decoded::Failed(e),
        };
        let ghost n: nat = (p1 - pos - 4) as nat;
        assert(buf@.skip(p1 as int) =~= b.skip(4 + n as int));
        let uid = match get_u32(buf, p1) {
            Some(v) => v,
            None => return Decoded::Short,
        };
        assert(buf@.skip(p1 + 4) =~= b.skip(8 + n as int));
        let gid = match get_u32(buf, p1 + 4) {
            Some(v) => v,
            None => return Decoded::Short,
        };
        assert(buf@.skip(p1 + 8) =~= b.skip(12 + n as int));
        let count = match get_u32(buf, p1 + 8) {
            Some(v) => v,
            None => return Decoded::Short,
        };
        let start = p1 + 12;
        let ghost item = u32_parser();
        let ghost lb = buf@.skip(start as int);
        assert(lb =~= b.skip(16 + n as int));
        let mut gids: Vec<u32> = Vec::new();
        let mut p = start;
        let mut k: u32 = 0;
        proof {
            assert(lb.skip(0) =~= lb);
            assert(gids@ =~= Seq::<u32>::empty());
            match parse_list(lb, count as nat, item) {
                Parse::Done(ws, m) => {
                    assert(gids@ + ws =~= ws);
                },
                _ => {},
            }
        }
        while k < count
            invariant
                blen == buf@.len(),
                start <= p <= blen,
                k <= count,
                lb == buf@.skip(start as int),
                item == u32_parser(),
                b == buf@.skip(pos as int),
                parse_u32(b) is Done,
                parse_string(b.skip(4)) == Parse::Done(machinename@, n),
                parse_u32(b.skip(4 + n as int)) is Done,
                parse_u32(b.skip(8 + n as int)) is Done,
                parse_u32(b.skip(12 + n as int)) == Parse::<u32>::Done(count, 4),
                lb == b.skip(16 + n as int),
                start == pos + 16 + n as int,
                parse_list(lb, count as nat, item) == after_items(gids@, (p - start) as nat, parse_list(lb.skip(p - start), (count - k) as nat, item)),
            decreases count - k,
        {
            proof {
                reveal(parse_auth_sys);
                lemma_parse_list_step(lb, (p - start) as nat, (count - k) as nat, item, gids@);
                assert(lb.skip(p - start) =~= buf@.skip(p as int));
            }
            match get_u32(buf, p) {
                None => return Decoded::Short,
                Some(g) => {
                    gids.push(g);
                    assert(lb.skip(p + 4 - start) =~= lb.skip((p - start) + 4));
                    p = p + 4;
                },
            }
            k = k + 1;
        }
        proof {
            assert(parse_list(lb.skip(p - start), 0, item) == Parse::<Seq<u32>>::Done(Seq::empty(), 0));
            assert(gids@ + Seq::<u32>::empty() =~= gids@);
        }
        Decoded::Done(AuthSys { stamp, machinename, uid, gid, gids }, p)
    }
}

/// An RPC call body.
#[derive(Debug)]
pub struct RpcCall {
    /// RPC version (should be 2)
    pub rpc_version: u32,
    /// Program number (100003 for NFS)
    pub program: u32,
    /// Program version (4 for NFSv4)
    pub version: u32,
    /// Procedure number
    pub procedure: u32,
    /// Authentication credentials
    pub cred: AuthSys,
    /// Authentication verifier (usually empty)
    pub verf: AuthNone,
}

impl View for RpcCall {
    type V = (u32, u32, u32, u32, (u32, Seq<char>, u32, u32, Seq<u32>));

    open spec fn view(&self) -> (u32, u32, u32, u32, (u32, Seq<char>, u32, u32, Seq<u32>)) {
        (self.rpc_version, self.program, self.version, self.procedure, self.cred@)
    }
}

/// The encoding of a call: the versions, program and procedure, the AUTH_SYS flavor (1) and
/// the credentials as an opaque byte string, then an empty AUTH_NONE verifier (flavor 0,
/// length 0).
pub open spec fn xdr_call(c: (u32, u32, u32, u32, (u32, Seq<char>, u32, u32, Seq<u32>))) -> Seq<u8> {
    let cred = xdr_auth_sys(c.4);
    be_u32(c.0) + be_u32(c.1) + be_u32(c.2) + be_u32(c.3) + be_u32(1) + be_u32(cred.len() as u32) + cred + be_u32(0)
        + be_u32(0)
}

/// The abstract outcome of reading a call: only AUTH_SYS credentials and an empty AUTH_NONE
/// verifier are accepted, and the credentials must be read from within their byte string.
pub open spec fn parse_call(b: Seq<u8>) -> Parse<(u32, u32, u32, u32, (u32, Seq<char>, u32, u32, Seq<u32>))> {
    if b.len() < 20 {
        Parse::Short
    } else if u32_of_at(b, 16) != 1 {
        Parse::Fail(XdrFault::Rpc("Only AUTH_SYS supported"@))
    } else if b.len() < 24 {
        Parse::Short
    } else {
        let len = u32_of_at(b, 20) as int;
        if b.len() < 24 + len {
            Parse::Short
        } else {
            match parse_auth_sys(b.subrange(24, 24 + len)) {
                Parse::Short => Parse::Short,
                Parse::Fail(f) => Parse::Fail(f),
                Parse::Done(cred, _) => if b.len() < 32 + len {
                    Parse::Short
                } else if u32_of_at(b, 24 + len) != 0 || u32_of_at(b, 28 + len) != 0 {
                    Parse::Fail(XdrFault::Rpc("Only AUTH_NONE verifier supported"@))
                } else {
                    Parse::Done((u32_of_at(b, 0), u32_of_at(b, 4), u32_of_at(b, 8), u32_of_at(b, 12), cred), (32 + len) as nat)
                },
            }
        }
    }
}

/// The big-endian value of the four bytes at `i`.
pub open spec fn u32_of_at(b: Seq<u8>, i: int) -> u32 {
    crate::nfs::xdr::u32_of(b.skip(i))
}

/// Reads the `u32` at `pos` of a slice known to hold four bytes there.
fn u32_at(buf: &[u8], pos: usize) -> (v: u32)
    requires
        pos + 4 <= buf@.len(),
    ensures
        v == u32_of_at(buf@, pos as int),
{
    match get_u32(buf, pos) {
        Some(v) => v,
        None => 0,
    }
}

impl RpcCall {
    /// Appends the call in XDR form.
    pub fn encode(&self, buf: &mut Vec<u8>) -> (r: NfsResult<()>)
        ensures
            r is Ok,
            final(buf)@ == old(buf)@ + xdr_call(self@),
    {
        put_u32(buf, self.rpc_version);
        put_u32(buf, self.program);
        put_u32(buf, self.version);
        put_u32(buf, self.procedure);
        put_u32(buf, 1);
        let mut cred_buf: Vec<u8> = Vec::new();
        let _ = self.cred.encode(&mut cred_buf);
        assert(cred_buf@ =~= xdr_auth_sys(self.cred@));
        put_u32(buf, cred_buf.len() as u32);
        put_slice(buf, cred_buf.as_slice());
        put_u32(buf, 0);
        put_u32(buf, 0);
        assert(final(buf)@ =~= old(buf)@ + xdr_call(self@));
        Ok(())
    }

    /// Reads a call in XDR form at `pos`.
    #[verifier::rlimit(40)]
    pub fn decode(buf: &[u8], pos: usize) -> (r: Decoded<RpcCall>)
        requires
            pos <= buf@.len(),
        ensures
            decoded_matches(r, parse_call(buf@.skip(pos as int)), pos as int),
    {
        let blen = buf.len();
        let ghost b = buf@.skip(pos as int);
        if blen - pos < 20 {
            return Decoded::Short;
        }
        let rpc_version = u32_at(buf, pos);
        let program = u32_at(buf, pos + 4);
        let version = u32_at(buf, pos + 8);
        let procedure = u32_at(buf, pos + 12);
        let flavor = u32_at(buf, pos + 16);
        proof {
            assert(b.skip(0) =~= buf@.skip(pos as int));
            assert(b.skip(4) =~= buf@.skip(pos + 4));
            assert(b.skip(8) =~= buf@.skip(pos + 8));
            assert(b.skip(12) =~= buf@.skip(pos + 12));
            assert(b.skip(16) =~= buf@.skip(pos + 16));
            reveal_strlit("Only AUTH_SYS supported");
            reveal_strlit("Only AUTH_NONE verifier supported");
        }
        if flavor != 1 {
            return Decoded::Failed(NfsError::Rpc(String::from_str("Only AUTH_SYS supported")));
        }
        if blen - pos < 24 {
            return Decoded::Short;
        }
        let cred_len = u32_at(buf, pos + 20);
        assert(b.skip(20) =~= buf@.skip(pos + 20));
        if blen - pos - 24 < cred_len as usize {
            return Decoded::Short;
        }
        let cred_bytes = copy_bytes(buf, pos + 24, cred_len as usize);
        assert(cred_bytes@.skip(0) =~= b.subrange(24, 24 + cred_len));
        let cred = match AuthSys::decode(cred_bytes.as_slice(), 0) {
            Decoded::Done(c, _) => c,
            Decoded::Short => return Decoded::Short,
            Decoded::Failed(e) => return Decoded::Failed(e),
        };
        let after = pos + 24 + cred_len as usize;
        if blen - after < 8 {
            return Decoded::Short;
        }
        let verf_flavor = u32_at(buf, after);
        let verf_len = u32_at(buf, after + 4);
        proof {
            assert(b.skip(24 + cred_len) =~= buf@.skip(after as int));
            assert(b.skip(28 + cred_len) =~= buf@.skip(after + 4));
        }
        if verf_flavor != 0 || verf_len != 0 {
            return Decoded::Failed(NfsError::Rpc(String::from_str("Only AUTH_NONE verifier supported")));
        }
        Decoded::Done(RpcCall { rpc_version, program, version, procedure, cred, verf: AuthNone }, after + 8)
    }
}

/// A `u32` in front of bytes reads back, and skipping its four bytes leaves the bytes.
proof fn lemma_u32_in_front(v: u32, t: Seq<u8>)
    ensures
        be_u32(v).len() == 4,
        crate::nfs::xdr::u32_of(be_u32(v) + t) == v,
        parse_u32(be_u32(v) + t) == Parse::Done(v, 4),
        (be_u32(v) + t).skip(4) == t,
{
    law_u32_roundtrip(v, t);
    lemma_in_front(be_u32(v), t);
}

/// Skipping the bytes in front leaves the bytes behind them.
proof fn lemma_in_front(x: Seq<u8>, t: Seq<u8>)
    ensures
        (x + t).skip(x.len() as int) == t,
{
    assert((x + t).skip(x.len() as int) =~= t);
}

/// Where the fields of encoded credentials lie, and what reading each gives.
proof fn lemma_auth_sys_layout(a: (u32, Seq<char>, u32, u32, Seq<u32>), rest: Seq<u8>)
    requires
        vstd::utf8::encode_utf8(a.1).len() <= u32::MAX,
        a.4.len() <= u32::MAX,
    ensures
        ({
            let b = xdr_auth_sys(a) + rest;
            let n = xdr_string(a.1).len() as int;
            &&& xdr_auth_sys(a).len() == 16 + n + 4 * a.4.len()
            &&& parse_u32(b) == Parse::Done(a.0, 4)
            &&& parse_string(b.skip(4)) == Parse::Done(a.1, n as nat)
            &&& parse_u32(b.skip(4 + n)) == Parse::Done(a.2, 4)
            &&& parse_u32(b.skip(8 + n)) == Parse::Done(a.3, 4)
            &&& parse_u32(b.skip(12 + n)) == Parse::Done(a.4.len() as u32, 4)
            &&& parse_list(b.skip(16 + n), a.4.len(), u32_parser()) == Parse::Done(a.4, 4 * a.4.len())
        }),
{
    let f = |g: u32| be_u32(g);
    let w0 = be_u32(a.0);
    let name = xdr_string(a.1);
    let w2 = be_u32(a.2);
    let w3 = be_u32(a.3);
    let w4 = be_u32(a.4.len() as u32);
    let gl = xdr_list(a.4, f);
    let n = name.len() as int;
    lemma_u32_list_roundtrip(a.4, f, rest);
    let b6 = gl + rest;
    let b5 = w4 + b6;
    let b4 = w3 + b5;
    let b3 = w2 + b4;
    let b2 = name + b3;
    let b = w0 + b2;
    vstd::seq_lib::lemma_concat_associative(w0 + name + w2 + w3 + w4, gl, rest);
    vstd::seq_lib::lemma_concat_associative(w0 + name + w2 + w3, w4, b6);
    vstd::seq_lib::lemma_concat_associative(w0 + name + w2, w3, b5);
    vstd::seq_lib::lemma_concat_associative(w0 + name, w2, b4);
    vstd::seq_lib::lemma_concat_associative(w0, name, b3);
    assert(xdr_auth_sys(a) + rest == b);
    lemma_u32_in_front(a.0, b2);
    law_string_roundtrip(a.1, b3);
    lemma_in_front(name, b3);
    lemma_u32_in_front(a.2, b4);
    lemma_u32_in_front(a.3, b5);
    lemma_u32_in_front(a.4.len() as u32, b6);
    vstd::seq_lib::lemma_seq_skip_of_skip(b, 4, n);
    vstd::seq_lib::lemma_seq_skip_of_skip(b, 4 + n, 4);
    vstd::seq_lib::lemma_seq_skip_of_skip(b, 8 + n, 4);
    vstd::seq_lib::lemma_seq_skip_of_skip(b, 12 + n, 4);
    assert(b.skip(4 + n) == b3);
    assert(b.skip(8 + n) == b4);
    assert(b.skip(12 + n) == b5);
    assert(b.skip(16 + n) == b6);
    assert(u32_parser() == (|x: Seq<u8>| parse_u32(x)));
}

/// Reading back the encoding of credentials gives them, for a machine name of fewer than
/// 2^32 bytes and fewer than 2^32 groups.
pub proof fn law_auth_sys_roundtrip(a: (u32, Seq<char>, u32, u32, Seq<u32>), rest: Seq<u8>)
    requires
        vstd::utf8::encode_utf8(a.1).len() <= u32::MAX,
        a.4.len() <= u32::MAX,
    ensures
        parse_auth_sys(xdr_auth_sys(a) + rest) == Parse::Done(a, xdr_auth_sys(a).len()),
{
    lemma_auth_sys_layout(a, rest);
    reveal(parse_auth_sys);
}

/// The encoding of a call followed by more bytes, written from the front.
proof fn lemma_call_bytes(c: (u32, u32, u32, u32, (u32, Seq<char>, u32, u32, Seq<u32>)), rest: Seq<u8>)
    ensures
        xdr_call(c) + rest == be_u32(c.0) + (be_u32(c.1) + (be_u32(c.2) + (be_u32(c.3) + (be_u32(1) + (be_u32(
            xdr_auth_sys(c.4).len() as u32,
        ) + (xdr_auth_sys(c.4) + (be_u32(0) + (be_u32(0) + rest)))))))),
{
    let cred = xdr_auth_sys(c.4);
    let w0 = be_u32(c.0);
    let w1 = be_u32(c.1);
    let w2 = be_u32(c.2);
    let w3 = be_u32(c.3);
    let w4 = be_u32(1);
    let w5 = be_u32(cred.len() as u32);
    let z = be_u32(0);
    let b8 = z + rest;
    let b7 = z + b8;
    let b6 = cred + b7;
    let b5 = w5 + b6;
    let b4 = w4 + b5;
    let b3 = w3 + b4;
    let b2 = w2 + b3;
    vstd::seq_lib::lemma_concat_associative(w0 + w1 + w2 + w3 + w4 + w5 + cred + z, z, rest);
    vstd::seq_lib::lemma_concat_associative(w0 + w1 + w2 + w3 + w4 + w5 + cred, z, b8);
    vstd::seq_lib::lemma_concat_associative(w0 + w1 + w2 + w3 + w4 + w5, cred, b7);
    vstd::seq_lib::lemma_concat_associative(w0 + w1 + w2 + w3 + w4, w5, b6);
    vstd::seq_lib::lemma_concat_associative(w0 + w1 + w2 + w3, w4, b5);
    vstd::seq_lib::lemma_concat_associative(w0 + w1 + w2, w3, b4);
    vstd::seq_lib::lemma_concat_associative(w0 + w1, w2, b3);
    vstd::seq_lib::lemma_concat_associative(w0, w1, b2);
}

/// Where the fields of an encoded call lie.
proof fn lemma_call_layout(c: (u32, u32, u32, u32, (u32, Seq<char>, u32, u32, Seq<u32>)), rest: Seq<u8>)
    requires
        xdr_auth_sys(c.4).len() <= u32::MAX,
    ensures
        ({
            let b = xdr_call(c) + rest;
            let len = xdr_auth_sys(c.4).len() as int;
            &&& xdr_call(c).len() == 32 + len
            &&& b.len() == 32 + len + rest.len()
            &&& u32_of_at(b, 0) == c.0
            &&& u32_of_at(b, 4) == c.1
            &&& u32_of_at(b, 8) == c.2
            &&& u32_of_at(b, 12) == c.3
            &&& u32_of_at(b, 16) == 1
            &&& u32_of_at(b, 20) == len
            &&& b.subrange(24, 24 + len) == xdr_auth_sys(c.4) + Seq::<u8>::empty()
            &&& u32_of_at(b, 24 + len) == 0
            &&& u32_of_at(b, 28 + len) == 0
        }),
{
    let cred = xdr_auth_sys(c.4);
    let len = cred.len() as int;
    let b8 = be_u32(0) + rest;
    let b7 = be_u32(0) + b8;
    let b6 = cred + b7;
    let b5 = be_u32(len as u32) + b6;
    let b4 = be_u32(1) + b5;
    let b3 = be_u32(c.3) + b4;
    let b2 = be_u32(c.2) + b3;
    let b1 = be_u32(c.1) + b2;
    let b = be_u32(c.0) + b1;
    lemma_call_bytes(c, rest);
    lemma_u32_in_front(c.0, b1);
    lemma_u32_in_front(c.1, b2);
    lemma_u32_in_front(c.2, b3);
    lemma_u32_in_front(c.3, b4);
    lemma_u32_in_front(1, b5);
    lemma_u32_in_front(len as u32, b6);
    lemma_in_front(cred, b7);
    lemma_u32_in_front(0, b7);
    lemma_u32_in_front(0, b8);
    vstd::seq_lib::lemma_seq_skip_of_skip(b, 4, 4);
    vstd::seq_lib::lemma_seq_skip_of_skip(b, 8, 4);
    vstd::seq_lib::lemma_seq_skip_of_skip(b, 12, 4);
    vstd::seq_lib::lemma_seq_skip_of_skip(b, 16, 4);
    vstd::seq_lib::lemma_seq_skip_of_skip(b, 20, 4);
    vstd::seq_lib::lemma_seq_skip_of_skip(b, 24, len);
    vstd::seq_lib::lemma_seq_skip_of_skip(b, 24 + len, 4);
    assert(b.skip(0) =~= b);
    assert(b.skip(4) == b1);
    assert(b.skip(8) == b2);
    assert(b.skip(12) == b3);
    assert(b.skip(16) == b4);
    assert(b.skip(20) == b5);
    assert(b.skip(24) == b6);
    assert(b.skip(24 + len) == b7);
    assert(b.skip(28 + len) == b8);
    lemma_bytes_at(b, 24, cred, b7);
}

/// Bytes found after `k` bytes are the bytes at `k`.
proof fn lemma_bytes_at(b: Seq<u8>, k: int, x: Seq<u8>, t: Seq<u8>)
    requires
        0 <= k <= b.len(),
        b.skip(k) == x + t,
    ensures
        b.subrange(k, k + x.len()) == x + Seq::<u8>::empty(),
{
    assert(b.skip(k).len() == b.len() - k);
    assert forall|i: int| 0 <= i < x.len() implies #[trigger] b.subrange(k, k + x.len())[i] == x[i] by {
        assert(b.skip(k)[i] == b[k + i]);
        assert((x + t)[i] == x[i]);
    }
    assert(b.subrange(k, k + x.len()) =~= x);
    assert(x + Seq::<u8>::empty() =~= x);
}

/// Reading back the encoding of a call gives it, for credentials that fit their length field.
pub proof fn law_call_roundtrip(c: (u32, u32, u32, u32, (u32, Seq<char>, u32, u32, Seq<u32>)), rest: Seq<u8>)
    requires
        vstd::utf8::encode_utf8(c.4.1).len() <= u32::MAX,
        c.4.4.len() <= u32::MAX,
        xdr_auth_sys(c.4).len() <= u32::MAX,
    ensures
        parse_call(xdr_call(c) + rest) == Parse::Done(c, xdr_call(c).len()),
{
    lemma_call_layout(c, rest);
    law_auth_sys_roundtrip(c.4, Seq::empty());
}

} // verus!
