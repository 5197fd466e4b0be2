use monocore::nfs::error::NfsError;
use monocore::nfs::proto::{CompoundOp, CompoundReply, CompoundRequest, CompoundResult, FileHandle, NfsOpcode};
use monocore::nfs::rpc::{AuthNone, AuthStatus, AuthSys, MessageType, RpcCall, RpcHeader};
use monocore::nfs::state::StateManager;
use monocore::nfs::xdr::{decode_string, encode_string, get_bool, get_i32, get_u32, put_bool, put_i32, put_u32, Decoded};

#[test]
fn xdr_u32_is_big_endian() {
    let mut buf = Vec::new();
    put_u32(&mut buf, 0x0102_0304);
    assert_eq!(buf, vec![1, 2, 3, 4]);
    assert_eq!(get_u32(&buf, 0), Some(0x0102_0304));
    assert_eq!(get_u32(&buf, 1), None);
}

#[test]
fn xdr_i32_and_bool_round_trip() {
    let mut buf = Vec::new();
    put_i32(&mut buf, -2);
    put_bool(&mut buf, true);
    put_bool(&mut buf, false);
    assert_eq!(buf[..4], [0xff, 0xff, 0xff, 0xfe]);
    assert_eq!(get_i32(&buf, 0), Some(-2));
    assert_eq!(get_bool(&buf, 4), Some(true));
    assert_eq!(get_bool(&buf, 8), Some(false));
    assert_eq!(get_bool(&buf, 12), None);
}

#[test]
fn xdr_string_is_padded_to_four_bytes() {
    let mut buf = Vec::new();
    encode_string("hello", &mut buf);
    assert_eq!(buf, vec![0, 0, 0, 5, b'h', b'e', b'l', b'l', b'o', 0, 0, 0]);
    match decode_string(&buf, 0) {
        Decoded::Done(s, pos) => {
            assert_eq!(s, "hello");
            assert_eq!(pos, 12);
        },
        other => panic!("unexpected {:?}", other),
    }
    assert!(matches!(decode_string(&buf[..8], 0), Decoded::Short));
}

#[test]
fn xdr_string_rejects_bad_utf8() {
    let buf = vec![0, 0, 0, 2, 0xff, 0xfe, 0, 0];
    assert!(matches!(decode_string(&buf, 0), Decoded::Failed(NfsError::Xdr(_))));
}

#[test]
fn opcodes_round_trip_and_reject_unknown_numbers() {
    assert_eq!(NfsOpcode::Access.code(), 3);
    assert_eq!(NfsOpcode::from_code(3), Some(NfsOpcode::Access));
    for v in 0..100u32 {
        if let Some(op) = NfsOpcode::from_code(v) {
            assert_eq!(op.code(), v);
        }
    }
    assert_eq!(NfsOpcode::from_code(2), None);
    let mut buf = Vec::new();
    put_u32(&mut buf, 99);
    put_u32(&mut buf, 0);
    match CompoundOp::decode(&buf, 0) {
        Decoded::Failed(NfsError::Nfs(m)) => {
            assert_eq!(m, "Invalid opcode: No discriminant in enum `NfsOpcode` matches the value `99`")
        },
        other => panic!("unexpected {:?}", other),
    }
}

#[test]
fn file_handle_round_trip_and_limit() {
    let fh = FileHandle(vec![1, 2, 3]);
    let mut buf = Vec::new();
    fh.encode(&mut buf).unwrap();
    assert_eq!(buf, vec![0, 0, 0, 3, 1, 2, 3]);
    match FileHandle::decode(&buf, 0) {
        Decoded::Done(h, pos) => {
            assert_eq!(h.0, vec![1, 2, 3]);
            assert_eq!(pos, 7);
        },
        other => panic!("unexpected {:?}", other),
    }
    let mut long = Vec::new();
    put_u32(&mut long, 129);
    long.extend(vec![0u8; 132]);
    assert!(matches!(FileHandle::decode(&long, 0), Decoded::Failed(NfsError::Nfs(m)) if m == "File handle too long"));
}

#[test]
fn compound_request_round_trip() {
    let req = CompoundRequest {
        minor_version: 0,
        operations: vec![
            CompoundOp { opcode: NfsOpcode::PutRootFh, data: vec![] },
            CompoundOp { opcode: NfsOpcode::GetAttr, data: vec![0, 0, 0, 1] },
        ],
    };
    let mut buf = Vec::new();
    req.encode(&mut buf).unwrap();
    match CompoundRequest::decode(&buf, 0) {
        Decoded::Done(r, pos) => {
            assert_eq!(pos, buf.len());
            assert_eq!(r.minor_version, 0);
            assert_eq!(r.operations.len(), 2);
            assert_eq!(r.operations[0].opcode, NfsOpcode::PutRootFh);
            assert_eq!(r.operations[1].opcode, NfsOpcode::GetAttr);
            assert_eq!(r.operations[1].data, vec![0, 0, 0, 1]);
        },
        other => panic!("unexpected {:?}", other),
    }
}

#[test]
fn compound_reply_round_trip() {
    let reply = CompoundReply { status: 0, results: vec![CompoundResult { status: 2, data: vec![9, 9] }] };
    let mut buf = Vec::new();
    reply.encode(&mut buf).unwrap();
    match CompoundReply::decode(&buf, 0) {
        Decoded::Done(r, pos) => {
            assert_eq!(pos, buf.len());
            assert_eq!(r.status, 0);
            assert_eq!(r.results.len(), 1);
            assert_eq!(r.results[0].status, 2);
            assert_eq!(r.results[0].data, vec![9, 9]);
        },
        other => panic!("unexpected {:?}", other),
    }
}

#[test]
fn rpc_codes_round_trip() {
    assert_eq!(MessageType::Call.code(), 0);
    assert_eq!(MessageType::from_code(1), Some(MessageType::Reply));
    assert_eq!(MessageType::from_code(2), None);
    assert_eq!(AuthStatus::AuthOk.code(), 0);
    assert_eq!(AuthStatus::from_code(5), Some(AuthStatus::TooWeak));
    assert_eq!(AuthStatus::from_code(6), None);
}

#[test]
fn rpc_header_round_trip() {
    let h = RpcHeader { xid: 7, msg_type: MessageType::Reply };
    let mut buf = Vec::new();
    h.encode(&mut buf).unwrap();
    assert_eq!(buf, vec![0, 0, 0, 7, 0, 0, 0, 1]);
    match RpcHeader::decode(&buf, 0) {
        Decoded::Done(d, 8) => {
            assert_eq!(d.xid, 7);
            assert_eq!(d.msg_type, MessageType::Reply);
        },
        other => panic!("unexpected {:?}", other),
    }
}

#[test]
fn rpc_call_round_trip() {
    let call = RpcCall {
        rpc_version: 2,
        program: 100003,
        version: 4,
        procedure: 1,
        cred: AuthSys { stamp: 5, machinename: "host".to_string(), uid: 1000, gid: 100, gids: vec![4, 5] },
        verf: AuthNone,
    };
    let mut buf = Vec::new();
    call.encode(&mut buf).unwrap();
    match RpcCall::decode(&buf, 0) {
        Decoded::Done(c, pos) => {
            assert_eq!(pos, buf.len());
            assert_eq!((c.rpc_version, c.program, c.version, c.procedure), (2, 100003, 4, 1));
            assert_eq!(c.cred.machinename, "host");
            assert_eq!((c.cred.stamp, c.cred.uid, c.cred.gid), (5, 1000, 100));
            assert_eq!(c.cred.gids, vec![4, 5]);
        },
        other => panic!("unexpected {:?}", other),
    }
}

#[test]
fn rpc_call_rejects_other_flavors() {
    let mut buf = Vec::new();
    for v in [2u32, 100003, 4, 1, 0, 0] {
        put_u32(&mut buf, v);
    }
    assert!(matches!(RpcCall::decode(&buf, 0), Decoded::Failed(NfsError::Rpc(m)) if m == "Only AUTH_SYS supported"));
}

#[test]
fn state_manager_leases() {
    let mut sm = StateManager::new(std::time::Duration::from_secs(3600).as_nanos());
    assert!(matches!(sm.renew_lease(1), Err(NfsError::State(m)) if m == "Client not found"));
    assert!(matches!(sm.is_lease_valid(1), Err(NfsError::State(_))));
    sm.register_client(1, "machine".to_string()).unwrap();
    assert!(sm.renew_lease(1).is_ok());
    assert!(sm.is_lease_valid(1).unwrap());
    assert!(sm.lease_valid_after(1, 10).unwrap());
    assert!(sm.lease_valid_after(1, 3600 * 1_000_000_000).unwrap());
    assert!(!sm.lease_valid_after(1, 3600 * 1_000_000_000 + 1).unwrap());
    sm.remove_expired(&vec![(1, 3601 * 1_000_000_000)]);
    assert!(matches!(sm.is_lease_valid(1), Err(NfsError::State(_))));
    assert!(sm.cleanup_expired().is_ok());
}

#[test]
fn state_manager_open_and_lock_states() {
    let mut sm = StateManager::new(std::time::Duration::from_secs(1).as_nanos());
    assert!(sm.record_open(1, vec![1], 2, 3, 4).is_ok());
    assert!(sm.remove_open(1).is_ok());
    assert!(sm.remove_open(1).is_ok());
    assert!(sm.remove_lock(9).is_ok());
}
