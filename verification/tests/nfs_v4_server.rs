use monocore::nfs::error::NfsError;
use monocore::nfs::proto::{CompoundOp, CompoundRequest, CompoundResult, NfsOpcode};
use monocore::nfs::rpc::{AuthNone, AuthSys, MessageType, RpcCall, RpcHeader};
use monocore::nfs::server::{handle_message, record_length, reply_marker, CompoundNeed, CompoundRun, MessageStep};
use monocore::nfs::xdr::encode_string;

fn call(program: u32, version: u32, procedure: u32) -> Vec<u8> {
    let mut buf = Vec::new();
    RpcHeader { xid: 9, msg_type: MessageType::Call }.encode(&mut buf).unwrap();
    RpcCall {
        rpc_version: 2,
        program,
        version,
        procedure,
        cred: AuthSys { stamp: 0, machinename: "m".to_string(), uid: 0, gid: 0, gids: vec![] },
        verf: AuthNone,
    }
    .encode(&mut buf)
    .unwrap();
    buf
}

#[test]
fn record_markers() {
    assert_eq!(record_length(&[0x80, 0, 1, 0]), 256);
    assert_eq!(record_length(&[0, 0, 0, 5]), 5);
    assert_eq!(reply_marker(12), vec![0x80, 0, 0, 12]);
}

#[test]
fn messages_are_sorted_out() {
    let mut msg = call(100003, 4, 1);
    CompoundRequest { minor_version: 0, operations: vec![CompoundOp { opcode: NfsOpcode::PutRootFh, data: vec![] }] }
        .encode(&mut msg)
        .unwrap();
    match handle_message(&msg) {
        MessageStep::Compound { xid, request } => {
            assert_eq!(xid, 9);
            assert_eq!(request.operations.len(), 1);
        },
        other => panic!("unexpected {:?}", other),
    }
    assert!(matches!(handle_message(&call(100003, 4, 0)), MessageStep::Ignore));
    assert!(matches!(handle_message(&call(100003, 3, 1)), MessageStep::Fail(NfsError::Rpc(m)) if m == "Invalid program or version"));
    assert!(matches!(handle_message(&call(100003, 4, 1)), MessageStep::Short));
    let mut reply = Vec::new();
    RpcHeader { xid: 1, msg_type: MessageType::Reply }.encode(&mut reply).unwrap();
    assert!(matches!(handle_message(&reply), MessageStep::Fail(NfsError::Rpc(m)) if m == "Unexpected RPC reply"));
    assert!(matches!(handle_message(&[0, 0]), MessageStep::Short));
}

#[test]
fn compound_operations() {
    let mut run = CompoundRun::new();
    let lookup = {
        let mut data = Vec::new();
        encode_string("etc", &mut data);
        CompoundOp { opcode: NfsOpcode::Lookup, data }
    };
    match run.step(&lookup) {
        CompoundNeed::Answer(r) => {
            assert_eq!(r.status, 1);
            run.answered(r);
        },
        other => panic!("unexpected {:?}", other),
    }
    assert!(matches!(run.step(&CompoundOp { opcode: NfsOpcode::PutRootFh, data: vec![] }), CompoundNeed::RootFilehandle));
    run.handle_found(vec![0]);
    match run.step(&lookup) {
        CompoundNeed::Lookup { parent, name } => {
            assert_eq!(parent, vec![0]);
            assert_eq!(name, "etc");
        },
        other => panic!("unexpected {:?}", other),
    }
    match run.step(&CompoundOp { opcode: NfsOpcode::Read, data: vec![] }) {
        CompoundNeed::Answer(r) => assert_eq!(r.status, 2),
        other => panic!("unexpected {:?}", other),
    }
    assert!(matches!(run.step(&CompoundOp { opcode: NfsOpcode::Lookup, data: vec![0, 0] }), CompoundNeed::Short));
    let reply = run.reply();
    assert_eq!(reply.status, 0);
    let statuses: Vec<u32> = reply.results.iter().map(|r: &CompoundResult| r.status).collect();
    assert_eq!(statuses, vec![1, 0]);
}
