use virting_ublk_drbd_demo::bitmap::DirtyBitmap;
use virting_ublk_drbd_demo::client::{client_hello, expect_ok, ClientRequest, ResponseError};
use virting_ublk_drbd_demo::protocol::{Frame, Op, FLAG_FULL_RESYNC};
use virting_ublk_drbd_demo::backend::{backing_size, BackingSize};
use virting_ublk_drbd_demo::server::{
    dispatch, handshake, handshake_reply, hello_ok, local_write_step, primary_status,
    primary_write_reply, record_replication, refusal_message, replica_hello, reply,
    secondary_status, Action, BlockExtent, Handshake, Outcome, Resync, Role, WriteStep,
};
use virting_ublk_drbd_demo::text::decimal;
use virting_ublk_drbd_demo::{mib, DEFAULT_BLOCK_SIZE};

#[test]
fn client_requests_become_frames() {
    let f = ClientRequest::Write {
        offset: 100,
        data: b"late peer".to_vec(),
    }
    .to_frame();
    assert_eq!(f.op, Op::Write);
    assert_eq!(f.offset, 100);
    assert_eq!(f.value, 9);
    assert_eq!(f.payload, b"late peer".to_vec());

    let f = ClientRequest::Read { offset: 4, len: 10 }.to_frame();
    assert_eq!((f.op, f.offset, f.value), (Op::Read, 4, 10));

    assert_eq!(ClientRequest::Resync { full: true }.to_frame().flags, FLAG_FULL_RESYNC);
    assert_eq!(ClientRequest::Resync { full: false }.to_frame().flags, 0);
    assert_eq!(ClientRequest::Status.reply_op(), Op::StatusOk);
    assert_eq!(ClientRequest::Checksum.to_frame(), Frame::new(Op::Checksum));

    let hello = client_hello();
    assert_eq!(hello.op, Op::Hello);
    assert_eq!(hello.offset, DEFAULT_BLOCK_SIZE);
    assert_eq!(hello.value, 0);
    assert_eq!(hello.payload, b"role=client".to_vec());
}

#[test]
fn replies_are_checked() {
    let ok = Frame::new(Op::WriteOk);
    assert_eq!(expect_ok(ok.clone(), Op::WriteOk).unwrap(), ok);
    match expect_ok(Frame::error("disk on fire".to_string()), Op::WriteOk) {
        Err(ResponseError::Remote { message }) => assert_eq!(message, "disk on fire"),
        other => panic!("unexpected {other:?}"),
    }
    match expect_ok(Frame::new(Op::ReadOk), Op::WriteOk) {
        Err(ResponseError::Unexpected { expected, got }) => {
            assert_eq!(expected, Op::WriteOk);
            assert_eq!(got, Op::ReadOk);
        }
        other => panic!("unexpected {other:?}"),
    }
}

#[test]
fn handshake_checks_geometry() {
    let size = mib(8);
    assert_eq!(handshake(&client_hello(), size, 4096), Handshake::Accept);
    assert_eq!(handshake(&replica_hello(size, 4096), size, 4096), Handshake::Accept);
    assert_eq!(handshake(&Frame::new(Op::Hello), size, 512), Handshake::Accept);
    assert_eq!(handshake(&Frame::new(Op::Write), size, 4096), Handshake::NotHello);
    assert_eq!(
        handshake(&replica_hello(size * 2, 4096), size, 4096),
        Handshake::SizeMismatch {
            peer: size * 2,
            local: size
        }
    );
    assert_eq!(
        handshake(&replica_hello(size, 512), size, 1024),
        Handshake::BlockSizeMismatch {
            peer: 512,
            local: 1024
        }
    );
    // a client offering the default block size is accepted whatever the local one
    assert_eq!(handshake(&client_hello(), size, 512), Handshake::Accept);
    let ok = hello_ok(size, 4096);
    assert_eq!((ok.op, ok.offset, ok.value), (Op::HelloOk, 4096, size));
    assert_eq!(replica_hello(size, 4096).payload, b"role=primary".to_vec());
}

#[test]
fn requests_dispatch_by_role() {
    let req = ClientRequest::Write {
        offset: 7,
        data: b"x".to_vec(),
    }
    .to_frame();
    match dispatch(Role::Secondary, req) {
        Action::Write { offset, data } => {
            assert_eq!(offset, 7);
            assert_eq!(data, b"x".to_vec());
        }
        _ => panic!("expected a write"),
    }
    match dispatch(Role::Primary, ClientRequest::Resync { full: true }.to_frame()) {
        Action::Resync { full } => assert!(full),
        _ => panic!("expected a resync"),
    }
    match dispatch(Role::Secondary, ClientRequest::Resync { full: true }.to_frame()) {
        Action::Refuse { op } => assert_eq!(op, Op::Resync),
        _ => panic!("secondary must refuse resync"),
    }
    match dispatch(Role::Primary, Frame::new(Op::HelloOk)) {
        Action::Refuse { op } => assert_eq!(op, Op::HelloOk),
        _ => panic!("expected a refusal"),
    }
    match dispatch(Role::Primary, ClientRequest::Read { offset: 1, len: 2 }.to_frame()) {
        Action::Read { offset, len } => assert_eq!((offset, len), (1, 2)),
        _ => panic!("expected a read"),
    }
}

#[test]
fn outcomes_become_replies() {
    let f = reply(Outcome::Written { len: 10 });
    assert_eq!((f.op, f.value), (Op::WriteOk, 10));
    let f = reply(Outcome::ReadData {
        data: b"replicated".to_vec(),
    });
    assert_eq!((f.op, f.payload.clone()), (Op::ReadOk, b"replicated".to_vec()));
    let f = reply(Outcome::Status {
        text: "dirty_blocks=0".to_string(),
    });
    assert_eq!((f.op, f.payload_text()), (Op::StatusOk, "dirty_blocks=0".to_string()));
    assert_eq!(reply(Outcome::Checksum { sum: 42 }).value, 42);
    assert_eq!(reply(Outcome::Resynced { count: 1 }).value, 1);
    let f = reply(Outcome::Failed {
        message: "nope".to_string(),
    });
    assert_eq!((f.op, f.payload_text()), (Op::Error, "nope".to_string()));
}

#[test]
fn write_acknowledged_only_when_replicated_and_saved() {
    match primary_write_reply(10, None, None, None) {
        Outcome::Written { len } => assert_eq!(len, 10),
        _ => panic!("expected WriteOk"),
    }
    match primary_write_reply(10, None, None, Some("save failed".to_string())) {
        Outcome::Failed { message } => assert_eq!(message, "save failed"),
        _ => panic!("expected failure"),
    }
    match primary_write_reply(9, None, Some("connection refused".to_string()), None) {
        Outcome::Failed { message } => assert_eq!(
            message,
            "local write committed but peer replication failed: connection refused"
        ),
        _ => panic!("expected failure"),
    }
    match primary_write_reply(9, None, Some("refused".to_string()), Some("disk full".to_string())) {
        Outcome::Failed { message } => assert_eq!(
            message,
            "local write committed but peer replication failed: refused; dirty bitmap save also failed: disk full"
        ),
        _ => panic!("expected failure"),
    }
}

#[test]
fn peer_outage_marks_dirty_and_resync_clears() {
    let size = mib(8);
    let mut dirty = DirtyBitmap::new(DEFAULT_BLOCK_SIZE, size);
    // a write of 9 bytes at offset 100 that the peer did not acknowledge
    record_replication(&mut dirty, 100, 9, false);
    assert_eq!(dirty.dirty_count(), 1);
    assert_eq!(dirty.dirty_blocks(), vec![0]);

    let mut run = Resync::start(&mut dirty, false, size);
    let ext = run.next_block().unwrap();
    assert_eq!(
        ext,
        BlockExtent {
            block: 0,
            offset: 0,
            len: 4096
        }
    );
    run.block_synced(&mut dirty);
    assert_eq!(run.next_block(), None);
    assert_eq!(run.synced(), 1);
    assert_eq!(dirty.dirty_count(), 0);
}

#[test]
fn replicated_write_leaves_blocks_clean() {
    let mut dirty = DirtyBitmap::new(4096, mib(1));
    dirty.mark_all();
    record_replication(&mut dirty, 4096, 8192, true);
    assert_eq!(dirty.dirty_count(), 256 - 2);
    assert!(!dirty.dirty_blocks().contains(&1));
    assert!(!dirty.dirty_blocks().contains(&2));
}

#[test]
fn full_resync_visits_every_block_with_short_last_block() {
    let size = 3 * 4096 + 100;
    let mut dirty = DirtyBitmap::new(4096, size);
    let mut run = Resync::start(&mut dirty, true, size);
    let mut extents = Vec::new();
    while let Some(ext) = run.next_block() {
        extents.push(ext);
        run.block_synced(&mut dirty);
    }
    assert_eq!(
        extents,
        vec![
            BlockExtent { block: 0, offset: 0, len: 4096 },
            BlockExtent { block: 1, offset: 4096, len: 4096 },
            BlockExtent { block: 2, offset: 8192, len: 4096 },
            BlockExtent { block: 3, offset: 12288, len: 100 },
        ]
    );
    assert_eq!(run.synced(), 4);
    assert_eq!(dirty.dirty_count(), 0);
}

#[test]
fn failed_local_write_is_answered_without_replication() {
    match local_write_step(Some("range 0..10 exceeds device size 4".to_string())) {
        WriteStep::Reply(Outcome::Failed { message }) => {
            assert_eq!(message, "range 0..10 exceeds device size 4")
        }
        other => panic!("unexpected {other:?}"),
    }
    assert!(matches!(local_write_step(None), WriteStep::Replicate));
    match primary_write_reply(3, Some("io".to_string()), None, None) {
        Outcome::Failed { message } => assert_eq!(message, "io"),
        other => panic!("unexpected {other:?}"),
    }
}

#[test]
fn decimal_text() {
    assert_eq!(decimal(0), "0");
    assert_eq!(decimal(7), "7");
    assert_eq!(decimal(4096), "4096");
    assert_eq!(decimal(u64::MAX), u64::MAX.to_string());
}

#[test]
fn handshake_replies() {
    let f = handshake_reply(Handshake::NotHello, 8, 4096);
    assert_eq!((f.op, f.payload_text()), (Op::Error, "first frame must be Hello".to_string()));
    let f = handshake_reply(Handshake::SizeMismatch { peer: 16, local: 8 }, 8, 4096);
    assert_eq!(f.payload_text(), "device size mismatch: peer=16 local=8");
    let f = handshake_reply(Handshake::BlockSizeMismatch { peer: 512, local: 1024 }, 8, 1024);
    assert_eq!(f.payload_text(), "block size mismatch: peer=512 local=1024");
    assert_eq!(handshake_reply(Handshake::Accept, 8, 4096), hello_ok(8, 4096));
}

#[test]
fn status_and_refusal_texts() {
    assert_eq!(refusal_message(Role::Primary, Op::HelloOk), "primary does not handle HelloOk");
    assert_eq!(refusal_message(Role::Secondary, Op::Resync), "secondary does not handle Resync");
    assert_eq!(
        secondary_status(8388608, 4096, "/tmp/s.img"),
        "role=secondary size=8388608 block_size=4096 backing=/tmp/s.img"
    );
    let text = primary_status("127.0.0.1:7001", 8388608, 4096, 0, "/tmp/p.img");
    assert_eq!(
        text,
        "role=primary peer=127.0.0.1:7001 size=8388608 block_size=4096 dirty_blocks=0 backing=/tmp/p.img"
    );
    assert!(text.contains("dirty_blocks=0"));
}

#[test]
fn resync_stops_at_failed_block() {
    let size = mib(1);
    let mut dirty = DirtyBitmap::new(4096, size);
    dirty.mark_range(3 * 4096 + 5, 1);
    let run = Resync::start(&mut dirty, false, size);
    match run.replication_failed("connection refused".to_string()) {
        Outcome::Failed { message } => assert_eq!(
            message,
            "resync stopped at block 3 offset 12288: connection refused"
        ),
        other => panic!("unexpected {other:?}"),
    }
    assert_eq!(dirty.dirty_blocks(), vec![3]);
}

#[test]
fn backing_file_sizes() {
    assert_eq!(backing_size(0, 4096), BackingSize::Create);
    assert_eq!(backing_size(4096, 4096), BackingSize::Accept);
    assert_eq!(
        backing_size(100, 4096),
        BackingSize::Mismatch { found: 100, expected: 4096 }
    );
}
