//! What a client sends for each request and how it reads the reply.
use vstd::prelude::*;

use crate::protocol::{lossy_utf8, Frame, FrameView, Op, FLAG_FULL_RESYNC};
use crate::DEFAULT_BLOCK_SIZE;
use vstd::utf8::{decode_utf8, valid_utf8};

verus! {

/// A request that a client sends to a daemon.
pub enum ClientRequest {
    /// Write `data` at byte `offset`.
    Write { offset: u64, data: Vec<u8> },
    /// Read `len` bytes at byte `offset`.
    Read { offset: u64, len: u64 },
    /// Replay the dirty blocks; with `full`, every block.
    Resync { full: bool },
    /// Ask for the daemon's state as text.
    Status,
    /// Ask for the checksum of the whole device.
    Checksum,
}

/// The frame a client sends for a request.
pub open spec fn request_frame(r: ClientRequest) -> FrameView {
    match r {
        ClientRequest::Write { offset, data } => FrameView {
            op: Op::Write,
            flags: 0,
            offset,
            value: data@.len() as u64,
            payload: data@,
        },
        ClientRequest::Read { offset, len } => FrameView {
            op: Op::Read,
            flags: 0,
            offset,
            value: len,
            payload: Seq::empty(),
        },
        ClientRequest::Resync { full } => FrameView {
            op: Op::Resync,
            flags: if full {
                FLAG_FULL_RESYNC
            } else {
                0
            },
            offset: 0,
            value: 0,
            payload: Seq::empty(),
        },
        ClientRequest::Status => FrameView {
            op: Op::Status,
            flags: 0,
            offset: 0,
            value: 0,
            payload: Seq::empty(),
        },
        ClientRequest::Checksum => FrameView {
            op: Op::Checksum,
            flags: 0,
            offset: 0,
            value: 0,
            payload: Seq::empty(),
        },
    }
}

/// The operation of the reply that a request succeeds with.
pub open spec fn reply_op(r: ClientRequest) -> Op {
    match r {
        ClientRequest::Write { .. } => Op::WriteOk,
        ClientRequest::Read { .. } => Op::ReadOk,
        ClientRequest::Resync { .. } => Op::ResyncOk,
        ClientRequest::Status => Op::StatusOk,
        ClientRequest::Checksum => Op::ChecksumOk,
    }
}

/// The bytes of `"role=client"`.
pub open spec fn client_role() -> Seq<u8> {
    seq![0x72u8, 0x6fu8, 0x6cu8, 0x65u8, 0x3du8, 0x63u8, 0x6cu8, 0x69u8, 0x65u8, 0x6eu8, 0x74u8]
}

impl ClientRequest {
    /// The frame to send for this request.
    pub fn to_frame(self) -> (frame: Frame)
        ensures
            frame@ == request_frame(self),
    {
        match self {
            ClientRequest::Write { offset, data } => {
                let len = data.len() as u64;
                let mut frame = Frame::with_payload(Op::Write, data);
                frame.offset = offset;
                frame.value = len;
                frame
            },
            ClientRequest::Read { offset, len } => {
                let mut frame = Frame::new(Op::Read);
                frame.offset = offset;
                frame.value = len;
                frame
            },
            ClientRequest::Resync { full } => {
                let mut frame = Frame::new(Op::Resync);
                if full {
                    frame.flags = frame.flags | FLAG_FULL_RESYNC;
                }
                proof {
                    assert(0u32 | 1u32 == 1u32) by (bit_vector);
                }
                frame
            },
            ClientRequest::Status => Frame::new(Op::Status),
            ClientRequest::Checksum => Frame::new(Op::Checksum),
        }
    }

    /// The operation of the reply that this request succeeds with.
    pub fn reply_op(&self) -> (op: Op)
        ensures
            op == reply_op(*self),
    {
        match self {
            ClientRequest::Write { .. } => Op::WriteOk,
            ClientRequest::Read { .. } => Op::ReadOk,
            ClientRequest::Resync { .. } => Op::ResyncOk,
            ClientRequest::Status => Op::StatusOk,
            ClientRequest::Checksum => Op::ChecksumOk,
        }
    }
}

/// The `Hello` a client opens each connection with: it names its role and
/// offers the default block size.
pub fn client_hello() -> (frame: Frame)
    ensures
        frame@ == (FrameView {
            op: Op::Hello,
            flags: 0,
            offset: DEFAULT_BLOCK_SIZE,
            value: 0,
            payload: client_role(),
        }),
{
    let mut payload: Vec<u8> = Vec::new();
    payload.push(0x72u8);
    payload.push(0x6fu8);
    payload.push(0x6cu8);
    payload.push(0x65u8);
    payload.push(0x3du8);
    payload.push(0x63u8);
    payload.push(0x6cu8);
    payload.push(0x69u8);
    payload.push(0x65u8);
    payload.push(0x6eu8);
    payload.push(0x74u8);
    assert(payload@ =~= client_role());
    let mut frame = Frame::with_payload(Op::Hello, payload);
    frame.offset = DEFAULT_BLOCK_SIZE;
    frame
}

/// Why a reply was not the one expected.
#[derive(Debug)]
pub enum ResponseError {
    /// The peer answered with an `Error` frame carrying this text.
    Remote { message: String },
    /// The peer answered with an operation other than the expected one.
    Unexpected { expected: Op, got: Op },
}

/// Accepts `frame` if its operation is `expected`; an `Error` frame gives its
/// text, any other operation is reported with both names.
pub fn expect_ok(frame: Frame, expected: Op) -> (r: Result<Frame, ResponseError>)
    ensures
        frame.op == expected ==> (r matches Ok(f) && f@ == frame@),
        frame.op != expected && frame.op == Op::Error ==> (r matches Err(
            ResponseError::Remote { message },
        ) && message@ == lossy_utf8(frame.payload@) && (valid_utf8(frame.payload@) ==> message@
            == decode_utf8(frame.payload@))),
        frame.op != expected && frame.op != Op::Error ==> (r matches Err(
            ResponseError::Unexpected { expected: e, got },
        ) && e == expected && got == frame.op),
{
    if frame.op == expected {
        Ok(frame)
    } else if frame.op == Op::Error {
        Err(ResponseError::Remote { message: frame.payload_text() })
    } else {
        Err(ResponseError::Unexpected { expected, got: frame.op })
    }
}

} // verus!
