//! The decisions of the Primary and Secondary daemons: the handshake, what a
//! request asks for, the reply to each outcome, dirty tracking around
//! replication, and the order of a resync.
use vstd::prelude::*;

use crate::bitmap::{ceil_div, count_true, dirty_list, range_blocks, with_range, BitmapView, DirtyBitmap};
use crate::client::{client_role, request_frame, ClientRequest};
use crate::protocol::{Frame, FrameView, Op, FLAG_FULL_RESYNC};
use crate::DEFAULT_BLOCK_SIZE;
use vstd::string::StringExecFns;
use crate::text::{decimal_text, push_decimal};

verus! {

/// What the daemon does with the first frame of a connection.
#[derive(Debug, Clone, Copy, PartialEq, Eq, Structural)]
pub enum Handshake {
    /// The first frame is not a `Hello`: reply with an error and close.
    NotHello,
    /// The peer's device size differs: reply with an error.
    SizeMismatch { peer: u64, local: u64 },
    /// The peer's block size differs: reply with an error.
    BlockSizeMismatch { peer: u64, local: u64 },
    /// Accept: reply with `hello_ok`.
    Accept,
}

/// The handshake decision for a `Hello` that carries a block size in
/// `offset` and a device size in `value`, zero meaning "any".
pub open spec fn spec_handshake(hello: FrameView, size: u64, block_size: u64) -> Handshake {
    if hello.op != Op::Hello {
        Handshake::NotHello
    } else if hello.value != 0 && hello.value != size {
        Handshake::SizeMismatch { peer: hello.value, local: size }
    } else if hello.offset != 0 && hello.offset != block_size && hello.offset
        != DEFAULT_BLOCK_SIZE {
        Handshake::BlockSizeMismatch { peer: hello.offset, local: block_size }
    } else {
        Handshake::Accept
    }
}

/// Decides how to answer the first frame of a connection.
pub fn handshake(hello: &Frame, size: u64, block_size: u64) -> (h: Handshake)
    ensures
        h == spec_handshake(hello@, size, block_size),
{
    if hello.op != Op::Hello {
        Handshake::NotHello
    } else if hello.value != 0 && hello.value != size {
        Handshake::SizeMismatch { peer: hello.value, local: size }
    } else if hello.offset != 0 && hello.offset != block_size && hello.offset
        != DEFAULT_BLOCK_SIZE {
        Handshake::BlockSizeMismatch { peer: hello.offset, local: block_size }
    } else {
        Handshake::Accept
    }
}

/// The `HelloOk` a daemon accepts a connection with: its block size and its
/// device size.
pub fn hello_ok(size: u64, block_size: u64) -> (frame: Frame)
    ensures
        frame@ == (FrameView {
            op: Op::HelloOk,
            flags: 0,
            offset: block_size,
            value: size,
            payload: Seq::empty(),
        }),
{
    let mut frame = Frame::new(Op::HelloOk);
    frame.offset = block_size;
    frame.value = size;
    frame
}

/// The text a daemon refuses a handshake with; empty when it accepts.
pub open spec fn handshake_message(h: Handshake) -> Seq<char> {
    match h {
        Handshake::NotHello => "first frame must be Hello"@,
        Handshake::SizeMismatch { peer, local } => "device size mismatch: peer="@ + decimal_text(
            peer as nat,
        ) + " local="@ + decimal_text(local as nat),
        Handshake::BlockSizeMismatch { peer, local } => "block size mismatch: peer="@
            + decimal_text(peer as nat) + " local="@ + decimal_text(local as nat),
        Handshake::Accept => Seq::empty(),
    }
}

/// The frame a daemon answers the first frame of a connection with: its
/// `HelloOk` when it accepts, otherwise an error saying why.
pub fn handshake_reply(h: Handshake, size: u64, block_size: u64) -> (frame: Frame)
    ensures
        h == Handshake::Accept ==> frame@ == (FrameView {
            op: Op::HelloOk,
            flags: 0,
            offset: block_size,
            value: size,
            payload: Seq::empty(),
        }),
        h != Handshake::Accept ==> frame@ == (FrameView {
            op: Op::Error,
            flags: 0,
            offset: 0,
            value: 0,
            payload: vstd::utf8::encode_utf8(handshake_message(h)),
        }),
{
    let message = match h {
        Handshake::Accept => {
            return hello_ok(size, block_size);
        },
        Handshake::NotHello => "first frame must be Hello".to_owned(),
        Handshake::SizeMismatch { peer, local } => {
            let mut m = "device size mismatch: peer=".to_owned();
            push_decimal(&mut m, peer);
            m.append(" local=");
            push_decimal(&mut m, local);
            m
        },
        Handshake::BlockSizeMismatch { peer, local } => {
            let mut m = "block size mismatch: peer=".to_owned();
            push_decimal(&mut m, peer);
            m.append(" local=");
            push_decimal(&mut m, local);
            m
        },
    };
    proof {
        assert(message@ =~= handshake_message(h));
    }
    Frame::error(message)
}

/// The bytes of `"role=primary"`.
pub open spec fn primary_role() -> Seq<u8> {
    seq![
        0x72u8,
        0x6fu8,
        0x6cu8,
        0x65u8,
        0x3du8,
        0x70u8,
        0x72u8,
        0x69u8,
        0x6du8,
        0x61u8,
        0x72u8,
        0x79u8,
    ]
}

/// The `Hello` the Primary opens a replication connection with: its role,
/// its block size and its device size.
pub fn replica_hello(size: u64, block_size: u64) -> (frame: Frame)
    ensures
        frame@ == (FrameView {
            op: Op::Hello,
            flags: 0,
            offset: block_size,
            value: size,
            payload: primary_role(),
        }),
{
    let mut payload: Vec<u8> = Vec::new();
    payload.push(0x72u8);
    payload.push(0x6fu8);
    payload.push(0x6cu8);
    payload.push(0x65u8);
    payload.push(0x3du8);
    payload.push(0x70u8);
    payload.push(0x72u8);
    payload.push(0x69u8);
    payload.push(0x6du8);
    payload.push(0x61u8);
    payload.push(0x72u8);
    payload.push(0x79u8);
    assert(payload@ =~= primary_role());
    let mut frame = Frame::with_payload(Op::Hello, payload);
    frame.offset = block_size;
    frame.value = size;
    frame
}

/// Which daemon serves a request.
#[derive(Debug, Clone, Copy, PartialEq, Eq, Structural)]
pub enum Role {
    Primary,
    Secondary,
}

/// The name of a role in messages.
pub open spec fn role_name(role: Role) -> Seq<char> {
    match role {
        Role::Primary => "primary"@,
        Role::Secondary => "secondary"@,
    }
}

/// The message a daemon in `role` refuses an operation with.
pub fn refusal_message(role: Role, op: Op) -> (message: String)
    ensures
        message@ == role_name(role) + " does not handle "@ + op.spec_name(),
{
    let mut m = match role {
        Role::Primary => "primary".to_owned(),
        Role::Secondary => "secondary".to_owned(),
    };
    m.append(" does not handle ");
    m.append(op.name());
    m
}

/// The status line of a Secondary.
pub fn secondary_status(size: u64, block_size: u64, backing: &str) -> (text: String)
    ensures
        text@ == "role=secondary size="@ + decimal_text(size as nat) + " block_size="@
            + decimal_text(block_size as nat) + " backing="@ + backing@,
{
    let mut t = "role=secondary size=".to_owned();
    push_decimal(&mut t, size);
    t.append(" block_size=");
    push_decimal(&mut t, block_size);
    t.append(" backing=");
    t.append(backing);
    t
}

/// The status line of the Primary, with its number of dirty blocks.
pub fn primary_status(peer: &str, size: u64, block_size: u64, dirty: u64, backing: &str) -> (text:
    String)
    ensures
        text@ == "role=primary peer="@ + peer@ + " size="@ + decimal_text(size as nat)
            + " block_size="@ + decimal_text(block_size as nat) + " dirty_blocks="@
            + decimal_text(dirty as nat) + " backing="@ + backing@,
{
    let mut t = "role=primary peer=".to_owned();
    t.append(peer);
    t.append(" size=");
    push_decimal(&mut t, size);
    t.append(" block_size=");
    push_decimal(&mut t, block_size);
    t.append(" dirty_blocks=");
    push_decimal(&mut t, dirty);
    t.append(" backing=");
    t.append(backing);
    t
}

/// What a request asks a daemon to do.
#[derive(Debug)]
pub enum Action {
    /// Write `data` at byte `offset`.
    Write { offset: u64, data: Vec<u8> },
    /// Read `len` bytes at byte `offset`.
    Read { offset: u64, len: u64 },
    /// Replay the dirty blocks; with `full`, every block.
    Resync { full: bool },
    /// Report the daemon's state.
    Status,
    /// Report the checksum of the whole device.
    Checksum,
    /// This daemon does not handle `op`.
    Refuse { op: Op },
}

/// The action a request asks of a daemon in `role`. Only the Primary
/// resyncs; neither serves the reply operations, `Hello` or `Error`.
pub open spec fn spec_action(role: Role, request: FrameView) -> ActionView {
    match request.op {
        Op::Write => ActionView::Write { offset: request.offset, data: request.payload },
        Op::Read => ActionView::Read { offset: request.offset, len: request.value },
        Op::Resync => if role == Role::Primary {
            ActionView::Resync { full: request.flags & FLAG_FULL_RESYNC != 0 }
        } else {
            ActionView::Refuse { op: request.op }
        },
        Op::Status => ActionView::Status,
        Op::Checksum => ActionView::Checksum,
        _ => ActionView::Refuse { op: request.op },
    }
}

/// The mathematical value of an `Action`.
pub enum ActionView {
    Write { offset: u64, data: Seq<u8> },
    Read { offset: u64, len: u64 },
    Resync { full: bool },
    Status,
    Checksum,
    Refuse { op: Op },
}

impl View for Action {
    type V = ActionView;

    open spec fn view(&self) -> ActionView {
        match self {
            Action::Write { offset, data } => ActionView::Write { offset: *offset, data: data@ },
            Action::Read { offset, len } => ActionView::Read { offset: *offset, len: *len },
            Action::Resync { full } => ActionView::Resync { full: *full },
            Action::Status => ActionView::Status,
            Action::Checksum => ActionView::Checksum,
            Action::Refuse { op } => ActionView::Refuse { op: *op },
        }
    }
}

/// Decides what a request asks of a daemon in `role`.
pub fn dispatch(role: Role, request: Frame) -> (action: Action)
    ensures
        action@ == spec_action(role, request@),
{
    match request.op {
        Op::Write => Action::Write { offset: request.offset, data: request.payload },
        Op::Read => Action::Read { offset: request.offset, len: request.value },
        Op::Resync => {
            if role == Role::Primary {
                Action::Resync { full: (request.flags & FLAG_FULL_RESYNC) != 0 }
            } else {
                Action::Refuse { op: request.op }
            }
        },
        Op::Status => Action::Status,
        Op::Checksum => Action::Checksum,
        _ => Action::Refuse { op: request.op },
    }
}

/// How a request was carried out, to be answered.
#[derive(Debug)]
pub enum Outcome {
    /// `len` bytes were written (and replicated, on the Primary).
    Written { len: u64 },
    /// These bytes were read.
    ReadData { data: Vec<u8> },
    /// The daemon's state as text.
    Status { text: String },
    /// The checksum of the whole device.
    Checksum { sum: u64 },
    /// This many blocks were replayed.
    Resynced { count: u64 },
    /// The request failed with this message.
    Failed { message: String },
}

/// The reply frame for each outcome.
pub fn reply(outcome: Outcome) -> (frame: Frame)
    ensures
        match outcome {
            Outcome::Written { len } => frame@ == (FrameView {
                op: Op::WriteOk,
                flags: 0,
                offset: 0,
                value: len,
                payload: Seq::empty(),
            }),
            Outcome::ReadData { data } => frame@ == (FrameView {
                op: Op::ReadOk,
                flags: 0,
                offset: 0,
                value: 0,
                payload: data@,
            }),
            Outcome::Status { text } => frame@ == (FrameView {
                op: Op::StatusOk,
                flags: 0,
                offset: 0,
                value: 0,
                payload: vstd::utf8::encode_utf8(text@),
            }),
            Outcome::Checksum { sum } => frame@ == (FrameView {
                op: Op::ChecksumOk,
                flags: 0,
                offset: 0,
                value: sum,
                payload: Seq::empty(),
            }),
            Outcome::Resynced { count } => frame@ == (FrameView {
                op: Op::ResyncOk,
                flags: 0,
                offset: 0,
                value: count,
                payload: Seq::empty(),
            }),
            Outcome::Failed { message } => frame@ == (FrameView {
                op: Op::Error,
                flags: 0,
                offset: 0,
                value: 0,
                payload: vstd::utf8::encode_utf8(message@),
            }),
        },
{
    match outcome {
        Outcome::Written { len } => {
            let mut frame = Frame::new(Op::WriteOk);
            frame.value = len;
            frame
        },
        Outcome::ReadData { data } => Frame::with_payload(Op::ReadOk, data),
        Outcome::Status { text } => {
            let bytes = vstd::string::StrSliceExecFns::as_bytes_vec(text.as_str());
            Frame::with_payload(Op::StatusOk, bytes)
        },
        Outcome::Checksum { sum } => {
            let mut frame = Frame::new(Op::ChecksumOk);
            frame.value = sum;
            frame
        },
        Outcome::Resynced { count } => {
            let mut frame = Frame::new(Op::ResyncOk);
            frame.value = count;
            frame
        },
        Outcome::Failed { message } => Frame::error(message),
    }
}

/// The text of an optional text.
pub open spec fn opt_chars(s: Option<String>) -> Option<Seq<char>> {
    match s {
        Some(t) => Some(t@),
        None => None,
    }
}

/// The message of a write that was committed locally but not replicated:
/// the replication error, then the bitmap save error if there was one.
pub open spec fn unreplicated_message(replication: Seq<char>, save: Option<Seq<char>>) -> Seq<
    char,
> {
    "local write committed but peer replication failed: "@ + replication + match save {
        Some(e) => "; dirty bitmap save also failed: "@ + e,
        None => Seq::empty(),
    }
}

/// What the Primary does once its local write has ended.
#[derive(Debug)]
pub enum WriteStep {
    /// The local write succeeded: send it to the peer.
    Replicate,
    /// The local write failed: answer at once; nothing is replicated and the
    /// dirty bitmap is left alone.
    Reply(Outcome),
}

/// Decides the next step of a Primary write after the local write: only a
/// write that succeeded locally is replicated.
pub fn local_write_step(local_error: Option<String>) -> (step: WriteStep)
    ensures
        match local_error {
            None => step is Replicate,
            Some(e) => step matches WriteStep::Reply(Outcome::Failed { message }) && message@
                == e@,
        },
{
    match local_error {
        None => WriteStep::Replicate,
        Some(e) => WriteStep::Reply(Outcome::Failed { message: e }),
    }
}

/// The answer to a Primary write of `len` bytes: `WriteOk` only when the
/// local write succeeded, the peer acknowledged it and the bitmap was saved.
/// A failed local write is answered with its error; a failed replication
/// with a message saying that the local write stands, followed by the
/// bitmap save error if there was one; a failed save alone with its error.
pub fn primary_write_reply(
    len: u64,
    local_error: Option<String>,
    replication_error: Option<String>,
    save_error: Option<String>,
) -> (outcome: Outcome)
    ensures
        match local_error {
            Some(l) => outcome matches Outcome::Failed { message } && message@ == l@,
            None => match replication_error {
                None => match save_error {
                    None => outcome matches Outcome::Written { len: n } && n == len,
                    Some(e) => outcome matches Outcome::Failed { message } && message@ == e@,
                },
                Some(r) => outcome matches Outcome::Failed { message } && message@
                    == unreplicated_message(r@, opt_chars(save_error)),
            },
        },
        outcome is Written <==> local_error is None && replication_error is None && save_error is None,
{
    if let Some(l) = local_error {
        return Outcome::Failed { message: l };
    }
    match replication_error {
        None => match save_error {
            None => Outcome::Written { len },
            Some(e) => Outcome::Failed { message: e },
        },
        Some(r) => {
            let mut message = "local write committed but peer replication failed: ".to_owned();
            message.append(r.as_str());
            match save_error {
                Some(e) => {
                    message.append("; dirty bitmap save also failed: ");
                    message.append(e.as_str());
                },
                None => {},
            }
            proof {
                assert(message@ =~= unreplicated_message(r@, opt_chars(save_error)));
            }
            Outcome::Failed { message }
        },
    }
}

/// Records in the dirty bitmap how replicating a committed local write of
/// `len` bytes at `offset` ended: on success its blocks are clean, on
/// failure they are dirty.
pub fn record_replication(dirty: &mut DirtyBitmap, offset: u64, len: u64, replicated: bool)
    requires
        old(dirty)@.wf(),
        offset + len <= u64::MAX,
    ensures
        final(dirty)@.wf(),
        final(dirty)@.block_size == old(dirty)@.block_size,
        final(dirty)@.block_count == old(dirty)@.block_count,
        final(dirty)@.words.len() == old(dirty)@.words.len(),
        old(dirty)@.tail_clear() ==> final(dirty)@.tail_clear(),
        ({
            let (first, last) = range_blocks(
                offset as nat,
                len as nat,
                old(dirty)@.block_size,
                old(dirty)@.block_count,
            );
            final(dirty)@.bits() == with_range(
                old(dirty)@.bits(),
                first as int,
                last as int,
                !replicated,
            )
        }),
{
    if replicated {
        dirty.clear_range(offset, len);
    } else {
        dirty.mark_range(offset, len);
    }
}


/// The byte extent of one block to replay.
#[derive(Debug, Clone, Copy, PartialEq, Eq, Structural)]
pub struct BlockExtent {
    pub block: u64,
    pub offset: u64,
    pub len: u64,
}

/// The extent of `block` on a device of `size` bytes: it starts at
/// `block * block_size` and ends at the next block or at the device's end.
pub open spec fn block_extent(block: nat, block_size: nat, size: nat) -> (nat, nat) {
    let offset = block * block_size;
    (offset, if block_size < size - offset {
        block_size
    } else {
        (size - offset) as nat
    })
}

/// A resync in progress: the blocks to replay, in order, and how many of
/// them have been replayed.
#[derive(Debug)]
pub struct Resync {
    blocks: Vec<u64>,
    next: usize,
    block_size: u64,
    size: u64,
}

/// The mathematical value of a `Resync`.
pub struct ResyncView {
    pub blocks: Seq<u64>,
    pub next: nat,
    pub block_size: nat,
    pub size: nat,
}

impl ResyncView {
    /// Every block to replay lies on the device, and no more blocks have
    /// been replayed than there are.
    pub open spec fn wf(self) -> bool {
        &&& self.block_size > 0
        &&& self.size <= u64::MAX
        &&& self.next <= self.blocks.len()
        &&& forall|i: int|
            0 <= i < self.blocks.len() ==> #[trigger] self.blocks[i] < ceil_div(
                self.size,
                self.block_size,
            )
    }

    /// The bitmap belongs to the device of this resync.
    pub open spec fn fits(self, dirty: BitmapView) -> bool {
        &&& dirty.wf()
        &&& dirty.block_size == self.block_size
        &&& dirty.block_count == ceil_div(self.size, self.block_size)
    }
}

impl View for Resync {
    type V = ResyncView;

    closed spec fn view(&self) -> ResyncView {
        ResyncView {
            blocks: self.blocks@,
            next: self.next as nat,
            block_size: self.block_size as nat,
            size: self.size as nat,
        }
    }
}

proof fn lemma_dirty_list_bounds(bits: Seq<bool>, n: nat)
    ensures
        forall|i: int|
            0 <= i < dirty_list(bits, n).len() ==> #[trigger] dirty_list(bits, n)[i] < n,
        dirty_list(bits, n).len() <= n,
    decreases n,
{
    if n > 0 {
        lemma_dirty_list_bounds(bits, (n - 1) as nat);
    }
}

proof fn lemma_block_start(block: nat, block_size: nat, size: nat)
    requires
        block_size > 0,
        block < ceil_div(size, block_size),
    ensures
        block * block_size < size,
{
    vstd::arithmetic::div_mod::lemma_fundamental_div_mod(size as int, block_size as int);
    let q = size / block_size;
    if size % block_size == 0 {
        vstd::arithmetic::mul::lemma_mul_inequality(block as int, q - 1, block_size as int);
        assert((q - 1) * block_size == q * block_size - block_size) by (nonlinear_arith);
        assert(size == block_size * q);
        assert(q * block_size == block_size * q) by (nonlinear_arith);
    } else {
        vstd::arithmetic::mul::lemma_mul_inequality(block as int, q as int, block_size as int);
        assert(q * block_size == block_size * q) by (nonlinear_arith);
    }
}

proof fn lemma_block_range(block: nat, block_size: nat, len: nat)
    requires
        block_size > 0,
        1 <= len <= block_size,
    ensures
        (block * block_size) / block_size == block,
        ceil_div(block * block_size + len, block_size) == block + 1,
{
    vstd::arithmetic::div_mod::lemma_fundamental_div_mod_converse(
        (block * block_size) as int,
        block_size as int,
        block as int,
        0,
    );
    if len == block_size {
        assert(block * block_size + len == (block + 1) * block_size) by (nonlinear_arith)
            requires
                len == block_size,
        ;
        vstd::arithmetic::div_mod::lemma_fundamental_div_mod_converse(
            (block * block_size + len) as int,
            block_size as int,
            (block + 1) as int,
            0,
        );
    } else {
        vstd::arithmetic::div_mod::lemma_fundamental_div_mod_converse(
            (block * block_size + len) as int,
            block_size as int,
            block as int,
            len as int,
        );
    }
}

impl Resync {
    /// Starts a resync: with `full`, every block is marked dirty first; the
    /// blocks to replay are then the dirty blocks, in ascending order.
    pub fn start(dirty: &mut DirtyBitmap, full: bool, size: u64) -> (run: Resync)
        requires
            old(dirty)@.wf(),
            old(dirty)@.block_count == ceil_div(size as nat, old(dirty)@.block_size),
        ensures
            run@.wf(),
            run@.fits(final(dirty)@),
            run@.next == 0,
            run@.size == size,
            run@.block_size == old(dirty)@.block_size,
            run@.blocks == final(dirty)@.dirty_blocks(),
            full ==> final(dirty)@.bits() == Seq::new(
                old(dirty)@.bits().len(),
                |i: int| i < old(dirty)@.block_count,
            ),
            !full ==> final(dirty)@ == old(dirty)@,
            final(dirty)@.words.len() == old(dirty)@.words.len(),
            old(dirty)@.tail_clear() || full ==> final(dirty)@.tail_clear(),
    {
        if full {
            dirty.mark_all();
        }
        let blocks = dirty.dirty_blocks();
        let block_size = dirty.block_size();
        proof {
            lemma_dirty_list_bounds(dirty@.bits(), dirty@.block_count);
        }
        Resync { blocks, next: 0, block_size, size }
    }

    /// The next block to replay and its extent, or `None` when every block
    /// has been replayed.
    pub fn next_block(&self) -> (ext: Option<BlockExtent>)
        requires
            self@.wf(),
        ensures
            self@.next < self@.blocks.len() ==> (ext matches Some(e) && e.block
                == self@.blocks[self@.next as int] && (e.offset as nat, e.len as nat)
                == block_extent(e.block as nat, self@.block_size, self@.size)),
            self@.next >= self@.blocks.len() ==> ext is None,
    {
        if self.next >= self.blocks.len() {
            return None;
        }
        let block = self.blocks[self.next];
        proof {
            assert(block < ceil_div(self.size as nat, self.block_size as nat));
            lemma_block_start(block as nat, self.block_size as nat, self.size as nat);
        }
        let offset = block * self.block_size;
        let rest = self.size - offset;
        let len = if self.block_size < rest {
            self.block_size
        } else {
            rest
        };
        Some(BlockExtent { block, offset, len })
    }

    /// Records that the next block was replayed: its dirty bit is cleared
    /// and the resync moves on.
    pub fn block_synced(&mut self, dirty: &mut DirtyBitmap)
        requires
            old(self)@.wf(),
            old(self)@.next < old(self)@.blocks.len(),
            old(self)@.fits(old(dirty)@),
        ensures
            final(self)@.wf(),
            final(self)@.blocks == old(self)@.blocks,
            final(self)@.block_size == old(self)@.block_size,
            final(self)@.size == old(self)@.size,
            final(self)@.next == old(self)@.next + 1,
            final(self)@.fits(final(dirty)@),
            final(dirty)@.words.len() == old(dirty)@.words.len(),
            final(dirty)@.bits() == old(dirty)@.bits().update(
                old(self)@.blocks[old(self)@.next as int] as int,
                false,
            ),
            old(dirty)@.tail_clear() ==> final(dirty)@.tail_clear(),
    {
        let ext = self.next_block();
        match ext {
            Some(e) => {
                proof {
                    let bs = self.block_size as nat;
                    lemma_block_start(e.block as nat, bs, self.size as nat);
                    lemma_block_range(e.block as nat, bs, e.len as nat);
                    crate::bitmap::lemma_wf_bits(dirty@);
                }
                dirty.clear_range(e.offset, e.len);
                let n = self.blocks.len();
                assert(self.next < n);
                proof {
                    assert(final(dirty)@.bits() =~= old(dirty)@.bits().update(e.block as int, false));
                }
                self.next = self.next + 1;
            },
            None => {},
        }
    }

    /// Ends the resync because the next block could not be replicated: the
    /// answer names the block, its offset and the replication error, and
    /// the block stays dirty.
    pub fn replication_failed(self, error: String) -> (outcome: Outcome)
        requires
            self@.wf(),
            self@.next < self@.blocks.len(),
        ensures
            ({
                let block = self@.blocks[self@.next as int];
                let offset = block * self@.block_size;
                outcome matches Outcome::Failed { message } && message@ == "resync stopped at block "@
                    + decimal_text(block as nat) + " offset "@ + decimal_text(offset as nat) + ": "@
                    + error@
            }),
    {
        let block = self.blocks[self.next];
        proof {
            lemma_block_start(block as nat, self.block_size as nat, self.size as nat);
        }
        let offset = block * self.block_size;
        let mut m = "resync stopped at block ".to_owned();
        push_decimal(&mut m, block);
        m.append(" offset ");
        push_decimal(&mut m, offset);
        m.append(": ");
        m.append(error.as_str());
        Outcome::Failed { message: m }
    }

    /// How many blocks have been replayed.
    pub fn synced(&self) -> (count: u64)
        ensures
            count == self@.next,
    {
        self.next as u64
    }
}

/// `bits` with each of `blocks` cleared in turn.
pub open spec fn clear_blocks(bits: Seq<bool>, blocks: Seq<u64>) -> Seq<bool>
    decreases blocks.len(),
{
    if blocks.len() == 0 {
        bits
    } else {
        clear_blocks(bits, blocks.drop_last()).update(blocks.last() as int, false)
    }
}

proof fn lemma_clear_dirty_list(bits: Seq<bool>, n: nat)
    requires
        n <= bits.len(),
        n <= u64::MAX,
    ensures
        clear_blocks(bits, dirty_list(bits, n)) == Seq::new(
            bits.len(),
            |i: int| bits[i] && i >= n,
        ),
    decreases n,
{
    if n == 0 {
        assert(clear_blocks(bits, dirty_list(bits, n)) =~= Seq::new(
            bits.len(),
            |i: int| bits[i] && i >= n,
        ));
    } else {
        lemma_clear_dirty_list(bits, (n - 1) as nat);
        let prev = dirty_list(bits, (n - 1) as nat);
        if bits[n - 1] {
            assert(dirty_list(bits, n).drop_last() =~= prev);
        }
        assert(clear_blocks(bits, dirty_list(bits, n)) =~= Seq::new(
            bits.len(),
            |i: int| bits[i] && i >= n,
        ));
    }
}

/// Replaying every dirty block of a resync leaves no block dirty: a
/// bitmap with no bit set past its last block has, once each block that
/// the resync lists has been cleared, no bit set at all.
pub proof fn lemma_resync_clears_all(v: BitmapView)
    requires
        v.wf(),
        v.tail_clear(),
    ensures
        forall|i: int|
            0 <= i < v.bits().len() ==> !#[trigger] clear_blocks(v.bits(), v.dirty_blocks())[i],
        count_true(clear_blocks(v.bits(), v.dirty_blocks())) == 0,
{
    crate::bitmap::lemma_wf_bits(v);
    lemma_clear_dirty_list(v.bits(), v.block_count);
    let c = clear_blocks(v.bits(), v.dirty_blocks());
    assert forall|i: int| 0 <= i < c.len() implies !c[i] by {
        if i >= v.block_count {
            assert(!v.bits()[i]);
        }
    }
    crate::bitmap::lemma_count_true_none(c);
}


/// A daemon accepts every client, and a Primary whose device has the same
/// size and block size as the daemon's.
pub proof fn lemma_handshake_accepts(size: u64, block_size: u64)
    ensures
        spec_handshake(
            FrameView {
                op: Op::Hello,
                flags: 0,
                offset: DEFAULT_BLOCK_SIZE,
                value: 0,
                payload: client_role(),
            },
            size,
            block_size,
        ) == Handshake::Accept,
        spec_handshake(
            FrameView {
                op: Op::Hello,
                flags: 0,
                offset: block_size,
                value: size,
                payload: primary_role(),
            },
            size,
            block_size,
        ) == Handshake::Accept,
{
}

/// Every byte of a write lies in a block of the range that
/// `record_replication` marks or clears for it, as long as the byte lies on
/// the device.
pub proof fn lemma_range_covers_written_bytes(
    offset: nat,
    len: nat,
    block_size: nat,
    block_count: nat,
    byte: nat,
)
    requires
        block_size > 0,
        offset <= byte < offset + len,
        byte / block_size < block_count,
    ensures
        ({
            let (first, last) = range_blocks(offset, len, block_size, block_count);
            first <= byte / block_size < last
        }),
{
    let bs = block_size as int;
    let e = (offset + len) as int;
    vstd::arithmetic::div_mod::lemma_div_is_ordered(offset as int, byte as int, bs);
    vstd::arithmetic::div_mod::lemma_div_is_ordered(byte as int, e - 1, bs);
    vstd::arithmetic::div_mod::lemma_fundamental_div_mod(e, bs);
    let q = e / bs;
    let r = e % bs;
    if r == 0 {
        assert(e - 1 == (q - 1) * bs + (bs - 1)) by (nonlinear_arith)
            requires
                e == bs * q + r,
                r == 0,
        ;
        vstd::arithmetic::div_mod::lemma_fundamental_div_mod_converse(e - 1, bs, q - 1, bs - 1);
    } else {
        assert(e - 1 == q * bs + (r - 1)) by (nonlinear_arith)
            requires
                e == bs * q + r,
        ;
        vstd::arithmetic::div_mod::lemma_fundamental_div_mod_converse(e - 1, bs, q, r - 1);
    }
}

/// The Primary reads a client's request as the client meant it: the frame
/// the client encodes decodes to the same frame, and asks for the action
/// the request names.
pub proof fn lemma_request_reaches_primary(r: ClientRequest)
    requires
        request_frame(r).payload.len() <= crate::protocol::MAX_PAYLOAD_LEN,
    ensures
        crate::protocol::parse_frame(crate::protocol::frame_bytes(request_frame(r)))
            == Ok::<FrameView, crate::protocol::FrameError>(request_frame(r)),
        spec_action(Role::Primary, request_frame(r)) == match r {
            ClientRequest::Write { offset, data } => ActionView::Write { offset, data: data@ },
            ClientRequest::Read { offset, len } => ActionView::Read { offset, len },
            ClientRequest::Resync { full } => ActionView::Resync { full },
            ClientRequest::Status => ActionView::Status,
            ClientRequest::Checksum => ActionView::Checksum,
        },
{
    let f = request_frame(r);
    crate::protocol::lemma_frame_round_trip(f, Seq::empty());
    assert(crate::protocol::frame_bytes(f) + Seq::<u8>::empty() =~= crate::protocol::frame_bytes(f));
    assert(FLAG_FULL_RESYNC & FLAG_FULL_RESYNC != 0u32) by (bit_vector);
    assert(0u32 & FLAG_FULL_RESYNC == 0u32) by (bit_vector);
}


/// The handshake admits a peer exactly when its first frame is a `Hello`
/// whose device size is zero or the daemon's own and whose block size is
/// zero, the daemon's own, or the default; a nonzero different device size
/// is refused naming both sizes, and an unacceptable block size (with an
/// acceptable device size) naming both block sizes.
pub proof fn lemma_handshake_checks_geometry(hello: FrameView, size: u64, block_size: u64)
    ensures
        hello.op != Op::Hello ==> spec_handshake(hello, size, block_size) == Handshake::NotHello,
        hello.op == Op::Hello && hello.value != 0 && hello.value != size ==> spec_handshake(
            hello,
            size,
            block_size,
        ) == (Handshake::SizeMismatch { peer: hello.value, local: size }),
        hello.op == Op::Hello && (hello.value == 0 || hello.value == size) && hello.offset != 0
            && hello.offset != block_size && hello.offset != 4096 ==> spec_handshake(
            hello,
            size,
            block_size,
        ) == (Handshake::BlockSizeMismatch { peer: hello.offset, local: block_size }),
        spec_handshake(hello, size, block_size) == Handshake::Accept <==> (hello.op == Op::Hello
            && (hello.value == 0 || hello.value == size) && (hello.offset == 0 || hello.offset
            == block_size || hello.offset == 4096)),
{
}

/// Both daemons serve writes, reads, status and checksum requests: for
/// either role, such a frame asks for the action its operation names, with
/// the frame's offset and payload or length. Only the Primary resyncs.
pub proof fn lemma_both_roles_serve(role: Role, f: FrameView)
    ensures
        f.op == Op::Write ==> spec_action(role, f) == (ActionView::Write {
            offset: f.offset,
            data: f.payload,
        }),
        f.op == Op::Read ==> spec_action(role, f) == (ActionView::Read {
            offset: f.offset,
            len: f.value,
        }),
        f.op == Op::Status ==> spec_action(role, f) == ActionView::Status,
        f.op == Op::Checksum ==> spec_action(role, f) == ActionView::Checksum,
        f.op == Op::Resync && role == Role::Secondary ==> spec_action(role, f) == (
        ActionView::Refuse { op: Op::Resync }),
        f.op == Op::Resync && role == Role::Primary ==> spec_action(role, f) == (
        ActionView::Resync { full: f.flags & 1u32 != 0u32 }),
{
}

/// The Secondary reads a client's write, read, status or checksum request
/// as the client meant it.
pub proof fn lemma_request_reaches_secondary(r: ClientRequest)
    requires
        !(r is Resync),
    ensures
        spec_action(Role::Secondary, request_frame(r)) == match r {
            ClientRequest::Write { offset, data } => ActionView::Write { offset, data: data@ },
            ClientRequest::Read { offset, len } => ActionView::Read { offset, len },
            ClientRequest::Status => ActionView::Status,
            _ => ActionView::Checksum,
        },
{
}

/// The extent replayed for a block is the whole block as far as it lies on
/// the device: it starts at the block's first byte, is not empty, ends
/// neither past the device nor past the block, and reaches the end of the
/// block or the end of the device, so it holds every byte of the block
/// that lies on the device.
pub proof fn lemma_extent_covers_block(block: nat, block_size: nat, size: nat)
    requires
        block_size > 0,
        block < ceil_div(size, block_size),
    ensures
        ({
            let (offset, len) = block_extent(block, block_size, size);
            &&& offset == block * block_size
            &&& len > 0
            &&& offset + len <= size
            &&& len <= block_size
            &&& (len == block_size || offset + len == size)
        }),
{
    lemma_block_start(block, block_size, size);
}

} // verus!
