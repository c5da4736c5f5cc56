//! The binary frame protocol spoken between clients, the Primary and the
//! Secondary: a 40-byte big-endian header followed by a payload.
use vstd::prelude::*;
use vstd::string::StrSliceExecFns;
use vstd::utf8::{decode_utf8, encode_utf8, valid_utf8};

verus! {

/// The eight bytes that open every frame: `VRBDMVP1`.
pub const MAGIC: [u8; 8] = [0x56, 0x52, 0x42, 0x44, 0x4d, 0x56, 0x50, 0x31];

/// The only protocol version this library speaks.
pub const VERSION: u16 = 1;

/// Number of bytes in a frame header.
pub const HEADER_LEN: usize = 40;

/// Largest payload a frame may carry (16 MiB).
pub const MAX_PAYLOAD_LEN: u32 = 16777216;

/// Flag bit of a `Resync` request that asks to mark every block dirty first.
pub const FLAG_FULL_RESYNC: u32 = 1;

/// The magic bytes as a sequence.
pub open spec fn magic_bytes() -> Seq<u8> {
    seq![0x56u8, 0x52u8, 0x42u8, 0x44u8, 0x4du8, 0x56u8, 0x50u8, 0x31u8]
}

/// `MAGIC` holds the magic bytes.
pub proof fn lemma_magic()
    ensures
        MAGIC@ == magic_bytes(),
{
    assert(MAGIC@ =~= magic_bytes());
}

/// Operation carried by a frame.
#[derive(Debug, Clone, Copy, PartialEq, Eq, Structural)]
pub enum Op {
    Hello,
    HelloOk,
    Write,
    WriteOk,
    Read,
    ReadOk,
    Status,
    StatusOk,
    Resync,
    ResyncOk,
    Checksum,
    ChecksumOk,
    Error,
}

impl Op {
    /// The wire code of an operation.
    pub open spec fn spec_code(self) -> u16 {
        match self {
            Op::Hello => 1,
            Op::HelloOk => 2,
            Op::Write => 3,
            Op::WriteOk => 4,
            Op::Read => 5,
            Op::ReadOk => 6,
            Op::Status => 7,
            Op::StatusOk => 8,
            Op::Resync => 9,
            Op::ResyncOk => 10,
            Op::Checksum => 11,
            Op::ChecksumOk => 12,
            Op::Error => 13,
        }
    }

    /// The operation that a wire code stands for, if any.
    pub open spec fn spec_from_code(code: u16) -> Option<Op> {
        if code == 1 {
            Some(Op::Hello)
        } else if code == 2 {
            Some(Op::HelloOk)
        } else if code == 3 {
            Some(Op::Write)
        } else if code == 4 {
            Some(Op::WriteOk)
        } else if code == 5 {
            Some(Op::Read)
        } else if code == 6 {
            Some(Op::ReadOk)
        } else if code == 7 {
            Some(Op::Status)
        } else if code == 8 {
            Some(Op::StatusOk)
        } else if code == 9 {
            Some(Op::Resync)
        } else if code == 10 {
            Some(Op::ResyncOk)
        } else if code == 11 {
            Some(Op::Checksum)
        } else if code == 12 {
            Some(Op::ChecksumOk)
        } else if code == 13 {
            Some(Op::Error)
        } else {
            None
        }
    }

    /// The name under which an operation is shown in messages.
    pub open spec fn spec_name(self) -> Seq<char> {
        match self {
            Op::Hello => "Hello"@,
            Op::HelloOk => "HelloOk"@,
            Op::Write => "Write"@,
            Op::WriteOk => "WriteOk"@,
            Op::Read => "Read"@,
            Op::ReadOk => "ReadOk"@,
            Op::Status => "Status"@,
            Op::StatusOk => "StatusOk"@,
            Op::Resync => "Resync"@,
            Op::ResyncOk => "ResyncOk"@,
            Op::Checksum => "Checksum"@,
            Op::ChecksumOk => "ChecksumOk"@,
            Op::Error => "Error"@,
        }
    }

    /// Wire code of this operation.
    pub fn code(self) -> (code: u16)
        ensures
            code == self.spec_code(),
    {
        match self {
            Op::Hello => 1,
            Op::HelloOk => 2,
            Op::Write => 3,
            Op::WriteOk => 4,
            Op::Read => 5,
            Op::ReadOk => 6,
            Op::Status => 7,
            Op::StatusOk => 8,
            Op::Resync => 9,
            Op::ResyncOk => 10,
            Op::Checksum => 11,
            Op::ChecksumOk => 12,
            Op::Error => 13,
        }
    }

    /// Decodes a wire code; codes outside 1..=13 are refused.
    pub fn from_code(code: u16) -> (op: Result<Op, FrameError>)
        ensures
            match op {
                Ok(op) => Op::spec_from_code(code) == Some(op),
                Err(e) => Op::spec_from_code(code) is None && e == (FrameError::UnknownOp { code }),
            },
    {
        match code {
            1 => Ok(Op::Hello),
            2 => Ok(Op::HelloOk),
            3 => Ok(Op::Write),
            4 => Ok(Op::WriteOk),
            5 => Ok(Op::Read),
            6 => Ok(Op::ReadOk),
            7 => Ok(Op::Status),
            8 => Ok(Op::StatusOk),
            9 => Ok(Op::Resync),
            10 => Ok(Op::ResyncOk),
            11 => Ok(Op::Checksum),
            12 => Ok(Op::ChecksumOk),
            13 => Ok(Op::Error),
            _ => Err(FrameError::UnknownOp { code }),
        }
    }

    /// The name of this operation, as shown in messages.
    pub fn name(self) -> (name: &'static str)
        ensures
            name@ == self.spec_name(),
    {
        match self {
            Op::Hello => "Hello",
            Op::HelloOk => "HelloOk",
            Op::Write => "Write",
            Op::WriteOk => "WriteOk",
            Op::Read => "Read",
            Op::ReadOk => "ReadOk",
            Op::Status => "Status",
            Op::StatusOk => "StatusOk",
            Op::Resync => "Resync",
            Op::ResyncOk => "ResyncOk",
            Op::Checksum => "Checksum",
            Op::ChecksumOk => "ChecksumOk",
            Op::Error => "Error",
        }
    }
}

/// Decoding a code gives back the operation that was encoded, and every
/// code that decodes is the code of the operation it decodes to.
pub proof fn lemma_op_code_round_trip(op: Op, code: u16)
    ensures
        Op::spec_from_code(op.spec_code()) == Some(op),
        Op::spec_from_code(code) == Some(op) ==> op.spec_code() == code,
{
}

/// Why a frame could not be encoded or decoded.
#[derive(Debug, Clone, Copy, PartialEq, Eq, Structural)]
pub enum FrameError {
    /// The payload to send is longer than `MAX_PAYLOAD_LEN`.
    PayloadTooLarge { size: usize },
    /// The input ended before the header or the payload was complete.
    Truncated,
    /// The header does not start with `MAGIC`.
    BadMagic,
    /// The header names a version other than `VERSION`.
    UnsupportedVersion { version: u16 },
    /// The header names an operation code that no `Op` has.
    UnknownOp { code: u16 },
    /// The header announces a payload longer than `MAX_PAYLOAD_LEN`.
    PayloadLengthExceedsLimit { len: u32 },
}


/// Big-endian bytes of a `u16`.
pub open spec fn be16(v: u16) -> Seq<u8> {
    seq![(v >> 8u16) as u8, v as u8]
}

/// Big-endian bytes of a `u32`.
pub open spec fn be32(v: u32) -> Seq<u8> {
    seq![(v >> 24u32) as u8, (v >> 16u32) as u8, (v >> 8u32) as u8, v as u8]
}

/// Big-endian bytes of a `u64`.
pub open spec fn be64(v: u64) -> Seq<u8> {
    seq![
        (v >> 56u64) as u8,
        (v >> 48u64) as u8,
        (v >> 40u64) as u8,
        (v >> 32u64) as u8,
        (v >> 24u64) as u8,
        (v >> 16u64) as u8,
        (v >> 8u64) as u8,
        v as u8,
    ]
}

/// The `u16` stored big-endian at `at` in `s`.
pub open spec fn be16_at(s: Seq<u8>, at: int) -> u16 {
    ((s[at] as u16) << 8u16) | (s[at + 1] as u16)
}

/// The `u32` stored big-endian at `at` in `s`.
pub open spec fn be32_at(s: Seq<u8>, at: int) -> u32 {
    ((s[at] as u32) << 24u32) | ((s[at + 1] as u32) << 16u32) | ((s[at + 2] as u32) << 8u32) | (
    s[at + 3] as u32)
}

/// The `u64` stored big-endian at `at` in `s`.
pub open spec fn be64_at(s: Seq<u8>, at: int) -> u64 {
    ((s[at] as u64) << 56u64) | ((s[at + 1] as u64) << 48u64) | ((s[at + 2] as u64) << 40u64) | ((
    s[at + 3] as u64) << 32u64) | ((s[at + 4] as u64) << 24u64) | ((s[at + 5] as u64) << 16u64)
        | ((s[at + 6] as u64) << 8u64) | (s[at + 7] as u64)
}

proof fn lemma_be16_bits(v: u16, b0: u8, b1: u8)
    by (bit_vector)
    ensures
        ((((v >> 8u16) as u8) as u16) << 8u16) | ((v as u8) as u16) == v,
        ((((b0 as u16) << 8u16) | (b1 as u16)) >> 8u16) as u8 == b0,
        (((b0 as u16) << 8u16) | (b1 as u16)) as u8 == b1,
{
}

proof fn lemma_be32_value(v: u32)
    by (bit_vector)
    ensures
        ((((v >> 24u32) as u8) as u32) << 24u32) | ((((v >> 16u32) as u8) as u32) << 16u32) | ((((v
            >> 8u32) as u8) as u32) << 8u32) | ((v as u8) as u32) == v,
{
}

proof fn lemma_be32_bytes(b0: u8, b1: u8, b2: u8, b3: u8)
    by (bit_vector)
    ensures
        ({
            let v = ((b0 as u32) << 24u32) | ((b1 as u32) << 16u32) | ((b2 as u32) << 8u32) | (
            b3 as u32);
            &&& (v >> 24u32) as u8 == b0
            &&& (v >> 16u32) as u8 == b1
            &&& (v >> 8u32) as u8 == b2
            &&& v as u8 == b3
        }),
{
}

proof fn lemma_be64_value(v: u64)
    by (bit_vector)
    ensures
        ((((v >> 56u64) as u8) as u64) << 56u64) | ((((v >> 48u64) as u8) as u64) << 48u64) | ((((v
            >> 40u64) as u8) as u64) << 40u64) | ((((v >> 32u64) as u8) as u64) << 32u64) | ((((v
            >> 24u64) as u8) as u64) << 24u64) | ((((v >> 16u64) as u8) as u64) << 16u64) | ((((v
            >> 8u64) as u8) as u64) << 8u64) | ((v as u8) as u64) == v,
{
}

proof fn lemma_be64_bytes(b0: u8, b1: u8, b2: u8, b3: u8, b4: u8, b5: u8, b6: u8, b7: u8)
    by (bit_vector)
    ensures
        ({
            let v = ((b0 as u64) << 56u64) | ((b1 as u64) << 48u64) | ((b2 as u64) << 40u64) | ((
            b3 as u64) << 32u64) | ((b4 as u64) << 24u64) | ((b5 as u64) << 16u64) | ((b6 as u64)
                << 8u64) | (b7 as u64);
            &&& (v >> 56u64) as u8 == b0
            &&& (v >> 48u64) as u8 == b1
            &&& (v >> 40u64) as u8 == b2
            &&& (v >> 32u64) as u8 == b3
            &&& (v >> 24u64) as u8 == b4
            &&& (v >> 16u64) as u8 == b5
            &&& (v >> 8u64) as u8 == b6
            &&& v as u8 == b7
        }),
{
}

/// Reading back the big-endian bytes of a value gives the value.
pub proof fn lemma_be_decode_encode(a: u16, b: u32, c: u64)
    ensures
        be16_at(be16(a), 0) == a,
        be32_at(be32(b), 0) == b,
        be64_at(be64(c), 0) == c,
{
    lemma_be16_bits(a, 0, 0);
    lemma_be32_value(b);
    lemma_be64_value(c);
}

/// Writing big-endian bytes for a value read at `at` gives back those bytes.
pub proof fn lemma_be_encode_decode(s: Seq<u8>, at: int)
    requires
        0 <= at,
        at + 8 <= s.len(),
    ensures
        be16(be16_at(s, at)) == s.subrange(at, at + 2),
        be32(be32_at(s, at)) == s.subrange(at, at + 4),
        be64(be64_at(s, at)) == s.subrange(at, at + 8),
{
    lemma_be16_bits(0, s[at], s[at + 1]);
    lemma_be32_bytes(s[at], s[at + 1], s[at + 2], s[at + 3]);
    lemma_be64_bytes(
        s[at],
        s[at + 1],
        s[at + 2],
        s[at + 3],
        s[at + 4],
        s[at + 5],
        s[at + 6],
        s[at + 7],
    );
    assert(be16(be16_at(s, at)) =~= s.subrange(at, at + 2));
    assert(be32(be32_at(s, at)) =~= s.subrange(at, at + 4));
    assert(be64(be64_at(s, at)) =~= s.subrange(at, at + 8));
}


/// A protocol frame: an operation, three header fields and a payload.
#[derive(Debug, Clone, PartialEq, Eq)]
pub struct Frame {
    pub op: Op,
    pub flags: u32,
    pub offset: u64,
    pub value: u64,
    pub payload: Vec<u8>,
}

/// The mathematical value of a `Frame`.
pub struct FrameView {
    pub op: Op,
    pub flags: u32,
    pub offset: u64,
    pub value: u64,
    pub payload: Seq<u8>,
}

impl View for Frame {
    type V = FrameView;

    open spec fn view(&self) -> FrameView {
        FrameView {
            op: self.op,
            flags: self.flags,
            offset: self.offset,
            value: self.value,
            payload: self.payload@,
        }
    }
}

/// The fields of a decoded frame header.
#[derive(Debug, Clone, Copy, PartialEq, Eq, Structural)]
pub struct FrameHeader {
    pub op: Op,
    pub flags: u32,
    pub offset: u64,
    pub value: u64,
    pub payload_len: u32,
}

/// What `String::from_utf8_lossy` makes of a byte sequence.
pub uninterp spec fn lossy_utf8(bytes: Seq<u8>) -> Seq<char>;

/// Calls `String::from_utf8_lossy`: valid UTF-8 is decoded as it stands;
/// other input is decoded with replacement characters, which this contract
/// only names.
#[verifier::external_body]
fn utf8_lossy(bytes: &[u8]) -> (text: String)
    ensures
        text@ == lossy_utf8(bytes@),
        valid_utf8(bytes@) ==> text@ == decode_utf8(bytes@),
{
    String::from_utf8_lossy(bytes).into_owned()
}

impl Frame {
    /// A frame with the given operation, zero header fields and no payload.
    pub fn new(op: Op) -> (frame: Frame)
        ensures
            frame@ == (FrameView { op, flags: 0, offset: 0, value: 0, payload: Seq::empty() }),
    {
        Frame { op, flags: 0, offset: 0, value: 0, payload: Vec::new() }
    }

    /// A frame with the given operation and payload, and zero header fields.
    pub fn with_payload(op: Op, payload: Vec<u8>) -> (frame: Frame)
        ensures
            frame@ == (FrameView { op, flags: 0, offset: 0, value: 0, payload: payload@ }),
    {
        Frame { op, flags: 0, offset: 0, value: 0, payload }
    }

    /// An `Error` frame whose payload is the UTF-8 encoding of `message`.
    pub fn error(message: String) -> (frame: Frame)
        ensures
            frame@ == (FrameView {
                op: Op::Error,
                flags: 0,
                offset: 0,
                value: 0,
                payload: encode_utf8(message@),
            }),
    {
        let payload = message.as_str().as_bytes_vec();
        Frame::with_payload(Op::Error, payload)
    }

    /// The payload read as UTF-8 text, with invalid sequences replaced.
    pub fn payload_text(&self) -> (text: String)
        ensures
            text@ == lossy_utf8(self.payload@),
            valid_utf8(self.payload@) ==> text@ == decode_utf8(self.payload@),
    {
        utf8_lossy(self.payload.as_slice())
    }
}

/// The text of an error frame is the message it was made from.
pub proof fn lemma_error_text(message: Seq<char>)
    ensures
        valid_utf8(encode_utf8(message)),
        decode_utf8(encode_utf8(message)) == message,
{
    vstd::utf8::encode_utf8_valid_utf8(message);
    vstd::utf8::encode_utf8_decode_utf8(message);
}

/// The 40 header bytes that precede a frame's payload on the wire.
pub open spec fn header_bytes(f: FrameView) -> Seq<u8> {
    magic_bytes() + be16(VERSION) + be16(f.op.spec_code()) + be32(f.flags) + be64(f.offset) + be64(
        f.value,
    ) + be32(f.payload.len() as u32) + seq![0u8, 0u8, 0u8, 0u8]
}

/// The bytes of a whole frame on the wire.
pub open spec fn frame_bytes(f: FrameView) -> Seq<u8> {
    header_bytes(f) + f.payload
}

/// Decodes the header at the start of `s`.
pub open spec fn parse_header(s: Seq<u8>) -> Result<FrameHeader, FrameError> {
    if s.len() < 40 {
        Err(FrameError::Truncated)
    } else if s.subrange(0, 8) != magic_bytes() {
        Err(FrameError::BadMagic)
    } else if be16_at(s, 8) != VERSION {
        Err(FrameError::UnsupportedVersion { version: be16_at(s, 8) })
    } else {
        match Op::spec_from_code(be16_at(s, 10)) {
            None => Err(FrameError::UnknownOp { code: be16_at(s, 10) }),
            Some(op) => if be32_at(s, 32) > MAX_PAYLOAD_LEN {
                Err(FrameError::PayloadLengthExceedsLimit { len: be32_at(s, 32) })
            } else {
                Ok(
                    FrameHeader {
                        op,
                        flags: be32_at(s, 12),
                        offset: be64_at(s, 16),
                        value: be64_at(s, 24),
                        payload_len: be32_at(s, 32),
                    },
                )
            },
        }
    }
}

/// Decodes the frame at the start of `s`; bytes after it are ignored.
pub open spec fn parse_frame(s: Seq<u8>) -> Result<FrameView, FrameError> {
    match parse_header(s) {
        Err(e) => Err(e),
        Ok(h) => if s.len() < 40 + h.payload_len {
            Err(FrameError::Truncated)
        } else {
            Ok(
                FrameView {
                    op: h.op,
                    flags: h.flags,
                    offset: h.offset,
                    value: h.value,
                    payload: s.subrange(40, 40 + h.payload_len),
                },
            )
        },
    }
}

fn push_be16(out: &mut Vec<u8>, v: u16)
    ensures
        final(out)@ == old(out)@ + be16(v),
{
    out.push((v >> 8u16) as u8);
    out.push(v as u8);
    assert(final(out)@ =~= old(out)@ + be16(v));
}

fn push_be32(out: &mut Vec<u8>, v: u32)
    ensures
        final(out)@ == old(out)@ + be32(v),
{
    out.push((v >> 24u32) as u8);
    out.push((v >> 16u32) as u8);
    out.push((v >> 8u32) as u8);
    out.push(v as u8);
    assert(final(out)@ =~= old(out)@ + be32(v));
}

pub(crate) fn push_be64(out: &mut Vec<u8>, v: u64)
    ensures
        final(out)@ == old(out)@ + be64(v),
{
    out.push((v >> 56u64) as u8);
    out.push((v >> 48u64) as u8);
    out.push((v >> 40u64) as u8);
    out.push((v >> 32u64) as u8);
    out.push((v >> 24u64) as u8);
    out.push((v >> 16u64) as u8);
    out.push((v >> 8u64) as u8);
    out.push(v as u8);
    assert(final(out)@ =~= old(out)@ + be64(v));
}

/// Appends the encoding of `frame` to `out`. A payload longer than
/// `MAX_PAYLOAD_LEN` is refused and `out` is left as it was.
pub fn write_frame(out: &mut Vec<u8>, frame: &Frame) -> (r: Result<(), FrameError>)
    ensures
        frame.payload@.len() > MAX_PAYLOAD_LEN ==> r == Err::<(), FrameError>(
            FrameError::PayloadTooLarge { size: frame.payload.len() },
        ) && final(out)@ == old(out)@,
        frame.payload@.len() <= MAX_PAYLOAD_LEN ==> r is Ok && final(out)@ == old(out)@
            + frame_bytes(frame@),
{
    let len = frame.payload.len();
    if len > MAX_PAYLOAD_LEN as usize {
        return Err(FrameError::PayloadTooLarge { size: len });
    }
    let ghost start = out@;
    proof {
        lemma_magic();
    }
    let mut k: usize = 0;
    while k < 8
        invariant
            MAGIC@ == magic_bytes(),
            k <= 8,
            out@ == start + magic_bytes().subrange(0, k as int),
        decreases 8 - k,
    {
        out.push(MAGIC[k]);
        k = k + 1;
        assert(out@ =~= start + magic_bytes().subrange(0, k as int));
    }
    assert(out@ =~= start + magic_bytes());
    push_be16(out, VERSION);
    push_be16(out, frame.op.code());
    push_be32(out, frame.flags);
    push_be64(out, frame.offset);
    push_be64(out, frame.value);
    push_be32(out, len as u32);
    out.push(0u8);
    out.push(0u8);
    out.push(0u8);
    out.push(0u8);
    let ghost header_end = out@;
    assert(header_end =~= start + header_bytes(frame@));
    let mut i: usize = 0;
    while i < len
        invariant
            len == frame.payload@.len(),
            i <= len,
            out@ == header_end + frame.payload@.subrange(0, i as int),
        decreases len - i,
    {
        out.push(frame.payload[i]);
        i = i + 1;
        assert(out@ =~= header_end + frame.payload@.subrange(0, i as int));
    }
    assert(frame.payload@.subrange(0, len as int) =~= frame.payload@);
    assert(out@ =~= start + frame_bytes(frame@));
    Ok(())
}

fn starts_with_magic(bytes: &[u8]) -> (r: bool)
    requires
        bytes@.len() >= 8,
    ensures
        r == (bytes@.subrange(0, 8) == magic_bytes()),
{
    proof {
        lemma_magic();
    }
    let mut i: usize = 0;
    while i < 8
        invariant
            bytes@.len() >= 8,
            MAGIC@ == magic_bytes(),
            i <= 8,
            forall|j: int| 0 <= j < i ==> bytes@[j] == magic_bytes()[j],
        decreases 8 - i,
    {
        if bytes[i] != MAGIC[i] {
            assert(bytes@.subrange(0, 8)[i as int] != magic_bytes()[i as int]);
            return false;
        }
        i = i + 1;
    }
    assert(bytes@.subrange(0, 8) =~= magic_bytes());
    true
}

pub(crate) fn get_be16(bytes: &[u8], at: usize) -> (v: u16)
    requires
        at + 2 <= bytes@.len(),
    ensures
        v == be16_at(bytes@, at as int),
{
    ((bytes[at] as u16) << 8u16) | (bytes[at + 1] as u16)
}

pub(crate) fn get_be32(bytes: &[u8], at: usize) -> (v: u32)
    requires
        at + 4 <= bytes@.len(),
    ensures
        v == be32_at(bytes@, at as int),
{
    ((bytes[at] as u32) << 24u32) | ((bytes[at + 1] as u32) << 16u32) | ((bytes[at + 2] as u32)
        << 8u32) | (bytes[at + 3] as u32)
}

pub(crate) fn get_be64(bytes: &[u8], at: usize) -> (v: u64)
    requires
        at + 8 <= bytes@.len(),
    ensures
        v == be64_at(bytes@, at as int),
{
    ((bytes[at] as u64) << 56u64) | ((bytes[at + 1] as u64) << 48u64) | ((bytes[at + 2] as u64)
        << 40u64) | ((bytes[at + 3] as u64) << 32u64) | ((bytes[at + 4] as u64) << 24u64) | ((
    bytes[at + 5] as u64) << 16u64) | ((bytes[at + 6] as u64) << 8u64) | (bytes[at + 7] as u64)
}

/// Decodes and checks the frame header at the start of `bytes`.
pub fn read_header(bytes: &[u8]) -> (r: Result<FrameHeader, FrameError>)
    ensures
        r == parse_header(bytes@),
{
    if bytes.len() < HEADER_LEN {
        return Err(FrameError::Truncated);
    }
    if !starts_with_magic(bytes) {
        return Err(FrameError::BadMagic);
    }
    let version = get_be16(bytes, 8);
    if version != VERSION {
        return Err(FrameError::UnsupportedVersion { version });
    }
    let op = Op::from_code(get_be16(bytes, 10))?;
    let flags = get_be32(bytes, 12);
    let offset = get_be64(bytes, 16);
    let value = get_be64(bytes, 24);
    let len = get_be32(bytes, 32);
    if len > MAX_PAYLOAD_LEN {
        return Err(FrameError::PayloadLengthExceedsLimit { len });
    }
    Ok(FrameHeader { op, flags, offset, value, payload_len: len })
}

/// Decodes the frame at the start of `bytes`; bytes after it are left unread.
pub fn read_frame(bytes: &[u8]) -> (r: Result<Frame, FrameError>)
    ensures
        match r {
            Ok(frame) => parse_frame(bytes@) == Ok::<FrameView, FrameError>(frame@),
            Err(e) => parse_frame(bytes@) == Err::<FrameView, FrameError>(e),
        },
{
    let header = read_header(bytes)?;
    let len = header.payload_len as usize;
    let n = bytes.len();
    if n - HEADER_LEN < len {
        return Err(FrameError::Truncated);
    }
    let mut payload: Vec<u8> = Vec::new();
    let mut i: usize = 0;
    while i < len
        invariant
            n == bytes@.len(),
            bytes@.len() >= 40 + len,
            i <= len,
            payload@ == bytes@.subrange(40, 40 + i as int),
        decreases len - i,
    {
        payload.push(bytes[HEADER_LEN + i]);
        i = i + 1;
        assert(payload@ =~= bytes@.subrange(40, 40 + i as int));
    }
    Ok(
        Frame {
            op: header.op,
            flags: header.flags,
            offset: header.offset,
            value: header.value,
            payload,
        },
    )
}


/// A frame's header is forty bytes long, and its wire form is the header
/// followed by the payload.
pub proof fn lemma_frame_bytes_len(f: FrameView)
    ensures
        header_bytes(f).len() == 40,
        frame_bytes(f).len() == 40 + f.payload.len(),
{
}

/// Decoding what was encoded gives back the frame, whatever bytes follow
/// it: for every frame whose payload is within `MAX_PAYLOAD_LEN`.
pub proof fn lemma_frame_round_trip(f: FrameView, rest: Seq<u8>)
    requires
        f.payload.len() <= MAX_PAYLOAD_LEN,
    ensures
        parse_frame(frame_bytes(f) + rest) == Ok::<FrameView, FrameError>(f),
{
    let h = header_bytes(f);
    let b = frame_bytes(f) + rest;
    assert(h.len() == 40);
    assert(b.subrange(0, 40) =~= h);
    assert(b.subrange(0, 8) =~= magic_bytes());
    assert(b.subrange(40, 40 + f.payload.len() as int) =~= f.payload);
    let len = f.payload.len() as u32;
    lemma_be_decode_encode(VERSION, f.flags, f.offset);
    lemma_be_decode_encode(f.op.spec_code(), len, f.value);
    assert(be16_at(b, 8) == be16_at(be16(VERSION), 0));
    assert(be16_at(b, 10) == be16_at(be16(f.op.spec_code()), 0));
    assert(be32_at(b, 12) == be32_at(be32(f.flags), 0));
    assert(be64_at(b, 16) == be64_at(be64(f.offset), 0));
    assert(be64_at(b, 24) == be64_at(be64(f.value), 0));
    assert(be32_at(b, 32) == be32_at(be32(len), 0));
    lemma_op_code_round_trip(f.op, 0);
}

/// A frame that was decoded from bytes whose four reserved header bytes are
/// zero encodes back to exactly the bytes it was decoded from.
pub proof fn lemma_frame_reencode(s: Seq<u8>)
    requires
        parse_frame(s) is Ok,
        s.len() >= 40,
        s[36] == 0 && s[37] == 0 && s[38] == 0 && s[39] == 0,
    ensures
        ({
            let f = parse_frame(s)->Ok_0;
            frame_bytes(f) == s.subrange(0, 40 + f.payload.len() as int)
        }),
{
    let f = parse_frame(s)->Ok_0;
    let code = be16_at(s, 10);
    lemma_op_code_round_trip(f.op, code);
    lemma_be_encode_decode(s, 8);
    lemma_be_encode_decode(s, 10);
    lemma_be_encode_decode(s, 12);
    lemma_be_encode_decode(s, 16);
    lemma_be_encode_decode(s, 24);
    lemma_be_encode_decode(s, 32);
    assert(be16(VERSION) =~= s.subrange(8, 10));
    assert(be16(code) =~= s.subrange(10, 12));
    assert(be32(f.flags) =~= s.subrange(12, 16));
    assert(be64(f.offset) =~= s.subrange(16, 24));
    assert(be64(f.value) =~= s.subrange(24, 32));
    assert(be32(f.payload.len() as u32) =~= s.subrange(32, 36));
    assert(seq![0u8, 0u8, 0u8, 0u8] =~= s.subrange(36, 40));
    assert(header_bytes(f) =~= s.subrange(0, 40));
    assert(frame_bytes(f) =~= s.subrange(0, 40 + f.payload.len() as int));
}

} // verus!
