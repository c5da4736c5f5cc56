//! Checks and checksums for the file-backed block device.
use vstd::prelude::*;

verus! {

/// FNV-1a offset basis: the checksum of no bytes.
pub const FNV_OFFSET: u64 = 0xcbf29ce484222325;

/// FNV-1a prime.
pub const FNV_PRIME: u64 = 0x100000001b3;

/// One FNV-1a step: fold the byte in, then multiply modulo 2^64.
pub open spec fn fnv_step(state: u64, b: u8) -> u64 {
    (state ^ (b as u64)).wrapping_mul(FNV_PRIME)
}

/// FNV-1a of `bytes`, starting from `state`.
pub open spec fn fnv(state: u64, bytes: Seq<u8>) -> u64
    decreases bytes.len(),
{
    if bytes.len() == 0 {
        state
    } else {
        fnv_step(fnv(state, bytes.drop_last()), bytes.last())
    }
}

/// Continues an FNV-1a checksum from `state` over `bytes`.
pub fn checksum_bytes(state: u64, bytes: &[u8]) -> (sum: u64)
    ensures
        sum == fnv(state, bytes@),
{
    let mut state = state;
    let ghost start = state;
    let n = bytes.len();
    let mut i: usize = 0;
    while i < n
        invariant
            n == bytes@.len(),
            i <= n,
            state == fnv(start, bytes@.subrange(0, i as int)),
        decreases n - i,
    {
        state = state ^ (bytes[i] as u64);
        state = state.wrapping_mul(FNV_PRIME);
        i = i + 1;
        assert(bytes@.subrange(0, i as int).drop_last() =~= bytes@.subrange(0, i - 1));
    }
    assert(bytes@.subrange(0, n as int) =~= bytes@);
    state
}

/// Checksumming data piece by piece gives the checksum of the whole: the
/// checksum of `a` continued over `b` is the checksum of `a + b`.
pub proof fn lemma_checksum_chunks(state: u64, a: Seq<u8>, b: Seq<u8>)
    ensures
        fnv(fnv(state, a), b) == fnv(state, a + b),
    decreases b.len(),
{
    if b.len() == 0 {
        assert(a + b =~= a);
    } else {
        lemma_checksum_chunks(state, a, b.drop_last());
        assert((a + b).drop_last() =~= a + b.drop_last());
    }
}

/// FNV-1a folds in every byte, zero included: the checksum of no bytes is
/// the starting state, and appending a byte `b` to the data xors `b` into
/// the checksum and multiplies it by `FNV_PRIME` modulo 2^64.
pub proof fn lemma_checksum_every_byte(state: u64, bytes: Seq<u8>, b: u8)
    ensures
        fnv(state, Seq::empty()) == state,
        fnv(state, bytes.push(b)) == (((fnv(state, bytes) ^ (b as u64)) as nat
            * 0x100000001b3nat) % 0x1_0000_0000_0000_0000nat) as u64,
        fnv(state, seq![b]) == (((state ^ (b as u64)) as nat * 0x100000001b3nat)
            % 0x1_0000_0000_0000_0000nat) as u64,
{
    assert(bytes.push(b).drop_last() =~= bytes);
    assert(seq![b].drop_last() =~= Seq::<u8>::empty());
}

/// Known FNV-1a values: the empty input, a single zero byte, and `"a"`.
pub proof fn lemma_checksum_known_values()
    ensures
        fnv(FNV_OFFSET, Seq::empty()) == 0xcbf29ce484222325u64,
        fnv(FNV_OFFSET, seq![0u8]) == 0xaf63bd4c8601b7dfu64,
        fnv(FNV_OFFSET, seq![0x61u8]) == 0xaf63dc4c8601ec8cu64,
{
    lemma_checksum_every_byte(FNV_OFFSET, Seq::empty(), 0u8);
    lemma_checksum_every_byte(FNV_OFFSET, Seq::empty(), 0x61u8);
    assert(0xcbf29ce484222325u64 ^ 0u64 == 0xcbf29ce484222325u64) by (bit_vector);
    assert(0xcbf29ce484222325u64 ^ 0x61u64 == 0xcbf29ce484222344u64) by (bit_vector);
}

/// Why a byte range of the device was refused.
#[derive(Debug, Clone, Copy, PartialEq, Eq, Structural)]
pub enum RangeError {
    /// `offset + len` does not fit in a `u64`.
    Overflow,
    /// The range ends past the end of the device.
    OutOfRange { offset: u64, end: u64, size: u64 },
}

/// Checks that `len` bytes at `offset` lie within a device of `size` bytes.
pub fn check_range(size: u64, offset: u64, len: u64) -> (r: Result<(), RangeError>)
    ensures
        offset + len > u64::MAX ==> r == Err::<(), RangeError>(RangeError::Overflow),
        offset + len <= u64::MAX && offset + len > size ==> r == Err::<(), RangeError>(
            RangeError::OutOfRange { offset, end: (offset + len) as u64, size },
        ),
        offset + len <= size ==> r is Ok,
{
    let end = match offset.checked_add(len) {
        Some(end) => end,
        None => {
            return Err(RangeError::Overflow);
        },
    };
    if end > size {
        return Err(RangeError::OutOfRange { offset, end, size });
    }
    Ok(())
}


/// What opening a backing file of `current_len` bytes for a device of `size`
/// bytes does.
#[derive(Debug, Clone, Copy, PartialEq, Eq, Structural)]
pub enum BackingSize {
    /// The file is empty: size it to the device.
    Create,
    /// The file already has the device's size: use it as it is.
    Accept,
    /// The file has another size: refuse it.
    Mismatch { found: u64, expected: u64 },
}

/// Decides what to do with a backing file of `current_len` bytes: an empty
/// file is sized to the device, a file of the device's size is used, any
/// other is refused with both sizes.
pub fn backing_size(current_len: u64, size: u64) -> (d: BackingSize)
    ensures
        current_len == 0 ==> d == BackingSize::Create,
        current_len != 0 && current_len == size ==> d == BackingSize::Accept,
        current_len != 0 && current_len != size ==> d == (BackingSize::Mismatch {
            found: current_len,
            expected: size,
        }),
{
    if current_len == 0 {
        BackingSize::Create
    } else if current_len != size {
        BackingSize::Mismatch { found: current_len, expected: size }
    } else {
        BackingSize::Accept
    }
}

} // verus!
