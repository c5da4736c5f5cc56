//! The dirty-block bitmap kept by the Primary: one bit per block of the
//! device, set while the block may differ on the peer.
use vstd::prelude::*;

use crate::protocol::{be64, be64_at, get_be64, lemma_be_decode_encode, push_be64};

verus! {

/// `a / b` rounded up.
pub open spec fn ceil_div(a: nat, b: nat) -> nat
    recommends
        b > 0,
{
    if a % b == 0 {
        a / b
    } else {
        a / b + 1
    }
}

/// `a.div_ceil(b)` for `b > 0`.
pub fn div_ceil(a: u64, b: u64) -> (q: u64)
    requires
        b > 0,
    ensures
        q == ceil_div(a as nat, b as nat),
{
    if a % b == 0 {
        a / b
    } else {
        proof {
            assert(b >= 2);
            vstd::arithmetic::div_mod::lemma_div_is_ordered_by_denominator(a as int, 2, b as int);
        }
        a / b + 1
    }
}

/// Bit `b` of the word `w`.
pub open spec fn word_bit(w: u64, b: int) -> bool {
    (w >> (b as u64)) & 1u64 == 1u64
}

/// The bits of a sequence of words, word by word, least significant bit first.
pub open spec fn words_bits(ws: Seq<u64>) -> Seq<bool> {
    Seq::new(ws.len() * 64, |i: int| word_bit(ws[i / 64], i % 64))
}

/// The number of `true` entries in `s`.
pub open spec fn count_true(s: Seq<bool>) -> nat
    decreases s.len(),
{
    if s.len() == 0 {
        0
    } else {
        count_true(s.drop_last()) + if s.last() {
            1nat
        } else {
            0nat
        }
    }
}

/// The blocks below `n` whose bit is set, in ascending order.
pub open spec fn dirty_list(bits: Seq<bool>, n: nat) -> Seq<u64>
    decreases n,
{
    if n == 0 {
        Seq::empty()
    } else if bits[n - 1] {
        dirty_list(bits, (n - 1) as nat).push((n - 1) as u64)
    } else {
        dirty_list(bits, (n - 1) as nat)
    }
}

/// The mathematical value of a `DirtyBitmap`: its geometry and its words.
pub struct BitmapView {
    pub block_size: nat,
    pub block_count: nat,
    pub words: Seq<u64>,
}

impl BitmapView {
    /// The geometry is consistent: one bit per block, rounded up to whole
    /// words, and the block count leaves room for that rounding.
    pub open spec fn wf(self) -> bool {
        &&& 0 < self.block_size <= u64::MAX
        &&& self.words.len() == ceil_div(self.block_count, 64)
        &&& self.block_count + 63 <= u64::MAX
    }

    /// Every bit of the bitmap, including the unused bits of the last word.
    pub open spec fn bits(self) -> Seq<bool> {
        words_bits(self.words)
    }

    /// Whether `block` is marked dirty.
    pub open spec fn dirty(self, block: int) -> bool {
        self.bits()[block]
    }

    /// No bit past the last block is set.
    pub open spec fn tail_clear(self) -> bool {
        forall|i: int| self.block_count <= i < self.bits().len() ==> !#[trigger] self.bits()[i]
    }

    /// The dirty blocks, in ascending order.
    pub open spec fn dirty_blocks(self) -> Seq<u64> {
        dirty_list(self.bits(), self.block_count)
    }

    /// The number of set bits in all words.
    pub open spec fn dirty_count(self) -> nat {
        count_true(self.bits())
    }
}

/// The blocks `[first, last)` touched by a byte range `offset..offset + len`
/// of a device with the given geometry; an empty range touches none.
pub open spec fn range_blocks(offset: nat, len: nat, block_size: nat, block_count: nat) -> (
    nat,
    nat,
) {
    if len == 0 {
        (0, 0)
    } else {
        let first = offset / block_size;
        let end = ceil_div(offset + len, block_size);
        (first, if end < block_count {
            end
        } else {
            block_count
        })
    }
}

/// `bits` with the entries in `[first, last)` set to `value`.
pub open spec fn with_range(bits: Seq<bool>, first: int, last: int, value: bool) -> Seq<bool> {
    Seq::new(bits.len(), |i: int| if first <= i < last { value } else { bits[i] })
}

/// The eight bytes that open a saved bitmap: `VRBDBM1!`.
pub const BITMAP_MAGIC: [u8; 8] = [0x56, 0x52, 0x42, 0x44, 0x42, 0x4d, 0x31, 0x21];

/// The bitmap magic as a sequence.
pub open spec fn bitmap_magic() -> Seq<u8> {
    seq![0x56u8, 0x52u8, 0x42u8, 0x44u8, 0x42u8, 0x4du8, 0x31u8, 0x21u8]
}

proof fn lemma_bitmap_magic()
    ensures
        BITMAP_MAGIC@ == bitmap_magic(),
{
    assert(BITMAP_MAGIC@ =~= bitmap_magic());
}

fn has_bitmap_magic(bytes: &[u8]) -> (r: bool)
    requires
        bytes@.len() >= 8,
    ensures
        r == (bytes@.subrange(0, 8) == bitmap_magic()),
{
    proof {
        lemma_bitmap_magic();
    }
    let mut i: usize = 0;
    while i < 8
        invariant
            bytes@.len() >= 8,
            BITMAP_MAGIC@ == bitmap_magic(),
            i <= 8,
            forall|j: int| 0 <= j < i ==> bytes@[j] == bitmap_magic()[j],
        decreases 8 - i,
    {
        if bytes[i] != BITMAP_MAGIC[i] {
            assert(bytes@.subrange(0, 8)[i as int] != bitmap_magic()[i as int]);
            return false;
        }
        i = i + 1;
    }
    assert(bytes@.subrange(0, 8) =~= bitmap_magic());
    true
}

/// The words of a bitmap as stored: each word big-endian, in order.
pub open spec fn words_bytes(ws: Seq<u64>) -> Seq<u8>
    decreases ws.len(),
{
    if ws.len() == 0 {
        Seq::empty()
    } else {
        words_bytes(ws.drop_last()) + be64(ws.last())
    }
}

/// The saved form of a bitmap: magic, block size, block count, word count,
/// then the words.
pub open spec fn bitmap_bytes(v: BitmapView) -> Seq<u8> {
    bitmap_magic() + be64(v.block_size as u64) + be64(v.block_count as u64) + be64(
        v.words.len() as u64,
    ) + words_bytes(v.words)
}

/// Why saved bitmap bytes were refused.
#[derive(Debug, Clone, Copy, PartialEq, Eq, Structural)]
pub enum BitmapError {
    /// The bytes end before the header or the words are complete.
    Truncated,
    /// The bytes do not start with the bitmap magic.
    BadMagic,
    /// The stored block size, block count or word count differ from the
    /// device's.
    GeometryMismatch,
}

/// The words read from saved bitmap bytes for a device of `device_size`
/// bytes in blocks of `block_size` bytes; bytes after the words are ignored.
pub open spec fn parse_bitmap(s: Seq<u8>, block_size: nat, device_size: nat) -> Result<
    Seq<u64>,
    BitmapError,
> {
    let block_count = ceil_div(device_size, block_size);
    let word_count = ceil_div(block_count, 64);
    if s.len() < 32 {
        Err(BitmapError::Truncated)
    } else if s.subrange(0, 8) != bitmap_magic() {
        Err(BitmapError::BadMagic)
    } else if be64_at(s, 8) != block_size || be64_at(s, 16) != block_count || be64_at(s, 24)
        != word_count {
        Err(BitmapError::GeometryMismatch)
    } else if s.len() < 32 + 8 * word_count {
        Err(BitmapError::Truncated)
    } else {
        Ok(Seq::new(word_count, |i: int| be64_at(s, 32 + 8 * i)))
    }
}

proof fn lemma_words_bytes(ws: Seq<u64>)
    ensures
        words_bytes(ws).len() == 8 * ws.len(),
        forall|i: int|
            0 <= i < ws.len() ==> #[trigger] words_bytes(ws).subrange(8 * i, 8 * i + 8) == be64(
                ws[i],
            ),
    decreases ws.len(),
{
    if ws.len() > 0 {
        let init = ws.drop_last();
        lemma_words_bytes(init);
        let b = words_bytes(ws);
        assert forall|i: int| 0 <= i < ws.len() implies #[trigger] b.subrange(8 * i, 8 * i + 8)
            == be64(ws[i]) by {
            if i < init.len() {
                assert(b.subrange(8 * i, 8 * i + 8) =~= words_bytes(init).subrange(8 * i, 8 * i + 8));
            } else {
                assert(b.subrange(8 * i, 8 * i + 8) =~= be64(ws.last()));
            }
        }
    }
}

/// Reading back saved bitmap bytes for a device of the same geometry gives
/// back the words that were saved.
pub proof fn lemma_bitmap_round_trip(v: BitmapView, device_size: nat, rest: Seq<u8>)
    requires
        v.wf(),
        ceil_div(device_size, v.block_size) == v.block_count,
    ensures
        parse_bitmap(bitmap_bytes(v) + rest, v.block_size, device_size) == Ok::<
            Seq<u64>,
            BitmapError,
        >(v.words),
{
    let s = bitmap_bytes(v) + rest;
    let n = v.words.len();
    lemma_words_bytes(v.words);
    lemma_be_decode_encode(0, 0, v.block_size as u64);
    let bs = v.block_size as u64;
    let bc = v.block_count as u64;
    let wc = n as u64;
    lemma_be_decode_encode(0, 0, bc);
    lemma_be_decode_encode(0, 0, wc);
    assert(s.subrange(0, 8) =~= bitmap_magic());
    assert(s.subrange(8, 16) =~= be64(bs));
    assert(s.subrange(16, 24) =~= be64(bc));
    assert(s.subrange(24, 32) =~= be64(wc));
    assert(be64_at(s, 8) == be64_at(be64(bs), 0));
    assert(be64_at(s, 16) == be64_at(be64(bc), 0));
    assert(be64_at(s, 24) == be64_at(be64(wc), 0));
    let parsed = Seq::new(ceil_div(v.block_count, 64), |i: int| be64_at(s, 32 + 8 * i));
    assert forall|i: int| 0 <= i < n implies parsed[i] == v.words[i] by {
        let w = v.words[i];
        lemma_be_decode_encode(0, 0, w);
        assert(s.subrange(32 + 8 * i, 32 + 8 * i + 8) =~= words_bytes(v.words).subrange(
            8 * i,
            8 * i + 8,
        ));
        assert(be64_at(s, 32 + 8 * i) == be64_at(be64(w), 0));
    }
    assert(parsed =~= v.words);
}

proof fn lemma_count_true_append(a: Seq<bool>, b: Seq<bool>)
    ensures
        count_true(a + b) == count_true(a) + count_true(b),
    decreases b.len(),
{
    if b.len() > 0 {
        lemma_count_true_append(a, b.drop_last());
        assert((a + b).drop_last() =~= a + b.drop_last());
    } else {
        assert(a + b =~= a);
    }
}

pub proof fn lemma_count_true_none(s: Seq<bool>)
    requires
        forall|i: int| 0 <= i < s.len() ==> !s[i],
    ensures
        count_true(s) == 0,
    decreases s.len(),
{
    if s.len() > 0 {
        lemma_count_true_none(s.drop_last());
    }
}

proof fn lemma_dirty_list_len(bits: Seq<bool>, n: nat)
    requires
        n <= bits.len(),
    ensures
        dirty_list(bits, n).len() == count_true(bits.subrange(0, n as int)),
    decreases n,
{
    if n > 0 {
        lemma_dirty_list_len(bits, (n - 1) as nat);
        assert(bits.subrange(0, n as int).drop_last() =~= bits.subrange(0, n - 1));
    }
}

/// When no bit past the last block is set, the dirty count is the number of
/// dirty blocks.
pub proof fn lemma_dirty_count_matches_blocks(v: BitmapView)
    requires
        v.wf(),
        v.tail_clear(),
    ensures
        v.dirty_count() == v.dirty_blocks().len(),
{
    lemma_wf_bits(v);
    let bits = v.bits();
    let n = v.block_count;
    lemma_dirty_list_len(bits, n);
    let head = bits.subrange(0, n as int);
    let tail = bits.subrange(n as int, bits.len() as int);
    assert(bits =~= head + tail);
    lemma_count_true_append(head, tail);
    assert forall|i: int| 0 <= i < tail.len() implies !tail[i] by {
        assert(tail[i] == bits[n + i]);
    }
    lemma_count_true_none(tail);
}

/// Clearing a range after marking it leaves the bitmap as clearing it alone
/// would have.
pub proof fn lemma_clear_undoes_mark(bits: Seq<bool>, first: int, last: int)
    ensures
        with_range(with_range(bits, first, last, true), first, last, false) == with_range(
            bits,
            first,
            last,
            false,
        ),
{
    assert(with_range(with_range(bits, first, last, true), first, last, false) =~= with_range(
        bits,
        first,
        last,
        false,
    ));
}

/// One dirty bit per block of a device.
#[derive(Debug)]
pub struct DirtyBitmap {
    block_size: u64,
    block_count: u64,
    words: Vec<u64>,
}

/// The bits of a well-formed bitmap cover every block, and at most 63 more.
pub proof fn lemma_wf_bits(v: BitmapView)
    requires
        v.wf(),
    ensures
        v.bits().len() == v.words.len() * 64,
        v.block_count <= v.bits().len() <= v.block_count + 63,
{
    lemma_ceil_div_64(v.block_count);
}

proof fn lemma_ceil_div_64(n: nat)
    ensures
        ceil_div(n, 64) * 64 >= n,
        ceil_div(n, 64) * 64 <= n + 63,
        n % 64 != 0 ==> (ceil_div(n, 64) - 1) * 64 + n % 64 == n,
        n % 64 == 0 ==> ceil_div(n, 64) * 64 == n,
{
}

impl View for DirtyBitmap {
    type V = BitmapView;

    closed spec fn view(&self) -> BitmapView {
        BitmapView {
            block_size: self.block_size as nat,
            block_count: self.block_count as nat,
            words: self.words@,
        }
    }
}

impl DirtyBitmap {
    /// A clean bitmap for a device of `device_size` bytes cut into blocks of
    /// `block_size` bytes.
    pub fn new(block_size: u64, device_size: u64) -> (bm: DirtyBitmap)
        requires
            block_size > 0,
            ceil_div(device_size as nat, block_size as nat) + 63 <= u64::MAX,
        ensures
            bm@.wf(),
            bm@.block_size == block_size,
            bm@.block_count == ceil_div(device_size as nat, block_size as nat),
            bm@.words == Seq::new(bm@.words.len(), |i: int| 0u64),
            bm@.tail_clear(),
            forall|i: int| 0 <= i < bm@.bits().len() ==> !#[trigger] bm@.bits()[i],
    {
        let block_count = div_ceil(device_size, block_size);
        let word_count = div_ceil(block_count, 64);
        let mut words: Vec<u64> = Vec::new();
        let mut i: u64 = 0;
        while i < word_count
            invariant
                i <= word_count,
                words@ == Seq::new(i as nat, |j: int| 0u64),
            decreases word_count - i,
        {
            words.push(0u64);
            i = i + 1;
            assert(words@ =~= Seq::new(i as nat, |j: int| 0u64));
        }
        let bm = DirtyBitmap { block_size, block_count, words };
        assert forall|i: int| 0 <= i < bm@.bits().len() implies !#[trigger] bm@.bits()[i] by {
            lemma_zero_bit((i % 64) as u64);
        }
        bm
    }

    /// Reads a bitmap back from its saved bytes, checking that it was saved
    /// for a device of the same geometry.
    pub fn from_bytes(bytes: &[u8], block_size: u64, device_size: u64) -> (r: Result<
        DirtyBitmap,
        BitmapError,
    >)
        requires
            block_size > 0,
            ceil_div(device_size as nat, block_size as nat) + 63 <= u64::MAX,
        ensures
            match r {
                Ok(bm) => {
                    &&& bm@.wf()
                    &&& bm@.block_size == block_size
                    &&& bm@.block_count == ceil_div(device_size as nat, block_size as nat)
                    &&& parse_bitmap(bytes@, block_size as nat, device_size as nat) == Ok::<
                        Seq<u64>,
                        BitmapError,
                    >(bm@.words)
                },
                Err(e) => parse_bitmap(bytes@, block_size as nat, device_size as nat) == Err::<
                    Seq<u64>,
                    BitmapError,
                >(e),
            },
    {
        let block_count = div_ceil(device_size, block_size);
        let word_count = div_ceil(block_count, 64);
        let n = bytes.len();
        if n < 32 {
            return Err(BitmapError::Truncated);
        }
        if !has_bitmap_magic(bytes) {
            return Err(BitmapError::BadMagic);
        }
        let stored_block_size = get_be64(bytes, 8);
        let stored_block_count = get_be64(bytes, 16);
        let stored_words = get_be64(bytes, 24);
        if stored_block_size != block_size || stored_block_count != block_count || stored_words
            != word_count {
            return Err(BitmapError::GeometryMismatch);
        }
        if ((n - 32) as u64) < 8 * word_count {
            return Err(BitmapError::Truncated);
        }
        let mut words: Vec<u64> = Vec::new();
        let mut i: u64 = 0;
        while i < word_count
            invariant
                n == bytes@.len(),
                32 + 8 * word_count <= n,
                i <= word_count,
                words@ == Seq::new(i as nat, |j: int| be64_at(bytes@, 32 + 8 * j)),
            decreases word_count - i,
        {
            let w = get_be64(bytes, (32 + 8 * i) as usize);
            words.push(w);
            i = i + 1;
            assert(words@ =~= Seq::new(i as nat, |j: int| be64_at(bytes@, 32 + 8 * j)));
        }
        Ok(DirtyBitmap { block_size, block_count, words })
    }

    /// The saved form of this bitmap.
    pub fn to_bytes(&self) -> (bytes: Vec<u8>)
        ensures
            bytes@ == bitmap_bytes(self@),
    {
        let mut out: Vec<u8> = Vec::new();
        proof {
            lemma_bitmap_magic();
        }
        let mut k: usize = 0;
        while k < 8
            invariant
                BITMAP_MAGIC@ == bitmap_magic(),
                k <= 8,
                out@ == bitmap_magic().subrange(0, k as int),
            decreases 8 - k,
        {
            out.push(BITMAP_MAGIC[k]);
            k = k + 1;
            assert(out@ =~= bitmap_magic().subrange(0, k as int));
        }
        assert(out@ =~= bitmap_magic());
        push_be64(&mut out, self.block_size);
        push_be64(&mut out, self.block_count);
        push_be64(&mut out, self.words.len() as u64);
        let ghost header = out@;
        let n = self.words.len();
        let mut i: usize = 0;
        while i < n
            invariant
                n == self@.words.len(),
                i <= n,
                out@ == header + words_bytes(self@.words.subrange(0, i as int)),
            decreases n - i,
        {
            push_be64(&mut out, self.words[i]);
            proof {
                let next = self@.words.subrange(0, i + 1);
                assert(next.drop_last() =~= self@.words.subrange(0, i as int));
            }
            i = i + 1;
        }
        proof {
            assert(self@.words.subrange(0, n as int) =~= self@.words);
            assert(out@ =~= bitmap_bytes(self@));
        }
        out
    }

    /// Size in bytes of one block.
    pub fn block_size(&self) -> (size: u64)
        ensures
            size == self@.block_size,
    {
        self.block_size
    }

    /// Number of blocks of the device.
    pub fn block_count(&self) -> (count: u64)
        ensures
            count == self@.block_count,
    {
        self.block_count
    }

    /// Number of set bits, counted over every word.
    pub fn dirty_count(&self) -> (count: u64)
        requires
            self@.wf(),
        ensures
            count == self@.dirty_count(),
    {
        proof {
            lemma_wf_bits(self@);
        }
        let total = self.words.len() as u64 * 64;
        let ghost bits = self@.bits();
        let mut count: u64 = 0;
        let mut i: u64 = 0;
        while i < total
            invariant
                self@.wf(),
                total == bits.len(),
                bits == self@.bits(),
                i <= total,
                count <= i,
                count == count_true(bits.subrange(0, i as int)),
            decreases total - i,
        {
            let d = self.is_dirty(i);
            if d {
                count = count + 1;
            }
            i = i + 1;
            assert(bits.subrange(0, i as int).drop_last() =~= bits.subrange(0, i - 1));
        }
        assert(bits.subrange(0, total as int) =~= bits);
        count
    }

    /// The dirty blocks, in ascending order.
    pub fn dirty_blocks(&self) -> (blocks: Vec<u64>)
        requires
            self@.wf(),
        ensures
            blocks@ == self@.dirty_blocks(),
    {
        proof {
            lemma_wf_bits(self@);
        }
        let mut blocks: Vec<u64> = Vec::new();
        let mut block: u64 = 0;
        while block < self.block_count
            invariant
                self@.wf(),
                self@.block_count <= self@.bits().len(),
                block <= self@.block_count,
                blocks@ == dirty_list(self@.bits(), block as nat),
            decreases self@.block_count - block,
        {
            if self.is_dirty(block) {
                blocks.push(block);
            }
            block = block + 1;
        }
        blocks
    }

    /// Marks every block dirty; bits past the last block end up clear.
    pub fn mark_all(&mut self)
        requires
            old(self)@.wf(),
        ensures
            final(self)@.wf(),
            final(self)@.block_size == old(self)@.block_size,
            final(self)@.block_count == old(self)@.block_count,
            final(self)@.words.len() == old(self)@.words.len(),
            final(self)@.bits() == Seq::new(
                old(self)@.bits().len(),
                |i: int| i < old(self)@.block_count,
            ),
            final(self)@.tail_clear(),
    {
        let n = self.words.len();
        let mut i: usize = 0;
        while i < n
            invariant
                self@.wf(),
                self@.block_size == old(self)@.block_size,
                self@.block_count == old(self)@.block_count,
                n == self@.words.len(),
                i <= n,
                forall|j: int| 0 <= j < i ==> self@.words[j] == 0xffff_ffff_ffff_ffffu64,
            decreases n - i,
        {
            self.words.set(i, 0xffff_ffff_ffff_ffffu64);
            i = i + 1;
        }
        proof {
            assert forall|k: int| 0 <= k < self@.bits().len() implies #[trigger] self@.bits()[k] by {
                assert(self@.words[k / 64] == 0xffff_ffff_ffff_ffffu64);
                lemma_full_bit((k % 64) as u64);
            }
        }
        self.mask_unused_tail_bits();
        proof {
            assert(final(self)@.bits() =~= Seq::new(
                old(self)@.bits().len(),
                |i: int| i < old(self)@.block_count,
            ));
        }
    }

    /// Marks dirty every block that the byte range `offset..offset + len`
    /// touches, up to the last block of the device.
    pub fn mark_range(&mut self, offset: u64, len: u64)
        requires
            old(self)@.wf(),
            offset + len <= u64::MAX,
        ensures
            final(self)@.wf(),
            final(self)@.block_size == old(self)@.block_size,
            final(self)@.block_count == old(self)@.block_count,
            final(self)@.words.len() == old(self)@.words.len(),
            ({
                let (first, last) = range_blocks(
                    offset as nat,
                    len as nat,
                    old(self)@.block_size,
                    old(self)@.block_count,
                );
                final(self)@.bits() == with_range(old(self)@.bits(), first as int, last as int, true)
            }),
            old(self)@.tail_clear() ==> final(self)@.tail_clear(),
    {
        self.set_range(offset, len, true);
    }

    /// Clears every block that the byte range `offset..offset + len`
    /// touches, up to the last block of the device.
    pub fn clear_range(&mut self, offset: u64, len: u64)
        requires
            old(self)@.wf(),
            offset + len <= u64::MAX,
        ensures
            final(self)@.wf(),
            final(self)@.block_size == old(self)@.block_size,
            final(self)@.block_count == old(self)@.block_count,
            final(self)@.words.len() == old(self)@.words.len(),
            ({
                let (first, last) = range_blocks(
                    offset as nat,
                    len as nat,
                    old(self)@.block_size,
                    old(self)@.block_count,
                );
                final(self)@.bits() == with_range(
                    old(self)@.bits(),
                    first as int,
                    last as int,
                    false,
                )
            }),
            old(self)@.tail_clear() ==> final(self)@.tail_clear(),
    {
        self.set_range(offset, len, false);
    }

    fn set_range(&mut self, offset: u64, len: u64, dirty: bool)
        requires
            old(self)@.wf(),
            offset + len <= u64::MAX,
        ensures
            final(self)@.wf(),
            final(self)@.block_size == old(self)@.block_size,
            final(self)@.block_count == old(self)@.block_count,
            final(self)@.words.len() == old(self)@.words.len(),
            ({
                let (first, last) = range_blocks(
                    offset as nat,
                    len as nat,
                    old(self)@.block_size,
                    old(self)@.block_count,
                );
                final(self)@.bits() == with_range(
                    old(self)@.bits(),
                    first as int,
                    last as int,
                    dirty,
                )
            }),
            old(self)@.tail_clear() ==> final(self)@.tail_clear(),
    {
        proof {
            lemma_wf_bits(self@);
        }
        let ghost old_bits = self@.bits();
        if len == 0 {
            assert(with_range(old_bits, 0, 0, dirty) =~= old_bits);
            return;
        }
        let start = offset / self.block_size;
        let end = div_ceil(offset + len, self.block_size);
        let stop = if end < self.block_count {
            end
        } else {
            self.block_count
        };
        let n = self.words.len();
        let mut block = start;
        while block < stop
            invariant
                self@.wf(),
                self@.block_size == old(self)@.block_size,
                self@.block_count == old(self)@.block_count,
                n == self@.words.len(),
                n == old(self)@.words.len(),
                old_bits == old(self)@.bits(),
                stop <= self@.block_count,
                self@.block_count <= self@.bits().len(),
                start <= block,
                block <= stop || block == start,
                self@.bits() == with_range(old_bits, start as int, block as int, dirty),
            decreases stop - block,
        {
            assert(block / 64 < n);
            let word = (block / 64) as usize;
            let bit = block % 64;
            let ghost before = self@.words;
            let old_word = self.words[word];
            let new_word = if dirty {
                old_word | (1u64 << bit)
            } else {
                old_word & !(1u64 << bit)
            };
            proof {
                assert forall|j: int| 0 <= j < 64 && j != bit implies word_bit(new_word, j)
                    == word_bit(old_word, j) by {
                    lemma_set_clear_bit(old_word, bit, j as u64);
                }
                lemma_set_clear_bit(old_word, bit, bit);
                lemma_words_bits_update(before, word as int, new_word, bit as int);
            }
            self.words.set(word, new_word);
            proof {
                assert(self@.words == before.update(word as int, new_word));
                assert(word * 64 + bit == block);
            }
            block = block + 1;
            proof {
                assert(self@.bits() =~= with_range(old_bits, start as int, block as int, dirty));
            }
        }
        proof {
            assert(self@.bits() =~= with_range(old_bits, start as int, stop as int, dirty));
        }
    }

    /// Clears the bits of the last word that lie past the last block.
    fn mask_unused_tail_bits(&mut self)
        requires
            old(self)@.wf(),
        ensures
            final(self)@.wf(),
            final(self)@.block_size == old(self)@.block_size,
            final(self)@.block_count == old(self)@.block_count,
            final(self)@.words.len() == old(self)@.words.len(),
            final(self)@.bits() == Seq::new(
                old(self)@.bits().len(),
                |i: int| old(self)@.bits()[i] && i < old(self)@.block_count,
            ),
    {
        proof {
            lemma_wf_bits(self@);
            lemma_ceil_div_64(self@.block_count as nat);
        }
        let ghost old_bits = self@.bits();
        let used_tail = self.block_count % 64;
        if used_tail == 0 || self.words.len() == 0 {
            assert(old_bits =~= Seq::new(
                old_bits.len(),
                |i: int| old_bits[i] && i < old(self)@.block_count,
            ));
            return;
        }
        assert(1u64 << used_tail >= 1u64) by (bit_vector)
            requires
                used_tail < 64,
        ;
        let mask = (1u64 << used_tail) - 1;
        let last = self.words.len() - 1;
        let old_word = self.words[last];
        let new_word = old_word & mask;
        self.words.set(last, new_word);
        proof {
            let ws = old(self)@.words;
            assert forall|i: int| 0 <= i < old_bits.len() implies #[trigger] self@.bits()[i] == (
            old_bits[i] && i < old(self)@.block_count) by {
                if i / 64 == last {
                    lemma_mask_bit(old_word, used_tail, (i % 64) as u64);
                    assert(i == last * 64 + i % 64);
                }
            }
            assert(self@.bits() =~= Seq::new(
                old_bits.len(),
                |i: int| old_bits[i] && i < old(self)@.block_count,
            ));
        }
    }

    /// Whether the bit of `block` is set.
    fn is_dirty(&self, block: u64) -> (dirty: bool)
        requires
            self@.wf(),
            block < self@.bits().len(),
        ensures
            dirty == self@.dirty(block as int),
    {
        let n = self.words.len();
        assert(block / 64 < n);
        let word = (block / 64) as usize;
        let bit = block % 64;
        proof {
            lemma_bit_test(self.words@[word as int], bit);
            assert(self@.bits()[block as int] == word_bit(self.words@[word as int], bit as int));
        }
        (self.words[word] & (1u64 << bit)) != 0
    }
}

proof fn lemma_set_clear_bit(x: u64, b: u64, j: u64)
    by (bit_vector)
    requires
        b < 64,
        j < 64,
    ensures
        (((x | (1u64 << b)) >> j) & 1u64 == 1u64) == (j == b || (x >> j) & 1u64 == 1u64),
        (((x & !(1u64 << b)) >> j) & 1u64 == 1u64) == (j != b && (x >> j) & 1u64 == 1u64),
{
}

proof fn lemma_mask_bit(x: u64, t: u64, j: u64)
    by (bit_vector)
    requires
        0 < t < 64,
        j < 64,
    ensures
        (((x & (((1u64 << t) - 1u64) as u64)) >> j) & 1u64 == 1u64) == (j < t && (x >> j) & 1u64 == 1u64),
{
}

proof fn lemma_full_bit(j: u64)
    by (bit_vector)
    requires
        j < 64,
    ensures
        (0xffff_ffff_ffff_ffffu64 >> j) & 1u64 == 1u64,
{
}

/// Replacing word `k` by a word that differs from it at most in bit `b`
/// changes the bits at most at position `64 * k + b`.
proof fn lemma_words_bits_update(ws: Seq<u64>, k: int, nw: u64, b: int)
    requires
        0 <= k < ws.len(),
        0 <= b < 64,
        forall|j: int| 0 <= j < 64 && j != b ==> word_bit(nw, j) == word_bit(ws[k], j),
    ensures
        words_bits(ws.update(k, nw)) == words_bits(ws).update(k * 64 + b, word_bit(nw, b)),
{
    let l = words_bits(ws.update(k, nw));
    let r = words_bits(ws).update(k * 64 + b, word_bit(nw, b));
    assert forall|i: int| 0 <= i < l.len() implies l[i] == r[i] by {
        if i / 64 == k {
            assert(i == k * 64 + i % 64);
        } else {
            assert(i != k * 64 + b);
        }
    }
    assert(l =~= r);
}

proof fn lemma_zero_bit(b: u64)
    by (bit_vector)
    requires
        b < 64,
    ensures
        (0u64 >> b) & 1u64 != 1u64,
{
}

proof fn lemma_bit_test(w: u64, b: u64)
    by (bit_vector)
    requires
        b < 64,
    ensures
        ((w & (1u64 << b)) != 0) == ((w >> b) & 1u64 == 1u64),
{
}

} // verus!
