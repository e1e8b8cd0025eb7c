use vstd::prelude::*;
use vstd::std_specs::bits::axiom_u64_trailing_ones;
use vstd::bytes::{
    spec_u64_to_le_bytes, spec_u64_to_le_bytes_open, spec_u64_to_le_bytes_to_open, spec_u64_from_le_bytes, lemma_auto_spec_u64_to_from_le_bytes,
    u64_from_le_bytes, u64_to_le_bytes,
};
use vstd::slice::slice_subrange;
use crate::block_dev::BlockDevice;

verus! {

/// Size of a disk block in bytes.
pub const BLOCK_SZ: usize = 512;

/// Number of bits held by one bitmap block.
pub const BLOCK_BITS: usize = 4096;

/// Number of 64-bit words in one bitmap block.
pub const BLOCK_WORDS: usize = 64;

/// A bitmap block: 512 bytes seen as 64 words of 64 bits.
pub type BitmapBlock = [u64; 64];

/// Whether bit `i` (counting from the least significant bit) of `word` is set.
pub open spec fn word_bit(word: u64, i: int) -> bool {
    (word >> (i as u64)) & 1u64 == 1u64
}

/// Bit `pos` of a block: bit `pos % 64` of word `pos / 64`.
pub open spec fn block_bit(block: Seq<u64>, pos: int) -> bool {
    word_bit(block[pos / 64], pos % 64)
}

/// Every bit of the block is set.
pub open spec fn block_full(block: Seq<u64>) -> bool {
    forall|q: int| 0 <= q < BLOCK_BITS ==> #[trigger] block_bit(block, q)
}

/// `pos` is the lowest clear bit of the block.
pub open spec fn lowest_clear(block: Seq<u64>, pos: int) -> bool {
    &&& 0 <= pos < BLOCK_BITS
    &&& !block_bit(block, pos)
    &&& forall|q: int| 0 <= q < pos ==> #[trigger] block_bit(block, q)
}

/// The block with bit `pos` set.
pub open spec fn set_bit(block: Seq<u64>, pos: int) -> Seq<u64> {
    block.update(pos / 64, block[pos / 64] | (1u64 << ((pos % 64) as u64)))
}

/// The block with bit `pos` (which is set) cleared.
pub open spec fn clear_bit(block: Seq<u64>, pos: int) -> Seq<u64> {
    block.update(pos / 64, (block[pos / 64] - (1u64 << ((pos % 64) as u64))) as u64)
}

proof fn lemma_word_or(x: u64, b: u64, c: u64)
    requires
        b < 64,
        c < 64,
    ensures
        ((x | (1u64 << b)) >> b) & 1u64 == 1u64,
        c != b ==> ((x | (1u64 << b)) >> c) & 1u64 == (x >> c) & 1u64,
        (x >> b) & 1u64 == 0u64 ==> (x | (1u64 << b)) - (1u64 << b) == x,
{
    assert(((x | (1u64 << b)) >> b) & 1u64 == 1u64) by (bit_vector)
        requires b < 64;
    assert(c != b ==> ((x | (1u64 << b)) >> c) & 1u64 == (x >> c) & 1u64) by (bit_vector)
        requires b < 64, c < 64;
    assert((x >> b) & 1u64 == 0u64 ==> (x | (1u64 << b)) - (1u64 << b) == x) by (bit_vector)
        requires b < 64;
}

proof fn lemma_word_sub(x: u64, b: u64, c: u64)
    requires
        b < 64,
        c < 64,
        (x >> b) & 1u64 == 1u64,
    ensures
        x >= (1u64 << b),
        x & (1u64 << b) > 0,
        ((x - (1u64 << b)) as u64 >> b) & 1u64 == 0u64,
        c != b ==> ((x - (1u64 << b)) as u64 >> c) & 1u64 == (x >> c) & 1u64,
        ((x - (1u64 << b)) as u64 | (1u64 << b)) == x,
{
    assert(x >= (1u64 << b) && x & (1u64 << b) > 0) by (bit_vector)
        requires b < 64, (x >> b) & 1u64 == 1u64;
    assert(((x - (1u64 << b)) as u64 >> b) & 1u64 == 0u64) by (bit_vector)
        requires b < 64, (x >> b) & 1u64 == 1u64;
    assert(c != b ==> ((x - (1u64 << b)) as u64 >> c) & 1u64 == (x >> c) & 1u64) by (bit_vector)
        requires b < 64, c < 64, (x >> b) & 1u64 == 1u64;
    assert(((x - (1u64 << b)) as u64 | (1u64 << b)) == x) by (bit_vector)
        requires b < 64, (x >> b) & 1u64 == 1u64;
}

proof fn lemma_bit_01(x: u64, b: u64)
    ensures
        (x >> b) & 1u64 == 0u64 || (x >> b) & 1u64 == 1u64,
{
    assert((x >> b) & 1u64 == 0u64 || (x >> b) & 1u64 == 1u64) by (bit_vector);
}

proof fn lemma_word_clear_test(x: u64, b: u64)
    requires
        b < 64,
        (x >> b) & 1u64 == 0u64,
    ensures
        x & (1u64 << b) == 0,
{
    assert(x & (1u64 << b) == 0) by (bit_vector)
        requires b < 64, (x >> b) & 1u64 == 0u64;
}

proof fn lemma_full_word(b: u64)
    requires
        b < 64,
    ensures
        (0xffff_ffff_ffff_ffffu64 >> b) & 1u64 == 1u64,
{
    assert((0xffff_ffff_ffff_ffffu64 >> b) & 1u64 == 1u64) by (bit_vector)
        requires b < 64;
}

/// Setting bit `pos` changes that bit alone.
pub proof fn lemma_set_bit_only(block: Seq<u64>, pos: int)
    requires
        block.len() == BLOCK_WORDS,
        0 <= pos < BLOCK_BITS,
    ensures
        set_bit(block, pos).len() == BLOCK_WORDS,
        forall|q: int|
            0 <= q < BLOCK_BITS ==> #[trigger] block_bit(set_bit(block, pos), q) == (q == pos
                || block_bit(block, q)),
{
    let nb = set_bit(block, pos);
    assert forall|q: int| 0 <= q < BLOCK_BITS implies #[trigger] block_bit(nb, q) == (q == pos
        || block_bit(block, q)) by {
        if q / 64 == pos / 64 {
            lemma_word_or(block[pos / 64], (pos % 64) as u64, (q % 64) as u64);
        }
    }
}

/// Clearing a set bit `pos` changes that bit alone.
pub proof fn lemma_clear_bit_only(block: Seq<u64>, pos: int)
    requires
        block.len() == BLOCK_WORDS,
        0 <= pos < BLOCK_BITS,
        block_bit(block, pos),
    ensures
        clear_bit(block, pos).len() == BLOCK_WORDS,
        forall|q: int|
            0 <= q < BLOCK_BITS ==> #[trigger] block_bit(clear_bit(block, pos), q) == (q != pos
                && block_bit(block, q)),
{
    let nb = clear_bit(block, pos);
    assert forall|q: int| 0 <= q < BLOCK_BITS implies #[trigger] block_bit(nb, q) == (q != pos
        && block_bit(block, q)) by {
        if q / 64 == pos / 64 {
            lemma_word_sub(block[pos / 64], (pos % 64) as u64, (q % 64) as u64);
        }
    }
}

/// Freeing the bit that an allocation set gives back the block as it was.
pub proof fn lemma_set_then_clear(block: Seq<u64>, pos: int)
    requires
        block.len() == BLOCK_WORDS,
        0 <= pos < BLOCK_BITS,
        !block_bit(block, pos),
    ensures
        block_bit(set_bit(block, pos), pos),
        clear_bit(set_bit(block, pos), pos) == block,
{
    lemma_bit_01(block[pos / 64], (pos % 64) as u64);
    lemma_word_or(block[pos / 64], (pos % 64) as u64, (pos % 64) as u64);
    assert(clear_bit(set_bit(block, pos), pos) =~= block);
}

/// Setting again a bit that was just freed gives back the block as it was.
pub proof fn lemma_clear_then_set(block: Seq<u64>, pos: int)
    requires
        block.len() == BLOCK_WORDS,
        0 <= pos < BLOCK_BITS,
        block_bit(block, pos),
    ensures
        !block_bit(clear_bit(block, pos), pos),
        set_bit(clear_bit(block, pos), pos) == block,
{
    lemma_word_sub(block[pos / 64], (pos % 64) as u64, (pos % 64) as u64);
    assert(set_bit(clear_bit(block, pos), pos) =~= block);
}

/// Takes the lowest clear bit of a bitmap block and sets it; gives its index
/// inside the block, or `None` (and leaves the block alone) when the block is
/// full.
pub fn alloc_in_block(block: &mut BitmapBlock) -> (r: Option<usize>)
    ensures
        match r {
            None => block_full(old(block)@) && final(block)@ == old(block)@,
            Some(pos) => lowest_clear(old(block)@, pos as int) && final(block)@ == set_bit(
                old(block)@,
                pos as int,
            ),
        },
{
    let mut i: usize = 0;
    while i < BLOCK_WORDS
        invariant
            i <= BLOCK_WORDS,
            block@ == old(block)@,
            forall|j: int| 0 <= j < i ==> block@[j] == u64::MAX,
        decreases BLOCK_WORDS - i,
    {
        let word = block[i];
        if word != u64::MAX {
            let t = word.trailing_ones();
            proof {
                axiom_u64_trailing_ones(word);
            }
            let inner = t as u64;
            block[i] = word | (1u64 << inner);
            let pos = i * 64 + t as usize;
            proof {
                let ob = old(block)@;
                assert(pos / 64 == i && pos % 64 == inner);
                assert(!block_bit(ob, pos as int)) by {
                    assert((word >> inner) & 1u64 == 0u64);
                }
                assert forall|q: int| 0 <= q < pos implies #[trigger] block_bit(ob, q) by {
                    if q / 64 < i {
                        lemma_full_word((q % 64) as u64);
                    } else {
                        assert(q / 64 == i);
                        assert((q % 64) < inner);
                        let jj = (q % 64) as u64;
                        assert((word >> jj) & 1u64 == 1u64);
                    }
                }
                assert(block@ =~= set_bit(ob, pos as int));
            }
            return Some(pos);
        }
        i = i + 1;
    }
    proof {
        assert forall|q: int| 0 <= q < BLOCK_BITS implies #[trigger] block_bit(old(block)@, q) by {
            lemma_full_word((q % 64) as u64);
        }
    }
    None
}

/// Clears bit `pos` of a bitmap block. Gives `true` when the bit was set;
/// when it was already clear the block is left alone and `false` comes back.
pub fn dealloc_in_block(block: &mut BitmapBlock, pos: usize) -> (r: bool)
    requires
        pos < BLOCK_BITS,
    ensures
        r == block_bit(old(block)@, pos as int),
        r ==> final(block)@ == clear_bit(old(block)@, pos as int),
        !r ==> final(block)@ == old(block)@,
{
    let w = pos / 64;
    let b = (pos % 64) as u64;
    let word = block[w];
    let mask = 1u64 << b;
    if word & mask > 0 {
        proof {
            lemma_bit_01(word, b);
            if (word >> b) & 1u64 == 0u64 {
                lemma_word_clear_test(word, b);
            }
            lemma_word_sub(word, b, b);
        }
        block[w] = word - mask;
        proof {
            assert(block@ =~= clear_bit(old(block)@, pos as int));
        }
        true
    } else {
        proof {
            if (word >> b) & 1u64 == 1u64 {
                lemma_word_sub(word, b, b);
            }
        }
        false
    }
}

/// The 512 bytes that store a bitmap block on disk: each word in
/// little-endian byte order, word 0 first.
pub open spec fn block_bytes(block: Seq<u64>) -> Seq<u8> {
    Seq::new(BLOCK_SZ as nat, |k: int| spec_u64_to_le_bytes(block[k / 8])[k % 8])
}

/// The words that 512 bytes of disk hold as a bitmap block.
pub open spec fn block_words(bytes: Seq<u8>) -> Seq<u64> {
    Seq::new(BLOCK_WORDS as nat, |i: int| spec_u64_from_le_bytes(bytes.subrange(8 * i, 8 * i + 8)))
}

/// Reading back the bytes that store a block gives the same block.
pub proof fn lemma_block_bytes_roundtrip(block: Seq<u64>)
    requires
        block.len() == BLOCK_WORDS,
    ensures
        block_bytes(block).len() == BLOCK_SZ,
        block_words(block_bytes(block)) == block,
{
    lemma_auto_spec_u64_to_from_le_bytes();
    let bytes = block_bytes(block);
    assert forall|i: int| 0 <= i < BLOCK_WORDS implies #[trigger] block_words(bytes)[i]
        == block[i] by {
        assert(bytes.subrange(8 * i, 8 * i + 8) =~= spec_u64_to_le_bytes(block[i]));
    }
    assert(block_words(bytes) =~= block);
}

/// Encoding the words that 512 bytes hold gives back those bytes.
pub proof fn lemma_block_words_roundtrip(bytes: Seq<u8>)
    requires
        bytes.len() == BLOCK_SZ,
    ensures
        block_words(bytes).len() == BLOCK_WORDS,
        block_bytes(block_words(bytes)) == bytes,
{
    lemma_auto_spec_u64_to_from_le_bytes();
    let w = block_words(bytes);
    assert forall|k: int| 0 <= k < BLOCK_SZ implies #[trigger] block_bytes(w)[k] == bytes[k] by {
        let i = k / 8;
        let part = bytes.subrange(8 * i, 8 * i + 8);
        assert(spec_u64_to_le_bytes(spec_u64_from_le_bytes(part)) == part);
        assert(part[k % 8] == bytes[k]);
    }
    assert(block_bytes(w) =~= bytes);
}

/// Bit `i` (0..8, from the least significant) of byte `b`.
pub open spec fn byte_bit(b: u8, i: int) -> bool {
    (b >> (i as u8)) & 1u8 == 1u8
}

proof fn lemma_shifted_byte_bit(x: u64, c: u64, j: u64)
    requires
        c <= 56,
        j < 8,
    ensures
        ((((x >> c) & 0xff) as u8 >> (j as u8)) & 1u8 == 1u8) == ((x >> (c + j) as u64) & 1u64
            == 1u64),
{
    assert(((((x >> c) & 0xff) as u8 >> (j as u8)) & 1u8 == 1u8) == ((x >> (c + j) as u64) & 1u64
        == 1u64)) by (bit_vector)
        requires
            c <= 56,
            j < 8,
    ;
}

/// Bit `j` of byte `m` of a word's little-endian encoding is bit `8m + j`
/// of the word.
pub proof fn lemma_le_byte_bit(x: u64, m: int, j: int)
    requires
        0 <= m < 8,
        0 <= j < 8,
    ensures
        byte_bit(spec_u64_to_le_bytes(x)[m], j) == word_bit(x, 8 * m + j),
{
    spec_u64_to_le_bytes_to_open(x);
    let o = spec_u64_to_le_bytes_open(x);
    assert(o[m] == ((x >> ((8 * m) as u64)) & 0xff) as u8) by {
        if m == 0 {
            assert(x >> 0u64 == x) by (bit_vector);
        }
    }
    lemma_shifted_byte_bit(x, (8 * m) as u64, j as u64);
}

/// The on-disk layout of a bitmap block: bit `k` of the block is bit
/// `k % 8` of byte `k / 8` of the 512 bytes that store it.
pub proof fn lemma_block_bit_is_disk_bit(bytes: Seq<u8>, k: int)
    requires
        bytes.len() == BLOCK_SZ,
        0 <= k < BLOCK_BITS,
    ensures
        block_bit(block_words(bytes), k) == byte_bit(bytes[k / 8], k % 8),
{
    let w = block_words(bytes);
    lemma_block_words_roundtrip(bytes);
    assert(block_bytes(w)[k / 8] == bytes[k / 8]);
    assert((k / 8) / 8 == k / 64 && (k / 8) % 8 == (k % 64) / 8 && k % 8 == (k % 64) % 8
        && 8 * ((k % 64) / 8) + (k % 64) % 8 == k % 64);
    lemma_le_byte_bit(w[k / 64], (k % 64) / 8, k % 8);
}

/// Writing a block to disk stores bit `k` of the block as bit `k % 8` of
/// byte `k / 8`.
pub proof fn lemma_disk_bit_is_block_bit(block: Seq<u64>, k: int)
    requires
        block.len() == BLOCK_WORDS,
        0 <= k < BLOCK_BITS,
    ensures
        byte_bit(block_bytes(block)[k / 8], k % 8) == block_bit(block, k),
{
    lemma_block_bytes_roundtrip(block);
    lemma_block_bit_is_disk_bit(block_bytes(block), k);
}

/// A block freshly read from disk, with a clear bit set by an allocation
/// and written back, then read again, freed and written back, holds the
/// bytes it held at first.
pub proof fn lemma_free_after_allocate_restores_block(bytes: Seq<u8>, pos: int)
    requires
        bytes.len() == BLOCK_SZ,
        0 <= pos < BLOCK_BITS,
        !block_bit(block_words(bytes), pos),
    ensures
        block_bit(block_words(block_bytes(set_bit(block_words(bytes), pos))), pos),
        block_bytes(clear_bit(block_words(block_bytes(set_bit(block_words(bytes), pos))), pos))
            == bytes,
{
    let w = block_words(bytes);
    lemma_block_words_roundtrip(bytes);
    lemma_set_bit_only(w, pos);
    lemma_block_bytes_roundtrip(set_bit(w, pos));
    lemma_set_then_clear(w, pos);
}

/// Encodes a bitmap block as the bytes that store it.
pub fn block_to_bytes(block: &BitmapBlock) -> (bytes: Vec<u8>)
    ensures
        bytes@ == block_bytes(block@),
{
    let mut bytes: Vec<u8> = Vec::new();
    let mut i: usize = 0;
    proof {
        lemma_auto_spec_u64_to_from_le_bytes();
    }
    while i < BLOCK_WORDS
        invariant
            i <= BLOCK_WORDS,
            bytes@.len() == 8 * i,
            forall|k: int|
                0 <= k < 8 * i ==> #[trigger] bytes@[k] == spec_u64_to_le_bytes(block@[k / 8])[k
                    % 8],
            forall|x: u64| #[trigger] spec_u64_to_le_bytes(x).len() == 8,
        decreases BLOCK_WORDS - i,
    {
        let mut word_bytes = u64_to_le_bytes(block[i]);
        let ghost before = bytes@;
        bytes.append(&mut word_bytes);
        proof {
            assert forall|k: int| 0 <= k < 8 * (i + 1) implies #[trigger] bytes@[k]
                == spec_u64_to_le_bytes(block@[k / 8])[k % 8] by {
                if k >= 8 * i {
                    assert(k / 8 == i);
                }
            }
        }
        i = i + 1;
    }
    assert(bytes@ =~= block_bytes(block@));
    bytes
}

/// Decodes the 512 bytes that store a bitmap block.
pub fn block_from_bytes(bytes: &[u8]) -> (block: BitmapBlock)
    requires
        bytes@.len() == BLOCK_SZ,
    ensures
        block@ == block_words(bytes@),
{
    let mut block: BitmapBlock = [0u64; 64];
    let mut i: usize = 0;
    while i < BLOCK_WORDS
        invariant
            i <= BLOCK_WORDS,
            bytes@.len() == BLOCK_SZ,
            block@.len() == BLOCK_WORDS,
            forall|j: int| 0 <= j < i ==> #[trigger] block@[j] == block_words(bytes@)[j],
        decreases BLOCK_WORDS - i,
    {
        let part = slice_subrange(bytes, 8 * i, 8 * i + 8);
        block[i] = u64_from_le_bytes(part);
        i = i + 1;
    }
    assert(block@ =~= block_words(bytes@));
    block
}

/// The bit that `Bitmap::allocate` reports for position `pos` of bitmap
/// block `block_id` splits back into that block, word and bit.
pub proof fn lemma_position_decomposes(block_id: int, pos: int)
    requires
        0 <= block_id,
        0 <= pos < BLOCK_BITS,
    ensures
        (block_id * 4096 + pos) / 4096 == block_id,
        ((block_id * 4096 + pos) % 4096) / 64 == pos / 64,
        ((block_id * 4096 + pos) % 4096) % 64 == pos % 64,
{
    assert((block_id * 4096 + pos) / 4096 == block_id && (block_id * 4096 + pos) % 4096 == pos)
        by (nonlinear_arith)
        requires
            0 <= block_id,
            0 <= pos < 4096,
    ;
}

/// Splits a bit number into (block index, word index inside the block,
/// bit index inside the word).
pub fn decomposition(bit: usize) -> (r: (usize, usize, usize))
    ensures
        r.0 == bit / BLOCK_BITS,
        r.1 == (bit % BLOCK_BITS) / 64,
        r.2 == (bit % BLOCK_BITS) % 64,
{
    let block_pos = bit / BLOCK_BITS;
    let rest = bit % BLOCK_BITS;
    (block_pos, rest / 64, rest % 64)
}

/// A bit number is recovered from its decomposition, and each part stays in
/// its range.
pub proof fn lemma_decomposition_inverse(bit: int)
    requires
        0 <= bit,
    ensures
        (bit % 4096) / 64 < 64,
        (bit % 4096) % 64 < 64,
        (bit / 4096) * 4096 + ((bit % 4096) / 64) * 64 + (bit % 4096) % 64 == bit,
{
}

/// Bit `k` of a bitmap made of `blocks`: bit `k % 4096` of block `k / 4096`.
pub open spec fn bitmap_bit(blocks: Seq<Seq<u64>>, k: int) -> bool {
    block_bit(blocks[k / 4096], k % 4096)
}

/// Every block of the bitmap has its 64 words.
pub open spec fn bitmap_wf(blocks: Seq<Seq<u64>>) -> bool {
    forall|i: int| 0 <= i < blocks.len() ==> #[trigger] blocks[i].len() == BLOCK_WORDS
}

/// `k` is the lowest clear bit of the whole bitmap.
pub open spec fn bitmap_lowest_clear(blocks: Seq<Seq<u64>>, k: int) -> bool {
    &&& 0 <= k < blocks.len() * 4096
    &&& !bitmap_bit(blocks, k)
    &&& forall|j: int| 0 <= j < k ==> #[trigger] bitmap_bit(blocks, j)
}

/// The bitmap with bit `k` set.
pub open spec fn bitmap_set(blocks: Seq<Seq<u64>>, k: int) -> Seq<Seq<u64>> {
    blocks.update(k / 4096, set_bit(blocks[k / 4096], k % 4096))
}

/// The bitmap with bit `k` (which is set) cleared.
pub open spec fn bitmap_clear(blocks: Seq<Seq<u64>>, k: int) -> Seq<Seq<u64>> {
    blocks.update(k / 4096, clear_bit(blocks[k / 4096], k % 4096))
}

/// First fit across blocks: when the blocks before block `b` are full, the
/// lowest clear bit `pos` of block `b` is bit `b * 4096 + pos`, the lowest
/// clear bit of the whole bitmap.
pub proof fn lemma_first_fit(blocks: Seq<Seq<u64>>, b: int, pos: int)
    requires
        bitmap_wf(blocks),
        0 <= b < blocks.len(),
        forall|i: int| 0 <= i < b ==> #[trigger] block_full(blocks[i]),
        lowest_clear(blocks[b], pos),
    ensures
        bitmap_lowest_clear(blocks, b * 4096 + pos),
{
    let k = b * 4096 + pos;
    lemma_position_decomposes(b, pos);
    assert(k < blocks.len() * 4096) by (nonlinear_arith)
        requires
            k == b * 4096 + pos,
            pos < 4096,
            b < blocks.len(),
    ;
    assert forall|j: int| 0 <= j < k implies #[trigger] bitmap_bit(blocks, j) by {
        assert(j / 4096 <= b && (j / 4096 == b ==> j % 4096 < pos)) by (nonlinear_arith)
            requires
                0 <= j < b * 4096 + pos,
                0 <= pos < 4096,
                0 <= b,
        ;
        if j / 4096 < b {
            assert(block_full(blocks[j / 4096]));
            assert(block_bit(blocks[j / 4096], j % 4096));
        }
    }
}

/// When every block is full, no bit of the bitmap is clear.
pub proof fn lemma_all_full(blocks: Seq<Seq<u64>>)
    requires
        forall|i: int| 0 <= i < blocks.len() ==> #[trigger] block_full(blocks[i]),
    ensures
        forall|k: int| 0 <= k < blocks.len() * 4096 ==> #[trigger] bitmap_bit(blocks, k),
{
    assert forall|k: int| 0 <= k < blocks.len() * 4096 implies #[trigger] bitmap_bit(blocks, k) by {
        assert(k / 4096 < blocks.len()) by (nonlinear_arith)
            requires
                0 <= k < blocks.len() * 4096,
        ;
        assert(block_full(blocks[k / 4096]));
        assert(block_bit(blocks[k / 4096], k % 4096));
    }
}

/// Setting the lowest clear bit leaves every bit up to it set, so the next
/// first-fit allocation gives a larger bit.
pub proof fn lemma_next_allocation_larger(blocks: Seq<Seq<u64>>, k: int, k2: int)
    requires
        bitmap_wf(blocks),
        bitmap_lowest_clear(blocks, k),
        bitmap_lowest_clear(bitmap_set(blocks, k), k2),
    ensures
        k2 > k,
{
    let nb = bitmap_set(blocks, k);
    assert(k / 4096 < blocks.len()) by (nonlinear_arith)
        requires
            0 <= k < blocks.len() * 4096,
    ;
    lemma_set_bit_only(blocks[k / 4096], k % 4096);
    if k2 <= k {
        if k2 / 4096 == k / 4096 {
            if k2 < k {
                assert(bitmap_bit(blocks, k2));
            }
            assert(block_bit(nb[k2 / 4096], k2 % 4096));
        } else {
            assert(bitmap_bit(blocks, k2));
            assert(nb[k2 / 4096] == blocks[k2 / 4096]);
        }
        assert(false);
    }
}

/// Freeing the bit that an allocation set gives back the bitmap as it was.
pub proof fn lemma_bitmap_set_then_clear(blocks: Seq<Seq<u64>>, k: int)
    requires
        bitmap_wf(blocks),
        0 <= k < blocks.len() * 4096,
        !bitmap_bit(blocks, k),
    ensures
        bitmap_bit(bitmap_set(blocks, k), k),
        bitmap_clear(bitmap_set(blocks, k), k) == blocks,
{
    assert(k / 4096 < blocks.len()) by (nonlinear_arith)
        requires
            0 <= k < blocks.len() * 4096,
    ;
    lemma_set_then_clear(blocks[k / 4096], k % 4096);
    assert(bitmap_clear(bitmap_set(blocks, k), k) =~= blocks);
}

/// One step of first-fit allocation on bitmap block `block_id`: takes the
/// lowest clear bit of the block and sets it, giving its number in the whole
/// bitmap (`block_id * 4096` plus its place in the block); `None`, with the
/// block left alone, when the block is full.
pub fn alloc_at(block_id: usize, block: &mut BitmapBlock) -> (r: Option<usize>)
    requires
        block_id * BLOCK_BITS + BLOCK_BITS <= usize::MAX,
    ensures
        match r {
            None => block_full(old(block)@) && final(block)@ == old(block)@,
            Some(bit) => {
                &&& bit / BLOCK_BITS == block_id
                &&& lowest_clear(old(block)@, (bit % BLOCK_BITS) as int)
                &&& final(block)@ == set_bit(old(block)@, (bit % BLOCK_BITS) as int)
            },
        },
{
    match alloc_in_block(block) {
        Some(pos) => {
            proof {
                lemma_position_decomposes(block_id as int, pos as int);
            }
            Some(block_id * BLOCK_BITS + pos)
        },
        None => None,
    }
}

/// One step of freeing bit `bit` of the whole bitmap, on the block that holds
/// it: clears bit `bit % 4096` of that block. Gives `true` when the bit was
/// set; when it was already clear the block is left alone and `false` comes
/// back.
pub fn dealloc_at(bit: usize, block: &mut BitmapBlock) -> (r: bool)
    ensures
        r == block_bit(old(block)@, (bit % BLOCK_BITS) as int),
        r ==> final(block)@ == clear_bit(old(block)@, (bit % BLOCK_BITS) as int),
        !r ==> final(block)@ == old(block)@,
{
    let (_block_pos, bits64_pos, inner_pos) = decomposition(bit);
    dealloc_in_block(block, bits64_pos * 64 + inner_pos)
}

/// A bitmap stored in a run of consecutive disk blocks.
pub struct Bitmap {
    /// The first block of the bitmap.
    start_block_id: usize,
    /// How many blocks the bitmap spans.
    blocks: usize,
}

impl Bitmap {
    /// The first block of the bitmap.
    pub closed spec fn start_block(&self) -> nat {
        self.start_block_id as nat
    }

    /// How many blocks the bitmap spans.
    pub closed spec fn block_count(&self) -> nat {
        self.blocks as nat
    }

    /// The number of bits the bitmap holds.
    pub open spec fn capacity(&self) -> nat {
        self.block_count() * BLOCK_BITS as nat
    }

    /// A bitmap over `blocks` blocks that starts at block `start_block_id`.
    pub fn new(start_block_id: usize, blocks: usize) -> (r: Self)
        ensures
            r.start_block() == start_block_id,
            r.block_count() == blocks,
    {
        Self { start_block_id, blocks }
    }

    /// The number of bits the bitmap can hand out.
    pub fn maximum(&self) -> (r: usize)
        requires
            self.capacity() <= usize::MAX,
        ensures
            r == self.capacity(),
    {
        self.blocks * BLOCK_BITS
    }

    /// The device block that holds bitmap block `block_id`.
    fn device_block(&self, block_id: usize) -> (r: usize)
        requires
            self.start_block() + block_id <= usize::MAX,
        ensures
            r == self.start_block() + block_id,
    {
        self.start_block_id + block_id
    }

    /// The bitmap blocks as the device holds them, each decoded into words.
    pub open spec fn blocks_on<D: BlockDevice + ?Sized>(&self, block_device: &D) -> Seq<Seq<u64>> {
        Seq::new(
            self.block_count(),
            |i: int| block_words(block_device.block_contents((self.start_block() + i) as usize)),
        )
    }

    /// Bit `k` of the bitmap as the device holds it is bit `k % 8` of byte
    /// `(k % 4096) / 8` of device block `start + k / 4096`.
    pub proof fn lemma_bitmap_bit_on_disk<D: BlockDevice + ?Sized>(&self, block_device: &D, k: int)
        requires
            0 <= k < self.capacity(),
            block_device.block_contents((self.start_block() + k / 4096) as usize).len()
                == BLOCK_SZ,
        ensures
            bitmap_bit(self.blocks_on(block_device), k) == byte_bit(
                block_device.block_contents((self.start_block() + k / 4096) as usize)[(k % 4096)
                    / 8],
                k % 8,
            ),
    {
        assert(k / 4096 < self.block_count()) by (nonlinear_arith)
            requires
                0 <= k < self.capacity(),
                self.capacity() == self.block_count() * 4096,
        ;
        assert((k % 4096) % 8 == k % 8);
        lemma_block_bit_is_disk_bit(
            block_device.block_contents((self.start_block() + k / 4096) as usize),
            k % 4096,
        );
    }

    /// Reads bitmap block `block_id` (counted from the start of the bitmap)
    /// from device block `start + block_id`.
    fn read_bitmap_block<D: BlockDevice + ?Sized>(&self, block_device: &D, block_id: usize) -> (r:
        BitmapBlock)
        requires
            block_id < self.block_count(),
            self.start_block() + self.block_count() <= usize::MAX,
        ensures
            r@ == self.blocks_on(block_device)[block_id as int],
            block_device.block_contents((self.start_block() + block_id) as usize).len() == BLOCK_SZ,
    {
        let mut buf: Vec<u8> = vec![0u8; BLOCK_SZ];
        let device_block = self.device_block(block_id);
        block_device.read_block(device_block, buf.as_mut_slice());
        block_from_bytes(buf.as_slice())
    }

    /// Writes bitmap block `block_id` (counted from the start of the bitmap)
    /// to device block `start + block_id`; other device blocks keep their
    /// bytes.
    fn write_bitmap_block<D: BlockDevice + ?Sized>(
        &self,
        block_device: &mut D,
        block_id: usize,
        block: &BitmapBlock,
    )
        requires
            block_id < self.block_count(),
            self.start_block() + self.block_count() <= usize::MAX,
        ensures
            final(block_device).block_contents((self.start_block() + block_id) as usize)
                == block_bytes(block@),
            forall|j: usize|
                j != self.start_block() + block_id ==> #[trigger] final(block_device).block_contents(j) == old(block_device).block_contents(j),
    {
        let bytes = block_to_bytes(block);
        let device_block = self.device_block(block_id);
        block_device.write_block(device_block, bytes.as_slice());
    }

    /// Finds the first clear bit, block by block from the start of the
    /// bitmap, sets it on the device and gives its number; `None`, with
    /// nothing written, when every bit is set.
    pub fn allocate<D: BlockDevice + ?Sized>(&self, block_device: &mut D) -> (r: Option<usize>)
        requires
            self.start_block() + self.block_count() <= usize::MAX,
            self.capacity() <= usize::MAX,
        ensures
            match r {
                Some(bit) => {
                    let before = self.blocks_on(old(block_device));
                    let b = bit / BLOCK_BITS;
                    &&& bitmap_lowest_clear(before, bit as int)
                    &&& final(block_device).block_contents((self.start_block() + b) as usize)
                        == block_bytes(set_bit(before[b as int], (bit % BLOCK_BITS) as int))
                    &&& forall|j: usize|
                        j != self.start_block() + b ==> #[trigger] final(block_device).block_contents(j) == old(block_device).block_contents(j)
                    &&& self.blocks_on(final(block_device)) == bitmap_set(before, bit as int)
                },
                None => {
                    &&& forall|k: int|
                        0 <= k < self.capacity() ==> #[trigger] bitmap_bit(
                            self.blocks_on(old(block_device)),
                            k,
                        )
                    &&& forall|j: usize|
                        #[trigger] final(block_device).block_contents(j) == old(block_device).block_contents(j)
                },
            },
    {
        let ghost before = self.blocks_on(old(block_device));
        let mut block_id: usize = 0;
        while block_id < self.blocks
            invariant
                block_id <= self.block_count(),
                self.start_block() + self.block_count() <= usize::MAX,
                self.capacity() <= usize::MAX,
                before == self.blocks_on(old(block_device)),
                forall|j: usize|
                    #[trigger] block_device.block_contents(j) == old(block_device).block_contents(j),
                forall|i: int| 0 <= i < block_id ==> #[trigger] block_full(before[i]),
            decreases self.blocks - block_id,
        {
            assert(self.blocks_on(block_device) =~= before);
            let mut block = self.read_bitmap_block(block_device, block_id);
            let ghost read = block@;
            proof {
                assert(block_id * BLOCK_BITS + BLOCK_BITS <= self.capacity()) by (nonlinear_arith)
                    requires
                        block_id < self.block_count(),
                        self.capacity() == self.block_count() * BLOCK_BITS as nat,
                ;
            }
            match alloc_at(block_id, &mut block) {
                Some(bit) => {
                    self.write_bitmap_block(block_device, block_id, &block);
                    proof {
                        let pos = (bit % BLOCK_BITS) as int;
                        assert(bit == block_id * BLOCK_BITS + pos);
                        assert(bitmap_wf(before));
                        lemma_first_fit(before, block_id as int, pos);
                        lemma_block_bytes_roundtrip(set_bit(read, pos));
                        let after = self.blocks_on(block_device);
                        assert forall|i: int| 0 <= i < after.len() implies #[trigger] after[i]
                            == bitmap_set(before, bit as int)[i] by {
                            if i != block_id {
                                assert((self.start_block() + i) as usize != self.start_block()
                                    + block_id);
                            }
                        }
                        assert(after =~= bitmap_set(before, bit as int));
                    }
                    return Some(bit);
                },
                None => {},
            }
            block_id = block_id + 1;
        }
        proof {
            lemma_all_full(before);
        }
        None
    }

    /// Clears bit `bit` on the device. Gives `true` when the bit was set;
    /// when it was already clear nothing is written and `false` comes back.
    pub fn dealloc<D: BlockDevice + ?Sized>(&self, block_device: &mut D, bit: usize) -> (r: bool)
        requires
            self.start_block() + self.block_count() <= usize::MAX,
            bit < self.capacity(),
        ensures
            ({
                let before = self.blocks_on(old(block_device));
                let b = bit / BLOCK_BITS;
                &&& r == bitmap_bit(before, bit as int)
                &&& r ==> {
                    &&& final(block_device).block_contents((self.start_block() + b) as usize)
                        == block_bytes(clear_bit(before[b as int], (bit % BLOCK_BITS) as int))
                    &&& forall|j: usize|
                        j != self.start_block() + b ==> #[trigger] final(block_device).block_contents(j) == old(block_device).block_contents(j)
                    &&& self.blocks_on(final(block_device)) == bitmap_clear(before, bit as int)
                }
                &&& !r ==> forall|j: usize|
                    #[trigger] final(block_device).block_contents(j) == old(block_device).block_contents(j)
            }),
    {
        let ghost before = self.blocks_on(old(block_device));
        let (block_pos, _bits64_pos, _inner_pos) = decomposition(bit);
        proof {
            assert(block_pos < self.block_count()) by (nonlinear_arith)
                requires
                    block_pos == bit / BLOCK_BITS,
                    bit < self.block_count() * BLOCK_BITS as nat,
            ;
        }
        let mut block = self.read_bitmap_block(block_device, block_pos);
        let ghost read = block@;
        let freed = dealloc_at(bit, &mut block);
        if freed {
            self.write_bitmap_block(block_device, block_pos, &block);
            proof {
                let pos = (bit % BLOCK_BITS) as int;
                lemma_clear_bit_only(read, pos);
                lemma_block_bytes_roundtrip(clear_bit(read, pos));
                let after = self.blocks_on(block_device);
                assert forall|i: int| 0 <= i < after.len() implies #[trigger] after[i]
                    == bitmap_clear(before, bit as int)[i] by {
                    if i != block_pos {
                        assert((self.start_block() + i) as usize != self.start_block() + block_pos);
                    }
                }
                assert(after =~= bitmap_clear(before, bit as int));
            }
        }
        freed
    }
}

} // verus!
