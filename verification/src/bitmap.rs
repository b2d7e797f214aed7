//! The bitmap of a chunk map: one bit per chunk, the first chunk in the most
//! significant bit of the first byte, a set bit for a chunk that is ready.

use vstd::prelude::*;

use crate::header::HEADER_SIZE;

verus! {

/// The bit of chunk `index` within its byte.
pub open spec fn chunk_mask(index: int) -> u8 {
    1u8 << ((7 - index % 8) as u8)
}

/// Whether the bit of chunk `index` is set in its byte.
pub open spec fn bit_is_set(byte: u8, index: int) -> bool {
    byte & chunk_mask(index) == chunk_mask(index)
}

/// How many bytes hold `chunk_count` bits.
pub open spec fn bitmap_size(chunk_count: int) -> int {
    (chunk_count + 7) / 8
}

/// The size of the file of a map of `chunk_count` chunks.
pub open spec fn file_size(chunk_count: int) -> int {
    HEADER_SIZE + bitmap_size(chunk_count)
}

/// The offset of the byte that holds the bit of chunk `index`.
pub open spec fn byte_offset(index: int) -> int {
    HEADER_SIZE + index / 8
}

/// For each chunk whether its bit is set in the file `image`.
pub open spec fn ready_bits(image: Seq<u8>, chunk_count: int) -> Seq<bool> {
    Seq::new(chunk_count as nat, |i: int| bit_is_set(image[byte_offset(i)], i))
}

/// How many entries of `bits` are `false`.
pub open spec fn clear_count(bits: Seq<bool>) -> nat
    decreases bits.len(),
{
    if bits.len() == 0 {
        0
    } else {
        clear_count(bits.drop_last()) + if bits.last() {
            0nat
        } else {
            1nat
        }
    }
}

/// `n / d`, rounded up.
pub fn div_round_up(n: u64, d: u64) -> (r: u64)
    requires
        d > 0,
        n + d - 1 <= u64::MAX,
    ensures
        r == (n + d - 1) / d as int,
{
    (n + (d - 1)) / d
}

/// The size of the file of a map of `chunk_count` chunks.
pub fn calc_file_size(chunk_count: u32) -> (r: u64)
    ensures
        r == file_size(chunk_count as int),
        r == 4096 + (chunk_count + 7) / 8,
{
    let bitmap_size: u64 = div_round_up(chunk_count as u64, 8);
    HEADER_SIZE as u64 + bitmap_size
}

/// The offset of the byte that holds the bit of chunk `index`.
pub fn index_to_offset(index: u32) -> (r: usize)
    ensures
        r == byte_offset(index as int),
        r == 4096 + index / 8,
{
    assert(index as usize >> 3usize == index as usize / 8) by (bit_vector);
    HEADER_SIZE + (index as usize >> 3usize)
}

/// The bit of chunk `index` within its byte.
pub fn index_to_mask(index: u32) -> (mask: u8)
    ensures
        mask == chunk_mask(index as int),
        mask == 0x80u8 >> ((index % 8) as u8),
{
    assert(index & 0b111 == index % 8) by (bit_vector);
    let pos: u32 = 8 - ((index & 0b111) + 1);
    let mask: u8 = 1u8 << (pos as u8);
    proof {
        let up = pos as u8;
        let down = (index % 8) as u8;
        assert(1u8 << up == 0x80u8 >> down) by (bit_vector)
            requires
                up + down == 7,
        ;
    }
    mask
}

/// Two chunks of one byte have different bits: setting the one leaves the
/// other as it is.
pub proof fn lemma_set_bit(byte: u8, index: int, other: int)
    ensures
        bit_is_set(byte | chunk_mask(index), index),
        index % 8 != other % 8 ==> bit_is_set(byte | chunk_mask(index), other) == bit_is_set(
            byte,
            other,
        ),
{
    let a = (7 - index % 8) as u8;
    let b = (7 - other % 8) as u8;
    assert((byte | (1u8 << a)) & (1u8 << a) == 1u8 << a) by (bit_vector)
        requires
            a < 8,
    ;
    if a != b {
        assert((byte | (1u8 << a)) & (1u8 << b) == byte & (1u8 << b)) by (bit_vector)
            requires
                a < 8,
                b < 8,
                a != b,
        ;
    }
}

/// A byte of zeros has no bit set.
pub proof fn lemma_zero_byte(index: int)
    ensures
        !bit_is_set(0u8, index),
{
    let a = (7 - index % 8) as u8;
    assert(0u8 & (1u8 << a) != 1u8 << a) by (bit_vector)
        requires
            a < 8,
    ;
}

/// Every chunk of a map has its byte inside the file, behind the header.
pub proof fn lemma_byte_offset_in_file(index: int, chunk_count: int)
    requires
        0 <= index < chunk_count,
    ensures
        HEADER_SIZE <= byte_offset(index) < file_size(chunk_count),
{
}

/// Two chunks never share a bit: they differ in the byte or in the mask.
pub proof fn law_chunks_do_not_share_bits(a: int, b: int)
    requires
        0 <= a,
        0 <= b,
        a != b,
    ensures
        byte_offset(a) != byte_offset(b) || chunk_mask(a) != chunk_mask(b),
{
    if a / 8 == b / 8 {
        let x = (7 - a % 8) as u8;
        let y = (7 - b % 8) as u8;
        assert(1u8 << x != 1u8 << y) by (bit_vector)
            requires
                x < 8,
                y < 8,
                x != y,
        ;
    }
}

/// No entry is `false` exactly when all are `true`.
pub proof fn lemma_clear_count_zero(bits: Seq<bool>)
    ensures
        clear_count(bits) == 0 <==> (forall|i: int| 0 <= i < bits.len() ==> bits[i]),
    decreases bits.len(),
{
    if bits.len() > 0 {
        lemma_clear_count_zero(bits.drop_last());
        let last = bits.len() - 1;
        if clear_count(bits) == 0 {
            assert forall|i: int| 0 <= i < bits.len() implies bits[i] by {
                if i < last {
                    assert(bits.drop_last()[i] == bits[i]);
                }
            }
        }
        if forall|i: int| 0 <= i < bits.len() ==> bits[i] {
            assert forall|i: int| 0 <= i < bits.drop_last().len() implies bits.drop_last()[i] by {
                assert(bits.drop_last()[i] == bits[i]);
            }
            assert(bits[last]);
        }
    }
}

/// Where all entries are `false`, all are counted.
pub proof fn lemma_clear_count_all(bits: Seq<bool>)
    requires
        forall|i: int| 0 <= i < bits.len() ==> !bits[i],
    ensures
        clear_count(bits) == bits.len(),
    decreases bits.len(),
{
    if bits.len() > 0 {
        assert forall|i: int| 0 <= i < bits.drop_last().len() implies !bits.drop_last()[i] by {
            assert(bits.drop_last()[i] == bits[i]);
        }
        lemma_clear_count_all(bits.drop_last());
    }
}

/// Changing an entry changes the count by that entry alone.
pub proof fn lemma_clear_count_update(bits: Seq<bool>, index: int, value: bool)
    requires
        0 <= index < bits.len(),
    ensures
        clear_count(bits.update(index, value)) == clear_count(bits) - (if bits[index] {
            0int
        } else {
            1int
        }) + (if value {
            0int
        } else {
            1int
        }),
    decreases bits.len(),
{
    let after = bits.update(index, value);
    if index == bits.len() - 1 {
        assert(after.drop_last() =~= bits.drop_last());
    } else {
        assert(after.drop_last() =~= bits.drop_last().update(index, value));
        assert(after.last() == bits.last());
        lemma_clear_count_update(bits.drop_last(), index, value);
    }
}

/// The chunks of a byte have its bits from the most significant one down: eight
/// chunks to a byte, the bytes behind a header of 4096.
pub proof fn law_bits_run_from_the_top(image: Seq<u8>, chunk_count: int, index: int)
    requires
        0 <= index < chunk_count,
    ensures
        byte_offset(index) == 4096 + index / 8,
        chunk_mask(index) == 0x80u8 >> ((index % 8) as u8),
        ready_bits(image, chunk_count).len() == chunk_count,
        ready_bits(image, chunk_count)[index] <==> image[4096 + index / 8] & (0x80u8 >> ((index % 8)
            as u8)) != 0,
{
    let byte = image[4096 + index / 8];
    let up = (7 - index % 8) as u8;
    let down = (index % 8) as u8;
    assert(1u8 << up == 0x80u8 >> down && (byte & (1u8 << up) == 1u8 << up <==> byte & (0x80u8
        >> down) != 0)) by (bit_vector)
        requires
            up + down == 7,
    ;
}

/// The file of a map is its header and just as many bytes as its bits need.
pub proof fn law_file_holds_its_bits(chunk_count: int)
    requires
        chunk_count >= 0,
    ensures
        8 * (file_size(chunk_count) - 4096) >= chunk_count,
        8 * (file_size(chunk_count) - 4096) < chunk_count + 8,
{
}

/// The count of clear entries grows by one with each entry that is `false`, and
/// with no other.
pub proof fn law_clear_entries_are_counted(bits: Seq<bool>, bit: bool)
    ensures
        clear_count(Seq::empty()) == 0,
        clear_count(bits.push(bit)) == clear_count(bits) + if bit {
            0int
        } else {
            1
        },
{
    assert(bits.push(bit).drop_last() =~= bits);
}

} // verus!
