//! Byte order of the integers in a chunk map header.
//!
//! A chunk map is shared by memory mapping, so its integers are stored in the
//! byte order of the host that created the file.

use vstd::prelude::*;

verus! {

/// The two ways to lay out the bytes of an integer in memory.
#[derive(Clone, Copy, Debug, PartialEq, Eq, Structural)]
pub enum ByteOrder {
    Little,
    Big,
}

/// The byte of `x` that is worth `256^k`.
pub open spec fn u32_digit(x: u32, k: int) -> u8 {
    if k == 0 {
        (x as int % 256) as u8
    } else if k == 1 {
        (x as int / 256 % 256) as u8
    } else if k == 2 {
        (x as int / 65536 % 256) as u8
    } else {
        (x as int / 16777216) as u8
    }
}

/// The four bytes of `x` in the given order.
pub open spec fn u32_bytes(x: u32, order: ByteOrder) -> Seq<u8> {
    match order {
        ByteOrder::Little => seq![u32_digit(x, 0), u32_digit(x, 1), u32_digit(x, 2), u32_digit(x, 3)],
        ByteOrder::Big => seq![u32_digit(x, 3), u32_digit(x, 2), u32_digit(x, 1), u32_digit(x, 0)],
    }
}

/// The integer whose digits, from the least significant one up, are `b0` to `b3`.
pub open spec fn u32_of_digits(b0: u8, b1: u8, b2: u8, b3: u8) -> u32 {
    (b0 + 256 * b1 + 65536 * b2 + 16777216 * b3) as u32
}

/// The integer stored at `offset` of `bytes`.
pub open spec fn u32_at(bytes: Seq<u8>, offset: int, order: ByteOrder) -> u32 {
    match order {
        ByteOrder::Little => u32_of_digits(
            bytes[offset],
            bytes[offset + 1],
            bytes[offset + 2],
            bytes[offset + 3],
        ),
        ByteOrder::Big => u32_of_digits(
            bytes[offset + 3],
            bytes[offset + 2],
            bytes[offset + 1],
            bytes[offset],
        ),
    }
}

/// `bytes` with the integer at `offset` replaced by `x`.
pub open spec fn with_u32_at(bytes: Seq<u8>, offset: int, x: u32, order: ByteOrder) -> Seq<u8> {
    bytes.update(offset, u32_bytes(x, order)[0]).update(
        offset + 1,
        u32_bytes(x, order)[1],
    ).update(offset + 2, u32_bytes(x, order)[2]).update(offset + 3, u32_bytes(x, order)[3])
}

/// `u32::to_ne_bytes`: the memory representation of `x`, which is one of its
/// two byte layouts. Which of the two is left open: it is a property of the
/// machine.
#[verifier::external_body]
fn to_ne_bytes(x: u32) -> (r: [u8; 4])
    ensures
        r@ == u32_bytes(x, ByteOrder::Little) || r@ == u32_bytes(x, ByteOrder::Big),
{
    x.to_ne_bytes()
}

/// Reading back what was stored gives the same integer.
pub proof fn lemma_u32_at_of_bytes(bytes: Seq<u8>, offset: int, x: u32, order: ByteOrder)
    requires
        0 <= offset,
        offset + 4 <= bytes.len(),
        bytes.subrange(offset, offset + 4) == u32_bytes(x, order),
    ensures
        u32_at(bytes, offset, order) == x,
{
    let part = bytes.subrange(offset, offset + 4);
    assert(part[0] == bytes[offset]);
    assert(part[1] == bytes[offset + 1]);
    assert(part[2] == bytes[offset + 2]);
    assert(part[3] == bytes[offset + 3]);
}

/// Storing an integer changes what is read at its own place and nothing else.
pub proof fn lemma_with_u32_at(bytes: Seq<u8>, offset: int, x: u32, order: ByteOrder)
    requires
        0 <= offset,
        offset + 4 <= bytes.len(),
    ensures
        with_u32_at(bytes, offset, x, order).len() == bytes.len(),
        u32_at(with_u32_at(bytes, offset, x, order), offset, order) == x,
        forall|k: int|
            0 <= k < bytes.len() && !(offset <= k < offset + 4) ==> #[trigger] with_u32_at(
                bytes,
                offset,
                x,
                order,
            )[k] == bytes[k],
{
    let after = with_u32_at(bytes, offset, x, order);
    assert(after.subrange(offset, offset + 4) =~= u32_bytes(x, order));
    lemma_u32_at_of_bytes(after, offset, x, order);
}

/// Two places that hold the same integer hold the same bytes.
pub proof fn lemma_u32_at_is_injective(a: Seq<u8>, b: Seq<u8>, offset: int, order: ByteOrder)
    requires
        u32_at(a, offset, order) == u32_at(b, offset, order),
    ensures
        forall|k: int| offset <= k < offset + 4 ==> #[trigger] a[k] == b[k],
{
    let (a0, a1, a2, a3) = (a[offset], a[offset + 1], a[offset + 2], a[offset + 3]);
    let (b0, b1, b2, b3) = (b[offset], b[offset + 1], b[offset + 2], b[offset + 3]);
    match order {
        ByteOrder::Little => {
            assert(a0 + 256 * a1 + 65536 * a2 + 16777216 * a3 == b0 + 256 * b1 + 65536 * b2
                + 16777216 * b3);
        },
        ByteOrder::Big => {
            assert(a3 + 256 * a2 + 65536 * a1 + 16777216 * a0 == b3 + 256 * b2 + 65536 * b1
                + 16777216 * b0);
        },
    }
    assert(a0 == b0 && a1 == b1 && a2 == b2 && a3 == b3);
    assert forall|k: int| offset <= k < offset + 4 implies #[trigger] a[k] == b[k] by {
        assert(k == offset || k == offset + 1 || k == offset + 2 || k == offset + 3);
    }
}

/// Whether `u32::to_ne_bytes` may give `bytes` as the memory representation of
/// `x` on this machine.
pub closed spec fn is_stored_as(x: u32, bytes: [u8; 4]) -> bool {
    call_ensures(to_ne_bytes, (x,), bytes)
}

/// Whether `order` is that in which this machine stores the integer 1.
pub open spec fn is_native(order: ByteOrder) -> bool {
    exists|one: [u8; 4]| #[trigger] is_stored_as(1, one) && one@ == u32_bytes(1, order)
}

/// Whether this machine stores integers in one order only.
pub open spec fn has_one_order() -> bool {
    forall|a: ByteOrder, b: ByteOrder|
        #[trigger] is_native(a) && #[trigger] is_native(b) ==> a == b
}

/// The byte order of a machine that stores the integer 1 as `one`.
pub fn order_of(one: [u8; 4]) -> (r: ByteOrder)
    requires
        one@ == u32_bytes(1, ByteOrder::Little) || one@ == u32_bytes(1, ByteOrder::Big),
    ensures
        one@ == u32_bytes(1, r),
{
    if one[0] == 1 {
        ByteOrder::Little
    } else {
        ByteOrder::Big
    }
}

/// The byte order of this machine: that in which it stores the integer 1. Which
/// of the two it is depends on the machine alone, so callers work with either.
pub(crate) fn native_order() -> (r: ByteOrder)
    ensures
        is_native(r),
{
    let one: [u8; 4] = to_ne_bytes(1);
    assert(is_stored_as(1, one));
    order_of(one)
}

/// Appends the four bytes of `x` to `out`.
pub fn push_u32(out: &mut Vec<u8>, x: u32, order: ByteOrder)
    ensures
        final(out)@ == old(out)@ + u32_bytes(x, order),
{
    let b0: u8 = (x % 256) as u8;
    let b1: u8 = (x / 256 % 256) as u8;
    let b2: u8 = (x / 65536 % 256) as u8;
    let b3: u8 = (x / 16777216) as u8;
    match order {
        ByteOrder::Little => {
            out.push(b0);
            out.push(b1);
            out.push(b2);
            out.push(b3);
        },
        ByteOrder::Big => {
            out.push(b3);
            out.push(b2);
            out.push(b1);
            out.push(b0);
        },
    }
    assert(out@ =~= old(out)@ + u32_bytes(x, order));
}

/// Reads the integer at `offset`.
pub fn read_u32(bytes: &[u8], offset: usize, order: ByteOrder) -> (r: u32)
    requires
        offset + 4 <= bytes@.len(),
    ensures
        r == u32_at(bytes@, offset as int, order),
{
    let a: u32 = bytes[offset] as u32;
    let b: u32 = bytes[offset + 1] as u32;
    let c: u32 = bytes[offset + 2] as u32;
    let d: u32 = bytes[offset + 3] as u32;
    match order {
        ByteOrder::Little => a + 256 * b + 65536 * c + 16777216 * d,
        ByteOrder::Big => d + 256 * c + 65536 * b + 16777216 * a,
    }
}

/// Replaces the integer at `offset` by `x`.
pub fn write_u32(bytes: &mut Vec<u8>, offset: usize, x: u32, order: ByteOrder)
    requires
        offset + 4 <= old(bytes)@.len(),
    ensures
        final(bytes)@ == with_u32_at(old(bytes)@, offset as int, x, order),
{
    let mut fresh: Vec<u8> = Vec::new();
    push_u32(&mut fresh, x, order);
    assert(fresh@ =~= u32_bytes(x, order));
    let len: usize = bytes.len();
    assert(offset + 4 <= len);
    bytes.set(offset, fresh[0]);
    bytes.set(offset + 1, fresh[1]);
    bytes.set(offset + 2, fresh[2]);
    bytes.set(offset + 3, fresh[3]);
}

/// In little order the bytes of an integer stand from the one that is worth
/// least to the one that is worth most, in big order the other way round; four
/// bytes that stand so are read as that integer.
pub proof fn law_bytes_add_up_to_the_integer(x: u32, bytes: Seq<u8>, offset: int)
    ensures
        ({
            let b = u32_bytes(x, ByteOrder::Little);
            b.len() == 4 && b[0] + 0x100 * b[1] + 0x1_0000 * b[2] + 0x100_0000 * b[3] == x
        }),
        u32_bytes(x, ByteOrder::Big) == u32_bytes(x, ByteOrder::Little).reverse(),
        u32_at(bytes, offset, ByteOrder::Little) == bytes[offset] + 0x100 * bytes[offset + 1]
            + 0x1_0000 * bytes[offset + 2] + 0x100_0000 * bytes[offset + 3],
        u32_at(bytes, offset, ByteOrder::Big) == bytes[offset + 3] + 0x100 * bytes[offset + 2]
            + 0x1_0000 * bytes[offset + 1] + 0x100_0000 * bytes[offset],
{
    assert(u32_bytes(x, ByteOrder::Big) =~= u32_bytes(x, ByteOrder::Little).reverse());
}

/// A native order is one in which this machine may store the integer 1: with the
/// 1 in the first byte, or with the 1 in the last.
pub proof fn law_native_order_is_that_of_one(order: ByteOrder)
    requires
        is_native(order),
    ensures
        exists|one: [u8; 4]| #[trigger]
            is_stored_as(1, one) && one@ == (match order {
                ByteOrder::Little => seq![1u8, 0u8, 0u8, 0u8],
                ByteOrder::Big => seq![0u8, 0u8, 0u8, 1u8],
            }),
{
    let one = choose|one: [u8; 4]| #[trigger]
        is_stored_as(1, one) && one@ == u32_bytes(1, order);
    assert(u32_bytes(1, ByteOrder::Little) =~= seq![1u8, 0u8, 0u8, 0u8]);
    assert(u32_bytes(1, ByteOrder::Big) =~= seq![0u8, 0u8, 0u8, 1u8]);
    assert(is_stored_as(1, one));
}

} // verus!
