//! The header of a chunk map file.

use vstd::prelude::*;

use crate::byte_order::{is_native, lemma_u32_at_of_bytes, native_order, push_u32, u32_at, u32_bytes, ByteOrder};

verus! {

/// Version of the file format.
pub const VERSION: u32 = 2;

/// First magic number of a chunk map file.
pub const MAGIC1: u32 = 0x424D_4150;

/// Second magic number of a chunk map file.
pub const MAGIC2: u32 = 0x434D_4150;

/// Size of the header in bytes; the bitmap follows it.
pub const HEADER_SIZE: usize = 4096;

/// Bytes of the header that hold no field.
pub const HEADER_RESERVED_SIZE: usize = 4072;

/// Offset of `magic`.
pub const MAGIC_OFFSET: usize = 0;

/// Offset of `version`.
pub const VERSION_OFFSET: usize = 4;

/// Offset of `count`.
pub const COUNT_OFFSET: usize = 16;

/// Offset of `not_ready_count`.
pub const NOT_READY_COUNT_OFFSET: usize = 20;

/// The chunk map file header, 4096 bytes.
pub struct Header {
    /// Magic number of a chunk map.
    pub magic: u32,
    pub version: u32,
    pub magic2: u32,
    pub _all_ready: u32,
    /// Number of chunks in the map.
    pub count: u32,
    /// Number of chunks that are not ready yet.
    pub not_ready_count: u32,
    pub reserved: [u8; HEADER_RESERVED_SIZE],
}

/// The bytes of a header whose integers are laid out in `order`.
pub open spec fn header_bytes(h: Header, order: ByteOrder) -> Seq<u8> {
    u32_bytes(h.magic, order) + u32_bytes(h.version, order) + u32_bytes(h.magic2, order)
        + u32_bytes(h._all_ready, order) + u32_bytes(h.count, order) + u32_bytes(
        h.not_ready_count,
        order,
    ) + h.reserved@
}

impl Header {
    /// The header of a map of `chunk_count` chunks of which none is ready.
    pub fn fresh(chunk_count: u32) -> (h: Header)
        ensures
            h.magic == 0x424D_4150,
            h.version == 2,
            h.magic2 == 0x434D_4150,
            h.magic == MAGIC1,
            h.version == VERSION,
            h.magic2 == MAGIC2,
            h._all_ready == 0,
            h.count == chunk_count,
            h.not_ready_count == chunk_count,
            forall|i: int| 0 <= i < HEADER_RESERVED_SIZE ==> h.reserved@[i] == 0u8,
    {
        Header {
            magic: MAGIC1,
            version: VERSION,
            magic2: MAGIC2,
            _all_ready: 0,
            count: chunk_count,
            not_ready_count: chunk_count,
            reserved: [0u8; HEADER_RESERVED_SIZE],
        }
    }

    /// The bytes of the header, with its integers laid out in `order`.
    pub fn encode(&self, order: ByteOrder) -> (bytes: Vec<u8>)
        ensures
            bytes@ == header_bytes(*self, order),
            bytes@.len() == HEADER_SIZE,
    {
        let mut out: Vec<u8> = Vec::new();
        push_u32(&mut out, self.magic, order);
        push_u32(&mut out, self.version, order);
        push_u32(&mut out, self.magic2, order);
        push_u32(&mut out, self._all_ready, order);
        push_u32(&mut out, self.count, order);
        push_u32(&mut out, self.not_ready_count, order);
        let ghost fields = out@;
        let mut i: usize = 0;
        while i < HEADER_RESERVED_SIZE
            invariant
                i <= HEADER_RESERVED_SIZE,
                out@ == fields + self.reserved@.take(i as int),
            decreases HEADER_RESERVED_SIZE - i,
        {
            assert(self.reserved@.take(i + 1) =~= self.reserved@.take(i as int).push(
                self.reserved@[i as int],
            ));
            out.push(self.reserved[i]);
            i = i + 1;
        }
        assert(self.reserved@.take(HEADER_RESERVED_SIZE as int) =~= self.reserved@);
        out
    }

    /// The bytes of the header as this machine stores them.
    pub fn as_slice(&self) -> (bytes: Vec<u8>)
        ensures
            exists|order: ByteOrder|
                is_native(order) && bytes@ == #[trigger] header_bytes(*self, order),
    {
        self.encode(native_order())
    }
}

/// The fields of a header stand one behind the other, four bytes each, and what
/// is reserved behind them: 4096 bytes in all.
pub proof fn law_header_fields_stand_in_order(h: Header, order: ByteOrder)
    ensures
        ({
            let bytes = header_bytes(h, order);
            &&& bytes.len() == 4096
            &&& u32_at(bytes, 0, order) == h.magic
            &&& u32_at(bytes, 4, order) == h.version
            &&& u32_at(bytes, 8, order) == h.magic2
            &&& u32_at(bytes, 12, order) == h._all_ready
            &&& u32_at(bytes, 16, order) == h.count
            &&& u32_at(bytes, 20, order) == h.not_ready_count
            &&& bytes.skip(24) == h.reserved@
        }),
{
    let bytes = header_bytes(h, order);
    assert(bytes.subrange(0, 4) =~= u32_bytes(h.magic, order));
    assert(bytes.subrange(4, 8) =~= u32_bytes(h.version, order));
    assert(bytes.subrange(8, 12) =~= u32_bytes(h.magic2, order));
    assert(bytes.subrange(12, 16) =~= u32_bytes(h._all_ready, order));
    assert(bytes.subrange(16, 20) =~= u32_bytes(h.count, order));
    assert(bytes.subrange(20, 24) =~= u32_bytes(h.not_ready_count, order));
    lemma_u32_at_of_bytes(bytes, 0, h.magic, order);
    lemma_u32_at_of_bytes(bytes, 4, h.version, order);
    lemma_u32_at_of_bytes(bytes, 8, h.magic2, order);
    lemma_u32_at_of_bytes(bytes, 12, h._all_ready, order);
    lemma_u32_at_of_bytes(bytes, 16, h.count, order);
    lemma_u32_at_of_bytes(bytes, 20, h.not_ready_count, order);
    assert(bytes.skip(24) =~= h.reserved@);
}

} // verus!
