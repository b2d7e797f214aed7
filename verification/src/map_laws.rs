//! Laws of the chunk map, over the bytes of its file.

use vstd::prelude::*;

use crate::bitmap::{
    byte_offset, chunk_mask, file_size, law_bits_run_from_the_top, lemma_byte_offset_in_file, lemma_clear_count_all,
    lemma_clear_count_update, lemma_clear_count_zero, lemma_zero_byte, ready_bits,
};
use crate::byte_order::{
    has_one_order, is_native, lemma_u32_at_is_injective, lemma_with_u32_at, u32_at, ByteOrder,
};
use crate::header::NOT_READY_COUNT_OFFSET;
use crate::persist_map::{
    created, fresh_image, image_consistent, image_fault, lemma_fresh_fields, lemma_marked,
    marked_image, opened, opened_file, publish_dir_of, to_publish, wrapping_dec, OpenError, PersistMap, PersistMapError,
    PublishError,
};

verus! {

/// A file made for `chunk_count` chunks opens as a map of that many chunks.
pub proof fn law_fresh_file_opens(chunk_count: u32, order: ByteOrder)
    requires
        chunk_count > 0,
    ensures
        image_fault(fresh_image(chunk_count, order), chunk_count, order) is None,
{
    lemma_fresh_fields(chunk_count, order);
}

/// In a fresh map no chunk is ready, and its count says so.
pub proof fn law_fresh_map_has_nothing_ready(chunk_count: u32, order: ByteOrder)
    ensures
        forall|i: int|
            0 <= i < chunk_count ==> !(#[trigger] ready_bits(
                fresh_image(chunk_count, order),
                chunk_count as int,
            )[i]),
        image_consistent(fresh_image(chunk_count, order), chunk_count, order),
        u32_at(fresh_image(chunk_count, order), NOT_READY_COUNT_OFFSET as int, order)
            == chunk_count,
{
    let image = fresh_image(chunk_count, order);
    let bits = ready_bits(image, chunk_count as int);
    lemma_fresh_fields(chunk_count, order);
    assert forall|i: int| 0 <= i < chunk_count implies !(#[trigger] bits[i]) by {
        lemma_byte_offset_in_file(i, chunk_count as int);
        lemma_zero_byte(i);
    }
    lemma_clear_count_all(bits);
}

/// Marking a chunk keeps the count in the header equal to the number of chunks
/// that are not ready.
pub proof fn law_marking_keeps_count(
    image: Seq<u8>,
    chunk_count: u32,
    order: ByteOrder,
    index: int,
)
    requires
        image_fault(image, chunk_count, order) is None,
        image_consistent(image, chunk_count, order),
        0 <= index < chunk_count,
    ensures
        image_consistent(marked_image(image, order, index), chunk_count, order),
{
    let bits = ready_bits(image, chunk_count as int);
    lemma_marked(image, chunk_count, order, index);
    lemma_clear_count_update(bits, index, true);
}

/// The count is zero exactly when every chunk is ready.
pub proof fn law_all_ready_iff_every_chunk_ready(map: PersistMap)
    requires
        map.wf(),
        map.consistent(),
    ensures
        map.not_ready_count() == 0 <==> (forall|i: int|
            0 <= i < map.chunk_count() ==> #[trigger] map.ready()[i]),
{
    lemma_clear_count_zero(map.ready());
}

/// Marking a chunk a second time changes nothing.
pub proof fn law_marking_is_idempotent(
    image: Seq<u8>,
    chunk_count: u32,
    order: ByteOrder,
    index: int,
)
    requires
        image_fault(image, chunk_count, order) is None,
        0 <= index < chunk_count,
    ensures
        marked_image(marked_image(image, order, index), order, index) == marked_image(
            image,
            order,
            index,
        ),
{
    let after = marked_image(image, order, index);
    lemma_marked(image, chunk_count, order, index);
    assert(ready_bits(after, chunk_count as int)[index]);
}

/// Marking a chunk leaves every byte as it is but the one that holds its bit
/// and those of the count.
pub proof fn law_marking_touches_one_byte_and_count(
    image: Seq<u8>,
    chunk_count: u32,
    order: ByteOrder,
    index: int,
    offset: int,
)
    requires
        image_fault(image, chunk_count, order) is None,
        0 <= index < chunk_count,
        0 <= offset < image.len(),
        offset != byte_offset(index),
        !(NOT_READY_COUNT_OFFSET <= offset < NOT_READY_COUNT_OFFSET + 4),
    ensures
        marked_image(image, order, index).len() == image.len(),
        marked_image(image, order, index)[offset] == image[offset],
{
    let at = byte_offset(index);
    lemma_byte_offset_in_file(index, chunk_count as int);
    lemma_with_u32_at(
        image.update(at, image[at] | chunk_mask(index)),
        NOT_READY_COUNT_OFFSET as int,
        wrapping_dec(u32_at(image, NOT_READY_COUNT_OFFSET as int, order)),
        order,
    );
}

/// A file opens for one number of chunks only: for any other it is refused,
/// and the refusal says which of the size and the count does not fit.
pub proof fn law_file_opens_for_its_own_count_only(
    image: Seq<u8>,
    chunk_count: u32,
    other: u32,
    order: ByteOrder,
)
    requires
        image_fault(image, chunk_count, order) is None,
        other != chunk_count,
    ensures
        image_fault(image, other, order) == Some(
            if other == 0 {
                PersistMapError::ZeroChunkCount
            } else if file_size(other as int) != file_size(chunk_count as int) {
                PersistMapError::UnexpectedSize {
                    actual: file_size(chunk_count as int) as u64,
                    expected: file_size(other as int) as u64,
                }
            } else {
                PersistMapError::WrongCount
            },
        ),
{
}

/// The bytes of a map open again as the same map: what one owner marked, the
/// next one finds.
pub proof fn law_reopening_gives_the_same_map<E>(
    before: PersistMap,
    file: Vec<u8>,
    r: Result<PersistMap, OpenError<E>>,
)
    requires
        before.wf(),
        file@ == before.image(),
        opened_file(Ok::<Vec<u8>, E>(file), before.chunk_count(), before.byte_order(), r),
    ensures
        r matches Ok(after) && {
            &&& after.wf()
            &&& after.chunk_count() == before.chunk_count()
            &&& after.ready() == before.ready()
            &&& after.not_ready_count() == before.not_ready_count()
            &&& after.consistent() == before.consistent()
        },
{
}

/// The file after the chunks `indices` were marked, one after the other.
pub open spec fn marked_all(image: Seq<u8>, order: ByteOrder, indices: Seq<int>) -> Seq<u8>
    decreases indices.len(),
{
    if indices.len() == 0 {
        image
    } else {
        marked_image(marked_all(image, order, indices.drop_last()), order, indices.last())
    }
}

/// After any series of marks, repeated or not, a chunk is ready exactly when it
/// was before or is one of the series, and the count still agrees.
pub proof fn law_marks_add_up(
    image: Seq<u8>,
    chunk_count: u32,
    order: ByteOrder,
    indices: Seq<int>,
)
    requires
        image_fault(image, chunk_count, order) is None,
        image_consistent(image, chunk_count, order),
        forall|k: int| 0 <= k < indices.len() ==> 0 <= #[trigger] indices[k] < chunk_count,
    ensures
        image_fault(marked_all(image, order, indices), chunk_count, order) is None,
        image_consistent(marked_all(image, order, indices), chunk_count, order),
        forall|i: int|
            0 <= i < chunk_count ==> (#[trigger] ready_bits(
                marked_all(image, order, indices),
                chunk_count as int,
            )[i] <==> ready_bits(image, chunk_count as int)[i] || indices.contains(i)),
    decreases indices.len(),
{
    if indices.len() > 0 {
        let rest = indices.drop_last();
        let last = indices.last();
        assert forall|k: int| 0 <= k < rest.len() implies 0 <= #[trigger] rest[k] < chunk_count by {
            assert(rest[k] == indices[k]);
        }
        assert(last == indices[indices.len() - 1]);
        law_marks_add_up(image, chunk_count, order, rest);
        let mid = marked_all(image, order, rest);
        lemma_marked(mid, chunk_count, order, last);
        law_marking_keeps_count(mid, chunk_count, order, last);
        assert forall|i: int| 0 <= i < chunk_count implies (#[trigger] ready_bits(
            marked_all(image, order, indices),
            chunk_count as int,
        )[i] <==> ready_bits(image, chunk_count as int)[i] || indices.contains(i)) by {
            assert(ready_bits(mid, chunk_count as int)[i] <==> ready_bits(
                image,
                chunk_count as int,
            )[i] || rest.contains(i));
            if indices.contains(i) {
                let k = choose|k: int| 0 <= k < indices.len() && indices[k] == i;
                if k < rest.len() {
                    assert(rest[k] == i);
                }
            }
            if rest.contains(i) {
                let k = choose|k: int| 0 <= k < rest.len() && rest[k] == i;
                assert(indices[k] == i);
            }
        }
    }
}

/// A fresh map is all ready after a series of marks exactly when every chunk is
/// in the series.
pub proof fn law_all_ready_once_every_chunk_is_marked(
    chunk_count: u32,
    order: ByteOrder,
    indices: Seq<int>,
)
    requires
        chunk_count > 0,
        forall|k: int| 0 <= k < indices.len() ==> 0 <= #[trigger] indices[k] < chunk_count,
    ensures
        u32_at(
            marked_all(fresh_image(chunk_count, order), order, indices),
            NOT_READY_COUNT_OFFSET as int,
            order,
        ) == 0 <==> (forall|i: int| 0 <= i < chunk_count ==> #[trigger] indices.contains(i)),
{
    let fresh = fresh_image(chunk_count, order);
    law_fresh_file_opens(chunk_count, order);
    law_fresh_map_has_nothing_ready(chunk_count, order);
    law_marks_add_up(fresh, chunk_count, order, indices);
    let after = marked_all(fresh, order, indices);
    let bits = ready_bits(after, chunk_count as int);
    lemma_clear_count_zero(bits);
    assert forall|i: int| 0 <= i < chunk_count implies bits[i] == #[trigger] indices.contains(
        i,
    ) by {
        assert(!ready_bits(fresh, chunk_count as int)[i]);
        assert(ready_bits(after, chunk_count as int)[i] == indices.contains(i));
    }
    if forall|i: int| 0 <= i < chunk_count ==> #[trigger] indices.contains(i) {
        assert forall|i: int| 0 <= i < bits.len() implies bits[i] by {
            assert(indices.contains(i));
        }
    }
    if forall|i: int| 0 <= i < bits.len() ==> bits[i] {
        assert forall|i: int| 0 <= i < chunk_count implies #[trigger] indices.contains(i) by {
            assert(bits[i]);
        }
    }
}

/// The map `again` holds what a map of `chunk_count` chunks is to hold after
/// the chunks `indices` were marked in a fresh one: the bytes of `file`, those
/// chunks ready and no others, and a count that says so.
pub open spec fn holds_marks(
    again: PersistMap,
    chunk_count: u32,
    file: Seq<u8>,
    indices: Seq<int>,
) -> bool {
    &&& again.wf()
    &&& again.consistent()
    &&& again.chunk_count() == chunk_count
    &&& again.image() == file
    &&& forall|i: int|
        0 <= i < chunk_count ==> (#[trigger] again.ready()[i] <==> indices.contains(i))
    &&& again.not_ready_count() == 0 <==> (forall|i: int|
        0 <= i < chunk_count ==> #[trigger] indices.contains(i))
}

/// A map that `create` made and in which chunks were marked is found again by
/// `existing`, with just those chunks ready.
pub proof fn law_created_map_is_opened_again<E, P, O, Q>(
    parent: Option<&[u8]>,
    chunk_count: u32,
    publish: P,
    open: O,
    first: PersistMap,
    indices: Seq<int>,
    file: Seq<u8>,
    reopen: Q,
    r: Result<PersistMap, OpenError<E>>,
) where
    P: FnOnce(&[u8], &[u8]) -> Result<(), PublishError<E>>,
    O: FnOnce() -> Result<Vec<u8>, E>,
    Q: FnOnce() -> Result<Vec<u8>, E>,

    requires
        has_one_order(),
        created(parent, chunk_count, publish, open, Ok::<PersistMap, OpenError<E>>(first)),
        forall|dir: &[u8], image: &[u8], published: Result<(), PublishError<E>>| #[trigger]
            publish.ensures((dir, image), published) ==> published is Ok,
        forall|k: int| 0 <= k < indices.len() ==> 0 <= #[trigger] indices[k] < chunk_count,
        file == marked_all(first.image(), first.byte_order(), indices),
        forall|read: Result<Vec<u8>, E>| #[trigger]
            reopen.ensures((), read) ==> (read matches Ok(bytes) && bytes@ == file),
        opened(reopen, chunk_count, r),
    ensures
        r matches Ok(again) && holds_marks(again, chunk_count, file, indices),
{
    let order = first.byte_order();
    assert(is_native(order));
    assert(first.image() == fresh_image(chunk_count, order));
    law_fresh_file_opens(chunk_count, order);
    law_fresh_map_has_nothing_ready(chunk_count, order);
    law_marks_add_up(fresh_image(chunk_count, order), chunk_count, order, indices);
    law_all_ready_once_every_chunk_is_marked(chunk_count, order, indices);
    let (read, native) = choose|read: Result<Vec<u8>, E>, native: ByteOrder|
        reopen.ensures((), read) && is_native(native) && #[trigger] opened_file(
            read,
            chunk_count,
            native,
            r,
        );
    assert(is_native(native) && native == order);
    let again = r->Ok_0;
    assert forall|i: int| 0 <= i < chunk_count implies (#[trigger] again.ready()[i]
        <==> indices.contains(i)) by {
        assert(ready_bits(file, chunk_count as int)[i] <==> ready_bits(
            fresh_image(chunk_count, order),
            chunk_count as int,
        )[i] || indices.contains(i));
    }
}

/// A map that `create` made and in which chunks were marked is found again by
/// `create`, with just those chunks ready: where the name is taken, the file is
/// opened as it is.
pub proof fn law_created_map_is_not_created_again<E, P, O, R, Q>(
    parent: Option<&[u8]>,
    chunk_count: u32,
    publish: P,
    open: O,
    first: PersistMap,
    indices: Seq<int>,
    file: Seq<u8>,
    republish: R,
    reopen: Q,
    r: Result<PersistMap, OpenError<E>>,
) where
    P: FnOnce(&[u8], &[u8]) -> Result<(), PublishError<E>>,
    O: FnOnce() -> Result<Vec<u8>, E>,
    R: FnOnce(&[u8], &[u8]) -> Result<(), PublishError<E>>,
    Q: FnOnce() -> Result<Vec<u8>, E>,

    requires
        has_one_order(),
        created(parent, chunk_count, publish, open, Ok::<PersistMap, OpenError<E>>(first)),
        forall|dir: &[u8], image: &[u8], published: Result<(), PublishError<E>>| #[trigger]
            publish.ensures((dir, image), published) ==> published is Ok,
        forall|k: int| 0 <= k < indices.len() ==> 0 <= #[trigger] indices[k] < chunk_count,
        file == marked_all(first.image(), first.byte_order(), indices),
        forall|dir: &[u8], image: &[u8], published: Result<(), PublishError<E>>| #[trigger]
            republish.ensures((dir, image), published) ==> published == Err::<
                (),
                PublishError<E>,
            >(PublishError::AlreadyExists),
        forall|read: Result<Vec<u8>, E>| #[trigger]
            reopen.ensures((), read) ==> (read matches Ok(bytes) && bytes@ == file),
        created(parent, chunk_count, republish, reopen, r),
    ensures
        r matches Ok(again) && holds_marks(again, chunk_count, file, indices),
{
    assert(opened(reopen, chunk_count, r));
    law_created_map_is_opened_again(
        parent,
        chunk_count,
        publish,
        open,
        first,
        indices,
        file,
        reopen,
        r,
    );
}

/// What marking a chunk does to each byte outside the count.
pub proof fn lemma_marked_bytes(image: Seq<u8>, chunk_count: u32, order: ByteOrder, index: int)
    requires
        image_fault(image, chunk_count, order) is None,
        0 <= index < chunk_count,
    ensures
        marked_image(image, order, index).len() == image.len(),
        forall|k: int|
            0 <= k < image.len() && !(NOT_READY_COUNT_OFFSET <= k < NOT_READY_COUNT_OFFSET + 4)
                ==> #[trigger] marked_image(image, order, index)[k] == if k == byte_offset(index) {
                image[k] | chunk_mask(index)
            } else {
                image[k]
            },
{
    let at = byte_offset(index);
    let byte = image[at];
    let mask = chunk_mask(index);
    lemma_byte_offset_in_file(index, chunk_count as int);
    lemma_with_u32_at(
        image.update(at, byte | mask),
        NOT_READY_COUNT_OFFSET as int,
        wrapping_dec(u32_at(image, NOT_READY_COUNT_OFFSET as int, order)),
        order,
    );
    if byte & mask == mask {
        assert(byte | mask == byte) by (bit_vector)
            requires
                byte & mask == mask,
        ;
    }
}

/// It does not matter in which order two chunks are marked.
pub proof fn law_marks_commute(image: Seq<u8>, chunk_count: u32, order: ByteOrder, a: int, b: int)
    requires
        image_fault(image, chunk_count, order) is None,
        0 <= a < chunk_count,
        0 <= b < chunk_count,
    ensures
        marked_image(marked_image(image, order, a), order, b) == marked_image(
            marked_image(image, order, b),
            order,
            a,
        ),
{
    let only_a = marked_image(image, order, a);
    let only_b = marked_image(image, order, b);
    lemma_marked(image, chunk_count, order, a);
    lemma_marked(image, chunk_count, order, b);
    lemma_marked(only_a, chunk_count, order, b);
    lemma_marked(only_b, chunk_count, order, a);
    lemma_marked_bytes(image, chunk_count, order, a);
    lemma_marked_bytes(image, chunk_count, order, b);
    lemma_marked_bytes(only_a, chunk_count, order, b);
    lemma_marked_bytes(only_b, chunk_count, order, a);
    let ab = marked_image(only_a, order, b);
    let ba = marked_image(only_b, order, a);
    let (x, y) = (chunk_mask(a), chunk_mask(b));
    lemma_u32_at_is_injective(ab, ba, NOT_READY_COUNT_OFFSET as int, order);
    assert forall|k: int| 0 <= k < image.len() implies ab[k] == ba[k] by {
        let byte = image[k];
        assert((byte | x) | y == (byte | y) | x) by (bit_vector);
        if !(NOT_READY_COUNT_OFFSET <= k < NOT_READY_COUNT_OFFSET + 4) {
            assert(only_a[k] == if k == byte_offset(a) { byte | x } else { byte });
            assert(only_b[k] == if k == byte_offset(b) { byte | y } else { byte });
        }
    }
    assert(ab =~= ba);
}

/// A file opens exactly where it is of this format and made for that many
/// chunks: its length is that of the header and the bits, and the magic number,
/// the version and the count stand at their places in the header.
pub proof fn law_file_that_opens_is_of_this_format(
    image: Seq<u8>,
    chunk_count: u32,
    order: ByteOrder,
)
    ensures
        image_fault(image, chunk_count, order) is None <==> {
            &&& chunk_count > 0
            &&& image.len() == 4096 + (chunk_count + 7) / 8
            &&& u32_at(image, 0, order) == 0x424D_4150
            &&& u32_at(image, 4, order) == 2
            &&& u32_at(image, 16, order) == chunk_count
        },
{
}

/// What a refusal says is wrong is what is wrong: the magic number, the version
/// or the count differs from what it has to be, or the length, with both lengths
/// told.
pub proof fn law_refusals_tell_what_is_wrong(image: Seq<u8>, chunk_count: u32, order: ByteOrder)
    requires
        image.len() <= u64::MAX,
    ensures
        match image_fault(image, chunk_count, order) {
            Some(PersistMapError::ZeroChunkCount) => chunk_count == 0,
            Some(PersistMapError::UnexpectedSize { actual, expected }) => {
                &&& actual == image.len()
                &&& expected == 4096 + (chunk_count + 7) / 8
                &&& actual != expected
                &&& chunk_count > 0
            },
            Some(PersistMapError::BadMagic) => u32_at(image, 0, order) != 0x424D_4150,
            Some(PersistMapError::BadVersion) => u32_at(image, 4, order) != 2,
            Some(PersistMapError::WrongCount) => u32_at(image, 16, order) != chunk_count,
            Some(_) => false,
            None => true,
        },
        chunk_count == 0 ==> image_fault(image, chunk_count, order) == Some(
            PersistMapError::ZeroChunkCount,
        ),
        chunk_count > 0 && image.len() != 4096 + (chunk_count + 7) / 8 ==> image_fault(
            image,
            chunk_count,
            order,
        ) matches Some(PersistMapError::UnexpectedSize { .. }),
        chunk_count > 0 && image.len() == 4096 + (chunk_count + 7) / 8 ==> {
            &&& u32_at(image, 0, order) != 0x424D_4150 ==> image_fault(image, chunk_count, order)
                == Some(PersistMapError::BadMagic)
            &&& u32_at(image, 0, order) == 0x424D_4150 && u32_at(image, 4, order) != 2
                ==> image_fault(image, chunk_count, order) == Some(PersistMapError::BadVersion)
            &&& u32_at(image, 0, order) == 0x424D_4150 && u32_at(image, 4, order) == 2 && u32_at(
                image,
                16,
                order,
            ) != chunk_count ==> image_fault(image, chunk_count, order) == Some(
                PersistMapError::WrongCount,
            )
        },
{
}

/// A file of this format in the byte order of the machine, made for that many
/// chunks, is opened as it is; any other is refused for what is wrong with it.
pub proof fn law_files_of_this_format_are_opened<E, O: FnOnce() -> Result<Vec<u8>, E>>(
    open: O,
    chunk_count: u32,
    file: Seq<u8>,
    r: Result<PersistMap, OpenError<E>>,
)
    requires
        has_one_order(),
        chunk_count > 0,
        opened(open, chunk_count, r),
        forall|read: Result<Vec<u8>, E>| #[trigger]
            open.ensures((), read) ==> (read matches Ok(bytes) && bytes@ == file),
    ensures
        forall|order: ByteOrder| #[trigger]
            is_native(order) ==> if file.len() == 4096 + (chunk_count + 7) / 8 && u32_at(
                file,
                0,
                order,
            ) == 0x424D_4150 && u32_at(file, 4, order) == 2 && u32_at(file, 16, order)
                == chunk_count {
                r matches Ok(map) && map.image() == file && map.chunk_count() == chunk_count
                    && map.byte_order() == order
            } else {
                r matches Err(OpenError::Invalid(fault)) && image_fault(file, chunk_count, order)
                    == Some(fault)
            },
{
    let (read, native) = choose|read: Result<Vec<u8>, E>, native: ByteOrder|
        open.ensures((), read) && is_native(native) && #[trigger] opened_file(
            read,
            chunk_count,
            native,
            r,
        );
    assert(opened_file(read, chunk_count, native, r));
    assert forall|order: ByteOrder| #[trigger] is_native(order) implies order == native by {
        assert(is_native(native));
    }
    law_file_that_opens_is_of_this_format(file, chunk_count, native);
}

/// A map that is opened holds a file of this format, the one that was read, and
/// in the byte order of the machine; a failure to read is passed on.
pub proof fn law_opened_map_is_the_file_that_was_read<E, O: FnOnce() -> Result<Vec<u8>, E>>(
    open: O,
    chunk_count: u32,
    r: Result<PersistMap, OpenError<E>>,
)
    requires
        opened(open, chunk_count, r),
    ensures
        match r {
            Ok(map) => {
                &&& chunk_count > 0
                &&& map.chunk_count() == chunk_count
                &&& is_native(map.byte_order())
                &&& u32_at(map.image(), 0, map.byte_order()) == 0x424D_4150
                &&& u32_at(map.image(), 4, map.byte_order()) == 2
                &&& u32_at(map.image(), 16, map.byte_order()) == chunk_count
                &&& exists|file: Vec<u8>| #[trigger]
                    open.ensures((), Ok::<Vec<u8>, E>(file)) && file@ == map.image()
            },
            Err(OpenError::Io(e)) => chunk_count > 0 && open.ensures((), Err::<Vec<u8>, E>(e)),
            Err(OpenError::Invalid(PersistMapError::ZeroChunkCount)) => chunk_count == 0,
            Err(OpenError::Invalid(fault)) => chunk_count > 0 && exists|file: Vec<u8>| #[trigger]
                open.ensures((), Ok::<Vec<u8>, E>(file)),
        },
{
    if chunk_count > 0 {
        let (file, order) = choose|file: Result<Vec<u8>, E>, order: ByteOrder|
            open.ensures((), file) && is_native(order) && #[trigger] opened_file(
                file,
                chunk_count,
                order,
                r,
            );
        assert(opened_file(file, chunk_count, order, r));
        law_file_that_opens_is_of_this_format(file->Ok_0@, chunk_count, order);
    }
}

/// Where nothing keeps a new map from being published, `create` gives a map with
/// nothing ready. What was published is that map, whole, in the directory of its
/// path, or in the current one where the path has none.
pub proof fn law_create_publishes_a_fresh_map<E, P, O>(
    parent: &[u8],
    chunk_count: u32,
    publish: P,
    open: O,
    r: Result<PersistMap, OpenError<E>>,
) where
    P: FnOnce(&[u8], &[u8]) -> Result<(), PublishError<E>>,
    O: FnOnce() -> Result<Vec<u8>, E>,

    requires
        chunk_count > 0,
        created(Some(parent), chunk_count, publish, open, r),
        forall|dir: &[u8], image: &[u8], published: Result<(), PublishError<E>>| #[trigger]
            publish.ensures((dir, image), published) ==> published == Ok::<(), PublishError<E>>(
                (),
            ),
    ensures
        r matches Ok(map) && {
            &&& map.chunk_count() == chunk_count
            &&& is_native(map.byte_order())
            &&& forall|i: int| 0 <= i < chunk_count ==> !(#[trigger] map.ready()[i])
            &&& u32_at(map.image(), 20, map.byte_order()) == chunk_count
            &&& u32_at(map.image(), 0, map.byte_order()) == 0x424D_4150
            &&& exists|dir: &[u8], image: &[u8]|
                {
                    &&& #[trigger] publish.ensures((dir, image), Ok::<(), PublishError<E>>(()))
                    &&& image@ == map.image()
                    &&& dir@ == if parent@.len() == 0 {
                        seq!['.' as u8]
                    } else {
                        parent@
                    }
                }
        },
{
    let (dir, image, published, order) = choose|
        dir: &[u8],
        image: &[u8],
        published: Result<(), PublishError<E>>,
        order: ByteOrder,
    |
        {
            &&& #[trigger] publish.ensures((dir, image), published)
            &&& dir@ == publish_dir_of(parent@)
            &&& is_native(order)
            &&& image@ == #[trigger] fresh_image(chunk_count, order)
            &&& match published {
                Ok(()) => r matches Ok(map) && map.wf() && map.chunk_count() == chunk_count
                    && map.byte_order() == order && map.image() == image@,
                Err(PublishError::AlreadyExists) => opened(open, chunk_count, r),
                Err(PublishError::Io(e)) => r == Err::<PersistMap, OpenError<E>>(OpenError::Io(e)),
            }
        };
    assert(publish.ensures((dir, image), published));
    assert(published == Ok::<(), PublishError<E>>(()));
    law_fresh_map_has_nothing_ready(chunk_count, order);
    lemma_fresh_fields(chunk_count, order);
}

/// `create` refuses a map without chunks or without a file name, and passes on
/// why a file could not be published, unless that is that there is one.
pub proof fn law_create_passes_failures_on<E, P, O>(
    parent: Option<&[u8]>,
    chunk_count: u32,
    publish: P,
    open: O,
    r: Result<PersistMap, OpenError<E>>,
    e: E,
) where
    P: FnOnce(&[u8], &[u8]) -> Result<(), PublishError<E>>,
    O: FnOnce() -> Result<Vec<u8>, E>,

    requires
        created(parent, chunk_count, publish, open, r),
        forall|dir: &[u8], image: &[u8], published: Result<(), PublishError<E>>| #[trigger]
            publish.ensures((dir, image), published) ==> published == Err::<(), PublishError<E>>(
                PublishError::Io(e),
            ),
    ensures
        chunk_count == 0 ==> r == Err::<PersistMap, OpenError<E>>(
            OpenError::Invalid(PersistMapError::ZeroChunkCount),
        ),
        chunk_count > 0 && parent is None ==> r == Err::<PersistMap, OpenError<E>>(
            OpenError::Invalid(PersistMapError::MissingFilename),
        ),
        chunk_count > 0 && parent is Some ==> r == Err::<PersistMap, OpenError<E>>(
            OpenError::Io(e),
        ),
{
}

/// Only a fresh map of that many chunks is ever to be published, in the directory
/// of its path or, where that is empty, in the current one.
pub proof fn law_only_fresh_maps_are_published(
    parent: Option<&[u8]>,
    chunk_count: u32,
    dir: Seq<u8>,
    image: Seq<u8>,
)
    requires
        to_publish(parent, chunk_count, dir, image),
    ensures
        chunk_count > 0,
        parent matches Some(p) && dir == if p@.len() == 0 {
            seq!['.' as u8]
        } else {
            p@
        },
        exists|order: ByteOrder| #[trigger]
            is_native(order) && image_fault(image, chunk_count, order) is None && u32_at(
                image,
                20,
                order,
            ) == chunk_count && forall|i: int|
                0 <= i < chunk_count ==> !(#[trigger] ready_bits(image, chunk_count as int)[i]),
{
    let order = choose|order: ByteOrder|
        is_native(order) && image == #[trigger] fresh_image(chunk_count, order);
    law_fresh_file_opens(chunk_count, order);
    law_fresh_map_has_nothing_ready(chunk_count, order);
    assert(is_native(order));
}

/// Marking a chunk sets its bit, leaves all other bits and fields as they are,
/// and takes one off the count where the bit was clear, wrapping below zero.
pub proof fn law_marking_sets_one_bit(
    image: Seq<u8>,
    chunk_count: u32,
    order: ByteOrder,
    index: int,
)
    requires
        image_fault(image, chunk_count, order) is None,
        0 <= index < chunk_count,
    ensures
        ({
            let after = marked_image(image, order, index);
            let at = 4096 + index / 8;
            let bit = 0x80u8 >> ((index % 8) as u8);
            let (before_count, after_count) = (u32_at(image, 20, order), u32_at(after, 20, order));
            &&& after.len() == image.len()
            &&& forall|k: int|
                0 <= k < image.len() && !(20 <= k < 24) ==> #[trigger] after[k] == if k == at {
                    image[k] | bit
                } else {
                    image[k]
                }
            &&& if image[at] & bit != 0 {
                after_count == before_count
            } else {
                after_count == (before_count - 1) % 0x1_0000_0000
            }
        }),
{
    lemma_marked(image, chunk_count, order, index);
    lemma_marked_bytes(image, chunk_count, order, index);
    law_bits_run_from_the_top(image, chunk_count as int, index);
}

/// The fields of a fresh file, and zeros behind them.
pub proof fn law_fresh_file_layout(chunk_count: u32, order: ByteOrder)
    ensures
        ({
            let image = fresh_image(chunk_count, order);
            &&& image.len() == 4096 + (chunk_count + 7) / 8
            &&& u32_at(image, 0, order) == 0x424D_4150
            &&& u32_at(image, 4, order) == 2
            &&& u32_at(image, 8, order) == 0x434D_4150
            &&& u32_at(image, 12, order) == 0
            &&& u32_at(image, 16, order) == chunk_count
            &&& u32_at(image, 20, order) == chunk_count
            &&& forall|k: int| 24 <= k < image.len() ==> #[trigger] image[k] == 0
        }),
{
    lemma_fresh_fields(chunk_count, order);
}

/// What a map says of itself is what its file holds: the bits behind the header,
/// and the count at its place.
pub proof fn law_map_reads_its_file(map: PersistMap, index: int)
    requires
        0 <= index < map.chunk_count(),
    ensures
        map.ready()[index] <==> map.image()[4096 + index / 8] & (0x80u8 >> ((index % 8) as u8))
            != 0,
        map.not_ready_count() == u32_at(map.image(), 20, map.byte_order()),
{
    law_bits_run_from_the_top(map.image(), map.chunk_count() as int, index);
}

} // verus!
