//! The chunk map: a file of fixed layout that records which chunks of a blob
//! are ready.

use vstd::prelude::*;

use crate::bitmap::{
    bit_is_set, byte_offset, calc_file_size, chunk_mask, clear_count, file_size, index_to_offset,
    law_bits_run_from_the_top, lemma_byte_offset_in_file, lemma_set_bit, ready_bits,
};
use crate::byte_order::{
    is_native, lemma_u32_at_of_bytes, lemma_with_u32_at, native_order, read_u32, u32_at, u32_bytes,
    with_u32_at, write_u32, ByteOrder,
};
use crate::handshake::{after_exchange, after_load, is_ready, ExchangeStep, LoadStep};
use crate::header::{
    Header, COUNT_OFFSET, HEADER_SIZE, MAGIC1, MAGIC2, MAGIC_OFFSET, NOT_READY_COUNT_OFFSET,
    VERSION, VERSION_OFFSET,
};
use crate::map_laws::{law_fresh_map_has_nothing_ready, lemma_marked_bytes};

verus! {

/// Why a chunk map is refused.
#[derive(Clone, Copy, Debug, PartialEq, Eq, Structural)]
pub enum PersistMapError {
    /// A map needs at least one chunk.
    ZeroChunkCount,
    /// The path of the map names no file.
    MissingFilename,
    /// The file does not have the size that the chunk count asks for.
    UnexpectedSize { actual: u64, expected: u64 },
    /// The file does not start with the magic number.
    BadMagic,
    /// The file is of another version.
    BadVersion,
    /// The file was made for another number of chunks.
    WrongCount,
    /// There is no such chunk in the map.
    IndexOutOfRange { index: u32, count: u32 },
}

/// Why an existing map could not be opened.
#[derive(Debug)]
pub enum OpenError<E> {
    /// The request or the file is not valid.
    Invalid(PersistMapError),
    /// Reading the file failed.
    Io(E),
}

/// Why a new file could not be published under its name.
#[derive(Debug)]
pub enum PublishError<E> {
    /// There is a file of that name.
    AlreadyExists,
    /// Anything else.
    Io(E),
}

/// The file of a map of `chunk_count` chunks of which none is ready.
pub open spec fn fresh_image(chunk_count: u32, order: ByteOrder) -> Seq<u8> {
    u32_bytes(MAGIC1, order) + u32_bytes(VERSION, order) + u32_bytes(MAGIC2, order) + u32_bytes(
        0,
        order,
    ) + u32_bytes(chunk_count, order) + u32_bytes(chunk_count, order) + Seq::new(
        (file_size(chunk_count as int) - 24) as nat,
        |i: int| 0u8,
    )
}

/// One less, modulo the range of the counter.
pub open spec fn wrapping_dec(x: u32) -> u32 {
    if x == 0 {
        u32::MAX
    } else {
        (x - 1) as u32
    }
}

/// The file `image` once chunk `index` is marked: its bit is set, and if it was
/// clear before, the count of chunks that are not ready is one less.
pub open spec fn marked_image(image: Seq<u8>, order: ByteOrder, index: int) -> Seq<u8> {
    let at = byte_offset(index);
    if bit_is_set(image[at], index) {
        image
    } else {
        with_u32_at(
            image.update(at, image[at] | chunk_mask(index)),
            NOT_READY_COUNT_OFFSET as int,
            wrapping_dec(u32_at(image, NOT_READY_COUNT_OFFSET as int, order)),
            order,
        )
    }
}

/// What is wrong with the file `image` as a map of `chunk_count` chunks, if
/// anything is.
pub open spec fn image_fault(image: Seq<u8>, chunk_count: u32, order: ByteOrder) -> Option<
    PersistMapError,
> {
    if chunk_count == 0 {
        Some(PersistMapError::ZeroChunkCount)
    } else if image.len() != file_size(chunk_count as int) {
        Some(
            PersistMapError::UnexpectedSize {
                actual: image.len() as u64,
                expected: file_size(chunk_count as int) as u64,
            },
        )
    } else if u32_at(image, MAGIC_OFFSET as int, order) != MAGIC1 {
        Some(PersistMapError::BadMagic)
    } else if u32_at(image, VERSION_OFFSET as int, order) != VERSION {
        Some(PersistMapError::BadVersion)
    } else if u32_at(image, COUNT_OFFSET as int, order) != chunk_count {
        Some(PersistMapError::WrongCount)
    } else {
        None
    }
}

/// The count in the header of the file `image` agrees with its bitmap.
pub open spec fn image_consistent(image: Seq<u8>, chunk_count: u32, order: ByteOrder) -> bool {
    u32_at(image, NOT_READY_COUNT_OFFSET as int, order) == clear_count(
        ready_bits(image, chunk_count as int),
    )
}

/// The directory in which the file of a map is made, given the parent of its
/// path: the parent, or the current directory where that is empty.
pub open spec fn publish_dir_of(parent: Seq<u8>) -> Seq<u8> {
    if parent.len() == 0 {
        seq![46u8]
    } else {
        parent
    }
}

/// `nix::NixPath::is_empty` on a byte string: whether it has no bytes.
#[verifier::external_body]
fn path_is_empty(path: &[u8]) -> (r: bool)
    ensures
        r == (path@.len() == 0),
{
    nix::NixPath::is_empty(path)
}

/// The directory in which the file of a map is made, given the parent of its
/// path as bytes, or `None` where the path has no parent.
pub fn publish_dir(parent: Option<&[u8]>) -> (r: Result<Vec<u8>, PersistMapError>)
    ensures
        match parent {
            None => r == Err::<Vec<u8>, _>(PersistMapError::MissingFilename),
            Some(p) => r matches Ok(dir) && dir@ == publish_dir_of(p@) && dir@ == if p@.len() == 0 {
                seq![46u8]
            } else {
                p@
            },
        },
{
    match parent {
        None => Err(PersistMapError::MissingFilename),
        Some(p) => {
            let mut dir: Vec<u8> = Vec::new();
            if path_is_empty(p) {
                dir.push(46u8);
            } else {
                let mut i: usize = 0;
                while i < p.len()
                    invariant
                        i <= p@.len(),
                        dir@ == p@.take(i as int),
                    decreases p@.len() - i,
                {
                    dir.push(p[i]);
                    i = i + 1;
                    assert(dir@ =~= p@.take(i as int));
                }
            }
            assert(dir@ =~= publish_dir_of(p@));
            Ok(dir)
        },
    }
}

/// Checks the size of a file against the number of chunks that it is to hold.
pub fn check_size(actual: u64, chunk_count: u32) -> (r: Result<(), PersistMapError>)
    ensures
        r is Ok <==> actual == file_size(chunk_count as int),
        r is Ok <==> actual == 4096 + (chunk_count + 7) / 8,
        r is Err ==> r == Err::<(), _>(
            PersistMapError::UnexpectedSize {
                actual,
                expected: file_size(chunk_count as int) as u64,
            },
        ),
{
    let expected: u64 = calc_file_size(chunk_count);
    if actual != expected {
        Err(PersistMapError::UnexpectedSize { actual, expected })
    } else {
        Ok(())
    }
}

/// Checks the header at the start of a file.
pub fn check_header(bytes: &[u8], chunk_count: u32, order: ByteOrder) -> (r: Result<
    (),
    PersistMapError,
>)
    requires
        bytes@.len() >= HEADER_SIZE,
    ensures
        r == if u32_at(bytes@, MAGIC_OFFSET as int, order) != MAGIC1 {
            Err::<(), _>(PersistMapError::BadMagic)
        } else if u32_at(bytes@, VERSION_OFFSET as int, order) != VERSION {
            Err::<(), _>(PersistMapError::BadVersion)
        } else if u32_at(bytes@, COUNT_OFFSET as int, order) != chunk_count {
            Err::<(), _>(PersistMapError::WrongCount)
        } else {
            Ok::<(), PersistMapError>(())
        },
        r == Err::<(), _>(PersistMapError::BadMagic) <==> u32_at(bytes@, 0, order) != 0x424D_4150,
        r == Err::<(), _>(PersistMapError::BadVersion) <==> u32_at(bytes@, 0, order) == 0x424D_4150
            && u32_at(bytes@, 4, order) != 2,
        r is Ok <==> u32_at(bytes@, 0, order) == 0x424D_4150 && u32_at(bytes@, 4, order) == 2
            && u32_at(bytes@, 16, order) == chunk_count,
{
    if read_u32(bytes, MAGIC_OFFSET, order) != MAGIC1 {
        return Err(PersistMapError::BadMagic);
    }
    if read_u32(bytes, VERSION_OFFSET, order) != VERSION {
        return Err(PersistMapError::BadVersion);
    }
    if read_u32(bytes, COUNT_OFFSET, order) != chunk_count {
        return Err(PersistMapError::WrongCount);
    }
    Ok(())
}

/// Checks the index of a chunk against the number of chunks.
pub fn check_index(index: u32, count: u32) -> (r: Result<(), PersistMapError>)
    ensures
        index < count ==> r == Ok::<(), PersistMapError>(()),
        index >= count ==> r == Err::<(), _>(PersistMapError::IndexOutOfRange { index, count }),
{
    if index < count {
        Ok(())
    } else {
        Err(PersistMapError::IndexOutOfRange { index, count })
    }
}

/// A chunk map that its owner alone reads and writes: the bytes of the file and
/// the number of chunks.
pub struct PersistMap {
    count: u32,
    order: ByteOrder,
    image: Vec<u8>,
}

impl PersistMap {
    /// The number of chunks.
    pub closed spec fn chunk_count(&self) -> u32 {
        self.count
    }

    /// The byte order of the integers in the header.
    pub closed spec fn byte_order(&self) -> ByteOrder {
        self.order
    }

    /// The bytes of the file.
    pub closed spec fn image(&self) -> Seq<u8> {
        self.image@
    }

    /// The file is a valid map of the given number of chunks.
    pub open spec fn wf(&self) -> bool {
        image_fault(self.image(), self.chunk_count(), self.byte_order()) is None
    }

    /// For each chunk whether it is ready.
    pub open spec fn ready(&self) -> Seq<bool> {
        ready_bits(self.image(), self.chunk_count() as int)
    }

    /// The count of chunks that are not ready, as the header has it.
    pub open spec fn not_ready_count(&self) -> u32 {
        u32_at(self.image(), NOT_READY_COUNT_OFFSET as int, self.byte_order())
    }

    /// The count in the header agrees with the bitmap.
    pub open spec fn consistent(&self) -> bool {
        image_consistent(self.image(), self.chunk_count(), self.byte_order())
    }

    /// A map of `chunk_count` chunks of which none is ready.
    pub fn fresh(chunk_count: u32, order: ByteOrder) -> (map: PersistMap)
        requires
            chunk_count > 0,
        ensures
            map.wf(),
            map.chunk_count() == chunk_count,
            map.byte_order() == order,
            map.image() == fresh_image(chunk_count, order),
            map.image().len() == 4096 + (chunk_count + 7) / 8,
            u32_at(map.image(), 0, order) == 0x424D_4150,
            u32_at(map.image(), 4, order) == 2,
            u32_at(map.image(), 8, order) == 0x434D_4150,
            u32_at(map.image(), 12, order) == 0,
            u32_at(map.image(), 16, order) == chunk_count,
            u32_at(map.image(), 20, order) == chunk_count,
            forall|k: int| 24 <= k < map.image().len() ==> #[trigger] map.image()[k] == 0,
    {
        let header = Header::fresh(chunk_count);
        let size: u64 = calc_file_size(chunk_count);
        let mut image: Vec<u8> = header.encode(order);
        let ghost head = image@;
        while image.len() < size as usize
            invariant
                HEADER_SIZE <= image@.len() <= size,
                size <= u32::MAX,
                image@ == head + Seq::new((image@.len() - HEADER_SIZE) as nat, |i: int| 0u8),
                head.len() == HEADER_SIZE,
            decreases size - image@.len(),
        {
            image.push(0u8);
            assert(image@ =~= head + Seq::new((image@.len() - HEADER_SIZE) as nat, |i: int| 0u8));
        }
        assert(image@ =~= fresh_image(chunk_count, order));
        proof {
            lemma_fresh_fields(chunk_count, order);
        }
        PersistMap { count: chunk_count, order, image }
    }

    /// The map that the file `image` holds, if it is a valid one of
    /// `chunk_count` chunks. What the bitmap and the count in the header say is
    /// taken as it is.
    pub fn from_image(image: Vec<u8>, chunk_count: u32, order: ByteOrder) -> (r: Result<
        PersistMap,
        PersistMapError,
    >)
        ensures
            match image_fault(image@, chunk_count, order) {
                Some(fault) => r == Err::<PersistMap, _>(fault),
                None => r matches Ok(map) && map.wf() && map.chunk_count() == chunk_count
                    && map.byte_order() == order && map.image() == image@,
            },
            r is Ok <==> {
                &&& chunk_count > 0
                &&& image@.len() == 4096 + (chunk_count + 7) / 8
                &&& u32_at(image@, 0, order) == 0x424D_4150
                &&& u32_at(image@, 4, order) == 2
                &&& u32_at(image@, 16, order) == chunk_count
            },
            r matches Ok(map) ==> map.chunk_count() == chunk_count && map.byte_order() == order
                && map.image() == image@,
    {
        if chunk_count == 0 {
            return Err(PersistMapError::ZeroChunkCount);
        }
        match check_size(image.len() as u64, chunk_count) {
            Ok(()) => {},
            Err(fault) => {
                return Err(fault);
            },
        }
        match check_header(image.as_slice(), chunk_count, order) {
            Ok(()) => {},
            Err(fault) => {
                return Err(fault);
            },
        }
        Ok(PersistMap { count: chunk_count, order, image })
    }

    /// Creates a map under a name, or opens the one that is there. An existing
    /// map must have the given number of chunks.
    ///
    /// `parent` is the parent of the path of the map, if it has one. `publish`
    /// gets the directory in which to make the file and the bytes that it is to
    /// hold; it writes and flushes them before it links the file to its name.
    /// `open` reads the file of that name; it is called only where `publish`
    /// found that there is one.
    pub fn create<E, P, O>(
        parent: Option<&[u8]>,
        chunk_count: u32,
        publish: P,
        open: O,
    ) -> (r: Result<PersistMap, OpenError<E>>) where
        P: FnOnce(&[u8], &[u8]) -> Result<(), PublishError<E>>,
        O: FnOnce() -> Result<Vec<u8>, E>,

        requires
            forall|dir: &[u8], image: &[u8]|
                to_publish(parent, chunk_count, dir@, image@) ==> #[trigger] publish.requires(
                    (dir, image),
                ),
            forall|dir: &[u8], image: &[u8]|
                to_publish(parent, chunk_count, dir@, image@) && #[trigger] publish.ensures(
                    (dir, image),
                    Err::<(), PublishError<E>>(PublishError::AlreadyExists),
                ) ==> open.requires(()),
        ensures
            created(parent, chunk_count, publish, open, r),
            chunk_count == 0 ==> r == Err::<PersistMap, OpenError<E>>(
                OpenError::Invalid(PersistMapError::ZeroChunkCount),
            ),
            chunk_count > 0 && parent is None ==> r == Err::<PersistMap, OpenError<E>>(
                OpenError::Invalid(PersistMapError::MissingFilename),
            ),
            r matches Ok(map) ==> {
                &&& map.chunk_count() == chunk_count
                &&& is_native(map.byte_order())
                &&& map.image().len() == 4096 + (chunk_count + 7) / 8
                &&& u32_at(map.image(), 0, map.byte_order()) == 0x424D_4150
                &&& u32_at(map.image(), 4, map.byte_order()) == 2
                &&& u32_at(map.image(), 16, map.byte_order()) == chunk_count
            },
    {
        if chunk_count == 0 {
            return Err(OpenError::Invalid(PersistMapError::ZeroChunkCount));
        }
        let dir: Vec<u8> = match publish_dir(parent) {
            Ok(dir) => dir,
            Err(fault) => {
                return Err(OpenError::Invalid(fault));
            },
        };
        let map = PersistMap::fresh(chunk_count, native_order());
        let published = publish(dir.as_slice(), map.image.as_slice());
        match published {
            Ok(()) => Ok(map),
            Err(PublishError::AlreadyExists) => PersistMap::existing(chunk_count, open),
            Err(PublishError::Io(e)) => Err(OpenError::Io(e)),
        }
    }

    /// A map that is not stored anywhere.
    pub fn transient(chunk_count: u32) -> (r: Result<PersistMap, PersistMapError>)
        ensures
            chunk_count == 0 ==> r == Err::<PersistMap, _>(PersistMapError::ZeroChunkCount),
            chunk_count > 0 ==> (r matches Ok(map) && map.wf() && map.chunk_count() == chunk_count
                && is_native(map.byte_order()) && map.image() == fresh_image(
                chunk_count,
                map.byte_order(),
            )),
            r matches Ok(map) ==> {
                &&& forall|i: int| 0 <= i < chunk_count ==> !(#[trigger] map.ready()[i])
                &&& u32_at(map.image(), 20, map.byte_order()) == chunk_count
            },
    {
        if chunk_count == 0 {
            return Err(PersistMapError::ZeroChunkCount);
        }
        let map = PersistMap::fresh(chunk_count, native_order());
        proof {
            law_fresh_map_has_nothing_ready(chunk_count, map.byte_order());
        }
        Ok(map)
    }

    /// Opens an existing map, which must have the given number of chunks.
    /// `open` reads its file; it is called only for a valid number of chunks.
    pub fn existing<E, O>(chunk_count: u32, open: O) -> (r: Result<
        PersistMap,
        OpenError<E>,
    >) where O: FnOnce() -> Result<Vec<u8>, E>
        requires
            chunk_count > 0 ==> open.requires(()),
        ensures
            opened(open, chunk_count, r),
            chunk_count == 0 ==> r == Err::<PersistMap, OpenError<E>>(
                OpenError::Invalid(PersistMapError::ZeroChunkCount),
            ),
            match r {
                Ok(map) => {
                    &&& map.chunk_count() == chunk_count
                    &&& is_native(map.byte_order())
                    &&& map.image().len() == 4096 + (chunk_count + 7) / 8
                    &&& u32_at(map.image(), 0, map.byte_order()) == 0x424D_4150
                    &&& u32_at(map.image(), 4, map.byte_order()) == 2
                    &&& u32_at(map.image(), 16, map.byte_order()) == chunk_count
                    &&& exists|file: Vec<u8>| #[trigger]
                        open.ensures((), Ok::<Vec<u8>, E>(file)) && file@ == map.image()
                },
                Err(OpenError::Io(e)) => open.ensures((), Err::<Vec<u8>, E>(e)),
                Err(OpenError::Invalid(_)) => true,
            },
    {
        if chunk_count == 0 {
            return Err(OpenError::Invalid(PersistMapError::ZeroChunkCount));
        }
        let order = native_order();
        let file = open();
        let ghost read = file;
        let r = match file {
            Ok(image) => match PersistMap::from_image(image, chunk_count, order) {
                Ok(map) => Ok(map),
                Err(fault) => Err(OpenError::Invalid(fault)),
            },
            Err(e) => Err(OpenError::Io(e)),
        };
        assert(opened_file(read, chunk_count, order, r));
        r
    }

    /// The size of the file.
    pub fn size(&self) -> (r: usize)
        ensures
            r == self.image().len(),
    {
        self.image.len()
    }

    /// The bytes of the file.
    pub fn as_bytes(&self) -> (r: &[u8])
        ensures
            r@ == self.image(),
    {
        self.image.as_slice()
    }

    fn validate_index(&self, index: u32) -> (r: Result<(), PersistMapError>)
        ensures
            index < self.count ==> r == Ok::<(), PersistMapError>(()),
            index >= self.count ==> r == Err::<(), _>(
                PersistMapError::IndexOutOfRange { index, count: self.count },
            ),
    {
        check_index(index, self.count)
    }

    /// The byte that holds the bit of chunk `index`.
    fn read_u8(&self, index: u32) -> (r: u8)
        requires
            self.wf(),
            index < self.chunk_count(),
        ensures
            r == self.image()[byte_offset(index as int)],
    {
        proof {
            lemma_byte_offset_in_file(index as int, self.count as int);
        }
        let start: usize = index_to_offset(index);
        self.image[start]
    }

    /// Sets the byte that holds the bit of chunk `index` to `next`, if it still
    /// is `current`; says whether it was.
    fn write_u8(&mut self, index: u32, current: u8, next: u8) -> (r: bool)
        requires
            old(self).wf(),
            index < old(self).chunk_count(),
        ensures
            final(self).count == old(self).count,
            final(self).order == old(self).order,
            r == (old(self).image@[byte_offset(index as int)] == current),
            r ==> final(self).image@ == old(self).image@.update(byte_offset(index as int), next),
            !r ==> final(self).image@ == old(self).image@,
    {
        proof {
            lemma_byte_offset_in_file(index as int, self.count as int);
        }
        let start: usize = index_to_offset(index);
        if self.image[start] == current {
            self.image.set(start, next);
            true
        } else {
            false
        }
    }

    /// Whether chunk `index` is ready.
    pub fn is_chunk_ready(&self, index: u32) -> (r: Result<bool, PersistMapError>)
        requires
            self.wf(),
        ensures
            index < self.chunk_count() ==> r == Ok::<bool, PersistMapError>(
                self.ready()[index as int],
            ),
            index >= self.chunk_count() ==> r == Err::<bool, _>(
                PersistMapError::IndexOutOfRange { index, count: self.chunk_count() },
            ),
            r matches Ok(ready) ==> ready == (self.image()[4096 + index as int / 8] & (0x80u8
                >> ((index % 8) as u8)) != 0),
    {
        match self.validate_index(index) {
            Ok(()) => Ok(is_ready(self.read_u8(index), index)),
            Err(fault) => Err(fault),
        }
    }

    /// Marks chunk `index` as ready.
    pub fn set_chunk_ready(&mut self, index: u32) -> (r: Result<(), PersistMapError>)
        requires
            old(self).wf(),
        ensures
            final(self).wf(),
            final(self).chunk_count() == old(self).chunk_count(),
            final(self).byte_order() == old(self).byte_order(),
            index < old(self).chunk_count() ==> {
                &&& r == Ok::<(), PersistMapError>(())
                &&& final(self).image() == marked_image(
                    old(self).image(),
                    old(self).byte_order(),
                    index as int,
                )
                &&& final(self).ready() == old(self).ready().update(index as int, true)
                &&& final(self).not_ready_count() == if old(self).ready()[index as int] {
                    old(self).not_ready_count()
                } else {
                    wrapping_dec(old(self).not_ready_count())
                }
                &&& final(self).image().len() == old(self).image().len()
                &&& forall|k: int|
                    0 <= k < old(self).image().len() && !(20 <= k < 24) ==> #[trigger] final(self)
                        .image()[k] == if k == 4096 + index as int / 8 {
                        old(self).image()[k] | (0x80u8 >> ((index % 8) as u8))
                    } else {
                        old(self).image()[k]
                    }
                &&& u32_at(final(self).image(), 20, old(self).byte_order()) == {
                    let left = u32_at(old(self).image(), 20, old(self).byte_order());
                    if old(self).image()[4096 + index as int / 8] & (0x80u8 >> ((index % 8) as u8))
                        != 0 {
                        left as int
                    } else if left == 0 {
                        0xFFFF_FFFF
                    } else {
                        left - 1
                    }
                }
            },
            index >= old(self).chunk_count() ==> {
                &&& r == Err::<(), _>(
                    PersistMapError::IndexOutOfRange { index, count: old(self).chunk_count() },
                )
                &&& final(self).image() == old(self).image()
            },
    {
        match self.validate_index(index) {
            Ok(()) => {},
            Err(fault) => {
                return Err(fault);
            },
        }
        proof {
            lemma_marked(self.image@, self.count, self.order, index as int);
            lemma_marked_bytes(self.image@, self.count, self.order, index as int);
            law_bits_run_from_the_top(self.image@, self.count as int, index as int);
        }
        let ghost marked = marked_image(self.image@, self.order, index as int);
        loop
            invariant
                *self == *old(self),
                self.wf(),
                marked == marked_image(self.image@, self.order, index as int),
                marked.len() == self.image@.len(),
                forall|k: int|
                    0 <= k < self.image@.len() && !(20 <= k < 24) ==> #[trigger] marked[k] == if k
                        == 4096 + index as int / 8 {
                        self.image@[k] | (0x80u8 >> ((index % 8) as u8))
                    } else {
                        self.image@[k]
                    },
                self.ready()[index as int] <==> self.image@[4096 + index as int / 8] & (0x80u8 >> ((
                index % 8) as u8)) != 0,
                index < self.count,
                image_fault(
                    marked_image(self.image@, self.order, index as int),
                    self.count,
                    self.order,
                ) is None,
                ready_bits(marked_image(self.image@, self.order, index as int), self.count as int)
                    == ready_bits(self.image@, self.count as int).update(index as int, true),
                u32_at(
                    marked_image(self.image@, self.order, index as int),
                    NOT_READY_COUNT_OFFSET as int,
                    self.order,
                ) == if ready_bits(self.image@, self.count as int)[index as int] {
                    u32_at(self.image@, NOT_READY_COUNT_OFFSET as int, self.order)
                } else {
                    wrapping_dec(u32_at(self.image@, NOT_READY_COUNT_OFFSET as int, self.order))
                },
            decreases 0int,
        {
            let current: u8 = self.read_u8(index);
            match after_load(current, index) {
                LoadStep::Done => {
                    return Ok(());
                },
                LoadStep::Exchange { next } => {
                    let exchanged: bool = self.write_u8(index, current, next);
                    match after_exchange(exchanged) {
                        ExchangeStep::CountDown => {
                            proof {
                                lemma_byte_offset_in_file(index as int, self.count as int);
                            }
                            let left: u32 = read_u32(
                                self.image.as_slice(),
                                NOT_READY_COUNT_OFFSET,
                                self.order,
                            );
                            write_u32(
                                &mut self.image,
                                NOT_READY_COUNT_OFFSET,
                                left.wrapping_sub(1),
                                self.order,
                            );
                            return Ok(());
                        },
                        ExchangeStep::Reload => {},
                    }
                },
            }
        }
    }

    /// Whether all chunks are ready, as the count in the header has it.
    pub fn is_range_all_ready(&self) -> (r: bool)
        requires
            self.wf(),
        ensures
            r == (self.not_ready_count() == 0),
            r == (u32_at(self.image(), 20, self.byte_order()) == 0),
    {
        read_u32(self.image.as_slice(), NOT_READY_COUNT_OFFSET, self.order) == 0
    }

    /// The number of chunks.
    pub fn count(&self) -> (r: u32)
        ensures
            r == self.chunk_count(),
    {
        self.count
    }
}

/// Whether creating a map of `chunk_count` chunks, given the parent of its path,
/// may have `image` published in `dir`: there are chunks, the path has a parent,
/// and `image` is a fresh file in the byte order of the machine.
pub open spec fn to_publish(
    parent: Option<&[u8]>,
    chunk_count: u32,
    dir: Seq<u8>,
    image: Seq<u8>,
) -> bool {
    &&& chunk_count > 0
    &&& parent matches Some(p) && dir == publish_dir_of(p@)
    &&& exists|order: ByteOrder|
        is_native(order) && image == #[trigger] fresh_image(chunk_count, order)
}

/// What creating a map of `chunk_count` chunks comes to, given the parent of its
/// path: `publish` gets the directory and a fresh file in the byte order of the
/// machine, and where it finds that there is a file, `open` reads that one.
pub open spec fn created<E, P, O>(
    parent: Option<&[u8]>,
    chunk_count: u32,
    publish: P,
    open: O,
    r: Result<PersistMap, OpenError<E>>,
) -> bool where
    P: FnOnce(&[u8], &[u8]) -> Result<(), PublishError<E>>,
    O: FnOnce() -> Result<Vec<u8>, E>,
 {
    if chunk_count == 0 {
        r == Err::<PersistMap, OpenError<E>>(OpenError::Invalid(PersistMapError::ZeroChunkCount))
    } else {
        match parent {
            None => r == Err::<PersistMap, OpenError<E>>(
                OpenError::Invalid(PersistMapError::MissingFilename),
            ),
            Some(p) => exists|
                dir: &[u8],
                image: &[u8],
                published: Result<(), PublishError<E>>,
                order: ByteOrder,
            |
                {
                    &&& #[trigger] publish.ensures((dir, image), published)
                    &&& dir@ == publish_dir_of(p@)
                    &&& is_native(order)
                    &&& image@ == #[trigger] fresh_image(chunk_count, order)
                    &&& match published {
                        Ok(()) => r matches Ok(map) && map.wf() && map.chunk_count() == chunk_count
                            && map.byte_order() == order && map.image() == image@,
                        Err(PublishError::AlreadyExists) => opened(open, chunk_count, r),
                        Err(PublishError::Io(e)) => r == Err::<PersistMap, OpenError<E>>(
                            OpenError::Io(e),
                        ),
                    }
                },
        }
    }
}

/// What opening an existing map of `chunk_count` chunks comes to, when `open`
/// reads its file.
pub open spec fn opened<E, O: FnOnce() -> Result<Vec<u8>, E>>(
    open: O,
    chunk_count: u32,
    r: Result<PersistMap, OpenError<E>>,
) -> bool {
    if chunk_count == 0 {
        r == Err::<PersistMap, OpenError<E>>(OpenError::Invalid(PersistMapError::ZeroChunkCount))
    } else {
        exists|file: Result<Vec<u8>, E>, order: ByteOrder|
            open.ensures((), file) && is_native(order) && #[trigger] opened_file(
                file,
                chunk_count,
                order,
                r,
            )
    }
}

/// What opening an existing map comes to, when reading its file gave `file` and
/// the machine's byte order is `order`.
pub open spec fn opened_file<E>(
    file: Result<Vec<u8>, E>,
    chunk_count: u32,
    order: ByteOrder,
    r: Result<PersistMap, OpenError<E>>,
) -> bool {
    match file {
        Err(e) => r == Err::<PersistMap, OpenError<E>>(OpenError::Io(e)),
        Ok(image) => match image_fault(image@, chunk_count, order) {
            Some(fault) => r == Err::<PersistMap, OpenError<E>>(OpenError::Invalid(fault)),
            None => r matches Ok(map) && map.wf() && map.chunk_count() == chunk_count
                && map.byte_order() == order && map.image() == image@,
        },
    }
}

/// Marking a chunk keeps the file valid, sets the one bit and counts it down.
pub proof fn lemma_marked(image: Seq<u8>, chunk_count: u32, order: ByteOrder, index: int)
    requires
        image_fault(image, chunk_count, order) is None,
        0 <= index < chunk_count,
    ensures
        image_fault(marked_image(image, order, index), chunk_count, order) is None,
        ready_bits(marked_image(image, order, index), chunk_count as int) == ready_bits(
            image,
            chunk_count as int,
        ).update(index, true),
        u32_at(marked_image(image, order, index), NOT_READY_COUNT_OFFSET as int, order) == if
            ready_bits(image, chunk_count as int)[index] {
            u32_at(image, NOT_READY_COUNT_OFFSET as int, order)
        } else {
            wrapping_dec(u32_at(image, NOT_READY_COUNT_OFFSET as int, order))
        },
{
    let at = byte_offset(index);
    let after = marked_image(image, order, index);
    lemma_byte_offset_in_file(index, chunk_count as int);
    let set = image.update(at, image[at] | chunk_mask(index));
    let left = wrapping_dec(u32_at(image, NOT_READY_COUNT_OFFSET as int, order));
    lemma_with_u32_at(set, NOT_READY_COUNT_OFFSET as int, left, order);
    let before_bits = ready_bits(image, chunk_count as int);
    let after_bits = ready_bits(after, chunk_count as int);
    if !bit_is_set(image[at], index) {
        assert forall|i: int| 0 <= i < chunk_count implies after_bits[i] == before_bits.update(
            index,
            true,
        )[i] by {
            lemma_byte_offset_in_file(i, chunk_count as int);
            assert(after[byte_offset(i)] == set[byte_offset(i)]);
            lemma_set_bit(image[at], index, i);
            if byte_offset(i) == at && i != index {
                assert(i % 8 != index % 8);
            }
        }
    }
    assert(after_bits =~= before_bits.update(index, true));
}

/// The fields of a fresh file.
pub proof fn lemma_fresh_fields(chunk_count: u32, order: ByteOrder)
    ensures
        fresh_image(chunk_count, order).len() == file_size(chunk_count as int),
        u32_at(fresh_image(chunk_count, order), MAGIC_OFFSET as int, order) == MAGIC1,
        u32_at(fresh_image(chunk_count, order), VERSION_OFFSET as int, order) == VERSION,
        u32_at(fresh_image(chunk_count, order), 8, order) == MAGIC2,
        u32_at(fresh_image(chunk_count, order), 12, order) == 0,
        u32_at(fresh_image(chunk_count, order), COUNT_OFFSET as int, order) == chunk_count,
        u32_at(fresh_image(chunk_count, order), NOT_READY_COUNT_OFFSET as int, order)
            == chunk_count,
        forall|k: int|
            24 <= k < file_size(chunk_count as int) ==> #[trigger] fresh_image(
                chunk_count,
                order,
            )[k] == 0u8,
{
    let image = fresh_image(chunk_count, order);
    assert(image.subrange(0, 4) =~= u32_bytes(MAGIC1, order));
    assert(image.subrange(4, 8) =~= u32_bytes(VERSION, order));
    assert(image.subrange(8, 12) =~= u32_bytes(MAGIC2, order));
    assert(image.subrange(12, 16) =~= u32_bytes(0, order));
    assert(image.subrange(16, 20) =~= u32_bytes(chunk_count, order));
    assert(image.subrange(20, 24) =~= u32_bytes(chunk_count, order));
    lemma_u32_at_of_bytes(image, 0, MAGIC1, order);
    lemma_u32_at_of_bytes(image, 4, VERSION, order);
    lemma_u32_at_of_bytes(image, 8, MAGIC2, order);
    lemma_u32_at_of_bytes(image, 12, 0, order);
    lemma_u32_at_of_bytes(image, 16, chunk_count, order);
    lemma_u32_at_of_bytes(image, 20, chunk_count, order);
}

} // verus!
