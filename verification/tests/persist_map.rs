use std::cell::{Cell, RefCell};
use std::path::Path;

use nydus_storage::bitmap::{calc_file_size, div_round_up, index_to_mask, index_to_offset};
use nydus_storage::byte_order::{order_of, push_u32, read_u32, write_u32, ByteOrder};
use nydus_storage::handshake::{after_exchange, after_load, is_ready, ExchangeStep, LoadStep};
use nydus_storage::header::{
    Header, HEADER_RESERVED_SIZE, HEADER_SIZE, MAGIC1, MAGIC2, NOT_READY_COUNT_OFFSET, VERSION,
};
use nydus_storage::messages::{make_failed_message, open_failed_message};
use nydus_storage::persist_map::{
    check_header, check_index, check_size, publish_dir, OpenError, PersistMap, PersistMapError,
    PublishError,
};

const NUM_CHUNKS: u32 = 1000;

/// A directory entry that maps publish to and open from.
struct Entry(RefCell<Option<Vec<u8>>>);

impl Entry {
    fn new() -> Self {
        Self(RefCell::new(None))
    }

    fn publish(&self, image: &[u8]) -> Result<(), PublishError<String>> {
        let mut entry = self.0.borrow_mut();
        if entry.is_some() {
            return Err(PublishError::AlreadyExists);
        }
        *entry = Some(image.to_vec());
        Ok(())
    }

    fn open(&self) -> Result<Vec<u8>, String> {
        self.0.borrow().clone().ok_or("no such file".to_string())
    }

    fn store(&self, map: &PersistMap) {
        *self.0.borrow_mut() = Some(map.as_bytes().to_vec());
    }

    fn create(&self, path: &Path, chunk_count: u32) -> Result<PersistMap, OpenError<String>> {
        let parent = path.parent().map(|d| d.as_os_str().as_encoded_bytes());
        PersistMap::create(
            parent,
            chunk_count,
            |_: &[u8], image: &[u8]| self.publish(image),
            || self.open(),
        )
    }
}

fn invalid(r: Result<PersistMap, OpenError<String>>) -> PersistMapError {
    match r {
        Err(OpenError::Invalid(fault)) => fault,
        Err(OpenError::Io(e)) => panic!("unexpected I/O error: {e}"),
        Ok(_) => panic!("unexpected success"),
    }
}

#[test]
fn test_persist_map_create() {
    let entry = Entry::new();
    let filename = Path::new("/some/dir").join("persist-map");

    let mut maps: Vec<PersistMap> = Vec::new();

    for i in 0..10 {
        let mut map = entry.create(&filename, NUM_CHUNKS).unwrap();
        assert!(map.count() == NUM_CHUNKS);

        // set some ready with overlap from the previous iteration
        let start_idx = std::cmp::max((i as i32) * 100 - 20, 0) as u32;
        let end_idx = (i + 1) * 100;
        for idx in start_idx..end_idx {
            map.set_chunk_ready(idx as u32).unwrap();
            assert!(map.is_chunk_ready(idx).unwrap());

            let is_last = idx == NUM_CHUNKS - 1;
            assert!(map.is_range_all_ready() == is_last);
        }

        entry.store(&map);
        maps.push(map);
    }

    // close all
    drop(maps);

    // make sure the file is still there
    let map = entry.create(&filename, NUM_CHUNKS).unwrap();
    assert!(map.is_range_all_ready());
    drop(map);

    let map = PersistMap::existing(NUM_CHUNKS, || entry.open()).unwrap();
    assert!(map.is_range_all_ready());
}

#[test]
fn test_persist_map_transient() {
    let mut map = PersistMap::transient(NUM_CHUNKS).unwrap();
    assert!(map.count() == NUM_CHUNKS);

    // set some ready with overlap from the previous iteration
    for idx in 0..NUM_CHUNKS {
        map.set_chunk_ready(idx as u32).unwrap();
        assert!(map.is_chunk_ready(idx).unwrap());

        let is_last = idx == NUM_CHUNKS - 1;
        assert!(map.is_range_all_ready() == is_last);
    }
}

#[test]
fn fresh_file_has_the_documented_layout() {
    let map = PersistMap::fresh(9, ByteOrder::Little);
    let bytes = map.as_bytes();
    assert_eq!(map.size(), 4098);
    assert_eq!(bytes.len(), 4098);
    assert_eq!(
        &bytes[..24],
        &[
            0x50, 0x41, 0x4d, 0x42, 2, 0, 0, 0, 0x50, 0x41, 0x4d, 0x43, 0, 0, 0, 0, 9, 0, 0, 0, 9,
            0, 0, 0
        ]
    );
    assert!(bytes[24..].iter().all(|b| *b == 0));
    for idx in 0..9 {
        assert!(!map.is_chunk_ready(idx).unwrap());
    }
    assert!(!map.is_range_all_ready());

    let map = PersistMap::fresh(9, ByteOrder::Big);
    assert_eq!(
        &map.as_bytes()[..24],
        &[
            0x42, 0x4d, 0x41, 0x50, 0, 0, 0, 2, 0x43, 0x4d, 0x41, 0x50, 0, 0, 0, 0, 0, 0, 0, 9, 0,
            0, 0, 9
        ]
    );
}

#[test]
fn maps_are_in_the_byte_order_of_the_machine() {
    let map = PersistMap::transient(1).unwrap();
    assert_eq!(&map.as_bytes()[..4], &MAGIC1.to_ne_bytes());
    assert_eq!(&map.as_bytes()[16..20], &1u32.to_ne_bytes());
    assert_eq!(order_of([1, 0, 0, 0]), ByteOrder::Little);
    assert_eq!(order_of([0, 0, 0, 1]), ByteOrder::Big);
}

#[test]
fn header_bytes_are_those_in_memory() {
    let header = Header::fresh(0x0102_0304);
    assert_eq!(header.magic, MAGIC1);
    assert_eq!(header.version, VERSION);
    assert_eq!(header.magic2, MAGIC2);
    assert_eq!(header._all_ready, 0);
    assert_eq!(header.count, 0x0102_0304);
    assert_eq!(header.not_ready_count, 0x0102_0304);
    let bytes = header.as_slice();
    assert_eq!(bytes.len(), HEADER_SIZE);
    assert_eq!(bytes[..4], MAGIC1.to_ne_bytes());
    assert_eq!(bytes[4..8], VERSION.to_ne_bytes());
    assert_eq!(bytes[8..12], MAGIC2.to_ne_bytes());
    assert_eq!(bytes[12..16], 0u32.to_ne_bytes());
    assert_eq!(bytes[16..20], 0x0102_0304u32.to_ne_bytes());
    assert_eq!(bytes[20..24], 0x0102_0304u32.to_ne_bytes());
    assert_eq!(bytes[24..].len(), HEADER_RESERVED_SIZE);
    assert!(bytes[24..].iter().all(|b| *b == 0));
    assert_eq!(header.encode(ByteOrder::Big)[16..20], [1, 2, 3, 4]);
    assert_eq!(header.encode(ByteOrder::Little)[16..20], [4, 3, 2, 1]);
}

#[test]
fn integers_are_read_back_as_written() {
    for order in [ByteOrder::Little, ByteOrder::Big] {
        let mut bytes = vec![0xff];
        push_u32(&mut bytes, 0xdead_beef, order);
        push_u32(&mut bytes, u32::MAX, order);
        assert_eq!(read_u32(&bytes, 1, order), 0xdead_beef);
        write_u32(&mut bytes, 1, 7, order);
        assert_eq!(read_u32(&bytes, 1, order), 7);
        assert_eq!(read_u32(&bytes, 5, order), u32::MAX);
        assert_eq!(bytes[0], 0xff);
        assert_eq!(bytes.len(), 9);
    }
}

#[test]
fn sizes_offsets_and_masks() {
    assert_eq!(div_round_up(0, 8), 0);
    assert_eq!(div_round_up(1, 8), 1);
    assert_eq!(div_round_up(8, 8), 1);
    assert_eq!(div_round_up(9, 8), 2);
    assert_eq!(calc_file_size(1), 4097);
    assert_eq!(calc_file_size(8), 4097);
    assert_eq!(calc_file_size(9), 4098);
    assert_eq!(calc_file_size(u32::MAX), 4096 + 536_870_912);
    assert_eq!(index_to_offset(0), 4096);
    assert_eq!(index_to_offset(7), 4096);
    assert_eq!(index_to_offset(8), 4097);
    assert_eq!(index_to_mask(0), 0x80);
    assert_eq!(index_to_mask(1), 0x40);
    assert_eq!(index_to_mask(7), 0x01);
    assert_eq!(index_to_mask(10), 0x20);
}

#[test]
fn marking_sets_one_bit_and_counts_down_once() {
    let mut map = PersistMap::fresh(20, ByteOrder::Big);
    map.set_chunk_ready(10).unwrap();
    assert_eq!(&map.as_bytes()[4096..], &[0, 0x20, 0]);
    assert_eq!(read_u32(map.as_bytes(), NOT_READY_COUNT_OFFSET, ByteOrder::Big), 19);
    let once = map.as_bytes().to_vec();
    map.set_chunk_ready(10).unwrap();
    assert_eq!(map.as_bytes(), &once[..]);
    for idx in 0..20 {
        assert_eq!(map.is_chunk_ready(idx).unwrap(), idx == 10);
    }
}

#[test]
fn the_order_of_marks_does_not_matter() {
    let mut one = PersistMap::fresh(20, ByteOrder::Little);
    let mut other = PersistMap::fresh(20, ByteOrder::Little);
    for idx in [3, 17, 4, 3] {
        one.set_chunk_ready(idx).unwrap();
    }
    for idx in [17, 4, 17, 3] {
        other.set_chunk_ready(idx).unwrap();
    }
    assert_eq!(one.as_bytes(), other.as_bytes());
    assert_eq!(read_u32(one.as_bytes(), NOT_READY_COUNT_OFFSET, ByteOrder::Little), 17);
}

#[test]
fn chunks_out_of_range_are_refused() {
    let mut map = PersistMap::fresh(9, ByteOrder::Little);
    let before = map.as_bytes().to_vec();
    let fault = PersistMapError::IndexOutOfRange { index: 9, count: 9 };
    assert_eq!(map.is_chunk_ready(9), Err(fault));
    assert_eq!(map.set_chunk_ready(9), Err(fault));
    assert_eq!(map.as_bytes(), &before[..]);
    assert_eq!(fault.message("m", "\"m\""), "chunk index 9 exceeds chunk count 9");
    assert_eq!(check_index(9, 9), Err(fault));
    assert_eq!(check_index(8, 9), Ok(()));
    let last = PersistMapError::IndexOutOfRange {
        index: u32::MAX,
        count: 9,
    };
    assert_eq!(map.set_chunk_ready(u32::MAX), Err(last));
    assert_eq!(
        last.message("m", "\"m\""),
        "chunk index 4294967295 exceeds chunk count 9"
    );
}

#[test]
fn a_map_needs_a_chunk() {
    let entry = Entry::new();
    let zero = PersistMapError::ZeroChunkCount;
    assert!(matches!(
        PersistMap::transient(0),
        Err(PersistMapError::ZeroChunkCount)
    ));
    assert_eq!(invalid(entry.create(Path::new("/d/map"), 0)), zero);
    assert_eq!(invalid(PersistMap::existing(0, || entry.open())), zero);
    assert!(entry.open().is_err());
    let touched = Cell::new(false);
    let r = PersistMap::create(
        Some(b"/d"),
        0,
        |_: &[u8], _: &[u8]| {
            touched.set(true);
            Ok::<(), PublishError<String>>(())
        },
        || {
            touched.set(true);
            entry.open()
        },
    );
    assert_eq!(invalid(r), zero);
    assert!(!touched.get());
    assert_eq!(zero.message("", ""), "chunk count should be greater than 0");
}

#[test]
fn a_map_needs_a_filename() {
    let entry = Entry::new();
    let fault = invalid(entry.create(Path::new("/"), 1));
    assert_eq!(fault, PersistMapError::MissingFilename);
    assert_eq!(fault.message("/", "\"/\""), "missing filename");
    assert!(entry.open().is_err());
}

#[test]
fn maps_are_made_in_the_directory_of_their_path() {
    assert_eq!(publish_dir(Some(b"/a/b")).unwrap(), b"/a/b");
    assert_eq!(publish_dir(Some(b"")).unwrap(), b".");
    assert_eq!(publish_dir(None), Err(PersistMapError::MissingFilename));

    let dir: RefCell<Vec<u8>> = RefCell::new(Vec::new());
    let parent = Path::new("map").parent().unwrap();
    let map = PersistMap::create(
        Some(parent.as_os_str().as_encoded_bytes()),
        1,
        |d: &[u8], _: &[u8]| {
            *dir.borrow_mut() = d.to_vec();
            Ok::<(), PublishError<String>>(())
        },
        || Err("not called".to_string()),
    )
    .unwrap();
    assert_eq!(*dir.borrow(), b".");
    assert!(!map.is_range_all_ready());
}

#[test]
fn the_file_is_complete_before_it_is_published() {
    let entry = Entry::new();
    let map = entry.create(Path::new("/d/map"), 12).unwrap();
    assert_eq!(entry.open().unwrap(), map.as_bytes());
    assert_eq!(map.size(), 4098);
}

#[test]
fn an_existing_map_is_opened_and_not_overwritten() {
    let entry = Entry::new();
    let mut map = entry.create(Path::new("/d/map"), 12).unwrap();
    map.set_chunk_ready(5).unwrap();
    entry.store(&map);
    let again = entry.create(Path::new("/d/map"), 12).unwrap();
    assert_eq!(again.as_bytes(), map.as_bytes());
    assert!(again.is_chunk_ready(5).unwrap());
    assert!(!again.is_chunk_ready(6).unwrap());
}

#[test]
fn failures_of_the_file_system_are_passed_on() {
    let opened = Cell::new(false);
    let r = PersistMap::create(
        Some(b"/d"),
        1,
        |_: &[u8], _: &[u8]| Err(PublishError::Io("disk full".to_string())),
        || {
            opened.set(true);
            Err("not called".to_string())
        },
    );
    assert!(matches!(r, Err(OpenError::Io(e)) if e == "disk full"));
    assert!(!opened.get());

    let entry = Entry::new();
    let r = PersistMap::existing(1, || entry.open());
    assert!(matches!(r, Err(OpenError::Io(e)) if e == "no such file"));
}

#[test]
fn files_of_another_size_are_refused() {
    let entry = Entry::new();
    entry.create(Path::new("/d/map"), 8).unwrap();
    let fault = invalid(entry.create(Path::new("/d/map"), 9));
    let expected = PersistMapError::UnexpectedSize {
        actual: 4097,
        expected: 4098,
    };
    assert_eq!(fault, expected);
    assert_eq!(check_size(4097, 9), Err(expected));
    assert_eq!(check_size(4098, 9), Ok(()));
    assert_eq!(
        fault.message("/d/map", "\"/d/map\""),
        "chunk_map file /d/map has unexpected size: 4097, expected: 4098"
    );
}

#[test]
fn files_with_another_header_are_refused() {
    for order in [ByteOrder::Little, ByteOrder::Big] {
        let image = PersistMap::fresh(8, order).as_bytes().to_vec();
        assert_eq!(check_header(&image, 8, order), Ok(()));
        assert!(PersistMap::from_image(image.clone(), 8, order).is_ok());

        let mut bad = image.clone();
        bad[1] ^= 1;
        bad[4] ^= 1;
        assert_eq!(check_header(&bad, 8, order), Err(PersistMapError::BadMagic));

        let mut bad = image.clone();
        bad[4] ^= 1;
        bad[16] ^= 1;
        assert_eq!(check_header(&bad, 8, order), Err(PersistMapError::BadVersion));

        // A file of the same size, made for another number of chunks
        assert_eq!(check_header(&image, 7, order), Err(PersistMapError::WrongCount));
        assert!(matches!(
            PersistMap::from_image(image.clone(), 7, order),
            Err(PersistMapError::WrongCount)
        ));

        // Nothing reads the second magic number
        let mut other = image.clone();
        other[8] ^= 1;
        assert_eq!(check_header(&other, 8, order), Ok(()));
    }
    assert_eq!(
        PersistMapError::BadMagic.message("m", "\"m\""),
        "chunk_map file \"m\" has bad magic"
    );
    assert_eq!(
        PersistMapError::BadVersion.message("m", "\"m\""),
        "chunk_map file \"m\" has bad version"
    );
    assert_eq!(
        PersistMapError::WrongCount.message("m", "\"m\""),
        "chunk_map file \"m\" has wrong count"
    );
}

#[test]
fn failures_of_files_are_told() {
    assert_eq!(
        open_failed_message("/d/map", "no such file"),
        "failed to open blob chunk_map file /d/map: no such file"
    );
    assert_eq!(
        make_failed_message("read-only"),
        "failed to open/create blob chunk_map file: read-only"
    );
}

#[test]
fn a_count_of_zero_wraps() {
    let mut image = PersistMap::fresh(8, ByteOrder::Little).as_bytes().to_vec();
    write_u32(&mut image, NOT_READY_COUNT_OFFSET, 0, ByteOrder::Little);
    let mut map = PersistMap::from_image(image, 8, ByteOrder::Little).unwrap();
    assert!(map.is_range_all_ready());
    map.set_chunk_ready(0).unwrap();
    assert!(!map.is_range_all_ready());
    assert_eq!(
        read_u32(map.as_bytes(), NOT_READY_COUNT_OFFSET, ByteOrder::Little),
        u32::MAX
    );
}

#[test]
fn steps_of_an_agent() {
    assert!(is_ready(0x20, 10));
    assert!(!is_ready(0xdf, 10));
    assert_eq!(after_load(0x20, 10), LoadStep::Done);
    assert_eq!(after_load(0x81, 10), LoadStep::Exchange { next: 0xa1 });
    assert_eq!(after_exchange(true), ExchangeStep::CountDown);
    assert_eq!(after_exchange(false), ExchangeStep::Reload);
}

#[test]
fn two_agents_share_a_byte() {
    // Both load the byte before either exchanges it; the second has to retry.
    let byte = Cell::new(0u8);
    let left = Cell::new(8u32);
    let exchange = |current: u8, next: u8| {
        let unchanged = byte.get() == current;
        if unchanged {
            byte.set(next);
        }
        unchanged
    };
    let first = byte.get();
    let second = byte.get();
    let LoadStep::Exchange { next } = after_load(first, 0) else {
        panic!("chunk 0 is not ready");
    };
    assert_eq!(after_exchange(exchange(first, next)), ExchangeStep::CountDown);
    left.set(left.get() - 1);
    let LoadStep::Exchange { next } = after_load(second, 1) else {
        panic!("chunk 1 is not ready");
    };
    assert_eq!(after_exchange(exchange(second, next)), ExchangeStep::Reload);
    let second = byte.get();
    let LoadStep::Exchange { next } = after_load(second, 1) else {
        panic!("chunk 1 is not ready");
    };
    assert_eq!(after_exchange(exchange(second, next)), ExchangeStep::CountDown);
    left.set(left.get() - 1);
    assert_eq!(byte.get(), 0xc0);
    assert_eq!(left.get(), 6);
    assert_eq!(after_load(byte.get(), 1), LoadStep::Done);
}
