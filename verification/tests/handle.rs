use std::cell::Cell;

use blockio::buffer::Buffer;
use blockio::errors::Error;
use blockio::fs::MAGIC_BYTES;
use blockio::handle::{check_block_device, for_inmem, BackingStore, Handle, InMem};

/// A store in memory that counts the transfers asked of it and can be told
/// to fail them.
struct Probe {
    bytes: Vec<u8>,
    reads: Cell<usize>,
    writes: usize,
    read_failure: Option<Option<i32>>,
    write_failure: Option<Option<i32>>,
}

impl Probe {
    fn holding(bytes: Vec<u8>) -> Probe {
        Probe { bytes, reads: Cell::new(0), writes: 0, read_failure: None, write_failure: None }
    }
}

impl BackingStore for Probe {
    fn read_exact_at(&self, buf: &mut [u8], offset: u64) -> Result<(), Option<i32>> {
        self.reads.set(self.reads.get() + 1);
        if let Some(code) = self.read_failure {
            return Err(code);
        }
        let begin = offset as usize;
        buf.copy_from_slice(&self.bytes[begin..begin + buf.len()]);
        Ok(())
    }

    fn write_all_at(&mut self, buf: &[u8], offset: u64) -> Result<(), Option<i32>> {
        self.writes += 1;
        if let Some(code) = self.write_failure {
            return Err(code);
        }
        let begin = offset as usize;
        self.bytes[begin..begin + buf.len()].copy_from_slice(buf);
        Ok(())
    }
}

#[test]
fn test_byte_offset_for() {
    assert_eq!(Handle::<InMem, 512>::byte_offset_for(0), 512);
    assert_eq!(Handle::<InMem, 512>::byte_offset_for(1), 512 + 512);
    assert_eq!(Handle::<InMem, 512>::byte_offset_for(3), 512 + (3 * 512));

    assert_eq!(Handle::<InMem, 4096>::byte_offset_for(0), 4096);
    assert_eq!(Handle::<InMem, 4096>::byte_offset_for(1), 4096 + 4096);
    assert_eq!(Handle::<InMem, 4096>::byte_offset_for(3), 4096 + (3 * 4096));
}

#[test]
fn byte_offsets_leave_one_block_to_the_header() {
    assert_eq!(Handle::<InMem, 512>::byte_offset_for(0), 512);
    assert_eq!(Handle::<InMem, 512>::byte_offset_for(1), 1024);
    assert_eq!(Handle::<InMem, 512>::byte_offset_for(3), 2048);
    assert_eq!(Handle::<InMem, 1048576>::byte_offset_for(2), 3 * 1048576);
    for block in 0..100usize {
        assert_eq!(Handle::<InMem, 1024>::byte_offset_for(block), 1024 + block as u64 * 1024);
    }
}

#[test]
fn fs_in_mem_rw() {
    let h = for_inmem(1);
    assert!(!h.is_err());
    let mut h = h.unwrap();

    let expected_read = "Writing to offset 1 in block 0".as_bytes();

    let buf = h.read_blocks(0, 1);
    assert!(!buf.is_err());
    let mut buf = buf.unwrap();

    /* Write out some stuff into the buffer. */
    buf.index_mut(1..(1 + expected_read.len())).copy_from_slice(&expected_read);

    let res = h.write(&buf, 0);
    assert!(res.is_ok());

    /* Read it back in. */
    let mut buf = Buffer::new_in_bytes(1);
    let res = h.read_into_buf(&mut buf, 0);
    assert!(res.is_ok());
    assert_eq!(&buf[1..1 + expected_read.len()], expected_read);
}

#[test]
fn fs_oob() {
    let h = for_inmem(1);
    assert!(!h.is_err());
    let mut h = h.unwrap();

    let mut buf = Buffer::new_in_bytes(1);

    let msg = "Writing to offset 1 in block 42".as_bytes();
    buf.index_mut(1..(1 + msg.len())).copy_from_slice(&msg);

    let res = h.write(&buf, 42);
    assert!(!res.is_ok());
    assert_eq!(res.unwrap_err(), Error::AfterEOFAccess);
}

#[test]
fn hello_lands_at_offset_one_of_block_zero() {
    let mut h = for_inmem(1).unwrap();
    let mut buf = h.read_blocks(0, 1).unwrap();
    buf.index_mut(1..6).copy_from_slice("hello".as_bytes());
    assert_eq!(h.write(&buf, 0), Ok(()));

    let back = h.read_blocks(0, 1).unwrap();
    assert_eq!(&back[1..6], "hello".as_bytes());
    assert_eq!(back[0], 0x00);
    assert!(back[6..512].iter().all(|byte| *byte == 0x00));

    let store = h.into_backing_store();
    assert_eq!(&store.as_bytes()[513..518], "hello".as_bytes());
}

#[test]
fn read_blocks_gives_the_blocks_asked_for() {
    let mut h = for_inmem(5).unwrap();
    let buf = h.read_blocks(0, 3).unwrap();
    assert_eq!(buf.n_blocks(), 3);
    assert_eq!(buf.len(), 3 * 512);
    assert_eq!(buf.data().len(), 3 * 512);
}

#[test]
fn test_read() {
    for devblocks in [10usize, 11, 64, 255] {
        for bufblocks in 1..10usize {
            let mut h = for_inmem(devblocks).unwrap();
            let buf = h.read_blocks(0, bufblocks).unwrap();
            assert_eq!(buf.n_blocks(), bufblocks);
        }
    }
}

#[test]
fn test_rand_rw() {
    let val = 0xdb;
    for devblocks in [10usize, 17, 100, 255] {
        for bufblocks in 1..10usize {
            for block_begin in [0usize, 1, devblocks - bufblocks] {
                let mut h = for_inmem(devblocks).unwrap();

                let mut buf = Buffer::new_in_blocks(bufblocks);
                for v in buf.data_mut().iter_mut() {
                    *v = val;
                }
                h.write(&buf, block_begin).unwrap();

                let buf = h.read_blocks(block_begin, bufblocks).unwrap();
                assert_eq!(buf.len(), bufblocks * 512);
                for v in buf.data().iter() {
                    assert_eq!(*v, val);
                }
            }
        }
    }
}

#[test]
fn a_write_changes_its_own_range_only() {
    let mut h = for_inmem(4).unwrap();
    let mut buf = Buffer::<512>::new_in_blocks(2);
    for v in buf.data_mut().iter_mut() {
        *v = 0xdb;
    }
    h.write(&buf, 1).unwrap();

    let store = h.into_backing_store();
    let bytes = store.as_bytes();
    assert_eq!(bytes.len(), 5 * 512);
    assert_eq!(&bytes[0..4], &MAGIC_BYTES[..]);
    assert!(bytes[4..1024].iter().all(|byte| *byte == 0));
    assert!(bytes[1024..2048].iter().all(|byte| *byte == 0xdb));
    assert!(bytes[2048..2560].iter().all(|byte| *byte == 0));
}

#[test]
fn writes_past_the_end_are_refused() {
    let mut h = for_inmem(10).unwrap();
    let buf = Buffer::<512>::new_in_blocks(1);
    assert_eq!(h.write(&buf, 10), Err(Error::AfterEOFAccess));
    assert_eq!(h.write(&buf, 9), Ok(()));
    assert_eq!(h.write(&buf, usize::MAX), Err(Error::AfterEOFAccess));

    let two = Buffer::<512>::new_in_blocks(2);
    assert_eq!(h.write(&two, 9), Err(Error::AfterEOFAccess));
    assert_eq!(h.write(&two, 8), Ok(()));
}

#[test]
fn reads_past_the_end_are_refused() {
    let mut h = for_inmem(10).unwrap();
    assert_eq!(h.read_blocks(10, 1).err(), Some(Error::AfterEOFAccess));
    assert_eq!(h.read_blocks(0, 11).err(), Some(Error::AfterEOFAccess));
    assert_eq!(h.read_blocks(usize::MAX, 1).err(), Some(Error::AfterEOFAccess));
    assert!(h.read_blocks(9, 1).is_ok());
    assert!(h.read_blocks(0, 10).is_ok());
    assert!(h.read_blocks(10, 0).is_ok());

    let mut buf = Buffer::<512>::new_in_blocks(1);
    buf.index_mut(0..3).copy_from_slice(&[1, 2, 3]);
    assert_eq!(h.read_into_buf(&mut buf, 10), Err(Error::AfterEOFAccess));
    assert_eq!(&buf[0..3], &[1, 2, 3]);
}

#[test]
fn refused_requests_never_reach_the_store() {
    let store = Probe::holding(vec![0; 3 * 512]);
    let mut h = Handle::<Probe, 512>::new(store, 3 * 512).unwrap();
    let reads = h.backing_store().reads.get();
    let writes = h.backing_store().writes;
    assert_eq!(reads, 1);
    assert_eq!(writes, 1);

    let mut buf = Buffer::<512>::new_in_blocks(1);
    assert_eq!(h.write(&buf, 2), Err(Error::AfterEOFAccess));
    assert_eq!(h.read_into_buf(&mut buf, 2), Err(Error::AfterEOFAccess));
    assert_eq!(h.backing_store().reads.get(), reads);
    assert_eq!(h.backing_store().writes, writes);

    assert_eq!(h.write(&buf, 1), Ok(()));
    assert_eq!(h.read_into_buf(&mut buf, 1), Ok(()));
    assert_eq!(h.backing_store().reads.get(), reads + 1);
    assert_eq!(h.backing_store().writes, writes + 1);
}

#[test]
fn a_fresh_store_gets_its_header() {
    let h = for_inmem(2).unwrap();
    assert_eq!(h.len(), 3 * 512);
    let bytes = h.into_backing_store().into_bytes();
    assert_eq!(bytes.len(), 3 * 512);
    assert_eq!(&bytes[0..4], &[0x42, 0x45, 0x56, 0x4f]);
    assert!(bytes[4..].iter().all(|byte| *byte == 0));
}

#[test]
fn an_initialised_store_is_left_as_it_is() {
    let mut h = for_inmem(2).unwrap();
    let mut buf = Buffer::<512>::new_in_blocks(1);
    buf.index_mut(0..5).copy_from_slice("hello".as_bytes());
    h.write(&buf, 1).unwrap();
    let mut first = h.into_backing_store().into_bytes();
    // Block 0 behind the magic bytes belongs to nobody; mark it to see that it stays.
    first[100] = 0x77;

    let again = Handle::<InMem, 512>::new(InMem::new(first.clone()), first.len() as u64).unwrap();
    assert_eq!(again.len(), first.len() as u64);
    let second = again.into_backing_store().into_bytes();
    assert_eq!(second, first);
}

#[test]
fn an_initialised_store_is_not_written_to() {
    let mut bytes = vec![0u8; 2 * 512];
    bytes[0..4].copy_from_slice(&MAGIC_BYTES);
    let h = Handle::<Probe, 512>::new(Probe::holding(bytes), 2 * 512).unwrap();
    assert_eq!(h.backing_store().reads.get(), 1);
    assert_eq!(h.backing_store().writes, 0);
}

#[test]
fn foreign_content_in_block_zero_is_overwritten() {
    let bytes = vec![0xffu8; 3 * 512];
    let h = Handle::<InMem, 512>::new(InMem::new(bytes), 3 * 512).unwrap();
    let bytes = h.into_backing_store().into_bytes();
    assert_eq!(&bytes[0..4], &MAGIC_BYTES[..]);
    assert!(bytes[4..512].iter().all(|byte| *byte == 0));
    assert!(bytes[512..].iter().all(|byte| *byte == 0xff));
}

#[test]
fn a_larger_block_size_reserves_a_larger_header_block() {
    let bytes = vec![0xffu8; 3 * 4096];
    let mut h = Handle::<InMem, 4096>::new(InMem::new(bytes), 3 * 4096).unwrap();
    let buf = h.read_blocks(0, 2).unwrap();
    assert_eq!(buf.len(), 2 * 4096);
    assert!(buf.data().iter().all(|byte| *byte == 0xff));
    assert_eq!(h.read_blocks(1, 2).err(), Some(Error::AfterEOFAccess));
    let bytes = h.into_backing_store().into_bytes();
    assert_eq!(&bytes[0..4], &MAGIC_BYTES[..]);
    assert!(bytes[4..4096].iter().all(|byte| *byte == 0));
}

#[test]
fn a_store_shorter_than_a_block_is_refused() {
    let r = Handle::<InMem, 512>::new(InMem::new(vec![0u8; 511]), 511);
    assert_eq!(r.err(), Some(Error::AfterEOFAccess));
    let r = Handle::<InMem, 512>::new(InMem::new(Vec::new()), 0);
    assert_eq!(r.err(), Some(Error::AfterEOFAccess));
    let r = Handle::<InMem, 512>::new(InMem::new(vec![0u8; 512]), 512);
    assert!(r.is_ok());
}

#[test]
fn a_store_of_header_only_has_no_data_blocks() {
    let mut h = for_inmem(0).unwrap();
    assert_eq!(h.len(), 512);
    let buf = Buffer::<512>::new_in_blocks(1);
    assert_eq!(h.write(&buf, 0), Err(Error::AfterEOFAccess));
    assert_eq!(h.read_blocks(0, 1).err(), Some(Error::AfterEOFAccess));
}

#[test]
fn failures_of_the_store_are_passed_on() {
    let mut store = Probe::holding(vec![0; 2 * 512]);
    store.read_failure = Some(Some(5));
    assert_eq!(Handle::<Probe, 512>::new(store, 2 * 512).err(), Some(Error::Errno(5)));

    let mut store = Probe::holding(vec![0; 2 * 512]);
    store.write_failure = Some(None);
    assert_eq!(Handle::<Probe, 512>::new(store, 2 * 512).err(), Some(Error::UnknownErrno));

    let mut bytes = vec![0u8; 2 * 512];
    bytes[0..4].copy_from_slice(&MAGIC_BYTES);
    let mut store = Probe::holding(bytes);
    store.write_failure = Some(Some(28));
    let mut h = Handle::<Probe, 512>::new(store, 2 * 512).unwrap();
    let mut buf = Buffer::<512>::new_in_blocks(1);
    assert_eq!(h.write(&buf, 0), Err(Error::Errno(28)));
    assert_eq!(h.write(&buf, 1), Err(Error::AfterEOFAccess));
    assert_eq!(h.read_into_buf(&mut buf, 0), Ok(()));

    let mut bytes = vec![0u8; 2 * 512];
    bytes[0..4].copy_from_slice(&MAGIC_BYTES);
    let mut store = Probe::holding(bytes);
    store.read_failure = Some(None);
    assert_eq!(Handle::<Probe, 512>::new(store, 2 * 512).err(), Some(Error::UnknownErrno));
}

#[test]
fn only_block_devices_pass_the_check() {
    assert_eq!(check_block_device(0o060660), Ok(()));
    assert_eq!(check_block_device(0o060000), Ok(()));
    assert_eq!(check_block_device(0o100644), Err(Error::NotABlockDevice));
    assert_eq!(check_block_device(0o040755), Err(Error::NotABlockDevice));
    assert_eq!(check_block_device(0o020620), Err(Error::NotABlockDevice));
    assert_eq!(check_block_device(0o140777), Err(Error::NotABlockDevice));
    assert_eq!(check_block_device(0o120777), Err(Error::NotABlockDevice));
    assert_eq!(check_block_device(0o010644), Err(Error::NotABlockDevice));
    assert_eq!(check_block_device(0), Err(Error::NotABlockDevice));
}

#[test]
fn in_memory_store_reads_and_writes_in_place() {
    let mut store = InMem::new(vec![1, 2, 3, 4, 5, 6, 7, 8]);
    let mut got = [0u8; 3];
    assert_eq!(store.read_exact_at(&mut got, 2), Ok(()));
    assert_eq!(got, [3, 4, 5]);
    assert_eq!(store.write_all_at(&[9, 9], 6), Ok(()));
    assert_eq!(store.as_bytes(), &[1, 2, 3, 4, 5, 6, 9, 9]);
    assert_eq!(store.read_exact_at(&mut got, 5), Ok(()));
    assert_eq!(got, [6, 9, 9]);
    assert_eq!(store.write_all_at(&[], 8), Ok(()));
    assert_eq!(store.into_bytes(), vec![1, 2, 3, 4, 5, 6, 9, 9]);
}
