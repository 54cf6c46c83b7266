//! Handles on backing stores: bounds-checked transfers of whole blocks
//! between a store and aligned buffers, behind a header block that is
//! provisioned when the handle is made.

use vstd::prelude::*;
use crate::buffer::{zeros, is_power_of_two, Buffer};
use crate::errors::Error;
use crate::fs::{Header, MAGIC_BYTES};

verus! {

/// The block size with which block devices are opened.
pub const BYTES_PER_DISK_BLOCK: usize = 1048576;

/// `linux_raw_sys::general::S_IFMT`: the bits of a file mode that hold the
/// file's type. The constant is 0o170000 on every architecture that the
/// crate knows.
#[verifier::external_body]
fn file_type_mask() -> (mask: u32)
    ensures
        mask == 0xF000,
{
    linux_raw_sys::general::S_IFMT
}

/// `linux_raw_sys::general::S_IFBLK`: the file type of a block-special
/// device. The constant is 0o060000 on every architecture that the crate
/// knows.
#[verifier::external_body]
fn block_device_type() -> (file_type: u32)
    ensures
        file_type == 0x6000,
{
    linux_raw_sys::general::S_IFBLK
}

/// Whether a file of mode `mode` is a block-special device.
pub open spec fn is_block_device(mode: u32) -> bool {
    mode & 0xF000 == 0x6000
}

/// Accepts the mode of a block-special device and refuses every other.
pub fn check_block_device(mode: u32) -> (r: Result<(), Error>)
    ensures
        is_block_device(mode) ==> r is Ok,
        !is_block_device(mode) ==> r == Err::<(), Error>(Error::NotABlockDevice),
{
    if mode & file_type_mask() == block_device_type() {
        Ok(())
    } else {
        Err(Error::NotABlockDevice)
    }
}

/// The bytes `contents` after `data` has been written over them from
/// `offset` on.
pub open spec fn overwrite(contents: Seq<u8>, offset: int, data: Seq<u8>) -> Seq<u8> {
    Seq::new(
        contents.len(),
        |i: int|
            if offset <= i < offset + data.len() {
                data[i - offset]
            } else {
                contents[i]
            },
    )
}

/// Whether `a` and `b` hold the same bytes everywhere but from `offset`
/// up to `offset + len`.
pub open spec fn same_outside(a: Seq<u8>, b: Seq<u8>, offset: int, len: int) -> bool {
    &&& a.len() == b.len()
    &&& forall|i: int| 0 <= i < a.len() && !(offset <= i < offset + len) ==> a[i] == b[i]
}

/// Whether `contents` begin with the magic bytes.
pub open spec fn has_header(contents: Seq<u8>) -> bool {
    contents.len() >= 4 && contents.subrange(0, 4) == MAGIC_BYTES@
}

/// Block 0 of an initialised store: the magic bytes, then zeros up to the
/// end of the block.
pub open spec fn header_block(block_size: nat) -> Seq<u8> {
    Seq::new(
        block_size,
        |i: int|
            if i < 4 {
                MAGIC_BYTES@[i]
            } else {
                0u8
            },
    )
}

/// The contents of a store once a handle has been made on it: as they
/// were if they began with the magic bytes, and with block 0 replaced by a
/// fresh header block if not.
pub open spec fn provisioned(contents: Seq<u8>, block_size: nat) -> Seq<u8> {
    if has_header(contents) {
        contents
    } else {
        overwrite(contents, 0, header_block(block_size))
    }
}

/// Reading back the range that was written gives the bytes that were
/// written, and the write changes no byte outside that range.
pub proof fn lemma_write_then_read(contents: Seq<u8>, offset: int, data: Seq<u8>)
    requires
        0 <= offset,
        offset + data.len() <= contents.len(),
    ensures
        overwrite(contents, offset, data).len() == contents.len(),
        overwrite(contents, offset, data).subrange(offset, offset + data.len()) == data,
        same_outside(overwrite(contents, offset, data), contents, offset, data.len() as int),
{
    assert(overwrite(contents, offset, data).subrange(offset, offset + data.len()) =~= data);
}

/// Making a handle on a store leaves a header in block 0, and making a
/// second one on the store as the first left it changes nothing.
pub proof fn lemma_provisioned_once(contents: Seq<u8>, block_size: nat)
    requires
        4 <= block_size <= contents.len(),
    ensures
        has_header(provisioned(contents, block_size)),
        provisioned(provisioned(contents, block_size), block_size) == provisioned(
            contents,
            block_size,
        ),
        has_header(contents) ==> provisioned(contents, block_size) == contents,
        same_outside(provisioned(contents, block_size), contents, 0, block_size as int),
{
    if !has_header(contents) {
        assert(overwrite(contents, 0, header_block(block_size)).subrange(0, 4) =~= MAGIC_BYTES@);
    }
}

/// A store of bytes that can be read from and written to at any offset:
/// a block device, or memory that stands in for one.
///
/// A store in memory is modelled: it says which bytes it holds, its
/// transfers are held to that, and they never fail. Of a store that is not
/// modelled, such as a device, nothing is claimed: what it holds is beyond
/// the proof, and any transfer may fail.
pub trait BackingStore {
    /// The bytes that the store holds, if the store is modelled.
    open spec fn model(&self) -> Option<Seq<u8>> {
        None
    }

    /// Fills `buf` with the bytes of the store from `offset` on, or fails
    /// with the platform's error number, if it gave one.
    fn read_exact_at(&self, buf: &mut [u8], offset: u64) -> (r: Result<(), Option<i32>>)
        requires
            self.model() matches Some(held) ==> offset + old(buf)@.len() <= held.len(),
        ensures
            final(buf)@.len() == old(buf)@.len(),
            self.model() is Some ==> r is Ok,
            self.model() matches Some(held) ==> final(buf)@ == held.subrange(
                offset as int,
                offset + old(buf)@.len(),
            ),
    ;

    /// Writes all of `buf` over the bytes of the store from `offset` on, or
    /// fails with the platform's error number, if it gave one.
    fn write_all_at(&mut self, buf: &[u8], offset: u64) -> (r: Result<(), Option<i32>>)
        requires
            old(self).model() matches Some(held) ==> offset + buf@.len() <= held.len(),
        ensures
            old(self).model() is Some ==> r is Ok,
            old(self).model() matches Some(held) ==> final(self).model() == Some(
                overwrite(held, offset as int, buf@),
            ),
            old(self).model() is None ==> final(self).model() is None,
    ;
}

/// A region of memory that stands in for a block device.
pub struct InMem(Vec<u8>);

impl InMem {
    /// The bytes of the region.
    pub closed spec fn view(&self) -> Seq<u8> {
        self.0@
    }

    /// A store that holds `bytes`.
    pub fn new(bytes: Vec<u8>) -> (store: InMem)
        ensures
            store@ == bytes@,
    {
        InMem(bytes)
    }

    /// The bytes that the store holds.
    pub fn as_bytes(&self) -> (bytes: &[u8])
        ensures
            bytes@ == self@,
    {
        self.0.as_slice()
    }

    /// Gives up the store for the bytes that it holds.
    pub fn into_bytes(self) -> (bytes: Vec<u8>)
        ensures
            bytes@ == self@,
    {
        self.0
    }
}

impl BackingStore for InMem {
    open spec fn model(&self) -> Option<Seq<u8>> {
        Some(self@)
    }

    fn read_exact_at(&self, buf: &mut [u8], offset: u64) -> (r: Result<(), Option<i32>>) {
        let total: usize = self.0.len();
        assert(offset <= total);
        let begin: usize = offset as usize;
        let count: usize = buf.len();
        let mut i: usize = 0;
        while i < count
            invariant
                i <= count,
                count == buf@.len(),
                begin == offset,
                begin + count <= self.0@.len() == total,
                forall|j: int| 0 <= j < i ==> buf@[j] == self.0@[begin + j],
            decreases count - i,
        {
            buf[i] = self.0[begin + i];
            i += 1;
        }
        assert(buf@ =~= self@.subrange(offset as int, offset + count));
        Ok(())
    }

    fn write_all_at(&mut self, buf: &[u8], offset: u64) -> (r: Result<(), Option<i32>>) {
        let total: usize = self.0.len();
        assert(offset <= total);
        let begin: usize = offset as usize;
        let count: usize = buf.len();
        let mut i: usize = 0;
        while i < count
            invariant
                i <= count,
                count == buf@.len(),
                begin == offset,
                begin + count <= self.0@.len() == total,
                self.0@.len() == old(self).0@.len(),
                forall|j: int| 0 <= j < i ==> self.0@[begin + j] == buf@[j],
                forall|j: int|
                    0 <= j < self.0@.len() && !(begin <= j < begin + i) ==> self.0@[j] == old(
                        self,
                    ).0@[j],
            decreases count - i,
        {
            self.0[begin + i] = buf[i];
            i += 1;
        }
        assert(self@ =~= overwrite(old(self)@, offset as int, buf@));
        Ok(())
    }
}

/// The association of a backing store of known length with the block size
/// in which it is read and written. Block 0 of the store belongs to the
/// header; data block `b` is the block behind it that has index `b`.
pub struct Handle<F, const BLOCK_SIZE: usize> {
    backing_store: F,
    len: u64,
}

impl<F: BackingStore, const BLOCK_SIZE: usize> Handle<F, BLOCK_SIZE> {
    /// The store that the handle owns.
    pub closed spec fn spec_backing_store(&self) -> F {
        self.backing_store
    }

    /// The length of the store in bytes, as the handle knows it.
    pub closed spec fn spec_len(&self) -> u64 {
        self.len
    }

    /// Whether the store is modelled.
    pub open spec fn modelled(&self) -> bool {
        self.spec_backing_store().model() is Some
    }

    /// The bytes that the store holds, if it is modelled, and no bytes if
    /// it is not.
    pub open spec fn view(&self) -> Seq<u8> {
        match self.spec_backing_store().model() {
            Some(held) => held,
            None => Seq::empty(),
        }
    }

    /// The block sizes that a handle works with: powers of two in which
    /// the magic bytes fit, and of which one block can be held in memory.
    pub open spec fn valid_block_size() -> bool {
        &&& is_power_of_two(BLOCK_SIZE)
        &&& BLOCK_SIZE >= 4
        &&& 2 * BLOCK_SIZE - 1 <= isize::MAX
    }

    /// The store is long enough for block 0, and as long as the handle
    /// takes it to be.
    pub open spec fn sized(&self) -> bool {
        &&& Self::valid_block_size()
        &&& self.spec_len() >= BLOCK_SIZE
        &&& self.modelled() ==> self.spec_len() == self@.len()
    }

    /// What holds of every handle: it knows the length of its store, and
    /// the store begins with the header.
    pub open spec fn wf(&self) -> bool {
        &&& self.sized()
        &&& self.modelled() ==> has_header(self@)
    }

    /// The offset in the store at which data block `block` begins: one
    /// block is left to the header.
    pub open spec fn byte_offset(block: int) -> int {
        BLOCK_SIZE + block * BLOCK_SIZE
    }

    /// Whether `count` bytes from the start of data block `block` on lie
    /// inside the store.
    pub open spec fn in_bounds(&self, block: int, count: int) -> bool {
        Self::byte_offset(block) + count <= self.spec_len()
    }

    /// The offset in the store at which data block `block` begins.
    pub fn byte_offset_for(block: usize) -> (offset: u64)
        requires
            Self::byte_offset(block as int) <= u64::MAX,
        ensures
            offset == Self::byte_offset(block as int),
            offset == BLOCK_SIZE + block * BLOCK_SIZE,
    {
        assert(0 <= block * BLOCK_SIZE) by (nonlinear_arith);
        BLOCK_SIZE as u64 + block as u64 * BLOCK_SIZE as u64
    }

    /// The offset of data block `block`, if `count` bytes from there on lie
    /// inside the store.
    fn bounded_offset(&self, block: usize, count: usize) -> (r: Option<u64>)
        requires
            self.sized(),
        ensures
            r is Some <==> self.in_bounds(block as int, count as int),
            r is Some ==> r.unwrap() == Self::byte_offset(block as int),
    {
        let block_size: u64 = BLOCK_SIZE as u64;
        let room: u64 = self.len - block_size;
        let whole_blocks: u64 = room / block_size;
        proof {
            let b = BLOCK_SIZE as int;
            vstd::arithmetic::div_mod::lemma_fundamental_div_mod(room as int, b);
            if block <= whole_blocks {
                assert(block * b <= room) by (nonlinear_arith)
                    requires
                        0 <= block <= whole_blocks,
                        room == b * whole_blocks + room as int % b,
                        0 <= room as int % b,
                        b > 0,
                ;
            } else {
                assert(block * b > room) by (nonlinear_arith)
                    requires
                        block >= whole_blocks + 1,
                        room == b * whole_blocks + room as int % b,
                        room as int % b < b,
                        b > 0,
                ;
            }
        }
        if block as u64 > whole_blocks {
            return None;
        }
        let offset: u64 = Self::byte_offset_for(block);
        if count as u64 > self.len - offset {
            return None;
        }
        Some(offset)
    }

    /// Makes a handle on `backing_store`, which is `len` bytes long. Block 0
    /// is read; unless it begins with the magic bytes, a fresh header block
    /// is written over it. A store too short to hold block 0 is refused.
    pub fn new(backing_store: F, len: u64) -> (r: Result<Handle<F, BLOCK_SIZE>, Error>)
        requires
            Self::valid_block_size(),
            backing_store.model() matches Some(held) ==> len == held.len(),
        ensures
            match r {
                Ok(h) => {
                    &&& len >= BLOCK_SIZE
                    &&& h.wf()
                    &&& h.spec_len() == len
                    &&& h.modelled() == (backing_store.model() is Some)
                    &&& backing_store.model() matches Some(held) ==> h@ == provisioned(
                        held,
                        BLOCK_SIZE as nat,
                    )
                },
                Err(e) => if len < BLOCK_SIZE {
                    e == Error::AfterEOFAccess
                } else {
                    e.is_os_error()
                },
            },
            len >= BLOCK_SIZE && backing_store.model() is Some ==> r is Ok,
    {
        if len < BLOCK_SIZE as u64 {
            return Err(Error::AfterEOFAccess);
        }
        let mut h = Handle { len, backing_store };
        proof {
            Self::lemma_one_block();
        }
        let mut buf = Buffer::<BLOCK_SIZE>::new_in_bytes(1);
        let dst = buf.data_mut();
        let read = h.backing_store.read_exact_at(dst, 0);
        if let Err(code) = read {
            return Err(Error::from_os_error(code));
        }
        let first: [u8; 4] = [buf[0], buf[1], buf[2], buf[3]];
        proof {
            if backing_store.model() is Some {
                let held = backing_store.model().unwrap();
                assert(first@ =~= held.subrange(0, 4));
                lemma_provisioned_once(held, BLOCK_SIZE as nat);
            }
        }
        match Header::unpack(&first) {
            Ok(header) => {
                if !header.validate() {
                    if let Err(e) = h.init() {
                        return Err(e);
                    }
                }
                Ok(h)
            },
            Err(e) => Err(e),
        }
    }

    /// One byte needs one block.
    proof fn lemma_one_block()
        requires
            Self::valid_block_size(),
        ensures
            Buffer::<BLOCK_SIZE>::blocks_needed(1) == 1,
    {
        Buffer::<BLOCK_SIZE>::lemma_ceil_blocks(1);
        let n = Buffer::<BLOCK_SIZE>::ceil_blocks(1);
        assert(n == 1) by (nonlinear_arith)
            requires
                (n - 1) * BLOCK_SIZE < 1 <= n * BLOCK_SIZE,
                BLOCK_SIZE >= 4,
        ;
    }

    /// Writes a fresh header block over block 0 of the store.
    fn init(&mut self) -> (r: Result<(), Error>)
        requires
            old(self).sized(),
        ensures
            final(self).sized(),
            final(self).spec_len() == old(self).spec_len(),
            final(self).modelled() == old(self).modelled(),
            old(self).modelled() ==> final(self)@ == overwrite(
                old(self)@,
                0,
                header_block(BLOCK_SIZE as nat),
            ),
            r is Err ==> r.unwrap_err().is_os_error(),
            old(self).modelled() ==> r is Ok,
    {
        let blob: [u8; 4] = match Header::new().pack() {
            Ok(blob) => blob,
            Err(e) => { return Err(e); },
        };
        proof {
            Self::lemma_one_block();
        }
        let mut buf = Buffer::<BLOCK_SIZE>::new_in_bytes(1);
        let dst = buf.index_mut(0..4);
        dst[0] = blob[0];
        dst[1] = blob[1];
        dst[2] = blob[2];
        dst[3] = blob[3];
        assert(buf@ =~= header_block(BLOCK_SIZE as nat));
        match self.backing_store.write_all_at(buf.data(), 0) {
            Ok(_) => Ok(()),
            Err(code) => Err(Error::from_os_error(code)),
        }
    }

    /// Reads `n_blocks` blocks, from data block `blk_start` on, into a
    /// buffer of that size.
    pub fn read_blocks(&mut self, blk_start: usize, n_blocks: usize) -> (r: Result<
        Buffer<BLOCK_SIZE>,
        Error,
    >)
        requires
            old(self).wf(),
            n_blocks * BLOCK_SIZE + BLOCK_SIZE - 1 <= isize::MAX,
        ensures
            *final(self) == *old(self),
            match r {
                Ok(buf) => {
                    &&& old(self).in_bounds(blk_start as int, n_blocks * BLOCK_SIZE)
                    &&& buf.wf()
                    &&& buf.spec_n_blocks() == n_blocks
                    &&& old(self).modelled() ==> buf@ == old(self)@.subrange(
                        Self::byte_offset(blk_start as int),
                        Self::byte_offset(blk_start as int) + n_blocks * BLOCK_SIZE,
                    )
                },
                Err(e) => if old(self).in_bounds(blk_start as int, n_blocks * BLOCK_SIZE) {
                    e.is_os_error()
                } else {
                    e == Error::AfterEOFAccess
                },
            },
            old(self).in_bounds(blk_start as int, n_blocks * BLOCK_SIZE) && old(self).modelled()
                ==> r is Ok,
    {
        let mut buf = Buffer::new_in_blocks(n_blocks);
        match self.read_into_buf(&mut buf, blk_start) {
            Ok(_) => Ok(buf),
            Err(e) => Err(e),
        }
    }

    /// Fills `buf` with the blocks of the store from data block `block` on.
    /// A range that ends after the end of the store is refused before the
    /// store is asked for anything.
    pub fn read_into_buf(&mut self, buf: &mut Buffer<BLOCK_SIZE>, block: usize) -> (r: Result<
        (),
        Error,
    >)
        requires
            old(self).wf(),
            old(buf).wf(),
        ensures
            *final(self) == *old(self),
            final(buf).wf(),
            final(buf).same_place(old(buf)),
            match r {
                Ok(_) => {
                    &&& old(self).in_bounds(block as int, old(buf)@.len() as int)
                    &&& old(self).modelled() ==> final(buf)@ == old(self)@.subrange(
                        Self::byte_offset(block as int),
                        Self::byte_offset(block as int) + old(buf)@.len(),
                    )
                },
                Err(e) => if old(self).in_bounds(block as int, old(buf)@.len() as int) {
                    e.is_os_error()
                } else {
                    e == Error::AfterEOFAccess && final(buf)@ == old(buf)@
                },
            },
            old(self).in_bounds(block as int, old(buf)@.len() as int) && old(self).modelled()
                ==> r is Ok,
    {
        let byte_offset: u64 = match self.bounded_offset(block, buf.len()) {
            Some(byte_offset) => byte_offset,
            None => { return Err(Error::AfterEOFAccess); },
        };
        let dst = buf.data_mut();
        match self.backing_store.read_exact_at(dst, byte_offset) {
            Ok(_) => Ok(()),
            Err(code) => Err(Error::from_os_error(code)),
        }
    }

    /// Writes the blocks of `buf` over the store from data block `block`
    /// on. A range that ends after the end of the store is refused before
    /// the store is touched.
    pub fn write(&mut self, buf: &Buffer<BLOCK_SIZE>, block: usize) -> (r: Result<(), Error>)
        requires
            old(self).wf(),
            buf.wf(),
        ensures
            final(self).wf(),
            final(self).spec_len() == old(self).spec_len(),
            final(self).modelled() == old(self).modelled(),
            match r {
                Ok(_) => {
                    &&& old(self).in_bounds(block as int, buf@.len() as int)
                    &&& old(self).modelled() ==> final(self)@ == overwrite(
                        old(self)@,
                        Self::byte_offset(block as int),
                        buf@,
                    )
                },
                Err(e) => if old(self).in_bounds(block as int, buf@.len() as int) {
                    e.is_os_error()
                } else {
                    e == Error::AfterEOFAccess && *final(self) == *old(self)
                },
            },
            old(self).in_bounds(block as int, buf@.len() as int) && old(self).modelled()
                ==> r is Ok,
    {
        let byte_offset: u64 = match self.bounded_offset(block, buf.len()) {
            Some(byte_offset) => byte_offset,
            None => { return Err(Error::AfterEOFAccess); },
        };
        let res = self.backing_store.write_all_at(buf.data(), byte_offset);
        proof {
            assert(byte_offset >= 4) by (nonlinear_arith)
                requires
                    byte_offset == BLOCK_SIZE + block * BLOCK_SIZE,
                    BLOCK_SIZE >= 4,
                    block >= 0,
            ;
            if old(self).modelled() {
                assert(self@.subrange(0, 4) =~= old(self)@.subrange(0, 4));
            }
        }
        match res {
            Ok(_) => Ok(()),
            Err(code) => Err(Error::from_os_error(code)),
        }
    }

    /// The length of the store in bytes.
    pub fn len(&self) -> (len: u64)
        ensures
            len == self.spec_len(),
    {
        self.len
    }

    /// The store that the handle owns.
    pub fn backing_store(&self) -> (store: &F)
        ensures
            *store == self.spec_backing_store(),
    {
        &self.backing_store
    }

    /// Closes the handle and gives the store back.
    pub fn into_backing_store(self) -> (store: F)
        ensures
            store == self.spec_backing_store(),
    {
        self.backing_store
    }
}

/// A handle on a fresh store in memory that has room for `blocks` data
/// blocks of 512 bytes behind its header block.
pub fn for_inmem(blocks: usize) -> (r: Result<Handle<InMem, 512>, Error>)
    requires
        512 + blocks * 512 <= isize::MAX,
    ensures
        r is Ok,
        r.unwrap().wf(),
        r.unwrap().modelled(),
        r.unwrap().spec_len() == 512 + blocks * 512,
        r.unwrap()@ == header_block(512) + zeros((blocks * 512) as nat),
{
    let len: usize = 512 + blocks * 512;
    let bytes: Vec<u8> = vec![0u8; len];
    let store = InMem::new(bytes);
    proof {
        assert(512usize & 511usize == 0) by (bit_vector);
        assert(!has_header(store@)) by {
            assert(store@.subrange(0, 4)[0] == 0u8);
            assert(MAGIC_BYTES@[0] == 0x42u8);
        }
        assert(overwrite(store@, 0, header_block(512)) =~= header_block(512) + zeros(
            (blocks * 512) as nat,
        ));
    }
    Handle::new(store, len as u64)
}

} // verus!
