//! Zeroed byte buffers, sized in whole blocks, whose first byte lies at an
//! address that is a multiple of the block size.
//!
//! Direct I/O asks this of the memory it transfers from and to. The storage
//! is an ordinary vector, allocated with room to spare so that an aligned
//! start can be chosen inside it, and never resized afterwards. Being a
//! vector, it is released in the way it was allocated.

use vstd::prelude::*;
use vstd::arithmetic::div_mod::{lemma_fundamental_div_mod, lemma_mod_multiples_basic};
use std::ops::{Index, Range};

verus! {

/// The address of the first byte that `storage` holds, from `Vec::as_ptr`.
/// Where the storage lies is for the allocator to decide, so nothing is
/// claimed of the address but that the bytes of `storage` do not run past
/// the end of the address space, which Rust promises of every allocation.
#[verifier::external_body]
fn address_of(storage: &Vec<u8>) -> (addr: usize)
    ensures
        addr + storage@.len() <= usize::MAX,
{
    storage.as_ptr() as usize
}

/// `len` zero bytes.
pub open spec fn zeros(len: nat) -> Seq<u8> {
    Seq::new(len, |i: int| 0u8)
}

/// Whether `n` is a power of two.
pub open spec fn is_power_of_two(n: usize) -> bool {
    n > 0 && n & ((n - 1) as usize) == 0
}

/// Hands out zeroed storage in which a multiple of `BLOCK_SIZE` can be
/// found, whatever address the storage begins at.
pub struct AlignedAlloc<const BLOCK_SIZE: usize>;

impl<const BLOCK_SIZE: usize> AlignedAlloc<BLOCK_SIZE> {
    /// Whether `addr` is a multiple of `BLOCK_SIZE`.
    pub open spec fn aligned(addr: int) -> bool {
        addr % (BLOCK_SIZE as int) == 0
    }

    /// The number of bytes from `addr` to the first multiple of
    /// `BLOCK_SIZE` that is not below it.
    pub open spec fn padding(addr: int) -> int {
        (BLOCK_SIZE - addr % (BLOCK_SIZE as int)) % (BLOCK_SIZE as int)
    }

    /// Computes `padding`: the least step from `addr` up to a multiple of
    /// `BLOCK_SIZE`.
    pub fn padding_for(addr: usize) -> (pad: usize)
        requires
            BLOCK_SIZE > 0,
        ensures
            pad == Self::padding(addr as int),
            pad < BLOCK_SIZE,
            Self::aligned(addr + pad),
            forall|p: int| 0 <= p < pad ==> !#[trigger] Self::aligned(addr + p),
    {
        let rest: usize = addr % BLOCK_SIZE;
        let pad: usize = if rest == 0 {
            0
        } else {
            BLOCK_SIZE - rest
        };
        proof {
            let b = BLOCK_SIZE as int;
            let q = addr as int / b;
            lemma_fundamental_div_mod(addr as int, b);
            assert(addr == b * q + rest);
            if rest == 0 {
                lemma_mod_multiples_basic(q, b);
                assert(b * q == q * b) by (nonlinear_arith);
                assert(b % b == 0) by (nonlinear_arith)
                    requires
                        b > 0,
                ;
            } else {
                lemma_mod_multiples_basic(q + 1, b);
                assert((b - rest) % b == b - rest) by (nonlinear_arith)
                    requires
                        0 < b - rest < b,
                ;
                assert(addr + pad == (q + 1) * b) by (nonlinear_arith)
                    requires
                        addr == b * q + rest,
                        pad == b - rest,
                ;
            }
            assert forall|p: int| 0 <= p < pad implies !#[trigger] Self::aligned(addr + p) by {
                assert(addr + p == b * q + (rest + p));
                assert((b * q + (rest + p)) % b == rest + p) by (nonlinear_arith)
                    requires
                        0 < rest + p < b,
                ;
            }
        }
        pad
    }

    /// Zeroed storage with room for `size` bytes behind an aligned start,
    /// and the address at which the storage begins.
    pub fn allocate(&self, size: usize) -> (r: (Vec<u8>, usize))
        requires
            BLOCK_SIZE > 0,
            size + BLOCK_SIZE - 1 <= isize::MAX,
        ensures
            r.0@ == zeros((size + BLOCK_SIZE - 1) as nat),
            r.1 + r.0@.len() <= usize::MAX,
    {
        let storage: Vec<u8> = vec![0u8; size + (BLOCK_SIZE - 1)];
        let base: usize = address_of(&storage);
        assert(storage@ =~= zeros((size + BLOCK_SIZE - 1) as nat));
        (storage, base)
    }
}

/// A Buffer marshals data to be written to or having been read from a
/// block device.
pub struct Buffer<const BLOCK_SIZE: usize> {
    n_blocks: usize,
    /// The allocation: `BLOCK_SIZE - 1` bytes more than the buffer holds.
    storage: Vec<u8>,
    /// Where in `storage` the buffer's first byte lies.
    start: usize,
    /// The address at which `storage` begins.
    base: usize,
}

impl<const BLOCK_SIZE: usize> Buffer<BLOCK_SIZE> {
    /// The bytes of the buffer.
    pub closed spec fn view(&self) -> Seq<u8> {
        self.storage@.subrange(self.start as int, self.start + self.n_blocks * BLOCK_SIZE)
    }

    /// The number of blocks that the buffer holds.
    pub closed spec fn spec_n_blocks(&self) -> nat {
        self.n_blocks as nat
    }

    /// The address of the buffer's first byte.
    pub closed spec fn spec_address(&self) -> int {
        self.base + self.start
    }

    /// How the buffer lies in its storage.
    pub closed spec fn storage_wf(&self) -> bool {
        &&& self.storage@.len() == self.n_blocks * BLOCK_SIZE + BLOCK_SIZE - 1
        &&& self.start < BLOCK_SIZE
        &&& self.base + self.storage@.len() <= usize::MAX
    }

    /// What holds of every buffer: it is a whole number of blocks long, and
    /// it begins at a multiple of the block size.
    pub open spec fn wf(&self) -> bool {
        &&& is_power_of_two(BLOCK_SIZE)
        &&& self.storage_wf()
        &&& self@.len() == self.spec_n_blocks() * BLOCK_SIZE
        &&& self@.len() % (BLOCK_SIZE as nat) == 0
        &&& AlignedAlloc::<BLOCK_SIZE>::aligned(self.spec_address())
    }

    /// Whether `other` lies where this buffer lies: it holds as many blocks,
    /// and begins at the same address.
    pub open spec fn same_place(&self, other: &Self) -> bool {
        &&& self.spec_n_blocks() == other.spec_n_blocks()
        &&& self.spec_address() == other.spec_address()
    }

    /// The least number of blocks that together hold `s` bytes.
    pub open spec fn ceil_blocks(s: int) -> int {
        (s + BLOCK_SIZE - 1) / (BLOCK_SIZE as int)
    }

    /// The number of blocks reserved for `s` bytes: as many as hold them,
    /// and one block where `s` is 0.
    pub open spec fn blocks_needed(s: int) -> int {
        if Self::ceil_blocks(s) < 1 {
            1
        } else {
            Self::ceil_blocks(s)
        }
    }

    /// `ceil_blocks(s)` blocks hold `s` bytes, and one block fewer does not.
    pub proof fn lemma_ceil_blocks(s: int)
        requires
            BLOCK_SIZE > 0,
            s >= 0,
        ensures
            Self::ceil_blocks(s) >= 0,
            (Self::ceil_blocks(s) - 1) * BLOCK_SIZE < s <= Self::ceil_blocks(s) * BLOCK_SIZE,
            s % (BLOCK_SIZE as int) == 0 ==> Self::ceil_blocks(s) == s / (BLOCK_SIZE as int),
            s % (BLOCK_SIZE as int) != 0 ==> Self::ceil_blocks(s) == s / (BLOCK_SIZE as int) + 1,
            s == 0 ==> Self::blocks_needed(s) == 1,
            s > 0 ==> Self::blocks_needed(s) == Self::ceil_blocks(s),
    {
        let b = BLOCK_SIZE as int;
        let t = s + b - 1;
        let q = s / b;
        let r = s % b;
        lemma_fundamental_div_mod(s, b);
        lemma_fundamental_div_mod(t, b);
        if r == 0 {
            assert(t / b == q) by (nonlinear_arith)
                requires
                    t == b * q + (b - 1),
                    b > 0,
            ;
        } else {
            assert(b * (q + 1) == b * q + b) by (nonlinear_arith);
            assert(t / b == q + 1) by (nonlinear_arith)
                requires
                    t == b * (q + 1) + (r - 1),
                    0 <= r - 1 < b,
            ;
        }
        assert((t / b - 1) * b < s <= (t / b) * b) by (nonlinear_arith)
            requires
                s == b * q + r,
                0 <= r < b,
                r == 0 ==> t / b == q,
                r != 0 ==> t / b == q + 1,
        ;
        assert(q >= 0) by (nonlinear_arith)
            requires
                s == b * q + r,
                0 <= r < b,
                s >= 0,
        ;
        if s > 0 && r == 0 {
            assert(q >= 1) by (nonlinear_arith)
                requires
                    s == b * q,
                    s > 0,
                    b > 0,
            ;
        }
    }

    /// The number of blocks to reserve for `s` bytes.
    pub fn blocks_required_for(s: usize) -> (n: usize)
        requires
            BLOCK_SIZE > 0,
        ensures
            n == Self::blocks_needed(s as int),
            n >= 1,
            s == 0 ==> n == 1,
            s > 0 ==> (n - 1) * BLOCK_SIZE < s <= n * BLOCK_SIZE,
    {
        proof {
            Self::lemma_ceil_blocks(s as int);
        }
        if s == 0 {
            return 1;
        }
        if s % BLOCK_SIZE == 0 {
            return s / BLOCK_SIZE;
        }
        proof {
            let b = BLOCK_SIZE as int;
            let q = s as int / b;
            lemma_fundamental_div_mod(s as int, b);
            assert(0 <= q < usize::MAX) by (nonlinear_arith)
                requires
                    s == b * q + s as int % b,
                    0 < s as int % b < b,
                    0 <= s <= usize::MAX,
            ;
        }
        s / BLOCK_SIZE + 1
    }

    /// A zeroed buffer of as many blocks as `sz_bytes` bytes need.
    pub fn new_in_bytes(sz_bytes: usize) -> (b: Buffer<BLOCK_SIZE>)
        requires
            is_power_of_two(BLOCK_SIZE),
            Self::blocks_needed(sz_bytes as int) * BLOCK_SIZE + BLOCK_SIZE - 1 <= isize::MAX,
        ensures
            b.wf(),
            b.spec_n_blocks() == Self::blocks_needed(sz_bytes as int),
            b@ == zeros((Self::blocks_needed(sz_bytes as int) * BLOCK_SIZE) as nat),
            b@.len() % (BLOCK_SIZE as nat) == 0,
            AlignedAlloc::<BLOCK_SIZE>::aligned(b.spec_address()),
    {
        let blocks_reqd: usize = Self::blocks_required_for(sz_bytes);
        Self::new_in_blocks(blocks_reqd)
    }

    /// A zeroed buffer of `sz_blocks` blocks.
    pub fn new_in_blocks(sz_blocks: usize) -> (b: Buffer<BLOCK_SIZE>)
        requires
            is_power_of_two(BLOCK_SIZE),
            sz_blocks * BLOCK_SIZE + BLOCK_SIZE - 1 <= isize::MAX,
        ensures
            b.wf(),
            b.spec_n_blocks() == sz_blocks,
            b@ == zeros((sz_blocks * BLOCK_SIZE) as nat),
            b@.len() % (BLOCK_SIZE as nat) == 0,
            AlignedAlloc::<BLOCK_SIZE>::aligned(b.spec_address()),
    {
        assert(0 <= sz_blocks * BLOCK_SIZE) by (nonlinear_arith);
        let sz_bytes: usize = sz_blocks * BLOCK_SIZE;
        let (storage, base) = AlignedAlloc::<BLOCK_SIZE>.allocate(sz_bytes);
        let start: usize = AlignedAlloc::<BLOCK_SIZE>::padding_for(base);
        let b = Buffer { n_blocks: sz_blocks, storage, start, base };
        proof {
            assert(b@ =~= zeros(sz_bytes as nat));
            lemma_mod_multiples_basic(sz_blocks as int, BLOCK_SIZE as int);
        }
        b
    }

    /// The number of blocks that the buffer holds.
    pub fn n_blocks(&self) -> (n: usize)
        ensures
            n == self.spec_n_blocks(),
    {
        self.n_blocks
    }

    /// The number of bytes that the buffer holds.
    pub fn len(&self) -> (n: usize)
        requires
            self.wf(),
        ensures
            n == self@.len(),
            n == self.spec_n_blocks() * BLOCK_SIZE,
    {
        let total: usize = self.storage.len();
        total - (BLOCK_SIZE - 1)
    }

    /// The address of the buffer's first byte.
    pub fn address(&self) -> (addr: usize)
        requires
            self.wf(),
        ensures
            addr == self.spec_address(),
            AlignedAlloc::<BLOCK_SIZE>::aligned(addr as int),
    {
        self.base + self.start
    }

    /// The bytes of the buffer.
    pub fn data(&self) -> (bytes: &[u8])
        requires
            self.wf(),
        ensures
            bytes@ == self@,
    {
        let len: usize = self.len();
        &self.storage[self.start..self.start + len]
    }

    /// The bytes of the buffer, to be written to. A slice ends its borrow
    /// as long as it began it, and what it then holds is what the buffer
    /// holds from then on, at the same address.
    pub fn data_mut(&mut self) -> (bytes: &mut [u8])
        requires
            old(self).wf(),
        ensures
            bytes@ == old(self)@,
            final(bytes)@.len() == bytes@.len() ==> final(self).wf(),
            final(bytes)@.len() == bytes@.len() ==> final(self).same_place(old(self)),
            final(bytes)@.len() == bytes@.len() ==> final(self)@ == final(bytes)@,
    {
        let len: usize = self.len();
        let whole = self.storage.as_mut_slice();
        let (_, tail) = whole.split_at_mut(self.start);
        let (bytes, _) = tail.split_at_mut(len);
        bytes
    }

    /// The bytes of the buffer from `index.start` up to `index.end`, to be
    /// written to. What they hold when the borrow ends replaces that part
    /// of the buffer, and the rest of it stays as it was.
    pub fn index_mut(&mut self, index: Range<usize>) -> (bytes: &mut [u8])
        requires
            old(self).wf(),
            index.start <= index.end <= old(self)@.len(),
        ensures
            bytes@ == old(self)@.subrange(index.start as int, index.end as int),
            final(bytes)@.len() == bytes@.len() ==> final(self).wf(),
            final(bytes)@.len() == bytes@.len() ==> final(self).same_place(old(self)),
            final(bytes)@.len() == bytes@.len() ==> final(self)@ == old(self)@.subrange(
                0,
                index.start as int,
            ) + final(bytes)@ + old(self)@.subrange(index.end as int, old(self)@.len() as int),
    {
        let whole = self.data_mut();
        let (_, tail) = whole.split_at_mut(index.start);
        let (bytes, _) = tail.split_at_mut(index.end - index.start);
        bytes
    }
}

impl<const BLOCK_SIZE: usize> Index<usize> for Buffer<BLOCK_SIZE> {
    type Output = u8;

    fn index(&self, index: usize) -> (byte: &u8)
        ensures
            *byte == self@[index as int],
    {
        &self.data()[index]
    }
}

impl<const BLOCK_SIZE: usize> vstd::std_specs::core::IndexSpecImpl<usize> for Buffer<BLOCK_SIZE> {
    open spec fn index_req(&self, index: &usize) -> bool {
        self.wf() && *index < self@.len()
    }
}

impl<const BLOCK_SIZE: usize> Index<Range<usize>> for Buffer<BLOCK_SIZE> {
    type Output = [u8];

    fn index(&self, index: Range<usize>) -> (bytes: &[u8])
        ensures
            bytes@ == self@.subrange(index.start as int, index.end as int),
    {
        &self.data()[index]
    }
}

impl<const BLOCK_SIZE: usize> vstd::std_specs::core::IndexSpecImpl<Range<usize>> for Buffer<BLOCK_SIZE> {
    open spec fn index_req(&self, index: &Range<usize>) -> bool {
        self.wf() && index.start <= index.end <= self@.len()
    }
}

} // verus!
