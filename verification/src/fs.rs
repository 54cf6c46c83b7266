//! The header that marks a store as initialised.

use vstd::prelude::*;
use crate::errors::Error;

verus! {

/// The four bytes "BEVO", with which block 0 of an initialised store begins.
pub const MAGIC_BYTES: [u8; 4] = [0x42, 0x45, 0x56, 0x4f];

/// `packed_struct::PackedStruct::pack` on an array of four bytes. The
/// crate packs a byte array into itself: the result is `Ok` and holds the
/// bytes that were given, in their order.
#[verifier::external_body]
fn pack_bytes(bytes: &[u8; 4]) -> (packed: Result<[u8; 4], packed_struct::PackingError>)
    ensures
        packed is Ok,
        packed.unwrap() == *bytes,
{
    packed_struct::PackedStruct::pack(bytes)
}

/// `packed_struct::PackedStruct::unpack` for an array of four bytes. The
/// crate unpacks a byte array from itself: the result is `Ok` and holds
/// the bytes of `src`, in their order.
#[verifier::external_body]
fn unpack_bytes(src: &[u8; 4]) -> (unpacked: Result<[u8; 4], packed_struct::PackingError>)
    ensures
        unpacked is Ok,
        unpacked.unwrap() == *src,
{
    packed_struct::PackedStruct::unpack(src)
}

/// A Header needs to be present on block 0 of a block device.
#[derive(Copy, Clone, Debug, PartialEq)]
pub struct Header {
    magic: [u8; 4],
}

impl Header {
    /// The bytes that this header holds, which are also its packed form.
    pub closed spec fn bytes(&self) -> Seq<u8> {
        self.magic@
    }

    /// The canonical header: the one that holds the magic bytes.
    pub fn new() -> (h: Header)
        ensures
            h.bytes() == MAGIC_BYTES@,
    {
        Header { magic: MAGIC_BYTES }
    }

    /// Whether this header holds exactly the magic bytes.
    pub fn validate(&self) -> (ok: bool)
        ensures
            ok == (self.bytes() == MAGIC_BYTES@),
    {
        let ok = self.magic[0] == MAGIC_BYTES[0] && self.magic[1] == MAGIC_BYTES[1]
            && self.magic[2] == MAGIC_BYTES[2] && self.magic[3] == MAGIC_BYTES[3];
        proof {
            if ok {
                assert(self.magic@ =~= MAGIC_BYTES@);
            }
        }
        ok
    }

    /// The packed form of this header: its four bytes, most significant
    /// first, whatever the byte order of the host. Packing never fails.
    pub fn pack(&self) -> (r: Result<[u8; 4], Error>)
        ensures
            r is Ok,
            r.unwrap()@ == self.bytes(),
    {
        match pack_bytes(&self.magic) {
            Ok(packed) => Ok(packed),
            Err(e) => Err(Error::from(e)),
        }
    }

    /// The header whose packed form is `src`. Any four bytes unpack to a
    /// header; whether it is the canonical one is for `validate` to say.
    pub fn unpack(src: &[u8; 4]) -> (r: Result<Header, Error>)
        ensures
            r is Ok,
            r.unwrap().bytes() == src@,
    {
        match unpack_bytes(src) {
            Ok(magic) => Ok(Header { magic }),
            Err(e) => Err(Error::from(e)),
        }
    }
}

} // verus!
