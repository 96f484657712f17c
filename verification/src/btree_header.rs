use vstd::bytes::*;
use vstd::prelude::*;
use vstd::slice::slice_subrange;

use crate::bytes::{lemma_piece_of_concat, to_array_32};
use crate::checksum::Checksum;

verus! {

/// Number of bytes of a serialized [`BtreeHeader`].
pub const BTREE_HEADER_SIZE: usize = 32;

/// Root of a b-tree: its root page (a page number in its packed 8-byte
/// form), the checksum of the root page, and the number of entries.
#[derive(Clone, Copy, Debug, PartialEq, Eq, Structural)]
pub struct BtreeHeader {
    pub root: u64,
    pub checksum: Checksum,
    pub length: u64,
}

/// The 32 bytes of a b-tree header: root, checksum and length, little-endian.
pub open spec fn btree_header_bytes(h: BtreeHeader) -> Seq<u8> {
    spec_u64_to_le_bytes(h.root) + spec_u128_to_le_bytes(h.checksum) + spec_u64_to_le_bytes(
        h.length,
    )
}

/// The b-tree header that 32 bytes describe.
pub open spec fn btree_header_from(b: Seq<u8>) -> BtreeHeader {
    BtreeHeader {
        root: spec_u64_from_le_bytes(b.subrange(0, 8)),
        checksum: spec_u128_from_le_bytes(b.subrange(8, 24)),
        length: spec_u64_from_le_bytes(b.subrange(24, 32)),
    }
}

/// Reading back the bytes of a b-tree header gives the header that was written,
/// and those bytes are always 32.
pub proof fn lemma_btree_header_roundtrip(h: BtreeHeader)
    ensures
        btree_header_bytes(h).len() == BTREE_HEADER_SIZE,
        btree_header_from(btree_header_bytes(h)) == h,
{
    lemma_auto_spec_u64_to_from_le_bytes();
    lemma_auto_spec_u128_to_from_le_bytes();
    let r = spec_u64_to_le_bytes(h.root);
    let c = spec_u128_to_le_bytes(h.checksum);
    let l = spec_u64_to_le_bytes(h.length);
    lemma_piece_of_concat(r, c, l);
    lemma_piece_of_concat(r + c, l, Seq::empty());
    lemma_piece_of_concat(Seq::empty(), r, c + l);
    assert((r + c + l).subrange(0, 8) =~= r);
    assert((r + c + l).subrange(24, 32) =~= l);
}

impl BtreeHeader {
    pub fn new(root: u64, checksum: Checksum, length: u64) -> (h: Self)
        ensures
            h == (BtreeHeader { root, checksum, length }),
    {
        BtreeHeader { root, checksum, length }
    }

    pub fn serialized_size() -> (n: usize)
        ensures
            n == BTREE_HEADER_SIZE,
    {
        BTREE_HEADER_SIZE
    }

    /// Reads a header from its 32 bytes.
    pub fn from_le_bytes(bytes: &[u8]) -> (h: Self)
        requires
            bytes@.len() == BTREE_HEADER_SIZE,
        ensures
            h == btree_header_from(bytes@),
    {
        let root = u64_from_le_bytes(slice_subrange(bytes, 0, 8));
        let checksum = u128_from_le_bytes(slice_subrange(bytes, 8, 24));
        let length = u64_from_le_bytes(slice_subrange(bytes, 24, 32));
        BtreeHeader { root, checksum, length }
    }

    /// Appends the 32 bytes of this header to `out`.
    pub fn write_le_bytes(&self, out: &mut Vec<u8>)
        ensures
            final(out)@ == old(out)@ + btree_header_bytes(*self),
    {
        let mut r = u64_to_le_bytes(self.root);
        let mut c = u128_to_le_bytes(self.checksum);
        let mut l = u64_to_le_bytes(self.length);
        out.append(&mut r);
        out.append(&mut c);
        out.append(&mut l);
        assert(out@ =~= old(out)@ + btree_header_bytes(*self));
    }

    /// The 32 bytes of this header.
    pub fn to_le_bytes(&self) -> (bytes: [u8; 32])
        ensures
            bytes@ == btree_header_bytes(*self),
    {
        let mut v: Vec<u8> = Vec::new();
        self.write_le_bytes(&mut v);
        proof {
            lemma_btree_header_roundtrip(*self);
            assert(v@ =~= btree_header_bytes(*self));
        }
        to_array_32(&v)
    }
}

} // verus!
