use vstd::bytes::*;
use vstd::prelude::*;
use vstd::slice::slice_subrange;

use crate::btree_header::{
    btree_header_bytes, btree_header_from, lemma_btree_header_roundtrip, BtreeHeader,
    BTREE_HEADER_SIZE,
};
use crate::bytes::{
    bytes_equal, lemma_piece_of_concat, push_slice, push_zeros, to_array_128, to_array_320,
    zero_bytes,
};
use crate::checksum::{xxh3_128_seed0, xxh3_checksum};
use crate::error::{Corruption, DatabaseError, StorageError};
use crate::ids::TransactionId;
use crate::layout::{DatabaseLayout, RegionLayout};

verus! {

/// File format versions.
pub const FILE_FORMAT_VERSION1: u8 = 1;
pub const FILE_FORMAT_VERSION2: u8 = 2;
pub const FILE_FORMAT_VERSION3: u8 = 3;

// Layout of a commit slot:
// 1 byte: version
// 1 byte: != 0 if the user root is non-null
// 1 byte: != 0 if the system root is non-null
// 5 bytes: padding
// 32 bytes: user root
// 32 bytes: system root
// 32 bytes: unused
// 8 bytes: transaction id
// 16 bytes: checksum of the 112 bytes before it
pub const TRANSACTION_SIZE: usize = 128;
pub const VERSION_OFFSET: usize = 0;
pub const USER_ROOT_NON_NULL_OFFSET: usize = 1;
pub const SYSTEM_ROOT_NON_NULL_OFFSET: usize = 2;
pub const SLOT_UNUSED_OFFSET: usize = 3;
pub const SLOT_PADDING: usize = 4;
pub const USER_ROOT_OFFSET: usize = SLOT_UNUSED_OFFSET + 1 + SLOT_PADDING;
pub const SYSTEM_ROOT_OFFSET: usize = USER_ROOT_OFFSET + BTREE_HEADER_SIZE;
pub const SLOT_UNUSED2_OFFSET: usize = SYSTEM_ROOT_OFFSET + BTREE_HEADER_SIZE;
pub const TRANSACTION_ID_OFFSET: usize = SLOT_UNUSED2_OFFSET + BTREE_HEADER_SIZE;
pub const TRANSACTION_LAST_FIELD: usize = TRANSACTION_ID_OFFSET + 8;
pub const SLOT_CHECKSUM_OFFSET: usize = TRANSACTION_SIZE - 16;

/// The little-endian `u32` in the first four bytes of `data`.
pub fn get_u32(data: &[u8]) -> (r: u32)
    requires
        data@.len() >= 4,
    ensures
        r == spec_u32_from_le_bytes(data@.subrange(0, 4)),
{
    u32_from_le_bytes(slice_subrange(data, 0, 4))
}

/// The little-endian `u64` in the first eight bytes of `data`.
pub fn get_u64(data: &[u8]) -> (r: u64)
    requires
        data@.len() >= 8,
    ensures
        r == spec_u64_from_le_bytes(data@.subrange(0, 8)),
{
    u64_from_le_bytes(slice_subrange(data, 0, 8))
}

/// One commit slot: the roots of the user and system b-trees as of a
/// committed transaction.
#[derive(Clone, Copy, Debug, PartialEq, Eq, Structural)]
pub struct TransactionHeader {
    pub version: u8,
    pub user_root: Option<BtreeHeader>,
    pub system_root: Option<BtreeHeader>,
    pub transaction_id: TransactionId,
}

/// The non-null flag of a root: 1 when there is a root, else 0.
pub open spec fn root_flag(root: Option<BtreeHeader>) -> u8 {
    if root is Some {
        1
    } else {
        0
    }
}

/// The 32 bytes of a root: its header, or zeros when there is none.
pub open spec fn root_bytes(root: Option<BtreeHeader>) -> Seq<u8> {
    match root {
        Some(h) => btree_header_bytes(h),
        None => zero_bytes(32),
    }
}

/// The 112 bytes of a commit slot that its checksum covers.
pub open spec fn slot_payload(h: TransactionHeader) -> Seq<u8> {
    seq![h.version, root_flag(h.user_root), root_flag(h.system_root)] + zero_bytes(5)
        + root_bytes(h.user_root) + root_bytes(h.system_root) + zero_bytes(32)
        + spec_u64_to_le_bytes(h.transaction_id.0)
}

/// The 128 bytes of a commit slot: the payload, then its checksum.
pub open spec fn slot_bytes(h: TransactionHeader) -> Seq<u8> {
    slot_payload(h) + spec_u128_to_le_bytes(xxh3_128_seed0(slot_payload(h)))
}

/// The root that a non-null flag and 32 bytes describe.
pub open spec fn root_from(flag: u8, bytes: Seq<u8>) -> Option<BtreeHeader> {
    if flag != 0 {
        Some(btree_header_from(bytes))
    } else {
        None
    }
}

/// What a commit slot's bytes are read as: the slot and whether its stored
/// checksum disagrees with its payload, or the error for its version byte.
pub open spec fn parse_slot(data: Seq<u8>) -> Result<(TransactionHeader, bool), DatabaseError> {
    let version = data[0];
    if version == FILE_FORMAT_VERSION1 || version == FILE_FORMAT_VERSION2 {
        Err(DatabaseError::UpgradeRequired(version))
    } else if version != FILE_FORMAT_VERSION3 {
        Err(
            DatabaseError::Storage(
                StorageError::Corrupted(Corruption::UnsupportedFileFormatVersion(version)),
            ),
        )
    } else {
        Ok(decode_slot(data, xxh3_128_seed0(data.subrange(0, 112))))
    }
}

/// What the bytes of a current-version slot are read as, given the checksum
/// of its first 112 bytes: the slot, and whether the stored checksum differs.
pub open spec fn decode_slot(data: Seq<u8>, payload_checksum: u128) -> (TransactionHeader, bool) {
    let slot = TransactionHeader {
        version: data[0],
        user_root: root_from(data[1], data.subrange(8, 40)),
        system_root: root_from(data[2], data.subrange(40, 72)),
        transaction_id: TransactionId(spec_u64_from_le_bytes(data.subrange(104, 112))),
    };
    (slot, spec_u128_from_le_bytes(data.subrange(112, 128)) != payload_checksum)
}

/// The inputs on which reading a commit slot finishes: a version byte, and
/// the whole slot when that version is the current one.
pub open spec fn slot_readable(data: Seq<u8>) -> bool {
    &&& data.len() >= 1
    &&& data[0] == FILE_FORMAT_VERSION3 ==> data.len() >= TRANSACTION_SIZE
}

proof fn lemma_root_bytes(root: Option<BtreeHeader>)
    ensures
        root_bytes(root).len() == 32,
        root_from(root_flag(root), root_bytes(root)) == root,
{
    match root {
        Some(h) => lemma_btree_header_roundtrip(h),
        None => {},
    }
}

/// The payload of a slot is 112 bytes, and the whole slot 128.
pub proof fn lemma_slot_bytes_len(h: TransactionHeader)
    ensures
        slot_payload(h).len() == SLOT_CHECKSUM_OFFSET,
        slot_bytes(h).len() == TRANSACTION_SIZE,
{
    lemma_root_bytes(h.user_root);
    lemma_root_bytes(h.system_root);
    lemma_auto_spec_u64_to_from_le_bytes();
    lemma_auto_spec_u128_to_from_le_bytes();
}

/// Reading the bytes that a current-version slot is written as gives back that
/// slot, with a checksum that matches.
pub proof fn lemma_slot_roundtrip(h: TransactionHeader)
    requires
        h.version == FILE_FORMAT_VERSION3,
    ensures
        slot_readable(slot_bytes(h)),
        parse_slot(slot_bytes(h)) == Ok::<(TransactionHeader, bool), DatabaseError>((h, false)),
{
    lemma_root_bytes(h.user_root);
    lemma_root_bytes(h.system_root);
    lemma_auto_spec_u64_to_from_le_bytes();
    lemma_auto_spec_u128_to_from_le_bytes();
    let a = seq![h.version, root_flag(h.user_root), root_flag(h.system_root)] + zero_bytes(5);
    let u = root_bytes(h.user_root);
    let s = root_bytes(h.system_root);
    let z = zero_bytes(32);
    let t = spec_u64_to_le_bytes(h.transaction_id.0);
    let p = slot_payload(h);
    let c = spec_u128_to_le_bytes(xxh3_128_seed0(p));
    let all = slot_bytes(h);
    assert(p == a + u + s + z + t);
    lemma_piece_of_concat(a, u, s + z + t);
    assert(a + u + s + z + t == a + u + (s + z + t)) by {
        assert(a + u + s + z + t =~= a + u + (s + z + t));
    }
    lemma_piece_of_concat(a + u, s, z + t);
    assert(a + u + s + z + t == a + u + s + (z + t)) by {
        assert(a + u + s + z + t =~= a + u + s + (z + t));
    }
    lemma_piece_of_concat(a + u + s + z, t, Seq::empty());
    lemma_piece_of_concat(p, c, Seq::empty());
    assert(all.subrange(0, 112) =~= p);
    assert(all.subrange(112, 128) =~= c);
    assert(all.subrange(8, 40) =~= u);
    assert(all.subrange(40, 72) =~= s);
    assert(all.subrange(104, 112) =~= t);
    assert(all[0] == h.version);
    assert(all[1] == root_flag(h.user_root));
    assert(all[2] == root_flag(h.system_root));
}

impl TransactionHeader {
    /// A slot of the current format with no roots, for the given transaction.
    pub open spec fn new_spec(transaction_id: TransactionId) -> Self {
        TransactionHeader {
            version: FILE_FORMAT_VERSION3,
            user_root: None,
            system_root: None,
            transaction_id,
        }
    }

    /// A slot of the current format with no roots.
    pub fn new(transaction_id: TransactionId) -> (h: Self)
        ensures
            h == Self::new_spec(transaction_id),
    {
        TransactionHeader {
            version: FILE_FORMAT_VERSION3,
            user_root: None,
            system_root: None,
            transaction_id,
        }
    }

    /// Reads a commit slot. The flag says whether its checksum was found
    /// corrupted; an older version asks for an upgrade, and an unknown one is
    /// a corruption.
    pub fn from_bytes(data: &[u8]) -> (r: Result<(Self, bool), DatabaseError>)
        requires
            slot_readable(data@),
        ensures
            r == parse_slot(data@),
    {
        let version = data[VERSION_OFFSET];
        if version == FILE_FORMAT_VERSION1 || version == FILE_FORMAT_VERSION2 {
            return Err(DatabaseError::UpgradeRequired(version));
        } else if version != FILE_FORMAT_VERSION3 {
            return Err(
                DatabaseError::Storage(
                    StorageError::Corrupted(Corruption::UnsupportedFileFormatVersion(version)),
                ),
            );
        }
        let payload_checksum = xxh3_checksum(slice_subrange(data, 0, SLOT_CHECKSUM_OFFSET));
        Ok(Self::from_bytes_with_checksum(data, payload_checksum))
    }

    /// Reads a slot of the current version, given the checksum of its first
    /// 112 bytes; the flag says whether the stored checksum differs from it.
    pub fn from_bytes_with_checksum(data: &[u8], payload_checksum: u128) -> (r: (Self, bool))
        requires
            data@.len() >= TRANSACTION_SIZE,
            data@[0] == FILE_FORMAT_VERSION3,
        ensures
            r == decode_slot(data@, payload_checksum),
            r.1 == (data@.subrange(112, 128) != spec_u128_to_le_bytes(payload_checksum)),
    {
        proof {
            lemma_stored_checksum(data@.subrange(112, 128), payload_checksum);
        }
        let version = data[VERSION_OFFSET];
        let checksum = u128_from_le_bytes(
            slice_subrange(data, SLOT_CHECKSUM_OFFSET, SLOT_CHECKSUM_OFFSET + 16),
        );
        let corrupted = checksum != payload_checksum;
        let user_root = if data[USER_ROOT_NON_NULL_OFFSET] != 0 {
            Some(
                BtreeHeader::from_le_bytes(
                    slice_subrange(data, USER_ROOT_OFFSET, USER_ROOT_OFFSET + BTREE_HEADER_SIZE),
                ),
            )
        } else {
            None
        };
        let system_root = if data[SYSTEM_ROOT_NON_NULL_OFFSET] != 0 {
            Some(
                BtreeHeader::from_le_bytes(
                    slice_subrange(
                        data,
                        SYSTEM_ROOT_OFFSET,
                        SYSTEM_ROOT_OFFSET + BTREE_HEADER_SIZE,
                    ),
                ),
            )
        } else {
            None
        };
        let tail = slice_subrange(data, TRANSACTION_ID_OFFSET, data.len());
        let transaction_id = TransactionId::new(get_u64(tail));
        proof {
            assert(tail@.subrange(0, 8) =~= data@.subrange(104, 112));
        }
        let result = TransactionHeader { version, user_root, system_root, transaction_id };
        (result, corrupted)
    }

    /// The first 112 bytes of this slot: everything its checksum covers.
    pub fn payload(&self) -> (v: Vec<u8>)
        ensures
            v@ == slot_payload(*self),
    {
        let mut v: Vec<u8> = Vec::new();
        v.push(self.version);
        v.push(if self.user_root.is_some() { 1u8 } else { 0u8 });
        v.push(if self.system_root.is_some() { 1u8 } else { 0u8 });
        push_zeros(&mut v, 5);
        match self.user_root {
            Some(h) => h.write_le_bytes(&mut v),
            None => push_zeros(&mut v, BTREE_HEADER_SIZE),
        }
        match self.system_root {
            Some(h) => h.write_le_bytes(&mut v),
            None => push_zeros(&mut v, BTREE_HEADER_SIZE),
        }
        push_zeros(&mut v, BTREE_HEADER_SIZE);
        let mut id_bytes = u64_to_le_bytes(self.transaction_id.raw_id());
        v.append(&mut id_bytes);
        proof {
            assert(v@ =~= slot_payload(*self));
        }
        v
    }

    /// The 128 bytes of this slot, its checksum included.
    pub fn to_bytes(&self) -> (bytes: [u8; 128])
        requires
            self.version == FILE_FORMAT_VERSION3,
        ensures
            bytes@ == slot_bytes(*self),
    {
        let mut v = self.payload();
        let checksum = xxh3_checksum(v.as_slice());
        let mut checksum_bytes = u128_to_le_bytes(checksum);
        v.append(&mut checksum_bytes);
        proof {
            assert(v@ =~= slot_bytes(*self));
            lemma_slot_bytes_len(*self);
        }
        to_array_128(&v)
    }
}


// Layout of the database header (the first 320 bytes of the file):
// 9 bytes: magic number
// 1 byte: god byte
// 2 bytes: padding
// 4 bytes: page size
// 4 bytes: region header pages
// 4 bytes: region max data pages
// 4 bytes: number of full regions
// 4 bytes: data pages in the partial trailing region
// 32 bytes: unused
// 128 bytes: commit slot 0
// 128 bytes: commit slot 1

/// Magic number at the start of every database file.
pub const MAGICNUMBER: [u8; 9] = [0x72, 0x65, 0x64, 0x62, 0x1A, 0x0A, 0xA9, 0x0D, 0x0A];
pub const GOD_BYTE_OFFSET: usize = 9;
pub const PAGE_SIZE_OFFSET: usize = GOD_BYTE_OFFSET + 1 + 2;
pub const REGION_HEADER_PAGES_OFFSET: usize = PAGE_SIZE_OFFSET + 4;
pub const REGION_MAX_DATA_PAGES_OFFSET: usize = REGION_HEADER_PAGES_OFFSET + 4;
pub const NUM_FULL_REGIONS_OFFSET: usize = REGION_MAX_DATA_PAGES_OFFSET + 4;
pub const TRAILING_REGION_DATA_PAGES_OFFSET: usize = NUM_FULL_REGIONS_OFFSET + 4;
pub const HEADER_UNUSED_OFFSET: usize = TRAILING_REGION_DATA_PAGES_OFFSET + 4;
pub const TRANSACTION_0_OFFSET: usize = 64;
pub const TRANSACTION_1_OFFSET: usize = TRANSACTION_0_OFFSET + TRANSACTION_SIZE;
pub const DB_HEADER_SIZE: usize = TRANSACTION_1_OFFSET + TRANSACTION_SIZE;

/// God byte flags.
pub const PRIMARY_BIT: u8 = 1;
pub const RECOVERY_REQUIRED: u8 = 2;
pub const TWO_PHASE_COMMIT: u8 = 4;

/// Page size of the database file.
pub const PAGE_SIZE: usize = 4096;

/// The magic number as a sequence.
pub open spec fn magic_bytes() -> Seq<u8> {
    seq![0x72u8, 0x65u8, 0x64u8, 0x62u8, 0x1Au8, 0x0Au8, 0xA9u8, 0x0Du8, 0x0Au8]
}

/// What reading a header found wrong with it.
#[derive(Clone, Copy, Debug, PartialEq, Eq, Structural)]
pub struct HeaderRepairInfo {
    pub invalid_magic_number: bool,
    pub primary_corrupted: bool,
    pub secondary_corrupted: bool,
}

/// The values a database header holds.
#[derive(Clone, Copy, Debug, PartialEq, Eq, Structural)]
pub struct DatabaseHeaderModel {
    /// Whether slot 1 (rather than slot 0) is the primary slot.
    pub slot1_primary: bool,
    pub recovery_required: bool,
    pub two_phase_commit: bool,
    pub page_size: u32,
    pub region_header_pages: u32,
    pub region_max_data_pages: u32,
    pub full_regions: u32,
    pub trailing_partial_region_pages: u32,
    pub slot0: TransactionHeader,
    pub slot1: TransactionHeader,
}

impl DatabaseHeaderModel {
    /// The index (0 or 1) of the primary slot.
    pub open spec fn primary_index(self) -> int {
        if self.slot1_primary {
            1
        } else {
            0
        }
    }

    pub open spec fn primary(self) -> TransactionHeader {
        if self.slot1_primary {
            self.slot1
        } else {
            self.slot0
        }
    }

    pub open spec fn secondary(self) -> TransactionHeader {
        if self.slot1_primary {
            self.slot0
        } else {
            self.slot1
        }
    }

    /// The same header with the other slot as primary.
    pub open spec fn swapped(self) -> Self {
        DatabaseHeaderModel { slot1_primary: !self.slot1_primary, ..self }
    }

    /// The same header with the secondary slot replaced.
    pub open spec fn with_secondary(self, slot: TransactionHeader) -> Self {
        if !self.slot1_primary {
            DatabaseHeaderModel { slot1: slot, ..self }
        } else {
            DatabaseHeaderModel { slot0: slot, ..self }
        }
    }

    /// The layout that the header's fields describe.
    pub open spec fn layout(self) -> DatabaseLayout {
        let full = RegionLayout {
            num_pages: self.region_max_data_pages,
            header_pages: self.region_header_pages,
            page_size: self.page_size,
        };
        let trailing = if self.trailing_partial_region_pages > 0 {
            Some(
                RegionLayout {
                    num_pages: self.trailing_partial_region_pages,
                    header_pages: self.region_header_pages,
                    page_size: self.page_size,
                },
            )
        } else {
            None
        };
        DatabaseLayout {
            full_region_layout: full,
            num_full_regions: self.full_regions,
            trailing_partial_region: trailing,
        }
    }

    /// A fresh header: slot 0 primary, recovery required, the layout's region
    /// shape, and both slots holding the transaction with no roots.
    pub open spec fn new_model(layout: DatabaseLayout, transaction_id: TransactionId) -> Self {
        DatabaseHeaderModel {
            slot1_primary: false,
            recovery_required: true,
            two_phase_commit: false,
            page_size: layout.full_region_layout.page_size,
            region_header_pages: layout.full_region_layout.header_pages,
            region_max_data_pages: layout.full_region_layout.num_pages,
            full_regions: layout.num_full_regions,
            trailing_partial_region_pages: match layout.trailing_partial_region {
                Some(t) => t.num_pages,
                None => 0,
            },
            slot0: TransactionHeader::new_spec(transaction_id),
            slot1: TransactionHeader::new_spec(transaction_id),
        }
    }

    /// The header with the number of full regions and the trailing region's
    /// pages of `layout`.
    pub open spec fn with_layout(self, layout: DatabaseLayout) -> Self {
        DatabaseHeaderModel {
            trailing_partial_region_pages: match layout.trailing_partial_region {
                Some(t) => t.num_pages,
                None => 0,
            },
            full_regions: layout.num_full_regions,
            ..self
        }
    }

    /// Both slots are in the current format, so the header can be written.
    pub open spec fn writable(self) -> bool {
        self.slot0.version == FILE_FORMAT_VERSION3 && self.slot1.version == FILE_FORMAT_VERSION3
    }
}

/// The god byte: the primary slot's index, and a bit for each flag.
pub open spec fn god_byte(m: DatabaseHeaderModel) -> u8 {
    (if m.slot1_primary {
        PRIMARY_BIT
    } else {
        0u8
    }) | (if m.recovery_required {
        RECOVERY_REQUIRED
    } else {
        0u8
    }) | (if m.two_phase_commit {
        TWO_PHASE_COMMIT
    } else {
        0u8
    })
}

/// The five region fields, little-endian.
pub open spec fn region_field_bytes(m: DatabaseHeaderModel) -> Seq<u8> {
    spec_u32_to_le_bytes(m.page_size) + spec_u32_to_le_bytes(m.region_header_pages)
        + spec_u32_to_le_bytes(m.region_max_data_pages) + spec_u32_to_le_bytes(m.full_regions)
        + spec_u32_to_le_bytes(m.trailing_partial_region_pages)
}

/// The first 64 bytes of a header: magic number (or zeros), god byte,
/// padding, region fields and unused bytes.
pub open spec fn header_prefix(m: DatabaseHeaderModel, include_magic_number: bool) -> Seq<u8> {
    (if include_magic_number {
        magic_bytes()
    } else {
        zero_bytes(9)
    }).push(god_byte(m)) + zero_bytes(2) + region_field_bytes(m) + zero_bytes(32)
}

/// The 320 bytes a header is written as.
pub open spec fn header_bytes(m: DatabaseHeaderModel, include_magic_number: bool) -> Seq<u8> {
    header_prefix(m, include_magic_number) + slot_bytes(m.slot0) + slot_bytes(m.slot1)
}

/// The inputs on which reading a header finishes.
pub open spec fn header_readable(data: Seq<u8>) -> bool {
    &&& data.len() >= TRANSACTION_1_OFFSET
    &&& data[TRANSACTION_0_OFFSET as int] == FILE_FORMAT_VERSION3 ==> data.len() >= DB_HEADER_SIZE
}

/// What the bytes of a header are read as.
pub open spec fn parse_header(data: Seq<u8>) -> Result<
    (DatabaseHeaderModel, HeaderRepairInfo),
    DatabaseError,
> {
    let g = data[9];
    let slot1_primary = g & PRIMARY_BIT != 0;
    match parse_slot(data.subrange(64, 192)) {
        Err(e) => Err(e),
        Ok((slot0, corrupted0)) => match parse_slot(data.subrange(192, 320)) {
            Err(e) => Err(e),
            Ok((slot1, corrupted1)) => {
                let m = DatabaseHeaderModel {
                    slot1_primary,
                    recovery_required: g & RECOVERY_REQUIRED != 0,
                    two_phase_commit: g & TWO_PHASE_COMMIT != 0,
                    page_size: spec_u32_from_le_bytes(data.subrange(12, 16)),
                    region_header_pages: spec_u32_from_le_bytes(data.subrange(16, 20)),
                    region_max_data_pages: spec_u32_from_le_bytes(data.subrange(20, 24)),
                    full_regions: spec_u32_from_le_bytes(data.subrange(24, 28)),
                    trailing_partial_region_pages: spec_u32_from_le_bytes(data.subrange(28, 32)),
                    slot0,
                    slot1,
                };
                let info = HeaderRepairInfo {
                    invalid_magic_number: data.subrange(0, 9) != magic_bytes(),
                    primary_corrupted: if slot1_primary {
                        corrupted1
                    } else {
                        corrupted0
                    },
                    secondary_corrupted: if slot1_primary {
                        corrupted0
                    } else {
                        corrupted1
                    },
                };
                Ok((m, info))
            },
        },
    }
}

/// The primary slot and the two flags are read back from the god byte.
proof fn lemma_god_byte(p: u8, r: bool, t: bool)
    requires
        p < 2,
    ensures
        ({
            let g = p | (if r {
                RECOVERY_REQUIRED
            } else {
                0u8
            }) | (if t {
                TWO_PHASE_COMMIT
            } else {
                0u8
            });
            &&& (g & PRIMARY_BIT != 0) == (p == 1)
            &&& (g & RECOVERY_REQUIRED != 0) == r
            &&& (g & TWO_PHASE_COMMIT != 0) == t
        }),
{
    if r {
        if t {
            assert(p < 2 ==> ((p | 2u8 | 4u8) & 1u8 != 0) == (p == 1) && (p | 2u8 | 4u8) & 2u8
                != 0 && (p | 2u8 | 4u8) & 4u8 != 0) by (bit_vector);
        } else {
            assert(p < 2 ==> ((p | 2u8 | 0u8) & 1u8 != 0) == (p == 1) && (p | 2u8 | 0u8) & 2u8
                != 0 && (p | 2u8 | 0u8) & 4u8 == 0) by (bit_vector);
        }
    } else {
        if t {
            assert(p < 2 ==> ((p | 0u8 | 4u8) & 1u8 != 0) == (p == 1) && (p | 0u8 | 4u8) & 2u8
                == 0 && (p | 0u8 | 4u8) & 4u8 != 0) by (bit_vector);
        } else {
            assert(p < 2 ==> ((p | 0u8 | 0u8) & 1u8 != 0) == (p == 1) && (p | 0u8 | 0u8) & 2u8
                == 0 && (p | 0u8 | 0u8) & 4u8 == 0) by (bit_vector);
        }
    }
}


/// The first 64 bytes hold the magic number (or zeros), the god byte and the
/// region fields at their offsets.
proof fn lemma_header_prefix(m: DatabaseHeaderModel, include_magic_number: bool)
    ensures
        ({
            let pre = header_prefix(m, include_magic_number);
            &&& pre.len() == TRANSACTION_0_OFFSET
            &&& pre[9] == god_byte(m)
            &&& pre.subrange(0, 9) == (if include_magic_number {
                magic_bytes()
            } else {
                zero_bytes(9)
            })
            &&& spec_u32_from_le_bytes(pre.subrange(12, 16)) == m.page_size
            &&& spec_u32_from_le_bytes(pre.subrange(16, 20)) == m.region_header_pages
            &&& spec_u32_from_le_bytes(pre.subrange(20, 24)) == m.region_max_data_pages
            &&& spec_u32_from_le_bytes(pre.subrange(24, 28)) == m.full_regions
            &&& spec_u32_from_le_bytes(pre.subrange(28, 32)) == m.trailing_partial_region_pages
        }),
{
    lemma_auto_spec_u32_to_from_le_bytes();
    let mg = if include_magic_number {
        magic_bytes()
    } else {
        zero_bytes(9)
    };
    let pre = header_prefix(m, include_magic_number);
    let f0 = spec_u32_to_le_bytes(m.page_size);
    let f1 = spec_u32_to_le_bytes(m.region_header_pages);
    let f2 = spec_u32_to_le_bytes(m.region_max_data_pages);
    let f3 = spec_u32_to_le_bytes(m.full_regions);
    let f4 = spec_u32_to_le_bytes(m.trailing_partial_region_pages);
    let head = mg.push(god_byte(m)) + zero_bytes(2);
    assert(pre =~= head + f0 + f1 + f2 + f3 + f4 + zero_bytes(32));
    assert(pre.subrange(0, 9) =~= mg);
    assert(pre.subrange(12, 16) =~= f0);
    assert(pre.subrange(16, 20) =~= f1);
    assert(pre.subrange(20, 24) =~= f2);
    assert(pre.subrange(24, 28) =~= f3);
    assert(pre.subrange(28, 32) =~= f4);
}

/// Reading the bytes a header is written as gives back the header; the only
/// trouble reported is a missing magic number when it was left out.
pub proof fn lemma_header_roundtrip(m: DatabaseHeaderModel, include_magic_number: bool)
    requires
        m.writable(),
    ensures
        header_bytes(m, include_magic_number).len() == DB_HEADER_SIZE,
        header_readable(header_bytes(m, include_magic_number)),
        parse_header(header_bytes(m, include_magic_number)) == Ok::<
            (DatabaseHeaderModel, HeaderRepairInfo),
            DatabaseError,
        >(
            (
                m,
                HeaderRepairInfo {
                    invalid_magic_number: !include_magic_number,
                    primary_corrupted: false,
                    secondary_corrupted: false,
                },
            ),
        ),
{
    let pre = header_prefix(m, include_magic_number);
    let s0 = slot_bytes(m.slot0);
    let s1 = slot_bytes(m.slot1);
    let b = header_bytes(m, include_magic_number);
    lemma_header_prefix(m, include_magic_number);
    lemma_slot_bytes_len(m.slot0);
    lemma_slot_bytes_len(m.slot1);
    lemma_slot_roundtrip(m.slot0);
    lemma_slot_roundtrip(m.slot1);
    lemma_god_byte(
        if m.slot1_primary {
            1u8
        } else {
            0u8
        },
        m.recovery_required,
        m.two_phase_commit,
    );
    assert(b.subrange(64, 192) =~= s0);
    assert(b.subrange(192, 320) =~= s1);
    assert(b.subrange(0, 64) =~= pre);
    assert(b.subrange(0, 9) =~= pre.subrange(0, 9));
    assert(b.subrange(12, 16) =~= pre.subrange(12, 16));
    assert(b.subrange(16, 20) =~= pre.subrange(16, 20));
    assert(b.subrange(20, 24) =~= pre.subrange(20, 24));
    assert(b.subrange(24, 28) =~= pre.subrange(24, 28));
    assert(b.subrange(28, 32) =~= pre.subrange(28, 32));
    assert(b[9] == pre[9]);
    assert(b[64] == s0[0]);
    if !include_magic_number {
        assert(zero_bytes(9)[0] != magic_bytes()[0]);
    }
}


/// Index of a commit slot: 0 or 1.
#[derive(Clone, Copy)]
pub struct SlotIndex {
    index: usize,
}

impl View for SlotIndex {
    type V = usize;

    closed spec fn view(&self) -> usize {
        self.index
    }
}

impl SlotIndex {
    #[verifier::type_invariant]
    spec fn inv(&self) -> bool {
        self.index < 2
    }

    pub fn new(second: bool) -> (s: Self)
        ensures
            s@ == (if second {
                1usize
            } else {
                0usize
            }),
    {
        SlotIndex { index: if second { 1 } else { 0 } }
    }

    pub fn get(&self) -> (i: usize)
        ensures
            i == self@,
            i < 2,
    {
        proof {
            use_type_invariant(self);
        }
        self.index
    }

    /// The other slot.
    pub fn other(&self) -> (s: Self)
        ensures
            s@ == 1 - self@,
    {
        proof {
            use_type_invariant(self);
        }
        SlotIndex { index: 1 - self.index }
    }
}

/// The database header: which commit slot is primary, recovery flags, the
/// file's region layout and the two commit slots.
#[derive(Clone, Copy)]
pub struct DatabaseHeader {
    primary_slot: SlotIndex,
    recovery_required: bool,
    two_phase_commit: bool,
    page_size: u32,
    region_header_pages: u32,
    region_max_data_pages: u32,
    full_regions: u32,
    trailing_partial_region_pages: u32,
    transaction_slots: [TransactionHeader; 2],
}

impl View for DatabaseHeader {
    type V = DatabaseHeaderModel;

    closed spec fn view(&self) -> DatabaseHeaderModel {
        DatabaseHeaderModel {
            slot1_primary: self.primary_slot@ == 1,
            recovery_required: self.recovery_required,
            two_phase_commit: self.two_phase_commit,
            page_size: self.page_size,
            region_header_pages: self.region_header_pages,
            region_max_data_pages: self.region_max_data_pages,
            full_regions: self.full_regions,
            trailing_partial_region_pages: self.trailing_partial_region_pages,
            slot0: self.transaction_slots@[0],
            slot1: self.transaction_slots@[1],
        }
    }
}

impl DatabaseHeader {

    /// A fresh header for a new file: slot 0 is primary, recovery is required,
    /// and both slots hold the given transaction with no roots.
    pub fn new(layout: DatabaseLayout, transaction_id: TransactionId) -> (h: Self)
        ensures
            h@ == DatabaseHeaderModel::new_model(layout, transaction_id),
    {
        assert(TRANSACTION_LAST_FIELD <= SLOT_CHECKSUM_OFFSET);
        let slot = TransactionHeader::new(transaction_id);
        let trailing_partial_region_pages = match layout.trailing_region_layout() {
            Some(t) => t.num_pages(),
            None => 0,
        };
        let h = DatabaseHeader {
            primary_slot: SlotIndex::new(false),
            recovery_required: true,
            two_phase_commit: false,
            page_size: layout.full_region_layout().page_size(),
            region_header_pages: layout.full_region_layout().get_header_pages(),
            region_max_data_pages: layout.full_region_layout().num_pages(),
            full_regions: layout.num_full_regions(),
            trailing_partial_region_pages,
            transaction_slots: [slot, slot],
        };
        proof {
            assert(h@.slot0 == slot);
        }
        h
    }

    pub fn page_size(&self) -> (n: u32)
        ensures
            n == self@.page_size,
    {
        self.page_size
    }

    pub fn recovery_required(&self) -> (b: bool)
        ensures
            b == self@.recovery_required,
    {
        self.recovery_required
    }

    pub fn set_recovery_required(&mut self, value: bool)
        ensures
            final(self)@ == (DatabaseHeaderModel { recovery_required: value, ..old(self)@ }),
    {
        self.recovery_required = value;
    }

    pub fn two_phase_commit(&self) -> (b: bool)
        ensures
            b == self@.two_phase_commit,
    {
        self.two_phase_commit
    }

    pub fn set_two_phase_commit(&mut self, value: bool)
        ensures
            final(self)@ == (DatabaseHeaderModel { two_phase_commit: value, ..old(self)@ }),
    {
        self.two_phase_commit = value;
    }

    /// The layout the header describes: full regions of the recorded shape,
    /// and a trailing region exactly when it has data pages.
    pub fn layout(&self) -> (l: DatabaseLayout)
        ensures
            l == self@.layout(),
    {
        let full_layout = RegionLayout::new(
            self.region_max_data_pages,
            self.region_header_pages,
            self.page_size,
        );
        let trailing = if self.trailing_partial_region_pages > 0 {
            Some(
                RegionLayout::new(
                    self.trailing_partial_region_pages,
                    self.region_header_pages,
                    self.page_size,
                ),
            )
        } else {
            None
        };
        DatabaseLayout::new(self.full_regions, full_layout, trailing)
    }

    /// Records a new layout; its full regions and its trailing region (if any)
    /// must have the shape the header already records.
    pub fn set_layout(&mut self, layout: DatabaseLayout)
        requires
            layout.full_region_layout == old(self)@.layout().full_region_layout,
            layout.trailing_partial_region matches Some(t) ==> t.header_pages
                == old(self)@.region_header_pages && t.page_size == old(self)@.page_size,
        ensures
            final(self)@ == old(self)@.with_layout(layout),
    {
        if let Some(trailing) = layout.trailing_region_layout() {
            self.trailing_partial_region_pages = trailing.num_pages();
        } else {
            self.trailing_partial_region_pages = 0;
        }
        self.full_regions = layout.num_full_regions();
    }

    pub fn primary_slot(&self) -> (s: &TransactionHeader)
        ensures
            *s == self@.primary(),
    {
        proof {
            use_type_invariant(&self.primary_slot);
        }
        &self.transaction_slots[self.primary_slot.get()]
    }

    pub fn secondary_slot(&self) -> (s: &TransactionHeader)
        ensures
            *s == self@.secondary(),
    {
        proof {
            use_type_invariant(&self.primary_slot);
        }
        &self.transaction_slots[self.primary_slot.other().get()]
    }

    /// The secondary slot, to be changed in place.
    pub fn secondary_slot_mut(&mut self) -> (s: &mut TransactionHeader)
        ensures
            *s == old(self)@.secondary(),
            final(self)@ == old(self)@.with_secondary(*final(s)),
    {
        proof {
            use_type_invariant(&self.primary_slot);
        }
        let i = self.primary_slot.other().get();
        &mut self.transaction_slots[i]
    }

    /// Exchanges the roles of the two slots.
    pub fn swap_primary_slot(&mut self)
        ensures
            final(self)@ == old(self)@.swapped(),
    {
        proof {
            use_type_invariant(&self.primary_slot);
        }
        self.primary_slot = self.primary_slot.other();
    }

    /// The header's 320 bytes, with or without the magic number.
    pub fn to_bytes(&self, include_magic_number: bool) -> (bytes: [u8; 320])
        requires
            self@.writable(),
        ensures
            bytes@ == header_bytes(self@, include_magic_number),
    {
        proof {
            use_type_invariant(&self.primary_slot);
        }
        let mut v: Vec<u8> = Vec::new();
        if include_magic_number {
            push_slice(&mut v, MAGICNUMBER.as_slice());
        } else {
            push_zeros(&mut v, 9);
        }
        let mut god: u8 = if self.primary_slot.get() == 1 { 1u8 } else { 0u8 };
        if self.recovery_required {
            god = god | RECOVERY_REQUIRED;
        }
        if self.two_phase_commit {
            god = god | TWO_PHASE_COMMIT;
        }
        proof {
            assert(forall|x: u8| #[trigger] (x | 0u8) == x) by (bit_vector);
            assert(god == god_byte(self@));
        }
        v.push(god);
        push_zeros(&mut v, 2);
        let mut f0 = u32_to_le_bytes(self.page_size);
        v.append(&mut f0);
        let mut f1 = u32_to_le_bytes(self.region_header_pages);
        v.append(&mut f1);
        let mut f2 = u32_to_le_bytes(self.region_max_data_pages);
        v.append(&mut f2);
        let mut f3 = u32_to_le_bytes(self.full_regions);
        v.append(&mut f3);
        let mut f4 = u32_to_le_bytes(self.trailing_partial_region_pages);
        v.append(&mut f4);
        push_zeros(&mut v, 32);
        proof {
            assert(MAGICNUMBER@ =~= magic_bytes());
            assert(v@ =~= header_prefix(self@, include_magic_number));
        }
        let slot0 = self.transaction_slots[0].to_bytes();
        push_slice(&mut v, slot0.as_slice());
        let slot1 = self.transaction_slots[1].to_bytes();
        push_slice(&mut v, slot1.as_slice());
        proof {
            assert(v@ =~= header_bytes(self@, include_magic_number));
            lemma_header_roundtrip(self@, include_magic_number);
        }
        to_array_320(&v)
    }

    /// Chooses the primary slot to start a repair from. A primary written by a
    /// two-phase commit is kept, and its corruption is an error. Otherwise a
    /// corrupted primary gives way to an intact secondary (both corrupted is an
    /// error), and an intact secondary of a newer transaction takes over.
    /// Returns whether the original primary was kept; only `Ok(false)` swaps.
    pub fn pick_primary_for_repair(&mut self, repair_info: HeaderRepairInfo) -> (r: Result<
        bool,
        DatabaseError,
    >)
        ensures
            old(self)@.two_phase_commit ==> r == if repair_info.primary_corrupted {
                Err(
                    DatabaseError::Storage(
                        StorageError::Corrupted(Corruption::PrimaryCorruptedDespiteTwoPhaseCommit),
                    ),
                )
            } else {
                Ok::<bool, DatabaseError>(true)
            },
            !old(self)@.two_phase_commit && repair_info.primary_corrupted ==> r == if repair_info.secondary_corrupted {
                Err(
                    DatabaseError::Storage(
                        StorageError::Corrupted(Corruption::BothCommitSlotsCorrupted),
                    ),
                )
            } else {
                Ok::<bool, DatabaseError>(false)
            },
            !old(self)@.two_phase_commit && !repair_info.primary_corrupted ==> r == Ok::<
                bool,
                DatabaseError,
            >(
                !(old(self)@.secondary().transaction_id.0 > old(self)@.primary().transaction_id.0
                    && !repair_info.secondary_corrupted),
            ),
            r matches Ok(kept) ==> if kept {
                !repair_info.primary_corrupted
            } else {
                !repair_info.secondary_corrupted
            },
            final(self)@ == if r == Ok::<bool, DatabaseError>(false) {
                old(self)@.swapped()
            } else {
                old(self)@
            },
    {
        if self.two_phase_commit {
            if repair_info.primary_corrupted {
                return Err(
                    DatabaseError::Storage(
                        StorageError::Corrupted(Corruption::PrimaryCorruptedDespiteTwoPhaseCommit),
                    ),
                );
            }
            return Ok(true);
        }
        if repair_info.primary_corrupted {
            if repair_info.secondary_corrupted {
                return Err(
                    DatabaseError::Storage(
                        StorageError::Corrupted(Corruption::BothCommitSlotsCorrupted),
                    ),
                );
            }
            self.swap_primary_slot();
            return Ok(false);
        }
        let secondary_newer = self.secondary_slot().transaction_id.raw_id()
            > self.primary_slot().transaction_id.raw_id();
        if secondary_newer && !repair_info.secondary_corrupted {
            self.swap_primary_slot();
            return Ok(false);
        }
        Ok(true)
    }

    /// Reads a header, and what is wrong with it: a missing magic number, and
    /// which slots have bad checksums. A slot of an older or unknown version is
    /// an error.
    pub fn from_bytes(data: &[u8]) -> (r: Result<(Self, HeaderRepairInfo), DatabaseError>)
        requires
            header_readable(data@),
        ensures
            match r {
                Ok((h, info)) => parse_header(data@) == Ok::<
                    (DatabaseHeaderModel, HeaderRepairInfo),
                    DatabaseError,
                >((h@, info)),
                Err(e) => parse_header(data@) == Err::<
                    (DatabaseHeaderModel, HeaderRepairInfo),
                    DatabaseError,
                >(e),
            },
    {
        let invalid_magic_number = !bytes_equal(slice_subrange(data, 0, 9), MAGICNUMBER.as_slice());
        let god = data[GOD_BYTE_OFFSET];
        let primary_slot = SlotIndex::new(god & PRIMARY_BIT != 0);
        let recovery_required = (god & RECOVERY_REQUIRED) != 0;
        let two_phase_commit = (god & TWO_PHASE_COMMIT) != 0;
        let page_size = get_u32(slice_subrange(data, PAGE_SIZE_OFFSET, data.len()));
        let region_header_pages = get_u32(
            slice_subrange(data, REGION_HEADER_PAGES_OFFSET, data.len()),
        );
        let region_max_data_pages = get_u32(
            slice_subrange(data, REGION_MAX_DATA_PAGES_OFFSET, data.len()),
        );
        let full_regions = get_u32(slice_subrange(data, NUM_FULL_REGIONS_OFFSET, data.len()));
        let trailing_data_pages = get_u32(
            slice_subrange(data, TRAILING_REGION_DATA_PAGES_OFFSET, data.len()),
        );
        proof {
            assert(MAGICNUMBER@ =~= magic_bytes());
            assert(data@.subrange(12, data@.len() as int).subrange(0, 4) =~= data@.subrange(12, 16));
            assert(data@.subrange(16, data@.len() as int).subrange(0, 4) =~= data@.subrange(16, 20));
            assert(data@.subrange(20, data@.len() as int).subrange(0, 4) =~= data@.subrange(20, 24));
            assert(data@.subrange(24, data@.len() as int).subrange(0, 4) =~= data@.subrange(24, 28));
            assert(data@.subrange(28, data@.len() as int).subrange(0, 4) =~= data@.subrange(28, 32));
        }
        let slot0_bytes = slice_subrange(
            data,
            TRANSACTION_0_OFFSET,
            TRANSACTION_0_OFFSET + TRANSACTION_SIZE,
        );
        let (slot0, slot0_corrupted) = match TransactionHeader::from_bytes(slot0_bytes) {
            Ok(x) => x,
            Err(e) => return Err(e),
        };
        let slot1_bytes = slice_subrange(
            data,
            TRANSACTION_1_OFFSET,
            TRANSACTION_1_OFFSET + TRANSACTION_SIZE,
        );
        let (slot1, slot1_corrupted) = match TransactionHeader::from_bytes(slot1_bytes) {
            Ok(x) => x,
            Err(e) => return Err(e),
        };
        let (primary_corrupted, secondary_corrupted) = if primary_slot.get() == 0 {
            (slot0_corrupted, slot1_corrupted)
        } else {
            (slot1_corrupted, slot0_corrupted)
        };
        let result = DatabaseHeader {
            primary_slot,
            recovery_required,
            two_phase_commit,
            page_size,
            region_header_pages,
            region_max_data_pages,
            full_regions,
            trailing_partial_region_pages: trailing_data_pages,
            transaction_slots: [slot0, slot1],
        };
        let repair = HeaderRepairInfo {
            invalid_magic_number,
            primary_corrupted,
            secondary_corrupted,
        };
        Ok((result, repair))
    }
}


/// A layout that a header can record exactly: its trailing region, if any,
/// has pages and the shape of the full regions.
pub open spec fn layout_recordable(layout: DatabaseLayout) -> bool {
    layout.trailing_partial_region matches Some(t) ==> {
        &&& t.num_pages > 0
        &&& t.header_pages == layout.full_region_layout.header_pages
        &&& t.page_size == layout.full_region_layout.page_size
    }
}

/// A fresh header describes the layout it was made from, when that layout can
/// be recorded.
pub proof fn lemma_new_header_layout(layout: DatabaseLayout, transaction_id: TransactionId)
    requires
        layout_recordable(layout),
    ensures
        DatabaseHeaderModel::new_model(layout, transaction_id).layout() == layout,
{
}

/// After a layout is recorded, the header describes that layout.
pub proof fn lemma_layout_after_set_layout(m: DatabaseHeaderModel, layout: DatabaseLayout)
    requires
        layout.full_region_layout == m.layout().full_region_layout,
        layout_recordable(layout),
    ensures
        m.with_layout(layout).layout() == layout,
{
}

/// Swapping twice restores the header, and a swap exchanges the primary and
/// secondary slots.
pub proof fn lemma_swap_exchanges_slots(m: DatabaseHeaderModel)
    ensures
        m.swapped().swapped() == m,
        m.swapped().primary() == m.secondary(),
        m.swapped().secondary() == m.primary(),
{
}


/// Writing the secondary slot changes nothing else: the primary slot, the
/// flags and the layout stay as they were.
pub proof fn lemma_secondary_write_keeps_primary(m: DatabaseHeaderModel, slot: TransactionHeader)
    ensures
        m.with_secondary(slot).secondary() == slot,
        m.with_secondary(slot).primary() == m.primary(),
        m.with_secondary(slot).slot1_primary == m.slot1_primary,
        m.with_secondary(slot).recovery_required == m.recovery_required,
        m.with_secondary(slot).two_phase_commit == m.two_phase_commit,
        m.with_secondary(slot).layout() == m.layout(),
{
}

/// In the written bytes the god byte's primary bit names the slot that holds
/// the primary, and the other slot holds the secondary.
pub proof fn lemma_god_byte_names_primary(m: DatabaseHeaderModel, include_magic_number: bool)
    requires
        m.writable(),
    ensures
        ({
            let b = header_bytes(m, include_magic_number);
            let p = m.primary_index();
            &&& b.len() == DB_HEADER_SIZE
            &&& (b[GOD_BYTE_OFFSET as int] & PRIMARY_BIT != 0) == m.slot1_primary
            &&& b.subrange(64 + 128 * p, 192 + 128 * p) == slot_bytes(m.primary())
            &&& b.subrange(64 + 128 * (1 - p), 192 + 128 * (1 - p)) == slot_bytes(m.secondary())
        }),
{
    lemma_header_roundtrip(m, include_magic_number);
    lemma_header_prefix(m, include_magic_number);
    lemma_slot_bytes_len(m.slot0);
    lemma_slot_bytes_len(m.slot1);
    let b = header_bytes(m, include_magic_number);
    assert(b.subrange(64, 192) =~= slot_bytes(m.slot0));
    assert(b.subrange(192, 320) =~= slot_bytes(m.slot1));
}

/// Switching the primary slot changes the written bytes only in the god
/// byte's primary bit.
pub proof fn lemma_swap_changes_only_primary_bit(m: DatabaseHeaderModel, include_magic_number: bool)
    requires
        m.writable(),
    ensures
        ({
            let b = header_bytes(m, include_magic_number);
            let c = header_bytes(m.swapped(), include_magic_number);
            &&& b.len() == DB_HEADER_SIZE
            &&& c.len() == DB_HEADER_SIZE
            &&& c[GOD_BYTE_OFFSET as int] == b[GOD_BYTE_OFFSET as int] ^ PRIMARY_BIT
            &&& forall|i: int| 0 <= i < DB_HEADER_SIZE && i != GOD_BYTE_OFFSET ==> c[i] == b[i]
        }),
{
    lemma_header_roundtrip(m, include_magic_number);
    lemma_header_roundtrip(m.swapped(), include_magic_number);
    lemma_header_prefix(m, include_magic_number);
    lemma_header_prefix(m.swapped(), include_magic_number);
    let b = header_bytes(m, include_magic_number);
    let c = header_bytes(m.swapped(), include_magic_number);
    let r: u8 = if m.recovery_required {
        RECOVERY_REQUIRED
    } else {
        0u8
    };
    let t: u8 = if m.two_phase_commit {
        TWO_PHASE_COMMIT
    } else {
        0u8
    };
    assert((0u8 | r | t) ^ 1u8 == (1u8 | r | t) && (1u8 | r | t) ^ 1u8 == (0u8 | r | t))
        by (bit_vector)
        requires
            r == 0 || r == 2,
            t == 0 || t == 4,
    ;
    let mg = if include_magic_number {
        magic_bytes()
    } else {
        zero_bytes(9)
    };
    let rest = zero_bytes(2) + region_field_bytes(m) + zero_bytes(32) + slot_bytes(m.slot0)
        + slot_bytes(m.slot1);
    assert(b =~= mg.push(god_byte(m)) + rest);
    assert(c =~= mg.push(god_byte(m.swapped())) + rest);
    assert forall|i: int| 0 <= i < DB_HEADER_SIZE && i != GOD_BYTE_OFFSET implies c[i] == b[i] by {
        if i < 9 {
            assert(c[i] == mg[i]);
            assert(b[i] == mg[i]);
        } else {
            assert(c[i] == rest[i - 10]);
            assert(b[i] == rest[i - 10]);
        }
    }
}


/// The magic number follows the usual advice for file signatures: it is not
/// valid UTF-8, it has a byte with the high bit set, a byte that is not
/// printable ASCII, a printable ASCII byte, a printable Latin-1 byte outside
/// ASCII, and a control byte other than tab, line feed, form feed and
/// carriage return.
pub proof fn lemma_magic_number_properties()
    ensures
        !vstd::utf8::valid_utf8(magic_bytes()),
        exists|i: int| 0 <= i < 9 && #[trigger] magic_bytes()[i] >= 0x80,
        exists|i: int| 0 <= i < 9 && (#[trigger] magic_bytes()[i] < 0x20 || magic_bytes()[i] > 0x7E),
        exists|i: int| 0 <= i < 9 && 0x20 <= #[trigger] magic_bytes()[i] <= 0x7E,
        exists|i: int| 0 <= i < 9 && #[trigger] magic_bytes()[i] >= 0xA0,
        exists|i: int|
            0 <= i < 9 && ({
                let x = #[trigger] magic_bytes()[i];
                x < 0x09 || x == 0x0B || (0x0E <= x && x <= 0x1F) || (0x7F <= x && x <= 0x9F)
            }),
{
    let m = magic_bytes();
    assert(m[0] == 0x72);
    assert(m[4] == 0x1A);
    assert(m[6] == 0xA9);
    reveal_with_fuel(vstd::utf8::valid_utf8, 8);
    let s1 = vstd::utf8::pop_first_scalar(m);
    assert(s1 =~= m.subrange(1, 9));
    let s2 = vstd::utf8::pop_first_scalar(s1);
    assert(s2 =~= m.subrange(2, 9));
    let s3 = vstd::utf8::pop_first_scalar(s2);
    assert(s3 =~= m.subrange(3, 9));
    let s4 = vstd::utf8::pop_first_scalar(s3);
    assert(s4 =~= m.subrange(4, 9));
    let s5 = vstd::utf8::pop_first_scalar(s4);
    assert(s5 =~= m.subrange(5, 9));
    let s6 = vstd::utf8::pop_first_scalar(s5);
    assert(s6 =~= m.subrange(6, 9));
    assert(!vstd::utf8::valid_first_scalar(s6));
}


/// Whether the commit slot at `offset` in `data` stores, in its last 16
/// bytes, the little-endian XXH3-128 checksum of its first 112 bytes.
pub open spec fn slot_checksum_matches(data: Seq<u8>, offset: int) -> bool {
    data.subrange(offset + 112, offset + 128) == spec_u128_to_le_bytes(
        xxh3_128_seed0(data.subrange(offset, offset + 112)),
    )
}

proof fn lemma_stored_checksum(bytes: Seq<u8>, c: u128)
    requires
        bytes.len() == 16,
    ensures
        (spec_u128_from_le_bytes(bytes) != c) == (bytes != spec_u128_to_le_bytes(c)),
{
    lemma_auto_spec_u128_to_from_le_bytes();
    if bytes == spec_u128_to_le_bytes(c) {
        assert(spec_u128_from_le_bytes(spec_u128_to_le_bytes(c)) == c);
    }
    if spec_u128_from_le_bytes(bytes) == c {
        assert(spec_u128_to_le_bytes(spec_u128_from_le_bytes(bytes)) == bytes);
    }
}

/// A current-version slot is read as corrupted exactly when its 16 stored
/// checksum bytes are not the little-endian XXH3-128 checksum of its first
/// 112 bytes; any other version is an error.
pub proof fn lemma_slot_corruption_flag(data: Seq<u8>)
    requires
        slot_readable(data),
    ensures
        parse_slot(data) is Ok <==> data[0] == FILE_FORMAT_VERSION3,
        parse_slot(data) matches Ok((s, corrupted)) ==> corrupted == !slot_checksum_matches(
            data,
            0,
        ),
{
    if data[0] == FILE_FORMAT_VERSION3 {
        lemma_stored_checksum(data.subrange(112, 128), xxh3_128_seed0(data.subrange(0, 112)));
    }
}

/// Changing any one of the 16 checksum bytes of a written slot makes it read
/// as corrupted, with the same contents.
pub proof fn lemma_damaged_checksum_detected(h: TransactionHeader, i: int, v: u8)
    requires
        h.version == FILE_FORMAT_VERSION3,
        SLOT_CHECKSUM_OFFSET <= i < TRANSACTION_SIZE,
        v != slot_bytes(h)[i],
    ensures
        parse_slot(slot_bytes(h).update(i, v)) == Ok::<(TransactionHeader, bool), DatabaseError>(
            (h, true),
        ),
{
    let b = slot_bytes(h);
    let d = b.update(i, v);
    lemma_slot_roundtrip(h);
    lemma_slot_bytes_len(h);
    lemma_slot_corruption_flag(b);
    assert(d.subrange(0, 112) =~= b.subrange(0, 112));
    assert(d.subrange(8, 40) =~= b.subrange(8, 40));
    assert(d.subrange(40, 72) =~= b.subrange(40, 72));
    assert(d.subrange(104, 112) =~= b.subrange(104, 112));
    assert(d.subrange(112, 128)[i - 112] != b.subrange(112, 128)[i - 112]);
    lemma_stored_checksum(d.subrange(112, 128), xxh3_128_seed0(d.subrange(0, 112)));
}

/// The bytes of a written slot, field by field: version, non-null flags,
/// padding, each root as its page, checksum and length in little-endian
/// order (zeros when absent), unused bytes, the transaction id, and the
/// XXH3-128 checksum of the first 112 bytes.
pub proof fn lemma_slot_layout(h: TransactionHeader)
    ensures
        ({
            let b = slot_bytes(h);
            &&& b.len() == TRANSACTION_SIZE
            &&& b[0] == h.version
            &&& b[1] == (if h.user_root is Some {
                1u8
            } else {
                0u8
            })
            &&& b[2] == (if h.system_root is Some {
                1u8
            } else {
                0u8
            })
            &&& forall|j: int| 3 <= j < 8 ==> b[j] == 0
            &&& (h.user_root matches Some(r) ==> {
                &&& b.subrange(8, 16) == spec_u64_to_le_bytes(r.root)
                &&& b.subrange(16, 32) == spec_u128_to_le_bytes(r.checksum)
                &&& b.subrange(32, 40) == spec_u64_to_le_bytes(r.length)
            })
            &&& (h.user_root is None ==> forall|j: int| 8 <= j < 40 ==> b[j] == 0)
            &&& (h.system_root matches Some(r) ==> {
                &&& b.subrange(40, 48) == spec_u64_to_le_bytes(r.root)
                &&& b.subrange(48, 64) == spec_u128_to_le_bytes(r.checksum)
                &&& b.subrange(64, 72) == spec_u64_to_le_bytes(r.length)
            })
            &&& (h.system_root is None ==> forall|j: int| 40 <= j < 72 ==> b[j] == 0)
            &&& forall|j: int| 72 <= j < 104 ==> b[j] == 0
            &&& b.subrange(104, 112) == spec_u64_to_le_bytes(h.transaction_id.0)
            &&& slot_checksum_matches(b, 0)
        }),
{
    lemma_root_bytes(h.user_root);
    lemma_root_bytes(h.system_root);
    lemma_slot_bytes_len(h);
    lemma_auto_spec_u64_to_from_le_bytes();
    lemma_auto_spec_u128_to_from_le_bytes();
    let b = slot_bytes(h);
    let a = seq![h.version, root_flag(h.user_root), root_flag(h.system_root)] + zero_bytes(5);
    let u = root_bytes(h.user_root);
    let s = root_bytes(h.system_root);
    let t = spec_u64_to_le_bytes(h.transaction_id.0);
    let p = slot_payload(h);
    assert(p =~= a + u + s + zero_bytes(32) + t);
    assert(b.subrange(0, 112) =~= p);
    assert(b.subrange(112, 128) =~= spec_u128_to_le_bytes(xxh3_128_seed0(p)));
    assert(b.subrange(8, 40) =~= u);
    assert(b.subrange(40, 72) =~= s);
    assert(b.subrange(104, 112) =~= t);
    assert forall|j: int| 3 <= j < 8 implies b[j] == 0 by {
        assert(b[j] == a[j]);
    }
    assert forall|j: int| 72 <= j < 104 implies b[j] == 0 by {
        assert(b[j] == p[j]);
    }
    if let Some(r) = h.user_root {
        assert(b.subrange(8, 16) =~= u.subrange(0, 8));
        assert(b.subrange(16, 32) =~= u.subrange(8, 24));
        assert(b.subrange(32, 40) =~= u.subrange(24, 32));
        assert(u.subrange(0, 8) =~= spec_u64_to_le_bytes(r.root));
        assert(u.subrange(8, 24) =~= spec_u128_to_le_bytes(r.checksum));
        assert(u.subrange(24, 32) =~= spec_u64_to_le_bytes(r.length));
    } else {
        assert forall|j: int| 8 <= j < 40 implies b[j] == 0 by {
            assert(b[j] == u[j - 8]);
        }
    }
    if let Some(r) = h.system_root {
        assert(b.subrange(40, 48) =~= s.subrange(0, 8));
        assert(b.subrange(48, 64) =~= s.subrange(8, 24));
        assert(b.subrange(64, 72) =~= s.subrange(24, 32));
        assert(s.subrange(0, 8) =~= spec_u64_to_le_bytes(r.root));
        assert(s.subrange(8, 24) =~= spec_u128_to_le_bytes(r.checksum));
        assert(s.subrange(24, 32) =~= spec_u64_to_le_bytes(r.length));
    } else {
        assert forall|j: int| 40 <= j < 72 implies b[j] == 0 by {
            assert(b[j] == s[j - 40]);
        }
    }
}

/// What a current-version slot is read as, field by field from its bytes:
/// a root is present when its flag byte is not zero, and is then read as its
/// page, checksum and length in little-endian order.
pub proof fn lemma_slot_read(data: Seq<u8>)
    requires
        slot_readable(data),
    ensures
        parse_slot(data) matches Ok((s, corrupted)) ==> {
            &&& s.version == data[0]
            &&& s.transaction_id.0 == spec_u64_from_le_bytes(data.subrange(104, 112))
            &&& s.user_root == if data[1] != 0 {
                Some(
                    BtreeHeader {
                        root: spec_u64_from_le_bytes(data.subrange(8, 16)),
                        checksum: spec_u128_from_le_bytes(data.subrange(16, 32)),
                        length: spec_u64_from_le_bytes(data.subrange(32, 40)),
                    },
                )
            } else {
                None
            }
            &&& s.system_root == if data[2] != 0 {
                Some(
                    BtreeHeader {
                        root: spec_u64_from_le_bytes(data.subrange(40, 48)),
                        checksum: spec_u128_from_le_bytes(data.subrange(48, 64)),
                        length: spec_u64_from_le_bytes(data.subrange(64, 72)),
                    },
                )
            } else {
                None
            }
        },
{
    if data[0] == FILE_FORMAT_VERSION3 {
        assert(data.subrange(8, 40).subrange(0, 8) =~= data.subrange(8, 16));
        assert(data.subrange(8, 40).subrange(8, 24) =~= data.subrange(16, 32));
        assert(data.subrange(8, 40).subrange(24, 32) =~= data.subrange(32, 40));
        assert(data.subrange(40, 72).subrange(0, 8) =~= data.subrange(40, 48));
        assert(data.subrange(40, 72).subrange(8, 24) =~= data.subrange(48, 64));
        assert(data.subrange(40, 72).subrange(24, 32) =~= data.subrange(64, 72));
    }
}

/// What reading a header reports, in terms of its bytes: the god byte's
/// primary bit names the primary slot; the magic number is invalid exactly
/// when one of the first nine bytes differs from it; and the primary (or
/// secondary) slot is corrupted exactly when the slot the primary bit names
/// (or the other one) does not store the checksum of its payload.
pub proof fn lemma_header_repair_info(data: Seq<u8>)
    requires
        header_readable(data),
    ensures
        parse_header(data) matches Ok((m, info)) ==> {
            let p: int = if data[GOD_BYTE_OFFSET as int] & PRIMARY_BIT != 0 {
                1
            } else {
                0
            };
            &&& m.slot1_primary == (p == 1)
            &&& info.invalid_magic_number == exists|i: int|
                0 <= i < 9 && #[trigger] data[i] != MAGICNUMBER@[i]
            &&& info.primary_corrupted == !slot_checksum_matches(data, 64 + 128 * p)
            &&& info.secondary_corrupted == !slot_checksum_matches(data, 64 + 128 * (1 - p))
        },
{
    if parse_header(data) is Ok {
        let d0 = data.subrange(64, 192);
        let d1 = data.subrange(192, 320);
        lemma_slot_corruption_flag(d0);
        lemma_slot_corruption_flag(d1);
        assert(d0.subrange(0, 112) =~= data.subrange(64, 176));
        assert(d0.subrange(112, 128) =~= data.subrange(176, 192));
        assert(d1.subrange(0, 112) =~= data.subrange(192, 304));
        assert(d1.subrange(112, 128) =~= data.subrange(304, 320));
        assert(MAGICNUMBER@ =~= magic_bytes());
        let head = data.subrange(0, 9);
        if head == magic_bytes() {
            assert forall|i: int| 0 <= i < 9 implies #[trigger] data[i] == MAGICNUMBER@[i] by {
                assert(head[i] == data[i]);
            }
        } else {
            let i = choose|i: int| 0 <= i < 9 && head[i] != magic_bytes()[i];
            if !(exists|i: int| 0 <= i < 9 && head[i] != magic_bytes()[i]) {
                assert(head =~= magic_bytes());
            }
            assert(data[i] == head[i]);
        }
    }
}

/// Changing any one of the first nine bytes of a header written with the
/// magic number makes it read with an invalid magic number.
pub proof fn lemma_damaged_magic_detected(m: DatabaseHeaderModel, i: int, v: u8)
    requires
        m.writable(),
        0 <= i < 9,
        v != header_bytes(m, true)[i],
    ensures
        parse_header(header_bytes(m, true).update(i, v)) matches Ok((m2, info)) && m2 == m
            && info.invalid_magic_number,
{
    let b = header_bytes(m, true);
    let d = b.update(i, v);
    lemma_header_roundtrip(m, true);
    lemma_header_prefix(m, true);
    assert(b.subrange(0, 9) == magic_bytes()) by {
        assert(b.subrange(0, 64) =~= header_prefix(m, true));
        assert(b.subrange(0, 9) =~= header_prefix(m, true).subrange(0, 9));
    }
    assert(b[i] == magic_bytes()[i]) by {
        assert(b[i] == b.subrange(0, 9)[i]);
    }
    assert(d.subrange(64, 192) =~= b.subrange(64, 192));
    assert(d.subrange(192, 320) =~= b.subrange(192, 320));
    assert(d.subrange(12, 16) =~= b.subrange(12, 16));
    assert(d.subrange(16, 20) =~= b.subrange(16, 20));
    assert(d.subrange(20, 24) =~= b.subrange(20, 24));
    assert(d.subrange(24, 28) =~= b.subrange(24, 28));
    assert(d.subrange(28, 32) =~= b.subrange(28, 32));
    assert(d[9] == b[9]);
    assert(d[64] == b[64]);
    assert(d.subrange(0, 9)[i] != magic_bytes()[i]);
}

} // verus!
