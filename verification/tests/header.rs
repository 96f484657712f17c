use redb_store::btree_header::BtreeHeader;
use redb_store::error::{Corruption, DatabaseError, StorageError};
use redb_store::header::{
    get_u32, get_u64, DatabaseHeader, HeaderRepairInfo, TransactionHeader, DB_HEADER_SIZE,
    FILE_FORMAT_VERSION3, GOD_BYTE_OFFSET, MAGICNUMBER, PRIMARY_BIT, RECOVERY_REQUIRED,
    SLOT_CHECKSUM_OFFSET, TRANSACTION_0_OFFSET, TRANSACTION_1_OFFSET, TWO_PHASE_COMMIT,
    USER_ROOT_OFFSET,
};
use redb_store::ids::TransactionId;
use redb_store::layout::{DatabaseLayout, RegionLayout};

fn sample_layout() -> DatabaseLayout {
    DatabaseLayout::new(
        3,
        RegionLayout::new(1024, 2, 4096),
        Some(RegionLayout::new(17, 2, 4096)),
    )
}

/// A header as a database leaves it after a clean close.
fn closed_database_header() -> DatabaseHeader {
    let mut header = DatabaseHeader::new(sample_layout(), TransactionId::new(1));
    header.set_recovery_required(false);
    header
}

/// Writes a commit into the secondary slot and makes it primary.
fn commit(header: &mut DatabaseHeader, id: u64, root: Option<BtreeHeader>, two_phase: bool) {
    let slot = header.secondary_slot_mut();
    slot.transaction_id = TransactionId::new(id);
    slot.user_root = root;
    header.set_two_phase_commit(two_phase);
    header.swap_primary_slot();
}

fn primary_slot_offset(god_byte: u8) -> usize {
    if god_byte & PRIMARY_BIT == 0 {
        TRANSACTION_0_OFFSET
    } else {
        TRANSACTION_1_OFFSET
    }
}

// The repair tests below exercise, on the header's bytes, what the database
// does when it reopens a file: the god byte is edited as the database file
// would be, and the header is read back and a primary slot is chosen.

#[test]
fn repair_empty() {
    let header = closed_database_header();
    let mut bytes = header.to_bytes(true);

    bytes[GOD_BYTE_OFFSET] |= RECOVERY_REQUIRED;

    let (mut reopened, info) = DatabaseHeader::from_bytes(&bytes).unwrap();
    assert!(reopened.recovery_required());
    reopened.pick_primary_for_repair(info).unwrap();
}

#[test]
fn close_on_drop() {
    // A database being written requires recovery; closing it writes the header
    // back with the flag cleared, and the file then reads as cleanly closed.
    let mut header = DatabaseHeader::new(sample_layout(), TransactionId::new(1));
    commit(&mut header, 2, Some(BtreeHeader::new(5, 77, 1)), true);
    let open_bytes = header.to_bytes(true);
    assert_ne!(open_bytes[GOD_BYTE_OFFSET] & RECOVERY_REQUIRED, 0);

    header.set_recovery_required(false);
    let bytes = header.to_bytes(true);
    assert_eq!(bytes[GOD_BYTE_OFFSET] & RECOVERY_REQUIRED, 0);
    let (reopened, info) = DatabaseHeader::from_bytes(&bytes).unwrap();
    assert!(!reopened.recovery_required());
    assert!(!info.primary_corrupted && !info.secondary_corrupted);
    assert_eq!(reopened.primary_slot().transaction_id.raw_id(), 2);
}

#[test]
fn abort_repair() {
    let header = closed_database_header();
    let mut bytes = header.to_bytes(true);

    bytes[GOD_BYTE_OFFSET] |= RECOVERY_REQUIRED;
    bytes[GOD_BYTE_OFFSET] &= !TWO_PHASE_COMMIT;

    let (reopened, info) = DatabaseHeader::from_bytes(&bytes).unwrap();
    // The header asks for a repair that does not rely on a two-phase commit.
    assert!(matches!(
        (reopened.recovery_required(), reopened.two_phase_commit(), info.primary_corrupted),
        (true, false, false)
    ));
}

#[test]
fn repair_insert_reserve_regression() {
    let mut header = closed_database_header();
    commit(&mut header, 2, Some(BtreeHeader::new(10, 0x1234, 1)), false);
    commit(&mut header, 3, Some(BtreeHeader::new(11, 0x5678, 2)), false);
    header.set_recovery_required(false);

    let mut bytes = header.to_bytes(true);
    bytes[GOD_BYTE_OFFSET] |= RECOVERY_REQUIRED;

    let (mut reopened, info) = DatabaseHeader::from_bytes(&bytes).unwrap();
    assert_eq!(reopened.pick_primary_for_repair(info), Ok(true));
    assert_eq!(reopened.primary_slot().transaction_id.raw_id(), 3);
}

#[test]
fn magic_number() {
    // Test that magic number is not valid utf-8
    assert!(std::str::from_utf8(&MAGICNUMBER).is_err());
    // Test there is a octet with high-bit set
    assert!(MAGICNUMBER.iter().any(|x| *x & 0x80 != 0));
    // Test there is a non-printable ASCII character
    assert!(MAGICNUMBER.iter().any(|x| *x < 0x20 || *x > 0x7E));
    // Test there is a printable ASCII character
    assert!(MAGICNUMBER.iter().any(|x| *x >= 0x20 && *x <= 0x7E));
    // Test there is a printable ISO-8859 that's non-ASCII printable
    assert!(MAGICNUMBER.iter().any(|x| *x >= 0xA0));
    // Test there is a ISO-8859 control character other than 0x09, 0x0A, 0x0C, 0x0D
    assert!(MAGICNUMBER.iter().any(|x| *x < 0x09
        || *x == 0x0B
        || (0x0E <= *x && *x <= 0x1F)
        || (0x7F <= *x && *x <= 0x9F)));
}

#[test]
fn repair_allocator_checksums() {
    let mut header = closed_database_header();
    commit(&mut header, 2, Some(BtreeHeader::new(7, 0xAAAA, 1)), false);
    commit(&mut header, 3, Some(BtreeHeader::new(8, 0xBBBB, 2)), true);
    header.set_recovery_required(false);
    let mut bytes = header.to_bytes(true);

    bytes[GOD_BYTE_OFFSET] |= RECOVERY_REQUIRED;
    bytes[GOD_BYTE_OFFSET] &= !TWO_PHASE_COMMIT;

    // Overwrite the primary's user root to simulate a failure during commit
    let primary = primary_slot_offset(bytes[GOD_BYTE_OFFSET]);
    for b in &mut bytes[primary + USER_ROOT_OFFSET..primary + USER_ROOT_OFFSET + 16] {
        *b = 0;
    }
    let (mut reopened, info) = DatabaseHeader::from_bytes(&bytes).unwrap();
    assert!(info.primary_corrupted);
    assert!(!info.secondary_corrupted);
    // The repair falls back to the previous commit
    assert_eq!(reopened.pick_primary_for_repair(info), Ok(false));
    assert_eq!(reopened.primary_slot().transaction_id.raw_id(), 2);
    assert_eq!(reopened.primary_slot().user_root, Some(BtreeHeader::new(7, 0xAAAA, 1)));

    // Overwrite both slots to simulate corruption
    for base in [TRANSACTION_0_OFFSET, TRANSACTION_1_OFFSET] {
        for b in &mut bytes[base + USER_ROOT_OFFSET..base + USER_ROOT_OFFSET + 16] {
            *b = 0;
        }
    }
    let (mut reopened, info) = DatabaseHeader::from_bytes(&bytes).unwrap();
    assert!(matches!(
        reopened.pick_primary_for_repair(info).unwrap_err(),
        DatabaseError::Storage(StorageError::Corrupted(_))
    ));
}

#[test]
fn header_roundtrip_keeps_every_field() {
    let mut header = closed_database_header();
    commit(&mut header, 9, Some(BtreeHeader::new(42, 0xDEAD_BEEF, 1000)), true);
    header.secondary_slot_mut().system_root = Some(BtreeHeader::new(1, 2, 3));
    let bytes = header.to_bytes(true);
    assert_eq!(bytes.len(), DB_HEADER_SIZE);
    let (reopened, info) = DatabaseHeader::from_bytes(&bytes).unwrap();
    assert_eq!(
        info,
        HeaderRepairInfo {
            invalid_magic_number: false,
            primary_corrupted: false,
            secondary_corrupted: false
        }
    );
    assert_eq!(reopened.to_bytes(true), bytes);
    assert_eq!(reopened.layout(), sample_layout());
    assert_eq!(*reopened.primary_slot(), *header.primary_slot());
    assert_eq!(*reopened.secondary_slot(), *header.secondary_slot());
    assert!(reopened.two_phase_commit());
    assert_eq!(reopened.page_size(), 4096);
}

#[test]
fn header_bytes_layout() {
    let header = DatabaseHeader::new(sample_layout(), TransactionId::new(0x0102));
    let bytes = header.to_bytes(true);
    assert_eq!(&bytes[..9], &MAGICNUMBER);
    // Slot 0 primary, recovery required, no two-phase commit.
    assert_eq!(bytes[GOD_BYTE_OFFSET], RECOVERY_REQUIRED);
    assert_eq!(&bytes[10..12], &[0, 0]);
    assert_eq!(&bytes[12..16], &4096u32.to_le_bytes());
    assert_eq!(&bytes[16..20], &2u32.to_le_bytes());
    assert_eq!(&bytes[20..24], &1024u32.to_le_bytes());
    assert_eq!(&bytes[24..28], &3u32.to_le_bytes());
    assert_eq!(&bytes[28..32], &17u32.to_le_bytes());
    assert!(bytes[32..64].iter().all(|b| *b == 0));
    assert_eq!(bytes[TRANSACTION_0_OFFSET], FILE_FORMAT_VERSION3);
    assert_eq!(
        &bytes[TRANSACTION_0_OFFSET..TRANSACTION_1_OFFSET],
        &bytes[TRANSACTION_1_OFFSET..DB_HEADER_SIZE]
    );
}

#[test]
fn header_without_magic_number() {
    let header = closed_database_header();
    let bytes = header.to_bytes(false);
    assert!(bytes[..9].iter().all(|b| *b == 0));
    let (_, info) = DatabaseHeader::from_bytes(&bytes).unwrap();
    assert!(info.invalid_magic_number);
    assert!(!info.primary_corrupted);
}

#[test]
fn god_byte_records_primary_and_flags() {
    let mut header = closed_database_header();
    header.swap_primary_slot();
    header.set_recovery_required(true);
    header.set_two_phase_commit(true);
    let bytes = header.to_bytes(true);
    assert_eq!(
        bytes[GOD_BYTE_OFFSET],
        PRIMARY_BIT | RECOVERY_REQUIRED | TWO_PHASE_COMMIT
    );
}

#[test]
fn upgrade_required_for_old_versions() {
    let header = closed_database_header();
    let mut bytes = header.to_bytes(true);
    bytes[TRANSACTION_0_OFFSET] = 1;
    assert_eq!(
        DatabaseHeader::from_bytes(&bytes).err(),
        Some(DatabaseError::UpgradeRequired(1))
    );
    bytes[TRANSACTION_0_OFFSET] = FILE_FORMAT_VERSION3;
    bytes[TRANSACTION_1_OFFSET] = 2;
    assert_eq!(
        DatabaseHeader::from_bytes(&bytes).err(),
        Some(DatabaseError::UpgradeRequired(2))
    );
}

#[test]
fn unknown_version_is_corruption() {
    let header = closed_database_header();
    let mut bytes = header.to_bytes(true);
    bytes[TRANSACTION_1_OFFSET] = 9;
    assert_eq!(
        DatabaseHeader::from_bytes(&bytes).err(),
        Some(DatabaseError::Storage(StorageError::Corrupted(
            Corruption::UnsupportedFileFormatVersion(9)
        )))
    );
}

#[test]
fn short_header_with_bad_first_slot_is_an_error() {
    let header = closed_database_header();
    let bytes = header.to_bytes(true);
    let mut short = bytes[..TRANSACTION_1_OFFSET].to_vec();
    short[TRANSACTION_0_OFFSET] = 2;
    assert_eq!(
        DatabaseHeader::from_bytes(&short).err(),
        Some(DatabaseError::UpgradeRequired(2))
    );
}

#[test]
fn two_phase_primary_is_trusted() {
    let mut header = closed_database_header();
    commit(&mut header, 2, None, true);
    let info_ok = HeaderRepairInfo {
        invalid_magic_number: false,
        primary_corrupted: false,
        secondary_corrupted: true,
    };
    let before = header.to_bytes(true);
    assert_eq!(header.pick_primary_for_repair(info_ok), Ok(true));
    assert_eq!(header.to_bytes(true), before);

    let info_bad = HeaderRepairInfo {
        invalid_magic_number: false,
        primary_corrupted: true,
        secondary_corrupted: false,
    };
    assert_eq!(
        header.pick_primary_for_repair(info_bad),
        Err(DatabaseError::Storage(StorageError::Corrupted(
            Corruption::PrimaryCorruptedDespiteTwoPhaseCommit
        )))
    );
    assert_eq!(header.to_bytes(true), before);
}

#[test]
fn newer_intact_secondary_takes_over() {
    let mut header = closed_database_header();
    commit(&mut header, 5, None, false);
    // Make the secondary newer than the primary, as when a crash hit after the
    // secondary was written but before the god byte changed.
    header.secondary_slot_mut().transaction_id = TransactionId::new(6);
    let intact = HeaderRepairInfo {
        invalid_magic_number: false,
        primary_corrupted: false,
        secondary_corrupted: false,
    };
    assert_eq!(header.pick_primary_for_repair(intact), Ok(false));
    assert_eq!(header.primary_slot().transaction_id.raw_id(), 6);
    assert_eq!(header.secondary_slot().transaction_id.raw_id(), 5);

    // A newer but corrupted secondary is not used.
    let mut header = closed_database_header();
    commit(&mut header, 5, None, false);
    header.secondary_slot_mut().transaction_id = TransactionId::new(6);
    let corrupted = HeaderRepairInfo {
        invalid_magic_number: false,
        primary_corrupted: false,
        secondary_corrupted: true,
    };
    assert_eq!(header.pick_primary_for_repair(corrupted), Ok(true));
    assert_eq!(header.primary_slot().transaction_id.raw_id(), 5);
}

#[test]
fn swapping_twice_restores_the_primary() {
    let mut header = closed_database_header();
    commit(&mut header, 2, None, false);
    let primary = *header.primary_slot();
    let secondary = *header.secondary_slot();
    header.swap_primary_slot();
    assert_eq!(*header.primary_slot(), secondary);
    assert_eq!(*header.secondary_slot(), primary);
    header.swap_primary_slot();
    assert_eq!(*header.primary_slot(), primary);
}

#[test]
fn layout_is_read_back_after_set_layout() {
    let mut header = closed_database_header();
    let grown = DatabaseLayout::new(5, RegionLayout::new(1024, 2, 4096), None);
    header.set_layout(grown);
    assert_eq!(header.layout(), grown);
    let trailing = DatabaseLayout::new(
        5,
        RegionLayout::new(1024, 2, 4096),
        Some(RegionLayout::new(9, 2, 4096)),
    );
    header.set_layout(trailing);
    assert_eq!(header.layout(), trailing);
}

#[test]
fn new_header_describes_its_layout() {
    let header = DatabaseHeader::new(sample_layout(), TransactionId::new(4));
    assert_eq!(header.layout(), sample_layout());
    assert!(header.recovery_required());
    assert!(!header.two_phase_commit());
    assert_eq!(*header.primary_slot(), TransactionHeader::new(TransactionId::new(4)));
    assert_eq!(*header.secondary_slot(), TransactionHeader::new(TransactionId::new(4)));
}

#[test]
fn slot_roundtrip_and_checksum() {
    let slot = TransactionHeader {
        version: FILE_FORMAT_VERSION3,
        user_root: Some(BtreeHeader::new(3, 0xABCD, 12)),
        system_root: None,
        transaction_id: TransactionId::new(77),
    };
    let bytes = slot.to_bytes();
    let payload = slot.payload();
    assert_eq!(&bytes[..SLOT_CHECKSUM_OFFSET], payload.as_slice());
    let expected = xxhash_rust::xxh3::xxh3_128_with_seed(&payload, 0).to_le_bytes();
    assert_eq!(&bytes[SLOT_CHECKSUM_OFFSET..], &expected);
    assert_ne!(&bytes[SLOT_CHECKSUM_OFFSET..], &payload[..16]);
    assert_eq!(TransactionHeader::from_bytes(&bytes), Ok((slot, false)));

    let mut damaged = bytes;
    damaged[SLOT_CHECKSUM_OFFSET] ^= 1;
    assert_eq!(TransactionHeader::from_bytes(&damaged), Ok((slot, true)));
}

#[test]
fn slot_payload_layout() {
    let slot = TransactionHeader {
        version: FILE_FORMAT_VERSION3,
        user_root: None,
        system_root: Some(BtreeHeader::new(0x0102030405060708, 1, 2)),
        transaction_id: TransactionId::new(0x1122),
    };
    let payload = slot.payload();
    assert_eq!(payload.len(), SLOT_CHECKSUM_OFFSET);
    assert_eq!(&payload[..8], &[3, 0, 1, 0, 0, 0, 0, 0]);
    assert!(payload[8..40].iter().all(|b| *b == 0));
    assert_eq!(&payload[40..48], &0x0102030405060708u64.to_le_bytes());
    assert_eq!(&payload[48..64], &1u128.to_le_bytes());
    assert_eq!(&payload[64..72], &2u64.to_le_bytes());
    assert!(payload[72..104].iter().all(|b| *b == 0));
    assert_eq!(&payload[104..112], &0x1122u64.to_le_bytes());
}

#[test]
fn slot_with_given_checksum() {
    let slot = TransactionHeader::new(TransactionId::new(8));
    let bytes = slot.to_bytes();
    let stored = u128::from_le_bytes(bytes[SLOT_CHECKSUM_OFFSET..].try_into().unwrap());
    assert_eq!(TransactionHeader::from_bytes_with_checksum(&bytes, stored), (slot, false));
    assert_eq!(
        TransactionHeader::from_bytes_with_checksum(&bytes, stored.wrapping_add(1)),
        (slot, true)
    );
}

#[test]
fn non_null_flag_other_than_one_still_reads_a_root() {
    let slot = TransactionHeader {
        version: FILE_FORMAT_VERSION3,
        user_root: Some(BtreeHeader::new(1, 1, 1)),
        system_root: None,
        transaction_id: TransactionId::new(1),
    };
    let mut bytes = slot.to_bytes();
    bytes[1] = 7;
    let (read, corrupted) = TransactionHeader::from_bytes(&bytes).unwrap();
    assert_eq!(read.user_root, Some(BtreeHeader::new(1, 1, 1)));
    assert!(corrupted);
}

#[test]
fn little_endian_readers() {
    let data = [0x78, 0x56, 0x34, 0x12, 0xF0, 0xDE, 0xBC, 0x9A, 0xFF];
    assert_eq!(get_u32(&data), 0x1234_5678);
    assert_eq!(get_u64(&data), 0x9ABC_DEF0_1234_5678);
}

#[test]
fn btree_header_roundtrip() {
    let h = BtreeHeader::new(0x0807060504030201, 0x1111_2222_3333_4444_5555_6666_7777_8888, 99);
    let bytes = h.to_le_bytes();
    assert_eq!(&bytes[..8], &[1, 2, 3, 4, 5, 6, 7, 8]);
    assert_eq!(BtreeHeader::from_le_bytes(&bytes), h);
    assert_eq!(BtreeHeader::serialized_size(), 32);
}

#[test]
fn swapping_changes_only_the_primary_bit() {
    let mut header = closed_database_header();
    commit(&mut header, 2, Some(BtreeHeader::new(3, 4, 5)), false);
    let before = header.to_bytes(true);
    header.swap_primary_slot();
    let after = header.to_bytes(true);
    for i in 0..DB_HEADER_SIZE {
        if i == GOD_BYTE_OFFSET {
            assert_eq!(after[i], before[i] ^ PRIMARY_BIT);
        } else {
            assert_eq!(after[i], before[i]);
        }
    }
}

#[test]
fn god_byte_names_the_primary_slot() {
    let mut header = closed_database_header();
    commit(&mut header, 2, Some(BtreeHeader::new(3, 4, 5)), false);
    let bytes = header.to_bytes(true);
    let p = primary_slot_offset(bytes[GOD_BYTE_OFFSET]);
    let s = if p == TRANSACTION_0_OFFSET { TRANSACTION_1_OFFSET } else { TRANSACTION_0_OFFSET };
    assert_eq!(&bytes[p..p + 128], &header.primary_slot().to_bytes());
    assert_eq!(&bytes[s..s + 128], &header.secondary_slot().to_bytes());
}
