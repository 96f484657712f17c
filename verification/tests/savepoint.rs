use redb_store::btree_header::BtreeHeader;
use redb_store::header::FILE_FORMAT_VERSION3;
use redb_store::ids::{SavepointId, TransactionId};
use redb_store::savepoint::{Savepoint, SerializedSavepoint, TypeClassification, SAVEPOINT_SIZE};

#[test]
fn savepoint_roundtrip_with_root() {
    let root = BtreeHeader::new(12, 0xCAFE, 3);
    let s = Savepoint::new_ephemeral(
        FILE_FORMAT_VERSION3,
        0x1000,
        SavepointId(4),
        TransactionId::new(9),
        Some(root),
    );
    let serialized = SerializedSavepoint::from_savepoint(&s);
    let data = serialized.data();
    assert_eq!(data.len(), SAVEPOINT_SIZE);
    assert_eq!(data[0], FILE_FORMAT_VERSION3);
    assert_eq!(&data[1..9], &4u64.to_le_bytes());
    assert_eq!(&data[9..17], &9u64.to_le_bytes());
    assert_eq!(data[17], 1);
    assert_eq!(&data[18..50], &root.to_le_bytes());

    let back = serialized.to_savepoint(0x2000);
    assert_eq!(back.get_version(), FILE_FORMAT_VERSION3);
    assert_eq!(back.get_id(), SavepointId(4));
    assert_eq!(back.get_transaction_id(), TransactionId::new(9));
    assert_eq!(back.get_user_root(), Some(root));
    assert_eq!(back.db_address(), 0x2000);
    // A savepoint read back is persistent: releasing it returns nothing.
    assert_eq!(back.release(), None);
}

#[test]
fn savepoint_roundtrip_without_root() {
    let s = Savepoint::new_ephemeral(
        FILE_FORMAT_VERSION3,
        1,
        SavepointId(0),
        TransactionId::new(u64::MAX),
        None,
    );
    let serialized = SerializedSavepoint::from_savepoint(&s);
    let bytes = serialized.data().to_vec();
    assert_eq!(bytes[17], 0);
    assert!(bytes[18..].iter().all(|b| *b == 0));
    let stored = SerializedSavepoint::from_bytes(&bytes);
    assert_eq!(SerializedSavepoint::as_bytes(&stored), bytes.as_slice());
    let back = stored.to_savepoint(1);
    assert_eq!(back.get_user_root(), None);
    assert_eq!(back.get_transaction_id().raw_id(), u64::MAX);
}

#[test]
fn ephemeral_savepoint_is_given_back() {
    let s = Savepoint::new_ephemeral(
        FILE_FORMAT_VERSION3,
        7,
        SavepointId(3),
        TransactionId::new(8),
        None,
    );
    assert_eq!(s.release(), Some((SavepointId(3), TransactionId::new(8))));

    let mut p = Savepoint::new_ephemeral(
        FILE_FORMAT_VERSION3,
        7,
        SavepointId(3),
        TransactionId::new(8),
        None,
    );
    p.set_persistent();
    assert_eq!(p.release(), None);
}

#[test]
fn serialized_savepoint_value_traits() {
    assert_eq!(SerializedSavepoint::fixed_width(), None);
    let name = SerializedSavepoint::value_type_name();
    assert_eq!(name.name, "redb::SerializedSavepoint");
    assert_eq!(name.classification, TypeClassification::Internal);
}

