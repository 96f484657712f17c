use vstd::bytes::*;
use vstd::prelude::*;
use vstd::slice::slice_subrange;

use crate::btree_header::{
    btree_header_bytes, btree_header_from, lemma_btree_header_roundtrip, BtreeHeader,
    BTREE_HEADER_SIZE,
};
use crate::bytes::{push_zeros, zero_bytes};
use crate::header::{get_u64, FILE_FORMAT_VERSION3};
use crate::ids::{SavepointId, TransactionId};

verus! {

// Serialized savepoint:
// 1 byte: version
// 8 bytes: savepoint id
// 8 bytes: transaction id
// 1 byte: user root not-null
// 32 bytes: user root (zeros when null)
pub const SAVEPOINT_SIZE: usize = 1 + 8 + 8 + 1 + BTREE_HEADER_SIZE;

/// The values a savepoint holds.
#[derive(Clone, Copy, Debug, PartialEq, Eq, Structural)]
pub struct SavepointModel {
    pub version: u8,
    pub id: SavepointId,
    pub transaction_id: TransactionId,
    pub user_root: Option<BtreeHeader>,
    pub db_address: usize,
    pub ephemeral: bool,
}

/// A database savepoint: the state of the user tables as of a transaction,
/// to which the database may later be restored.
///
/// A savepoint belongs to one database, identified by `db_address`. An
/// ephemeral savepoint is given back to that database when it is released;
/// a persistent one stays allocated.
pub struct Savepoint {
    version: u8,
    id: SavepointId,
    transaction_id: TransactionId,
    user_root: Option<BtreeHeader>,
    db_address: usize,
    ephemeral: bool,
}

impl View for Savepoint {
    type V = SavepointModel;

    closed spec fn view(&self) -> SavepointModel {
        SavepointModel {
            version: self.version,
            id: self.id,
            transaction_id: self.transaction_id,
            user_root: self.user_root,
            db_address: self.db_address,
            ephemeral: self.ephemeral,
        }
    }
}

impl Savepoint {
    /// An ephemeral savepoint of the database at `db_address`, in format
    /// `version`.
    pub fn new_ephemeral(
        version: u8,
        db_address: usize,
        id: SavepointId,
        transaction_id: TransactionId,
        user_root: Option<BtreeHeader>,
    ) -> (s: Self)
        ensures
            s@ == (SavepointModel {
                version,
                id,
                transaction_id,
                user_root,
                db_address,
                ephemeral: true,
            }),
    {
        Savepoint { id, transaction_id, version, user_root, db_address, ephemeral: true }
    }

    pub fn get_version(&self) -> (v: u8)
        ensures
            v == self@.version,
    {
        self.version
    }

    pub fn get_id(&self) -> (id: SavepointId)
        ensures
            id == self@.id,
    {
        self.id
    }

    pub fn get_transaction_id(&self) -> (id: TransactionId)
        ensures
            id == self@.transaction_id,
    {
        self.transaction_id
    }

    pub fn get_user_root(&self) -> (r: Option<BtreeHeader>)
        ensures
            r == self@.user_root,
    {
        self.user_root
    }

    /// The address of the database this savepoint belongs to.
    pub fn db_address(&self) -> (a: usize)
        ensures
            a == self@.db_address,
    {
        self.db_address
    }

    /// Makes the savepoint persistent: releasing it no longer gives it back.
    pub fn set_persistent(&mut self)
        ensures
            final(self)@ == (SavepointModel { ephemeral: false, ..old(self)@ }),
    {
        self.ephemeral = false;
    }

    /// Releases the savepoint. An ephemeral one returns the savepoint id and
    /// transaction id that its database must deallocate; a persistent one
    /// returns nothing.
    pub fn release(self) -> (r: Option<(SavepointId, TransactionId)>)
        ensures
            r == if self@.ephemeral {
                Some((self@.id, self@.transaction_id))
            } else {
                None
            },
    {
        if self.ephemeral {
            Some((self.get_id(), self.get_transaction_id()))
        } else {
            None
        }
    }
}

/// The user root part of a serialized savepoint: a not-null byte and 32 bytes.
pub open spec fn user_root_bytes(root: Option<BtreeHeader>) -> Seq<u8> {
    match root {
        Some(h) => seq![1u8] + btree_header_bytes(h),
        None => seq![0u8] + zero_bytes(32),
    }
}

/// The bytes a savepoint is serialized as.
pub open spec fn savepoint_bytes(s: SavepointModel) -> Seq<u8> {
    seq![s.version] + spec_u64_to_le_bytes(s.id.0) + spec_u64_to_le_bytes(s.transaction_id.0)
        + user_root_bytes(s.user_root)
}

/// The bytes that can be read back as a savepoint: the exact length, the
/// current version, and a not-null byte of 0 or 1.
pub open spec fn savepoint_readable(data: Seq<u8>) -> bool {
    &&& data.len() == SAVEPOINT_SIZE
    &&& data[0] == FILE_FORMAT_VERSION3
    &&& data[17] <= 1
}

/// The persistent savepoint of the database at `db_address` that bytes describe.
pub open spec fn parse_savepoint(data: Seq<u8>, db_address: usize) -> SavepointModel {
    SavepointModel {
        version: data[0],
        id: SavepointId(spec_u64_from_le_bytes(data.subrange(1, 9))),
        transaction_id: TransactionId(spec_u64_from_le_bytes(data.subrange(9, 17))),
        user_root: if data[17] == 1 {
            Some(btree_header_from(data.subrange(18, 50)))
        } else {
            None
        },
        db_address,
        ephemeral: false,
    }
}

/// Reading back a serialized savepoint gives the same savepoint, now
/// persistent and tied to the database that reads it.
pub proof fn lemma_savepoint_roundtrip(s: SavepointModel, db_address: usize)
    requires
        s.version == FILE_FORMAT_VERSION3,
    ensures
        savepoint_readable(savepoint_bytes(s)),
        parse_savepoint(savepoint_bytes(s), db_address) == (SavepointModel {
            ephemeral: false,
            db_address,
            ..s
        }),
{
    lemma_auto_spec_u64_to_from_le_bytes();
    let v = seq![s.version];
    let a = spec_u64_to_le_bytes(s.id.0);
    let b = spec_u64_to_le_bytes(s.transaction_id.0);
    let r = user_root_bytes(s.user_root);
    let all = savepoint_bytes(s);
    match s.user_root {
        Some(h) => {
            lemma_btree_header_roundtrip(h);
            assert(r.subrange(1, 33) =~= btree_header_bytes(h));
        },
        None => {},
    }
    assert(r.len() == 33);
    assert(all.subrange(1, 9) =~= a);
    assert(all.subrange(9, 17) =~= b);
    assert(all.subrange(18, 50) =~= r.subrange(1, 33));
    assert(all[17] == r[0]);
}

/// A serialized savepoint: borrowed from a table, or built in memory.
pub enum SerializedSavepoint<'a> {
    Ref(&'a [u8]),
    Owned(Vec<u8>),
}

impl<'a> View for SerializedSavepoint<'a> {
    type V = Seq<u8>;

    open spec fn view(&self) -> Seq<u8> {
        match self {
            SerializedSavepoint::Ref(x) => x@,
            SerializedSavepoint::Owned(x) => x@,
        }
    }
}

/// Whether a stored type is one of the database's own or one of its users'.
#[derive(Clone, Copy, Debug, PartialEq, Eq, Structural)]
pub enum TypeClassification {
    Internal,
    UserDefined,
}

/// Name under which a stored type is recorded.
pub struct TypeName {
    pub classification: TypeClassification,
    pub name: String,
}

impl TypeName {
    /// The name of one of the database's own types.
    pub fn internal(name: &str) -> (t: Self)
        ensures
            t.classification == TypeClassification::Internal,
            t.name@ == name@,
    {
        TypeName { classification: TypeClassification::Internal, name: name.to_owned() }
    }
}

impl<'a> SerializedSavepoint<'a> {
    /// Serializes a savepoint of the current format.
    pub fn from_savepoint(savepoint: &Savepoint) -> (r: Self)
        requires
            savepoint@.version == FILE_FORMAT_VERSION3,
        ensures
            r is Owned,
            r@ == savepoint_bytes(savepoint@),
    {
        let mut result: Vec<u8> = Vec::new();
        result.push(savepoint.get_version());
        let mut id_bytes = u64_to_le_bytes(savepoint.get_id().0);
        result.append(&mut id_bytes);
        let mut txn_bytes = u64_to_le_bytes(savepoint.get_transaction_id().raw_id());
        result.append(&mut txn_bytes);
        match savepoint.get_user_root() {
            Some(header) => {
                result.push(1u8);
                header.write_le_bytes(&mut result);
            },
            None => {
                result.push(0u8);
                push_zeros(&mut result, BTREE_HEADER_SIZE);
            },
        }
        proof {
            assert(result@ =~= savepoint_bytes(savepoint@));
        }
        SerializedSavepoint::Owned(result)
    }

    /// The serialized bytes.
    pub fn data(&self) -> (d: &[u8])
        ensures
            d@ == self@,
    {
        match self {
            SerializedSavepoint::Ref(x) => x,
            SerializedSavepoint::Owned(x) => x.as_slice(),
        }
    }

    /// Reads the savepoint back, as a persistent savepoint of the database at
    /// `db_address`.
    pub fn to_savepoint(&self, db_address: usize) -> (s: Savepoint)
        requires
            savepoint_readable(self@),
        ensures
            s@ == parse_savepoint(self@, db_address),
    {
        let data = self.data();
        let version = data[0];
        let id = get_u64(slice_subrange(data, 1, 9));
        let transaction_id = get_u64(slice_subrange(data, 9, 17));
        proof {
            assert(data@.subrange(1, 9).subrange(0, 8) =~= data@.subrange(1, 9));
            assert(data@.subrange(9, 17).subrange(0, 8) =~= data@.subrange(9, 17));
        }
        let not_null = data[17];
        let user_root = if not_null == 1 {
            Some(BtreeHeader::from_le_bytes(slice_subrange(data, 18, 18 + BTREE_HEADER_SIZE)))
        } else {
            None
        };
        Savepoint {
            version,
            id: SavepointId(id),
            transaction_id: TransactionId::new(transaction_id),
            user_root,
            db_address,
            ephemeral: false,
        }
    }

    /// Serialized savepoints have no fixed width.
    pub fn fixed_width() -> (w: Option<usize>)
        ensures
            w is None,
    {
        None
    }

    /// The serialized savepoint stored in `data`.
    pub fn from_bytes(data: &'a [u8]) -> (r: SerializedSavepoint<'a>)
        ensures
            r is Ref,
            r@ == data@,
    {
        SerializedSavepoint::Ref(data)
    }

    /// The bytes to store for a serialized savepoint.
    pub fn as_bytes<'b>(value: &'b SerializedSavepoint<'a>) -> (d: &'b [u8])
        ensures
            d@ == value@,
    {
        value.data()
    }

    /// The name serialized savepoints are stored under.
    pub fn value_type_name() -> (t: TypeName)
        ensures
            t.classification == TypeClassification::Internal,
            t.name@ == "redb::SerializedSavepoint"@,
    {
        TypeName::internal("redb::SerializedSavepoint")
    }
}


/// The bytes of a serialized savepoint, field by field: the version, the
/// savepoint id and transaction id in little-endian order, a not-null byte,
/// and the user root as its page, checksum and length in little-endian order
/// (zeros when there is none).
pub proof fn lemma_savepoint_layout(s: SavepointModel)
    ensures
        ({
            let b = savepoint_bytes(s);
            &&& b.len() == SAVEPOINT_SIZE
            &&& b[0] == s.version
            &&& b.subrange(1, 9) == spec_u64_to_le_bytes(s.id.0)
            &&& b.subrange(9, 17) == spec_u64_to_le_bytes(s.transaction_id.0)
            &&& b[17] == (if s.user_root is Some {
                1u8
            } else {
                0u8
            })
            &&& (s.user_root matches Some(r) ==> {
                &&& b.subrange(18, 26) == spec_u64_to_le_bytes(r.root)
                &&& b.subrange(26, 42) == spec_u128_to_le_bytes(r.checksum)
                &&& b.subrange(42, 50) == spec_u64_to_le_bytes(r.length)
            })
            &&& (s.user_root is None ==> forall|j: int| 18 <= j < 50 ==> b[j] == 0)
        }),
{
    lemma_auto_spec_u64_to_from_le_bytes();
    lemma_auto_spec_u128_to_from_le_bytes();
    let v = seq![s.version];
    let a = spec_u64_to_le_bytes(s.id.0);
    let t = spec_u64_to_le_bytes(s.transaction_id.0);
    let r = user_root_bytes(s.user_root);
    let b = savepoint_bytes(s);
    match s.user_root {
        Some(h) => {
            lemma_btree_header_roundtrip(h);
        },
        None => {},
    }
    assert(r.len() == 33);
    assert(b.subrange(1, 9) =~= a);
    assert(b.subrange(9, 17) =~= t);
    assert(b[17] == r[0]);
    if let Some(h) = s.user_root {
        let hb = btree_header_bytes(h);
        assert(b.subrange(18, 26) =~= hb.subrange(0, 8));
        assert(b.subrange(26, 42) =~= hb.subrange(8, 24));
        assert(b.subrange(42, 50) =~= hb.subrange(24, 32));
        assert(hb.subrange(0, 8) =~= spec_u64_to_le_bytes(h.root));
        assert(hb.subrange(8, 24) =~= spec_u128_to_le_bytes(h.checksum));
        assert(hb.subrange(24, 32) =~= spec_u64_to_le_bytes(h.length));
    } else {
        assert forall|j: int| 18 <= j < 50 implies b[j] == 0 by {
            assert(b[j] == r[j - 17]);
        }
    }
}

/// What serialized savepoint bytes are read as, field by field: ids in
/// little-endian order, and a user root exactly when the not-null byte is 1,
/// read as its page, checksum and length in little-endian order.
pub proof fn lemma_savepoint_read(data: Seq<u8>, db_address: usize)
    requires
        savepoint_readable(data),
    ensures
        ({
            let s = parse_savepoint(data, db_address);
            &&& s.version == data[0]
            &&& s.id.0 == spec_u64_from_le_bytes(data.subrange(1, 9))
            &&& s.transaction_id.0 == spec_u64_from_le_bytes(data.subrange(9, 17))
            &&& s.user_root == if data[17] == 1 {
                Some(
                    BtreeHeader {
                        root: spec_u64_from_le_bytes(data.subrange(18, 26)),
                        checksum: spec_u128_from_le_bytes(data.subrange(26, 42)),
                        length: spec_u64_from_le_bytes(data.subrange(42, 50)),
                    },
                )
            } else {
                None
            }
            &&& s.db_address == db_address
            &&& !s.ephemeral
        }),
{
    assert(data.subrange(18, 50).subrange(0, 8) =~= data.subrange(18, 26));
    assert(data.subrange(18, 50).subrange(8, 24) =~= data.subrange(26, 42));
    assert(data.subrange(18, 50).subrange(24, 32) =~= data.subrange(42, 50));
}

} // verus!
