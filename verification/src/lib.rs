//! On-disk formats of a page store (database header, commit slots,
//! savepoints) and a small column-store query engine, with their contracts.

pub mod btree_header;
pub mod bytes;
pub mod checksum;
pub mod ids;
pub mod error;
pub mod layout;
pub mod header;
pub mod savepoint;
pub mod columns;
pub mod queries;
