//! Decoder for the on-disk layout of a single-file paged database.
//!
//! A database file is a sequence of fixed-size pages. Page 1 starts with a
//! 100-byte file header; every page holds a b-tree page header, a cell pointer
//! array and cells, and each table-leaf cell carries a record whose columns are
//! described by serial types. Every decoder here is a pure function over bytes
//! already in memory.
pub mod btree;
pub mod bytes;
pub mod error;
pub mod header;
pub mod record;
pub mod varint;
