//! A reader for the SQLite database file format.
//!
//! A database file is a sequence of fixed-size pages. The first hundred bytes
//! of the first page hold the [`Header`]; every page of a small database is a
//! table leaf ([`TableLeaf`]) whose cells ([`TableLeafCell`]) each carry one
//! row as a [`Record`] of ([`SerialType`], [`SerialValue`]) pairs.
//!
//! Every decoder works on the bytes of the whole file and an absolute offset
//! into them, and its contract states the decoded value as a function of
//! those bytes.

pub mod database;
pub mod error;
pub mod header;
pub mod page;
pub mod record;
pub mod serial;
pub mod varint;
pub mod wire;

pub use database::Database;
pub use error::DecodeError;
pub use header::Header;
pub use page::{BTreePageHeader, Page, PageType, TableLeaf, TableLeafCell};
pub use record::Record;
pub use serial::{SerialType, SerialValue};
pub use varint::VarInt;
