//! An append-only, log-structured key-value store.
//!
//! Each segment is a byte log of records; its index (key to offset of the
//! key's latest record) is rebuilt by scanning the log. The verified core
//! works on the log's bytes; reading and writing the files around it is left
//! to the caller.

pub mod codec;
pub mod error;
pub mod index;
pub mod laws;
pub mod scan;
pub mod segment;
pub mod segment_id;
pub mod store;

pub use codec::{append_deletion, append_string, parse_u64_bytes, read_check_string, read_string_at_offset, read_u64_bytes};
pub use error::{DeleteError, GetError, InsertError, ReadError, SegmentError, SegmentIDError, SunsetDBError};
pub use index::{Index, IndexEntry};
pub use segment::Segment;
pub use segment_id::SegmentID;
pub use store::SunsetDB;
