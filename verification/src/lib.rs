//! Verified core of a prose-checking pipeline for structured documents:
//! a position tracker that converts character advances into line/column
//! coordinates, a segmenter that groups checkable text into bounded chunks,
//! a mapper that translates checker match offsets back into document
//! positions with quick-fix edits, and a per-document diagnostics store.

pub mod coordinator;
pub mod mapper;
pub mod position;
pub mod segment;
pub mod store;
