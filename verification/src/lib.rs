//! A personal file vault: streaming uploads with a trailing-checksum
//! protocol, and a namespace-scoped, attribute-indexed file catalog.
//!
//! The storage and transport layers live outside this crate; what is here is
//! the logic they drive: the trailer buffer and stream ingestor, the record
//! resolver for uploads, the attribute indexer with reference-counted
//! cleanup, and the catalog search.
pub mod attribute;
pub mod attribute_actions;
pub mod associations;
pub mod catalog;
pub mod checksum;
pub mod file;
pub mod file_action;
pub mod ingest;
pub mod list_file;
pub mod namespace;
pub mod namespace_actions;
pub mod preview;
pub mod requests;
pub mod response;
pub mod response_code;
pub mod text;
pub mod trailer;
pub mod upload;
pub mod user;
pub mod utils;
