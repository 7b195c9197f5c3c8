//! A content-addressed blob store: payloads are keyed by a truncated
//! SHA-256 identifier, stored together with their filename and content
//! type, and served back by identifier or through a recent-uploads
//! listing.

pub mod crypto;
pub mod errors;
pub mod repo;
pub mod retrieval;
pub mod upload;
