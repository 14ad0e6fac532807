//! Verified core of a portable media catalog: root status bookkeeping,
//! mount-table parsing and root relocation, scan bookkeeping, content
//! fingerprint planning and small text encodings.

pub mod text;
pub mod models;
pub mod volume;
pub mod paths;
pub mod fingerprint;
pub mod metadata;
pub mod scanner;
pub mod media;
