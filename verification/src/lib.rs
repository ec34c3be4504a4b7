//! Content identifiers: a versioned `{version, size, hash}` record and its
//! order-preserving Base64 text form.
//!
//! # Memory Representation
//!
//! | Component | Offset | Size | Description
//! | :-------- | :----- | :--- | :----------
//! | Version   | 0      | 1    | ID version number; currently only 0
//! | Body      | 1      | _n_  | ID value
//!
//! The body is laid down by the version: see [`OcidV0`].
//!
//! # Base64 Encoding
//!
//! Identifiers are shown as text in a Base64 encoding whose alphabet is safe
//! in URLs and file paths, and whose characters are ordered by their ASCII
//! value. Identifiers therefore sort the same way as raw bytes and as text.

pub mod base64;
pub mod bytes;
pub mod digest;
pub mod envelope;
pub mod order;
pub mod text;
pub mod v0;

pub use envelope::Ocid;
pub use v0::OcidV0;
