//! Composite sort keys for a facet index kept in an ordered key-value store.
//!
//! A key is the big-endian field id (2 bytes), the big-endian document id
//! (4 bytes) and then the bytes of the facet value, whose encoding belongs to
//! a value codec that the caller plugs in. Byte-wise comparison of two keys
//! orders them by field id, then by document id, then by value bytes.

pub mod big_endian;
pub mod codec;
pub mod error;
pub mod key;
pub mod order;

pub use codec::{Decoder, Encoder, FieldDocIdFacetCodec};
pub use error::{KeyError, SliceTooShortError};
pub use key::{DocumentId, FieldId};
