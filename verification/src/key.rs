//! The byte layout of a composite key.
//!
//! | offset | length   | content                     |
//! |--------|----------|-----------------------------|
//! | 0      | 2        | field id, big-endian        |
//! | 2      | 4        | document id, big-endian     |
//! | 6      | the rest | the encoded value, as it is |
//!
//! The value carries no length prefix: it runs to the end of the key.

use crate::big_endian::{
    be_bytes, be_limit, be_value, lemma_be_bytes_len, lemma_be_bytes_of_be_value,
    lemma_be_value_bound, lemma_be_value_of_be_bytes, read_be, write_be,
};
use crate::error::SliceTooShortError;
use vstd::prelude::*;

verus! {

/// Identifies a field of the schema.
pub type FieldId = u16;

/// Identifies a document.
pub type DocumentId = u32;

/// The number of bytes that the field id takes in a key.
pub const FIELD_ID_SIZE: usize = 2;

/// The number of bytes that the document id takes in a key.
pub const DOCUMENT_ID_SIZE: usize = 4;

/// The number of bytes in front of the value: both ids together.
pub const PREFIX_SIZE: usize = 6;

/// The key for a field id, a document id and the bytes of an encoded value.
pub open spec fn key_bytes(
    field_id: FieldId,
    document_id: DocumentId,
    value_bytes: Seq<u8>,
) -> Seq<u8> {
    be_bytes(field_id as nat, 2) + be_bytes(document_id as nat, 4) + value_bytes
}

/// The field id, the document id and the value bytes that `bytes` holds, or
/// `None` where `bytes` is too short to hold both ids.
pub open spec fn key_parts(bytes: Seq<u8>) -> Option<(FieldId, DocumentId, Seq<u8>)> {
    if bytes.len() < 6 {
        None
    } else {
        Some(
            (
                be_value(bytes.subrange(0, 2)) as FieldId,
                be_value(bytes.subrange(2, 6)) as DocumentId,
                bytes.skip(6),
            ),
        )
    }
}

/// A key is six bytes longer than its value.
pub proof fn lemma_key_bytes_len(field_id: FieldId, document_id: DocumentId, value_bytes: Seq<u8>)
    ensures
        key_bytes(field_id, document_id, value_bytes).len() == 6 + value_bytes.len(),
{
    lemma_be_bytes_len(field_id as nat, 2);
    lemma_be_bytes_len(document_id as nat, 4);
}

/// Taking a key apart gives back the field id, the document id and the
/// value bytes that it was made of.
pub proof fn lemma_key_parts_of_key_bytes(
    field_id: FieldId,
    document_id: DocumentId,
    value_bytes: Seq<u8>,
)
    ensures
        key_parts(key_bytes(field_id, document_id, value_bytes)) == Some(
            (field_id, document_id, value_bytes),
        ),
{
    let key = key_bytes(field_id, document_id, value_bytes);
    lemma_be_bytes_len(field_id as nat, 2);
    lemma_be_bytes_len(document_id as nat, 4);
    lemma_be_value_of_be_bytes(field_id as nat, 2);
    lemma_be_value_of_be_bytes(document_id as nat, 4);
    reveal_with_fuel(be_limit, 5);
    assert(key.subrange(0, 2) == be_bytes(field_id as nat, 2));
    assert(key.subrange(2, 6) == be_bytes(document_id as nat, 4));
    assert(be_limit(2) == 65536 && be_limit(4) == 4294967296);
}

/// Every byte string of six bytes or more is the key of the parts that it
/// holds, and of no others.
pub proof fn lemma_key_bytes_of_key_parts(bytes: Seq<u8>)
    requires
        bytes.len() >= 6,
    ensures
        key_parts(bytes) matches Some((field_id, document_id, value_bytes)) && key_bytes(
            field_id,
            document_id,
            value_bytes,
        ) == bytes,
{
    let field_bytes = bytes.subrange(0, 2);
    let document_bytes = bytes.subrange(2, 6);
    lemma_be_value_bound(field_bytes);
    lemma_be_value_bound(document_bytes);
    lemma_be_bytes_of_be_value(field_bytes);
    lemma_be_bytes_of_be_value(document_bytes);
    reveal_with_fuel(be_limit, 5);
}

/// Builds the key for a field id, a document id and an encoded value.
pub fn encode_key(field_id: FieldId, document_id: DocumentId, value_bytes: &[u8]) -> (key: Vec<u8>)
    ensures
        key@ == key_bytes(field_id, document_id, value_bytes@),
        key@.len() == 6 + value_bytes@.len(),
{
    let mut key: Vec<u8> = Vec::with_capacity(32);
    write_be(&mut key, field_id as u64, FIELD_ID_SIZE);
    write_be(&mut key, document_id as u64, DOCUMENT_ID_SIZE);
    key.extend_from_slice(value_bytes);
    proof {
        lemma_key_bytes_len(field_id, document_id, value_bytes@);
    }
    key
}

/// Takes a key apart: reads the field id, then the document id, and returns
/// them with the value bytes that follow.
pub fn decode_key(bytes: &[u8]) -> (r: Result<
    (FieldId, DocumentId, &[u8]),
    SliceTooShortError,
>)
    ensures
        r is Err <==> bytes@.len() < 6,
        match r {
            Ok((field_id, document_id, value_bytes)) => key_parts(bytes@) == Some(
                (field_id, document_id, value_bytes@),
            ),
            Err(_) => key_parts(bytes@) is None,
        },
{
    let (field_id, after_field_id) = match read_be(bytes, FIELD_ID_SIZE) {
        Ok(read) => read,
        Err(error) => {
            return Err(error);
        },
    };
    let (document_id, value_bytes) = match read_be(after_field_id, DOCUMENT_ID_SIZE) {
        Ok(read) => read,
        Err(error) => {
            return Err(error);
        },
    };
    proof {
        reveal_with_fuel(be_limit, 5);
        assert(field_id <= FieldId::MAX && document_id <= DocumentId::MAX);
        assert(after_field_id@.take(4) == bytes@.subrange(2, 6));
    }
    Ok((field_id as FieldId, document_id as DocumentId, value_bytes))
}

} // verus!
