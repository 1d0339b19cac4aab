//! The composite key codec and the value codecs that plug into it.

use crate::error::KeyError;
use crate::key::{
    decode_key, encode_key, key_bytes, key_parts, lemma_key_parts_of_key_bytes, DocumentId,
    FieldId,
};
use std::marker::PhantomData;
use vstd::prelude::*;

verus! {

/// Turns items into bytes.
///
/// The two relations say what an implementation may return. They are what
/// callers of `bytes_encode` learn about its result; an implementation that
/// leaves them as they are promises nothing.
pub trait Encoder<'a> {
    /// What is encoded.
    type Item: 'a;

    /// Why an item may be refused.
    type Error;

    /// Whether `bytes_encode` may return `bytes` for `item`.
    open spec fn encodes(item: Self::Item, bytes: Seq<u8>) -> bool {
        true
    }

    /// Whether `bytes_encode` may fail with `error` on `item`.
    open spec fn encode_fails(item: Self::Item, error: Self::Error) -> bool {
        true
    }

    /// Encodes `item`.
    fn bytes_encode(item: &'a Self::Item) -> (r: Result<Vec<u8>, Self::Error>)
        ensures
            match r {
                Ok(bytes) => Self::encodes(*item, bytes@),
                Err(error) => Self::encode_fails(*item, error),
            },
    ;
}

/// Turns bytes back into items, which may borrow from the bytes.
///
/// The two relations say what an implementation may return. They are what
/// callers of `bytes_decode` learn about its result; an implementation that
/// leaves them as they are promises nothing.
pub trait Decoder<'a> {
    /// What is decoded.
    type Item: 'a;

    /// Why bytes may be rejected.
    type Error;

    /// Whether `bytes_decode` may return `item` for `bytes`.
    open spec fn decodes(bytes: Seq<u8>, item: Self::Item) -> bool {
        true
    }

    /// Whether `bytes_decode` may fail with `error` on `bytes`.
    open spec fn decode_fails(bytes: Seq<u8>, error: Self::Error) -> bool {
        true
    }

    /// Decodes `bytes`.
    fn bytes_decode(bytes: &'a [u8]) -> (r: Result<Self::Item, Self::Error>)
        ensures
            match r {
                Ok(item) => Self::decodes(bytes@, item),
                Err(error) => Self::decode_fails(bytes@, error),
            },
    ;
}

/// The codec of composite keys: a field id, a document id and a value, whose
/// own encoding is that of the value codec `C`.
pub struct FieldDocIdFacetCodec<C>(PhantomData<C>);

impl<'a, C: Encoder<'a>> Encoder<'a> for FieldDocIdFacetCodec<C> {
    type Item = (FieldId, DocumentId, C::Item);

    type Error = KeyError<C::Error>;

    /// `bytes` is the key of the two ids and of bytes that `C` may return
    /// for the value.
    open spec fn encodes(item: Self::Item, bytes: Seq<u8>) -> bool {
        &&& bytes == key_bytes(item.0, item.1, bytes.skip(6))
        &&& C::encodes(item.2, bytes.skip(6))
    }

    /// Encoding fails only where `C` fails on the value, and with its error.
    open spec fn encode_fails(item: Self::Item, error: Self::Error) -> bool {
        error matches KeyError::ValueEncoding(value_error) && C::encode_fails(item.2, value_error)
    }

    /// Encodes the value with `C` and puts the two ids in front of it.
    fn bytes_encode(item: &'a Self::Item) -> (r: Result<Vec<u8>, Self::Error>)
        ensures
            match r {
                Ok(key) => {
                    let value_bytes = key@.skip(6);
                    &&& C::encodes(item.2, value_bytes)
                    &&& key@ == key_bytes(item.0, item.1, value_bytes)
                    &&& key@.len() == 6 + value_bytes.len()
                },
                Err(KeyError::ValueEncoding(value_error)) => C::encode_fails(item.2, value_error),
                Err(_) => false,
            },
    {
        let encoded = C::bytes_encode(&item.2);
        proof {
            if encoded is Ok {
                lemma_key_parts_of_key_bytes(item.0, item.1, encoded->Ok_0@);
            }
        }
        key_of_encoded(item.0, item.1, encoded)
    }
}

impl<'a, C: Decoder<'a>> Decoder<'a> for FieldDocIdFacetCodec<C> {
    type Item = (FieldId, DocumentId, C::Item);

    type Error = KeyError<C::Error>;

    /// `bytes` holds the two ids, and `C` may return the value for the bytes
    /// after them.
    open spec fn decodes(bytes: Seq<u8>, item: Self::Item) -> bool {
        &&& key_parts(bytes) matches Some((field_id, document_id, value_bytes))
        &&& item.0 == field_id
        &&& item.1 == document_id
        &&& C::decodes(value_bytes, item.2)
    }

    /// Decoding fails where `bytes` is too short to hold the two ids, and
    /// else only where `C` fails on the bytes after them, with its error.
    open spec fn decode_fails(bytes: Seq<u8>, error: Self::Error) -> bool {
        match error {
            KeyError::TruncatedInput => bytes.len() < 6,
            KeyError::ValueDecoding(value_error) => bytes.len() >= 6 && C::decode_fails(
                bytes.skip(6),
                value_error,
            ),
            KeyError::ValueEncoding(_) => false,
        }
    }

    /// Reads the two ids and decodes the bytes after them with `C`.
    fn bytes_decode(bytes: &'a [u8]) -> (r: Result<Self::Item, Self::Error>)
        ensures
            bytes@.len() < 6 ==> r matches Err(KeyError::TruncatedInput),
            bytes@.len() >= 6 ==> match r {
                Ok(item) => {
                    &&& key_parts(bytes@) == Some((item.0, item.1, bytes@.skip(6)))
                    &&& C::decodes(bytes@.skip(6), item.2)
                },
                Err(KeyError::ValueDecoding(value_error)) => C::decode_fails(
                    bytes@.skip(6),
                    value_error,
                ),
                Err(_) => false,
            },
    {
        match decode_key(bytes) {
            Ok((field_id, document_id, value_bytes)) => item_of_decoded(
                field_id,
                document_id,
                C::bytes_decode(value_bytes),
            ),
            Err(_) => Err(KeyError::TruncatedInput),
        }
    }
}

/// Finishes an encoding with what the value encoder returned: puts the two
/// ids in front of the encoded value, or passes the value encoder's error on.
pub fn key_of_encoded<E>(
    field_id: FieldId,
    document_id: DocumentId,
    encoded: Result<Vec<u8>, E>,
) -> (r: Result<Vec<u8>, KeyError<E>>)
    ensures
        match encoded {
            Ok(value_bytes) => r matches Ok(key) && key@ == key_bytes(
                field_id,
                document_id,
                value_bytes@,
            ),
            Err(value_error) => r == Err::<Vec<u8>, _>(KeyError::ValueEncoding(value_error)),
        },
{
    match encoded {
        Ok(value_bytes) => Ok(encode_key(field_id, document_id, value_bytes.as_slice())),
        Err(value_error) => Err(KeyError::ValueEncoding(value_error)),
    }
}

/// Finishes a decoding with what the value decoder returned for the bytes
/// behind the two ids: joins the ids and the decoded value, or passes the
/// value decoder's error on.
pub fn item_of_decoded<V, E>(
    field_id: FieldId,
    document_id: DocumentId,
    decoded: Result<V, E>,
) -> (r: Result<(FieldId, DocumentId, V), KeyError<E>>)
    ensures
        r == match decoded {
            Ok(value) => Ok((field_id, document_id, value)),
            Err(value_error) => Err(KeyError::ValueDecoding(value_error)),
        },
{
    match decoded {
        Ok(value) => Ok((field_id, document_id, value)),
        Err(value_error) => Err(KeyError::ValueDecoding(value_error)),
    }
}

/// What decoding makes of an encoded key: it finds both ids, the ones that
/// were encoded, and hands the value decoder exactly the bytes that the
/// value encoder returned. So it fails only where the value decoder fails
/// on those bytes, and never for want of bytes.
pub proof fn lemma_decoding_encoded<'a, E: Encoder<'a>, D: Decoder<'a>>(
    item: (FieldId, DocumentId, E::Item),
    key: Seq<u8>,
)
    requires
        FieldDocIdFacetCodec::<E>::encodes(item, key),
    ensures
        E::encodes(item.2, key.skip(6)),
        forall|decoded: (FieldId, DocumentId, D::Item)| #[trigger]
            FieldDocIdFacetCodec::<D>::decodes(key, decoded) <==> {
                &&& decoded.0 == item.0
                &&& decoded.1 == item.1
                &&& D::decodes(key.skip(6), decoded.2)
            },
        forall|error: KeyError<D::Error>| #[trigger]
            FieldDocIdFacetCodec::<D>::decode_fails(key, error) <==> {
                &&& error matches KeyError::ValueDecoding(value_error)
                &&& D::decode_fails(key.skip(6), value_error)
            },
{
    lemma_key_parts_of_key_bytes(item.0, item.1, key.skip(6));
}

/// Whether `D` undoes `E` on `item`: on all bytes that `E` may return for
/// `item`, `D` does not fail and returns nothing but `item`.
pub open spec fn round_trips<'a, E: Encoder<'a>, D: Decoder<'a, Item = E::Item>>(
    item: E::Item,
) -> bool {
    forall|bytes: Seq<u8>| #[trigger]
        E::encodes(item, bytes) ==> {
            &&& forall|decoded: D::Item| #[trigger] D::decodes(bytes, decoded) ==> decoded == item
            &&& forall|error: D::Error| !#[trigger] D::decode_fails(bytes, error)
        }
}

/// Decoding an encoded key gives back the field id, the document id and the
/// value, for every value that the value codec itself gives back.
pub proof fn lemma_round_trip<'a, E: Encoder<'a>, D: Decoder<'a, Item = E::Item>>(
    field_id: FieldId,
    document_id: DocumentId,
    value: E::Item,
)
    requires
        round_trips::<E, D>(value),
    ensures
        round_trips::<FieldDocIdFacetCodec<E>, FieldDocIdFacetCodec<D>>(
            (field_id, document_id, value),
        ),
{
    let item = (field_id, document_id, value);
    assert forall|key: Seq<u8>| #[trigger]
        FieldDocIdFacetCodec::<E>::encodes(item, key) implies {
        &&& forall|decoded: (FieldId, DocumentId, D::Item)| #[trigger]
            FieldDocIdFacetCodec::<D>::decodes(key, decoded) ==> decoded == item
        &&& forall|error: KeyError<D::Error>| !#[trigger]
            FieldDocIdFacetCodec::<D>::decode_fails(key, error)
    } by {
        lemma_decoding_encoded::<E, D>(item, key);
    }
}

} // verus!
