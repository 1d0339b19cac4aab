//! How keys compare byte by byte, which is how the store sorts them.

use crate::big_endian::{be_bytes, be_limit, lemma_be_bytes_len};
use crate::codec::{Encoder, FieldDocIdFacetCodec};
use crate::key::{key_bytes, DocumentId, FieldId};
use vstd::prelude::*;

verus! {

/// `a` and `b` agree on their first `at` bytes, and there `a` ends while `b`
/// goes on, or `a` holds the smaller byte.
pub open spec fn precedes_at(a: Seq<u8>, b: Seq<u8>, at: int) -> bool {
    &&& 0 <= at <= a.len()
    &&& at < b.len()
    &&& a.take(at) == b.take(at)
    &&& at < a.len() ==> a[at] < b[at]
}

/// `a` comes before `b` in byte-wise unsigned lexicographic order.
pub open spec fn lex_lt(a: Seq<u8>, b: Seq<u8>) -> bool {
    exists|at: int| precedes_at(a, b, at)
}

/// No two byte strings come before each other.
pub proof fn lemma_lex_lt_asymmetric(a: Seq<u8>, b: Seq<u8>)
    requires
        lex_lt(a, b),
    ensures
        !lex_lt(b, a),
{
    let i = choose|at: int| precedes_at(a, b, at);
    if lex_lt(b, a) {
        let j = choose|at: int| precedes_at(b, a, at);
        if i < j {
            assert(b.take(j)[i] == a.take(j)[i]);
        } else if j < i {
            assert(a.take(i)[j] == b.take(i)[j]);
        }
    }
}

/// A difference inside two strings decides between all their extensions.
pub proof fn lemma_lex_lt_extends(a: Seq<u8>, b: Seq<u8>, at: int, a_rest: Seq<u8>, b_rest: Seq<u8>)
    requires
        precedes_at(a, b, at),
        at < a.len(),
    ensures
        lex_lt(a + a_rest, b + b_rest),
{
    assert((a + a_rest).take(at) == a.take(at));
    assert((b + b_rest).take(at) == b.take(at));
    assert(precedes_at(a + a_rest, b + b_rest, at));
}

/// Behind a common front, the rests decide.
pub proof fn lemma_lex_lt_behind_prefix(prefix: Seq<u8>, a: Seq<u8>, b: Seq<u8>)
    ensures
        lex_lt(prefix + a, prefix + b) <==> lex_lt(a, b),
{
    let n = prefix.len() as int;
    if lex_lt(a, b) {
        let at = choose|at: int| precedes_at(a, b, at);
        assert((prefix + a).take(n + at) == prefix + a.take(at));
        assert((prefix + b).take(n + at) == prefix + b.take(at));
        assert(precedes_at(prefix + a, prefix + b, n + at));
    }
    if lex_lt(prefix + a, prefix + b) {
        let at = choose|at: int| precedes_at(prefix + a, prefix + b, at);
        if at >= n {
            assert forall|k: int| 0 <= k < at - n implies a[k] == b[k] by {
                assert((prefix + a).take(at)[n + k] == (prefix + b).take(at)[n + k]);
            }
            assert(a.take(at - n) == b.take(at - n));
            assert(precedes_at(a, b, at - n));
        }
    }
}

/// Of two numbers written with the same width, the smaller one comes first:
/// the result is the position at which their bytes first differ.
pub proof fn lemma_be_bytes_order(a: nat, b: nat, width: nat) -> (at: int)
    requires
        a < b < be_limit(width),
    ensures
        at < width,
        precedes_at(be_bytes(a, width), be_bytes(b, width), at),
    decreases width,
{
    let shorter = (width - 1) as nat;
    lemma_be_bytes_len(a / 256, shorter);
    if a / 256 < b / 256 {
        let at = lemma_be_bytes_order(a / 256, b / 256, shorter);
        assert(be_bytes(a, width).take(at) == be_bytes(a / 256, shorter).take(at));
        assert(be_bytes(b, width).take(at) == be_bytes(b / 256, shorter).take(at));
        at
    } else {
        assert(be_bytes(a, width).take(shorter as int) == be_bytes(a / 256, shorter));
        assert(be_bytes(b, width).take(shorter as int) == be_bytes(b / 256, shorter));
        shorter as int
    }
}

/// The store's order on keys is the order on field ids, then on document
/// ids, then on value bytes.
pub proof fn lemma_key_order(
    field_id_a: FieldId,
    document_id_a: DocumentId,
    value_bytes_a: Seq<u8>,
    field_id_b: FieldId,
    document_id_b: DocumentId,
    value_bytes_b: Seq<u8>,
)
    ensures
        lex_lt(
            key_bytes(field_id_a, document_id_a, value_bytes_a),
            key_bytes(field_id_b, document_id_b, value_bytes_b),
        ) <==> {
            ||| field_id_a < field_id_b
            ||| field_id_a == field_id_b && document_id_a < document_id_b
            ||| field_id_a == field_id_b && document_id_a == document_id_b && lex_lt(
                value_bytes_a,
                value_bytes_b,
            )
        },
{
    let key_a = key_bytes(field_id_a, document_id_a, value_bytes_a);
    let key_b = key_bytes(field_id_b, document_id_b, value_bytes_b);
    let ids_first = field_id_a < field_id_b || (field_id_a == field_id_b && document_id_a
        < document_id_b);
    let ids_last = field_id_b < field_id_a || (field_id_a == field_id_b && document_id_b
        < document_id_a);
    if ids_first {
        lemma_key_order_by_ids(
            field_id_a,
            document_id_a,
            value_bytes_a,
            field_id_b,
            document_id_b,
            value_bytes_b,
        );
    } else if ids_last {
        lemma_key_order_by_ids(
            field_id_b,
            document_id_b,
            value_bytes_b,
            field_id_a,
            document_id_a,
            value_bytes_a,
        );
        lemma_lex_lt_asymmetric(key_b, key_a);
    } else {
        lemma_lex_lt_behind_prefix(
            be_bytes(field_id_a as nat, 2) + be_bytes(document_id_a as nat, 4),
            value_bytes_a,
            value_bytes_b,
        );
    }
}

/// A key with a smaller field id comes first, whatever else the two keys
/// hold; with equal field ids, the key with the smaller document id does.
pub proof fn lemma_key_order_by_ids(
    field_id_a: FieldId,
    document_id_a: DocumentId,
    value_bytes_a: Seq<u8>,
    field_id_b: FieldId,
    document_id_b: DocumentId,
    value_bytes_b: Seq<u8>,
)
    requires
        field_id_a < field_id_b || (field_id_a == field_id_b && document_id_a < document_id_b),
    ensures
        lex_lt(
            key_bytes(field_id_a, document_id_a, value_bytes_a),
            key_bytes(field_id_b, document_id_b, value_bytes_b),
        ),
{
    let field_a = be_bytes(field_id_a as nat, 2);
    let field_b = be_bytes(field_id_b as nat, 2);
    let document_a = be_bytes(document_id_a as nat, 4);
    let document_b = be_bytes(document_id_b as nat, 4);
    reveal_with_fuel(be_limit, 5);
    lemma_be_bytes_len(field_id_a as nat, 2);
    lemma_be_bytes_len(document_id_a as nat, 4);
    if field_id_a < field_id_b {
        let at = lemma_be_bytes_order(field_id_a as nat, field_id_b as nat, 2);
        lemma_lex_lt_extends(
            field_a,
            field_b,
            at,
            document_a + value_bytes_a,
            document_b + value_bytes_b,
        );
        assert(field_a + (document_a + value_bytes_a) == field_a + document_a + value_bytes_a);
        assert(field_b + (document_b + value_bytes_b) == field_b + document_b + value_bytes_b);
    } else {
        let at = lemma_be_bytes_order(document_id_a as nat, document_id_b as nat, 4);
        lemma_lex_lt_extends(document_a, document_b, at, value_bytes_a, value_bytes_b);
        lemma_lex_lt_behind_prefix(
            field_a,
            document_a + value_bytes_a,
            document_b + value_bytes_b,
        );
        assert(field_a + (document_a + value_bytes_a) == field_a + document_a + value_bytes_a);
        assert(field_a + (document_b + value_bytes_b) == field_a + document_b + value_bytes_b);
    }
}

/// Encoding keeps the order of the ids: of two encoded keys, the one with
/// the smaller field id comes first in the store, and with equal field ids
/// the one with the smaller document id, whatever their values are.
pub proof fn lemma_encoding_preserves_order<'a, C: Encoder<'a>>(
    item_a: (FieldId, DocumentId, C::Item),
    key_a: Seq<u8>,
    item_b: (FieldId, DocumentId, C::Item),
    key_b: Seq<u8>,
)
    requires
        FieldDocIdFacetCodec::<C>::encodes(item_a, key_a),
        FieldDocIdFacetCodec::<C>::encodes(item_b, key_b),
        item_a.0 < item_b.0 || (item_a.0 == item_b.0 && item_a.1 < item_b.1),
    ensures
        lex_lt(key_a, key_b),
{
    lemma_key_order_by_ids(item_a.0, item_a.1, key_a.skip(6), item_b.0, item_b.1, key_b.skip(6));
}

} // verus!
