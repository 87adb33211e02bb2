//! The engine's laws: round trips, the array/document disambiguation,
//! numeric widening, the two JSON modes, the empty-container asymmetry,
//! and the invalid-key refusal, each proved of the conversion models.

use vstd::prelude::*;
use crate::value::{BsonModel, HostModel, KeyModel, HandleKind, handle_wf, hex_of, dec_int};
use crate::from::{spec_decode, spec_decode_doc};
use crate::to::{
    spec_encode, spec_encode_entries, encode_int, is_contiguous_array, doc_from_encoded,
    doc_upsert, key_text, array_from_encoded, lemma_spec_encode_entries,
    lemma_lookup_int_found,
};
use crate::registry::render_text;
use crate::json::ext_json;

verus! {

/// Round trip for primitives: encoding any non-container, non-handle host
/// value succeeds, and decoding the result gives the value back — nil,
/// booleans, strings, doubles, and integers (those in 32-bit range travel
/// as `Int32`, the rest as `Int64`).
pub proof fn lemma_roundtrip_primitive(v: HostModel)
    requires
        !(v matches HostModel::Table(_)),
        !(v matches HostModel::Handle(_, _)),
        !(v is Other),
    ensures
        spec_encode(v) is Some,
        spec_decode(spec_encode(v)->0) == v,
{
}

/// The permissive fallback: a host value of any other kind encodes as
/// null, silently, rather than failing.
pub proof fn lemma_other_becomes_null()
    ensures
        spec_encode(HostModel::Other) == Some(BsonModel::Null),
{
}

/// Identity round trip for extended-kind handles: the encoder re-embeds
/// the payload verbatim, the decoder wraps it in a handle of the same
/// kind again, so both the kind identity and the rendered text are kept.
pub proof fn lemma_roundtrip_handle(kind: HandleKind, payload: BsonModel)
    requires
        handle_wf(kind, payload),
        kind != HandleKind::Wrapped,
    ensures
        spec_encode(HostModel::Handle(kind, payload)) == Some(payload),
        spec_decode(payload) == HostModel::Handle(kind, payload),
        render_text(spec_decode(payload)->Handle_1) == render_text(payload),
{
}

/// A container populated at exactly the contiguous 1-based positions,
/// with no other keys and every element encodable, encodes as an array
/// of that length whose position `i` holds the encoding of element `i`.
pub proof fn lemma_array_disambiguation(t: Seq<(KeyModel, HostModel)>)
    requires
        t.len() > 0,
        forall|i: int| 0 <= i < t.len() ==> (#[trigger] t[i]).0 == KeyModel::Int(i + 1),
        forall|i: int| 0 <= i < t.len() ==> spec_encode((#[trigger] t[i]).1) is Some,
    ensures
        spec_encode(HostModel::Table(t)) matches Some(b) && (b matches BsonModel::Array(items)
            && items.len() == t.len() && forall|i: int|
            0 <= i < t.len() ==> items[i] == spec_encode(t[i].1)->0),
    decreases t.len(),
{
    lemma_spec_encode_entries(t);
    let enc = spec_encode_entries(t)->0;
    assert(is_contiguous_array(t));
    let items = array_from_encoded(enc, t.len() as int);
    assert forall|i: int| 0 <= i < t.len() implies items[i] == spec_encode(t[i].1)->0 by {
        assert(enc[i].0 == KeyModel::Int(i + 1));
        assert forall|m: int| 0 <= m < i implies (#[trigger] enc[m]).0 != KeyModel::Int(i + 1) by {
            assert(enc[m].0 == KeyModel::Int(m + 1));
        }
        lemma_lookup_int_found(enc, i + 1, i);
    }
}

/// The same, for positions standing in any order: a container with
/// distinct keys that are all integer positions within it encodes as an
/// array of its length, and each entry's value lands at its own position.
pub proof fn lemma_array_disambiguation_any_order(t: Seq<(KeyModel, HostModel)>)
    requires
        is_contiguous_array(t),
        crate::value::table_keys_distinct(t),
        forall|i: int| 0 <= i < t.len() ==> spec_encode((#[trigger] t[i]).1) is Some,
    ensures
        spec_encode(HostModel::Table(t)) matches Some(b) && (b matches BsonModel::Array(items)
            && items.len() == t.len() && forall|i: int|
            0 <= i < t.len() ==> items[(#[trigger] t[i]).0->Int_0 - 1] == spec_encode(t[i].1)->0),
{
    lemma_spec_encode_entries(t);
    let enc = spec_encode_entries(t)->0;
    let items = array_from_encoded(enc, t.len() as int);
    assert forall|i: int| 0 <= i < t.len() implies items[(#[trigger] t[i]).0->Int_0 - 1]
        == spec_encode(t[i].1)->0 by {
        let k = t[i].0->Int_0;
        assert(t[i].0 == KeyModel::Int(k));
        assert forall|m: int| 0 <= m < i implies (#[trigger] enc[m]).0 != KeyModel::Int(k) by {
            assert(t[m].0 != t[i].0);
            assert(enc[m].0 == t[m].0);
        }
        assert(enc[i].0 == KeyModel::Int(k));
        lemma_lookup_int_found(enc, k, i);
    }
}

/// Nothing in the encoded entry list carries an invalid key exactly when
/// the document fold goes through.
pub proof fn lemma_doc_fold_some(acc: Seq<(Seq<char>, BsonModel)>, enc: Seq<(KeyModel, BsonModel)>)
    ensures
        doc_from_encoded(acc, enc) is Some <==> (forall|i: int|
            0 <= i < enc.len() ==> !((#[trigger] enc[i]).0 is Invalid)),
    decreases enc,
{
    if enc.len() > 0 && !(enc[0].0 is Invalid) {
        lemma_doc_fold_some(doc_upsert(acc, key_text(enc[0].0), enc[0].1), enc.drop_first());
        if doc_from_encoded(acc, enc) is Some {
            assert forall|i: int| 0 <= i < enc.len() implies !((#[trigger] enc[i]).0 is Invalid) by {
                if i > 0 {
                    assert(enc.drop_first()[i - 1] == enc[i]);
                }
            }
        }
        if forall|i: int| 0 <= i < enc.len() ==> !((#[trigger] enc[i]).0 is Invalid) {
            assert forall|i: int| 0 <= i < enc.drop_first().len() implies !((
            #[trigger] enc.drop_first()[i]).0 is Invalid) by {
                assert(enc.drop_first()[i] == enc[i + 1]);
            }
        }
    }
}

/// The same container with one additional entry whose key is neither an
/// integer position within the enlarged range nor invalid — a
/// non-contiguous key — encodes as a document instead.
pub proof fn lemma_document_disambiguation(
    t: Seq<(KeyModel, HostModel)>,
    k: KeyModel,
    v: HostModel,
)
    requires
        forall|i: int| 0 <= i < t.len() ==> !((#[trigger] t[i]).0 is Invalid),
        forall|i: int| 0 <= i < t.len() ==> spec_encode((#[trigger] t[i]).1) is Some,
        spec_encode(v) is Some,
        !(k matches KeyModel::Int(m) && 1 <= m <= t.len() + 1),
        !(k is Invalid),
    ensures
        spec_encode(HostModel::Table(t.push((k, v)))) matches Some(b) && b matches
            BsonModel::Document(_),
{
    let t2 = t.push((k, v));
    assert forall|i: int| 0 <= i < t2.len() implies spec_encode((#[trigger] t2[i]).1) is Some by {
        if i < t.len() {
            assert(t2[i] == t[i]);
        } else {
            assert(t2[i] == (k, v));
        }
    }
    lemma_spec_encode_entries(t2);
    let enc = spec_encode_entries(t2)->0;
    assert(t2[t.len() as int].0 == k);
    assert(!is_contiguous_array(t2));
    assert forall|i: int| 0 <= i < enc.len() implies !((#[trigger] enc[i]).0 is Invalid) by {
        assert(enc[i].0 == t2[i].0);
        if i < t.len() {
            assert(t2[i] == t[i]);
        } else {
            assert(t2[i] == (k, v));
        }
    }
    lemma_doc_fold_some(Seq::empty(), enc);
}

/// Numeric widening: an integral number in signed 32-bit range encodes as
/// `Int32`, one beyond it as `Int64`, and a non-integral number keeps its
/// double bit pattern. In particular 2^31 widens and 42 does not.
pub proof fn lemma_integer_widening(i: int, bits: u64)
    ensures
        spec_encode(HostModel::Int(i)) == Some(encode_int(i)),
        -2147483648 <= i <= 2147483647 ==> encode_int(i) == BsonModel::Int32(i),
        (i < -2147483648 || i > 2147483647) ==> encode_int(i) == BsonModel::Int64(i),
        spec_encode(HostModel::Int(2147483648)) == Some(BsonModel::Int64(2147483648)),
        spec_encode(HostModel::Int(42)) == Some(BsonModel::Int32(42)),
        spec_encode(HostModel::Double(bits)) == Some(BsonModel::Double(bits)),
{
}

/// The two JSON modes: an object id carries its "$oid" wrapper in both
/// modes, while a plain 32-bit integer is a bare decimal number in
/// relaxed mode and carries the "$numberInt" wrapper only in canonical
/// mode.
pub proof fn lemma_json_modes(bytes: Seq<u8>, i: int)
    ensures
        ext_json(BsonModel::ObjectId(bytes), false) == "{\"$oid\":\""@ + hex_of(bytes) + "\"}"@,
        ext_json(BsonModel::ObjectId(bytes), true) == ext_json(BsonModel::ObjectId(bytes), false),
        ext_json(BsonModel::Int32(i), false) == dec_int(i),
        ext_json(BsonModel::Int32(i), true) == "{\"$numberInt\":\""@ + dec_int(i) + "\"}"@,
{
}

/// The empty-container asymmetry: an empty hybrid container encodes as
/// the empty document, the empty document decodes back to an empty
/// container, and encoding that again still gives the empty document —
/// no flip-flopping into an array.
pub proof fn lemma_empty_container()
    ensures
        spec_encode(HostModel::Table(Seq::empty())) == Some(
            BsonModel::Document(Seq::<(Seq<char>, BsonModel)>::empty()),
        ),
        spec_decode(BsonModel::Document(Seq::empty())) == HostModel::Table(
            Seq::<(KeyModel, HostModel)>::empty(),
        ),
        spec_encode(spec_decode(BsonModel::Document(Seq::empty()))) == Some(
            BsonModel::Document(Seq::<(Seq<char>, BsonModel)>::empty()),
        ),
{
    let t = Seq::<(KeyModel, HostModel)>::empty();
    assert(spec_encode_entries(t) == Some(Seq::<(KeyModel, BsonModel)>::empty()));
    assert(!is_contiguous_array(t));
    assert(doc_from_encoded(Seq::empty(), Seq::<(KeyModel, BsonModel)>::empty()) == Some(
        Seq::<(Seq<char>, BsonModel)>::empty(),
    ));
    assert(spec_decode_doc(Seq::empty()) =~= Seq::<(KeyModel, HostModel)>::empty());
}

/// Invalid key rejection: a container that is not an array and holds a
/// key that is neither string nor number does not encode at all — there
/// is no partial result to speak of.
pub proof fn lemma_invalid_key_rejection(t: Seq<(KeyModel, HostModel)>, i: int)
    requires
        0 <= i < t.len(),
        t[i].0 is Invalid,
    ensures
        spec_encode(HostModel::Table(t)) is None,
{
    lemma_spec_encode_entries(t);
    if spec_encode_entries(t) is Some {
        let enc = spec_encode_entries(t)->0;
        assert(enc[i].0 == t[i].0);
        assert(!((t[i].0) matches KeyModel::Int(n) && 1 <= n <= t.len()));
        assert(!is_contiguous_array(t));
        lemma_doc_fold_some(Seq::empty(), enc);
        assert(doc_from_encoded(Seq::empty(), enc) is None);
    }
}

} // verus!
