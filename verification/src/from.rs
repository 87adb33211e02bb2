//! The decoder: a total recursive translation of a BSON value into host
//! values, with arrays becoming hybrid containers at 1-based contiguous
//! positions, documents becoming string-keyed containers, and every
//! extended kind becoming an opaque handle that owns its payload.

use vstd::prelude::*;
use vstd::string::{StringExecFns, StrSliceExecFns};
use crate::value::{
    BsonValue, BsonModel, BsonHandle, HandleKind, HostValue, HostKey, HostModel, KeyModel,
    bson_model, bson_model_list, bson_model_doc, lemma_bson_model_list, lemma_bson_model_doc,
    host_model, host_model_table, lemma_host_model_table, key_model,
};
use crate::registry::clone_bytes;

verus! {

broadcast use vstd::seq::axiom_seq_index_decreases, vstd::std_specs::vec::axiom_vec_decreases_to_view;

/// The host values an array's elements decode to, in order.
pub open spec fn spec_decode_list(items: Seq<BsonModel>) -> Seq<HostModel>
    decreases items,
{
    if items.len() == 0 {
        Seq::empty()
    } else {
        seq![spec_decode(items[0])] + spec_decode_list(items.drop_first())
    }
}

/// The host entries a document's entries decode to, in order.
pub open spec fn spec_decode_doc(entries: Seq<(Seq<char>, BsonModel)>) -> Seq<
    (KeyModel, HostModel),
>
    decreases entries,
{
    if entries.len() == 0 {
        Seq::empty()
    } else {
        seq![(KeyModel::Text(entries[0].0), spec_decode(entries[0].1))] + spec_decode_doc(
            entries.drop_first(),
        )
    }
}

/// Attach 1-based contiguous integer keys to decoded array elements.
pub open spec fn index_pairs(vals: Seq<HostModel>) -> Seq<(KeyModel, HostModel)> {
    Seq::new(vals.len(), |i: int| (KeyModel::Int(i + 1), vals[i]))
}

/// What a BSON value decodes to: primitives map structurally, an array
/// becomes a container at positions 1..len, a document becomes a
/// string-keyed container in entry order, and each extended kind becomes
/// a handle of its kind owning the value itself.
pub open spec fn spec_decode(b: BsonModel) -> HostModel
    decreases b,
{
    match b {
        BsonModel::Null => HostModel::Nil,
        BsonModel::Boolean(x) => HostModel::Boolean(x),
        BsonModel::Int32(i) => HostModel::Int(i),
        BsonModel::Int64(i) => HostModel::Int(i),
        BsonModel::Double(bits) => HostModel::Double(bits),
        BsonModel::Text(s) => HostModel::Text(s),
        BsonModel::Array(items) => HostModel::Table(index_pairs(spec_decode_list(items))),
        BsonModel::Document(entries) => HostModel::Table(spec_decode_doc(entries)),
        BsonModel::ObjectId(_) => HostModel::Handle(HandleKind::ObjectId, b),
        BsonModel::DateTime(_) => HostModel::Handle(HandleKind::DateTime, b),
        BsonModel::Binary(_) => HostModel::Handle(HandleKind::Binary, b),
        BsonModel::Regex(_, _) => HostModel::Handle(HandleKind::Regex, b),
        BsonModel::Code(_) => HostModel::Handle(HandleKind::Code, b),
        BsonModel::Timestamp(_, _) => HostModel::Handle(HandleKind::Timestamp, b),
        BsonModel::Decimal128(_) => HostModel::Handle(HandleKind::Decimal128, b),
        BsonModel::MinKey => HostModel::Handle(HandleKind::MinKey, b),
        BsonModel::MaxKey => HostModel::Handle(HandleKind::MaxKey, b),
    }
}

/// How `spec_decode_list` relates to its elements, stated pointwise.
pub proof fn lemma_spec_decode_list(items: Seq<BsonModel>)
    ensures
        spec_decode_list(items).len() == items.len(),
        forall|i: int|
            0 <= i < items.len() ==> spec_decode_list(items)[i] == spec_decode(
                #[trigger] items[i],
            ),
    decreases items,
{
    if items.len() > 0 {
        lemma_spec_decode_list(items.drop_first());
        assert forall|i: int| 0 <= i < items.len() implies spec_decode_list(items)[i]
            == spec_decode(#[trigger] items[i]) by {
            if i > 0 {
                assert(items.drop_first()[i - 1] == items[i]);
            }
        }
    }
}

/// How `spec_decode_doc` relates to its entries, stated pointwise.
pub proof fn lemma_spec_decode_doc(entries: Seq<(Seq<char>, BsonModel)>)
    ensures
        spec_decode_doc(entries).len() == entries.len(),
        forall|i: int|
            0 <= i < entries.len() ==> spec_decode_doc(entries)[i] == (KeyModel::Text(
                (#[trigger] entries[i]).0,
            ), spec_decode(entries[i].1)),
    decreases entries,
{
    if entries.len() > 0 {
        lemma_spec_decode_doc(entries.drop_first());
        assert forall|i: int| 0 <= i < entries.len() implies spec_decode_doc(entries)[i] == (
        KeyModel::Text((#[trigger] entries[i]).0), spec_decode(entries[i].1)) by {
            if i > 0 {
                assert(entries.drop_first()[i - 1] == entries[i]);
            }
        }
    }
}

/// Every array inside the value is short enough for its 1-based positions
/// to be signed 64-bit integers; a machine limit, not a rule of the
/// format.
pub open spec fn index_safe(b: BsonModel) -> bool
    decreases b,
{
    match b {
        BsonModel::Array(items) => items.len() < 0x7fff_ffff_ffff_ffff && forall|i: int|
            0 <= i < items.len() ==> index_safe(#[trigger] items[i]),
        BsonModel::Document(entries) => forall|i: int|
            0 <= i < entries.len() ==> index_safe((#[trigger] entries[i]).1),
        _ => true,
    }
}

/// Decode a BSON value into a host value.
pub fn bson_to_lua(value: &BsonValue) -> (r: HostValue)
    requires
        index_safe(value@),
    ensures
        r@ == spec_decode(value@),
    decreases value,
{
    match value {
        BsonValue::Null => HostValue::Nil,
        BsonValue::Boolean(b) => HostValue::Boolean(*b),
        BsonValue::Int32(i) => HostValue::Int(*i as i64),
        BsonValue::Int64(i) => HostValue::Int(*i),
        BsonValue::Double(bits) => HostValue::Double(*bits),
        BsonValue::Text(s) => HostValue::Text(String::from_str(s.as_str())),
        BsonValue::Array(items) => {
            proof {
                lemma_bson_model_list(items@);
                lemma_spec_decode_list(bson_model_list(items@));
            }
            let ghost model_items = bson_model_list(items@);
            let mut entries: Vec<(HostKey, HostValue)> = Vec::new();
            let mut j: usize = 0;
            while j < items.len()
                invariant
                    j <= items.len(),
                    entries@.len() == j,
                    *value == BsonValue::Array(*items),
                    index_safe(value@),
                    model_items == bson_model_list(items@),
                    model_items.len() == items@.len(),
                    items@.len() < 0x7fff_ffff_ffff_ffff,
                    forall|i: int|
                        0 <= i < items@.len() ==> model_items[i] == bson_model(
                            #[trigger] items@[i],
                        ),
                    forall|i: int|
                        0 <= i < items@.len() ==> spec_decode_list(model_items)[i] == spec_decode(
                            #[trigger] model_items[i],
                        ),
                    spec_decode_list(model_items).len() == model_items.len(),
                    forall|i: int|
                        0 <= i < j ==> (#[trigger] entries@[i]).0 == HostKey::Int((i + 1) as i64),
                    forall|i: int|
                        0 <= i < j ==> host_model((#[trigger] entries@[i]).1) == spec_decode_list(
                            model_items,
                        )[i],
                decreases items.len() - j,
            {
                proof {
                    assert(index_safe(model_items[j as int]));
                    assert(decreases_to!(*value => *items));
                    assert(decreases_to!(*items => items@));
                    assert(decreases_to!(items@ => items@[j as int]));
                }
                let hv = bson_to_lua(&items[j]);
                entries.push((HostKey::Int((j as i64) + 1), hv));
                j = j + 1;
            }
            proof {
                lemma_host_model_table(entries@);
                assert forall|i: int| 0 <= i < entries@.len() implies host_model_table(entries@)[i]
                    == index_pairs(spec_decode_list(model_items))[i] by {
                    assert(entries@[i].0 == HostKey::Int((i + 1) as i64));
                    assert(host_model(entries@[i].1) == spec_decode_list(model_items)[i]);
                }
                assert(host_model_table(entries@) =~= index_pairs(spec_decode_list(model_items)));
            }
            HostValue::Table(entries)
        },
        BsonValue::Document(doc) => {
            proof {
                lemma_bson_model_doc(doc@);
                lemma_spec_decode_doc(bson_model_doc(doc@));
            }
            let ghost model_entries = bson_model_doc(doc@);
            let mut entries: Vec<(HostKey, HostValue)> = Vec::new();
            let mut j: usize = 0;
            while j < doc.len()
                invariant
                    j <= doc.len(),
                    entries@.len() == j,
                    *value == BsonValue::Document(*doc),
                    index_safe(value@),
                    model_entries == bson_model_doc(doc@),
                    model_entries.len() == doc@.len(),
                    forall|i: int|
                        0 <= i < doc@.len() ==> model_entries[i] == ((#[trigger] doc@[i]).0@,
                        bson_model(doc@[i].1)),
                    forall|i: int|
                        0 <= i < model_entries.len() ==> spec_decode_doc(model_entries)[i] == (
                        KeyModel::Text((#[trigger] model_entries[i]).0), spec_decode(
                            model_entries[i].1,
                        )),
                    spec_decode_doc(model_entries).len() == model_entries.len(),
                    forall|i: int|
                        0 <= i < j ==> (key_model((#[trigger] entries@[i]).0), host_model(
                            entries@[i].1,
                        )) == spec_decode_doc(model_entries)[i],
                decreases doc.len() - j,
            {
                proof {
                    assert(model_entries[j as int] == (doc@[j as int].0@, bson_model(
                        doc@[j as int].1,
                    )));
                    assert(index_safe(value@));
                    assert(value@ matches BsonModel::Document(es) && es == model_entries);
                    assert(index_safe(model_entries[j as int].1));
                    assert(decreases_to!(*value => *doc));
                    assert(decreases_to!(*doc => doc@));
                    assert(decreases_to!(doc@ => doc@[j as int]));
                    assert(decreases_to!(doc@[j as int] => doc@[j as int].1));
                }
                let hv = bson_to_lua(&doc[j].1);
                let key = String::from_str(doc[j].0.as_str());
                entries.push((HostKey::Text(key), hv));
                j = j + 1;
            }
            proof {
                lemma_host_model_table(entries@);
                assert forall|i: int| 0 <= i < entries@.len() implies host_model_table(entries@)[i]
                    == spec_decode_doc(model_entries)[i] by {
                    assert((key_model(entries@[i].0), host_model(entries@[i].1))
                        == spec_decode_doc(model_entries)[i]);
                }
                assert(host_model_table(entries@) =~= spec_decode_doc(model_entries));
            }
            HostValue::Table(entries)
        },
        BsonValue::ObjectId(id) => HostValue::Handle(
            BsonHandle::make(HandleKind::ObjectId, BsonValue::ObjectId(*id)),
        ),
        BsonValue::DateTime(ms) => HostValue::Handle(
            BsonHandle::make(HandleKind::DateTime, BsonValue::DateTime(*ms)),
        ),
        BsonValue::Binary(bytes) => HostValue::Handle(
            BsonHandle::make(HandleKind::Binary, BsonValue::Binary(clone_bytes(bytes))),
        ),
        BsonValue::Regex(p, o) => HostValue::Handle(
            BsonHandle::make(
                HandleKind::Regex,
                BsonValue::Regex(String::from_str(p.as_str()), String::from_str(o.as_str())),
            ),
        ),
        BsonValue::Code(c) => HostValue::Handle(
            BsonHandle::make(HandleKind::Code, BsonValue::Code(String::from_str(c.as_str()))),
        ),
        BsonValue::Timestamp(t, i) => HostValue::Handle(
            BsonHandle::make(HandleKind::Timestamp, BsonValue::Timestamp(*t, *i)),
        ),
        BsonValue::Decimal128(bytes) => HostValue::Handle(
            BsonHandle::make(HandleKind::Decimal128, BsonValue::Decimal128(*bytes)),
        ),
        BsonValue::MinKey => HostValue::Handle(BsonHandle::make(HandleKind::MinKey, BsonValue::MinKey)),
        BsonValue::MaxKey => HostValue::Handle(BsonHandle::make(HandleKind::MaxKey, BsonValue::MaxKey)),
    }
}

/// Decode the payload a handle carries into a host value.
pub fn bson(h: &BsonHandle) -> (r: HostValue)
    requires
        index_safe(h@.1),
    ensures
        r@ == spec_decode(h@.1),
{
    bson_to_lua(&h.payload)
}

} // verus!
