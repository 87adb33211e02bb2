//! The encoder: a recursive translation of a host value into a BSON
//! value. A hybrid container is probed first: positive length with
//! contiguous 1-based integer keys makes it an array; anything else is
//! encoded as a document in native entry order, keys coerced to text, and
//! a key that is neither string nor number aborts the whole encoding.

use vstd::prelude::*;
use vstd::string::{StringExecFns, StrSliceExecFns};
use crate::value::{
    BsonValue, BsonModel, BsonHandle, HandleKind, HostValue, HostKey, HostModel, KeyModel,
    bson_model, bson_model_list, bson_model_doc, lemma_bson_model_list, lemma_bson_model_doc,
    host_model, host_model_table, lemma_host_model_table, key_model, dec_int,
};
use crate::registry::{BridgeError, clone_bytes};

verus! {

broadcast use vstd::seq::axiom_seq_index_decreases, vstd::std_specs::vec::axiom_vec_decreases_to_view;

/// The text a defined key is coerced to: numbers are stringified in
/// decimal, strings stand as they are.
pub open spec fn key_text(k: KeyModel) -> Seq<char> {
    match k {
        KeyModel::Int(i) => dec_int(i),
        KeyModel::Text(s) => s,
        KeyModel::Invalid => Seq::empty(),
    }
}

/// The named array probe: a container counts as an array exactly when it
/// is non-empty and every key is an integer in 1..=len, so that under
/// distinct keys it is populated at exactly the contiguous 1-based
/// positions.
pub open spec fn is_contiguous_array(t: Seq<(KeyModel, HostModel)>) -> bool {
    t.len() > 0 && forall|i: int|
        0 <= i < t.len() ==> ((#[trigger] t[i]).0 matches KeyModel::Int(n) && 1 <= n <= t.len())
}

/// What a host number encodes to: an exactly integral number becomes
/// `Int32` when it fits in signed 32-bit range and `Int64` otherwise.
pub open spec fn encode_int(i: int) -> BsonModel {
    if -2147483648 <= i <= 2147483647 {
        BsonModel::Int32(i)
    } else {
        BsonModel::Int64(i)
    }
}

/// Each entry's value encoded in order, keys kept; nothing if any value
/// refuses to encode.
pub open spec fn spec_encode_entries(t: Seq<(KeyModel, HostModel)>) -> Option<
    Seq<(KeyModel, BsonModel)>,
>
    decreases t,
{
    if t.len() == 0 {
        Some(Seq::empty())
    } else {
        match (spec_encode(t[0].1), spec_encode_entries(t.drop_first())) {
            (Some(b), Some(rest)) => Some(seq![(t[0].0, b)] + rest),
            _ => None,
        }
    }
}

/// The first encoded value standing under an integer key.
pub open spec fn lookup_int(enc: Seq<(KeyModel, BsonModel)>, k: int) -> Option<BsonModel>
    decreases enc,
{
    if enc.len() == 0 {
        None
    } else if enc[0].0 == KeyModel::Int(k) {
        Some(enc[0].1)
    } else {
        lookup_int(enc.drop_first(), k)
    }
}

/// The array a probed container encodes to: position j holds the value
/// under key j+1 (a position no key covers holds null; distinct keys and
/// the probe rule out that case).
pub open spec fn array_from_encoded(enc: Seq<(KeyModel, BsonModel)>, n: int) -> Seq<BsonModel> {
    Seq::new(
        n as nat,
        |i: int|
            match lookup_int(enc, i + 1) {
                Some(b) => b,
                None => BsonModel::Null,
            },
    )
}

/// Insert into a document the way the BSON document does: an existing key
/// keeps its position and takes the new value, a new key goes to the end.
pub open spec fn doc_upsert(
    doc: Seq<(Seq<char>, BsonModel)>,
    key: Seq<char>,
    val: BsonModel,
) -> Seq<(Seq<char>, BsonModel)>
    decreases doc,
{
    if doc.len() == 0 {
        seq![(key, val)]
    } else if doc[0].0 == key {
        seq![(key, val)] + doc.drop_first()
    } else {
        seq![doc[0]] + doc_upsert(doc.drop_first(), key, val)
    }
}

/// Fold the encoded entries into a document, left to right, coercing each
/// key to text; nothing if a key is neither string nor number.
pub open spec fn doc_from_encoded(
    acc: Seq<(Seq<char>, BsonModel)>,
    enc: Seq<(KeyModel, BsonModel)>,
) -> Option<Seq<(Seq<char>, BsonModel)>>
    decreases enc,
{
    if enc.len() == 0 {
        Some(acc)
    } else if enc[0].0 is Invalid {
        None
    } else {
        doc_from_encoded(doc_upsert(acc, key_text(enc[0].0), enc[0].1), enc.drop_first())
    }
}

/// What a host value encodes to, if anything: nil becomes null, numbers
/// widen by range, a handle re-embeds its payload verbatim, a container
/// becomes an array or a document per the probe; the one refusal is a
/// map-like key that is neither string nor number.
pub open spec fn spec_encode(v: HostModel) -> Option<BsonModel>
    decreases v,
{
    match v {
        HostModel::Nil => Some(BsonModel::Null),
        HostModel::Boolean(b) => Some(BsonModel::Boolean(b)),
        HostModel::Int(i) => Some(encode_int(i)),
        HostModel::Double(bits) => Some(BsonModel::Double(bits)),
        HostModel::Text(s) => Some(BsonModel::Text(s)),
        HostModel::Handle(_, payload) => Some(payload),
        HostModel::Other => Some(BsonModel::Null),
        HostModel::Table(t) => match spec_encode_entries(t) {
            None => None,
            Some(enc) => if is_contiguous_array(t) {
                Some(BsonModel::Array(array_from_encoded(enc, t.len() as int)))
            } else {
                match doc_from_encoded(Seq::empty(), enc) {
                    None => None,
                    Some(d) => Some(BsonModel::Document(d)),
                }
            },
        },
    }
}

/// How `spec_encode_entries` relates to its entries, stated pointwise.
pub proof fn lemma_spec_encode_entries(t: Seq<(KeyModel, HostModel)>)
    ensures
        spec_encode_entries(t) is Some <==> (forall|i: int|
            0 <= i < t.len() ==> spec_encode((#[trigger] t[i]).1) is Some),
        spec_encode_entries(t) matches Some(enc) ==> enc.len() == t.len() && forall|i: int|
            0 <= i < t.len() ==> (#[trigger] enc[i]) == (t[i].0, spec_encode(t[i].1)->0),
    decreases t,
{
    if t.len() > 0 {
        lemma_spec_encode_entries(t.drop_first());
        assert forall|i: int| 0 <= i < t.len() && spec_encode_entries(t) is Some implies spec_encode(
            (#[trigger] t[i]).1,
        ) is Some by {
            if i > 0 {
                assert(t.drop_first()[i - 1] == t[i]);
            }
        }
        if forall|i: int| 0 <= i < t.len() ==> spec_encode((#[trigger] t[i]).1) is Some {
            assert(spec_encode(t[0].1) is Some);
            assert forall|i: int| 0 <= i < t.drop_first().len() implies spec_encode(
                (#[trigger] t.drop_first()[i]).1,
            ) is Some by {
                assert(t.drop_first()[i] == t[i + 1]);
            }
            assert(spec_encode_entries(t.drop_first()) is Some);
        }
        if spec_encode_entries(t) is Some {
            let enc = spec_encode_entries(t)->0;
            assert forall|i: int| 0 <= i < t.len() implies (#[trigger] enc[i]) == (t[i].0,
            spec_encode(t[i].1)->0) by {
                if i > 0 {
                    assert(t.drop_first()[i - 1] == t[i]);
                    assert(enc[i] == spec_encode_entries(t.drop_first())->0[i - 1]);
                }
            }
        }
    }
}

/// Deep-copy a BSON value.
pub fn clone_bson(b: &BsonValue) -> (r: BsonValue)
    ensures
        r@ == b@,
    decreases b,
{
    match b {
        BsonValue::Null => BsonValue::Null,
        BsonValue::Boolean(x) => BsonValue::Boolean(*x),
        BsonValue::Int32(x) => BsonValue::Int32(*x),
        BsonValue::Int64(x) => BsonValue::Int64(*x),
        BsonValue::Double(x) => BsonValue::Double(*x),
        BsonValue::Text(s) => BsonValue::Text(s.clone()),
        BsonValue::Array(items) => {
            proof {
                lemma_bson_model_list(items@);
                assert(decreases_to!(*b => *items));
                assert(decreases_to!(*items => items@));
            }
            let mut out: Vec<BsonValue> = Vec::new();
            let mut j: usize = 0;
            while j < items.len()
                invariant
                    j <= items.len(),
                    out@.len() == j,
                    *b == BsonValue::Array(*items),
                    (decreases_to!(*b => items@)),
                    forall|i: int|
                        0 <= i < j ==> bson_model(#[trigger] out@[i]) == bson_model(items@[i]),
                decreases items.len() - j,
            {
                proof {
                    assert(decreases_to!(*items => items@));
                    assert(decreases_to!(items@ => items@[j as int]));
                }
                let c = clone_bson(&items[j]);
                out.push(c);
                j = j + 1;
            }
            proof {
                lemma_bson_model_list(out@);
                assert forall|i: int| 0 <= i < out@.len() implies bson_model_list(out@)[i]
                    == bson_model_list(items@)[i] by {
                    assert(bson_model(out@[i]) == bson_model(items@[i]));
                }
                assert(bson_model_list(out@) =~= bson_model_list(items@));
            }
            BsonValue::Array(out)
        },
        BsonValue::Document(entries) => {
            proof {
                lemma_bson_model_doc(entries@);
                assert(decreases_to!(*b => *entries));
                assert(decreases_to!(*entries => entries@));
            }
            let mut out: Vec<(String, BsonValue)> = Vec::new();
            let mut j: usize = 0;
            while j < entries.len()
                invariant
                    j <= entries.len(),
                    out@.len() == j,
                    *b == BsonValue::Document(*entries),
                    (decreases_to!(*b => entries@)),
                    forall|i: int|
                        0 <= i < j ==> (#[trigger] out@[i]).0@ == entries@[i].0@ && bson_model(
                            out@[i].1,
                        ) == bson_model(entries@[i].1),
                decreases entries.len() - j,
            {
                proof {
                    assert(decreases_to!(*entries => entries@));
                    assert(decreases_to!(entries@ => entries@[j as int]));
                    assert(decreases_to!(entries@[j as int] => entries@[j as int].1));
                }
                let c = clone_bson(&entries[j].1);
                let k = entries[j].0.clone();
                out.push((k, c));
                j = j + 1;
            }
            proof {
                lemma_bson_model_doc(out@);
                assert forall|i: int| 0 <= i < out@.len() implies bson_model_doc(out@)[i]
                    == bson_model_doc(entries@)[i] by {
                    assert((out@[i]).0@ == entries@[i].0@);
                    assert(bson_model(out@[i].1) == bson_model(entries@[i].1));
                }
                assert(bson_model_doc(out@) =~= bson_model_doc(entries@));
            }
            BsonValue::Document(out)
        },
        BsonValue::ObjectId(id) => BsonValue::ObjectId(*id),
        BsonValue::DateTime(ms) => BsonValue::DateTime(*ms),
        BsonValue::Binary(bytes) => BsonValue::Binary(clone_bytes(bytes)),
        BsonValue::Regex(p, o) => BsonValue::Regex(p.clone(), o.clone()),
        BsonValue::Code(c) => BsonValue::Code(c.clone()),
        BsonValue::Timestamp(t, i) => BsonValue::Timestamp(*t, *i),
        BsonValue::Decimal128(bytes) => BsonValue::Decimal128(*bytes),
        BsonValue::MinKey => BsonValue::MinKey,
        BsonValue::MaxKey => BsonValue::MaxKey,
    }
}

/// Append the decimal digits of `n`, most significant first (nothing for
/// zero, which `dec_digits` also maps to the empty sequence).
pub fn push_digits(out: &mut String, n: u64)
    ensures
        final(out)@ == old(out)@ + crate::value::dec_digits(n as int),
    decreases n,
{
    if n == 0 {
        proof {
            assert(final(out)@ =~= old(out)@ + crate::value::dec_digits(0));
        }
        return ;
    }
    push_digits(out, n / 10);
    let d: u64 = n % 10;
    if d == 0 {
        out.append("0");
        proof {
            reveal_strlit("0");
        }
    } else if d == 1 {
        out.append("1");
        proof {
            reveal_strlit("1");
        }
    } else if d == 2 {
        out.append("2");
        proof {
            reveal_strlit("2");
        }
    } else if d == 3 {
        out.append("3");
        proof {
            reveal_strlit("3");
        }
    } else if d == 4 {
        out.append("4");
        proof {
            reveal_strlit("4");
        }
    } else if d == 5 {
        out.append("5");
        proof {
            reveal_strlit("5");
        }
    } else if d == 6 {
        out.append("6");
        proof {
            reveal_strlit("6");
        }
    } else if d == 7 {
        out.append("7");
        proof {
            reveal_strlit("7");
        }
    } else if d == 8 {
        out.append("8");
        proof {
            reveal_strlit("8");
        }
    } else {
        out.append("9");
        proof {
            reveal_strlit("9");
        }
    }
    proof {
        assert(final(out)@ =~= old(out)@ + crate::value::dec_digits(n as int));
    }
}

/// The decimal text of an integer.
pub fn int_to_string(i: i64) -> (r: String)
    ensures
        r@ == dec_int(i as int),
{
    let mut out = String::new();
    if i == 0 {
        out.append("0");
        proof {
            reveal_strlit("0");
            assert(out@ =~= dec_int(0));
        }
        return out;
    }
    if i < 0 {
        out.append("-");
        let mag: u64 = ((-(i + 1)) as u64) + 1;
        push_digits(&mut out, mag);
        proof {
            reveal_strlit("-");
            assert(out@ =~= dec_int(i as int));
        }
        out
    } else {
        push_digits(&mut out, i as u64);
        proof {
            assert(out@ =~= dec_int(i as int));
        }
        out
    }
}

/// Coerce a host key to document-key text: numbers are stringified,
/// strings stand, anything else is refused.
pub fn key_to_text(k: &HostKey) -> (r: Option<String>)
    ensures
        r is Some <==> !(k@ is Invalid),
        r matches Some(s) ==> s@ == key_text(k@),
{
    match k {
        HostKey::Int(i) => Some(int_to_string(*i)),
        HostKey::Text(s) => Some(s.clone()),
        HostKey::Invalid => None,
    }
}

/// The array probe, as the named, testable predicate: the container's
/// length when it is positive and every key is an integer position within
/// it; nothing otherwise. The probe does not disturb the container.
pub fn table_len(entries: &Vec<(HostKey, HostValue)>) -> (r: Option<usize>)
    ensures
        r is Some <==> is_contiguous_array(host_model_table(entries@)),
        r matches Some(n) ==> n == entries@.len(),
{
    proof {
        lemma_host_model_table(entries@);
    }
    let ghost t = host_model_table(entries@);
    let n = entries.len();
    if n == 0 {
        return None;
    }
    let mut j: usize = 0;
    while j < n
        invariant
            j <= n,
            n == entries@.len(),
            t == host_model_table(entries@),
            t.len() == n,
            forall|i: int|
                0 <= i < entries@.len() ==> t[i] == (key_model((#[trigger] entries@[i]).0),
                host_model(entries@[i].1)),
            forall|i: int|
                0 <= i < j ==> ((#[trigger] t[i]).0 matches KeyModel::Int(k) && 1 <= k <= n),
        decreases n - j,
    {
        match &entries[j].0 {
            HostKey::Int(k) => {
                if *k < 1 || (*k as u64) > (n as u64) {
                    proof {
                        assert(t[j as int].0 == KeyModel::Int(*k as int));
                        assert(!is_contiguous_array(t));
                    }
                    return None;
                }
            },
            _ => {
                proof {
                    assert(!((t[j as int]).0 matches KeyModel::Int(x) && 1 <= x <= t.len()));
                    assert(!is_contiguous_array(t));
                }
                return None;
            },
        }
        j = j + 1;
    }
    Some(n)
}

/// Upserting where the key is absent appends the pair.
pub proof fn lemma_doc_upsert_absent(doc: Seq<(Seq<char>, BsonModel)>, key: Seq<char>, val: BsonModel)
    requires
        forall|m: int| 0 <= m < doc.len() ==> (#[trigger] doc[m]).0 != key,
    ensures
        doc_upsert(doc, key, val) =~= doc.push((key, val)),
    decreases doc.len(),
{
    if doc.len() > 0 {
        assert forall|m: int| 0 <= m < doc.drop_first().len() implies (#[trigger] doc.drop_first()[m]).0
            != key by {
            assert(doc.drop_first()[m] == doc[m + 1]);
        }
        lemma_doc_upsert_absent(doc.drop_first(), key, val);
        assert(doc_upsert(doc, key, val) =~= doc.push((key, val)));
    }
}

/// Upserting where the key first occurs at position `i` replaces the value
/// there, under the incoming key text.
pub proof fn lemma_doc_upsert_found(
    doc: Seq<(Seq<char>, BsonModel)>,
    key: Seq<char>,
    val: BsonModel,
    i: int,
)
    requires
        0 <= i < doc.len(),
        doc[i].0 == key,
        forall|m: int| 0 <= m < i ==> (#[trigger] doc[m]).0 != key,
    ensures
        doc_upsert(doc, key, val) =~= doc.update(i, (key, val)),
    decreases doc.len(),
{
    if i == 0 {
        assert(doc_upsert(doc, key, val) =~= doc.update(0, (key, val)));
    } else {
        assert forall|m: int| 0 <= m < i - 1 implies (#[trigger] doc.drop_first()[m]).0 != key by {
            assert(doc.drop_first()[m] == doc[m + 1]);
        }
        assert(doc.drop_first()[i - 1] == doc[i]);
        lemma_doc_upsert_found(doc.drop_first(), key, val, i - 1);
        assert(doc_upsert(doc, key, val) =~= doc.update(i, (key, val)));
    }
}

/// Insert a key-value pair into a document under construction, replacing
/// in place when the key is already present.
pub fn doc_insert(doc: &mut Vec<(String, BsonValue)>, key: String, val: BsonValue)
    ensures
        bson_model_doc(final(doc)@) == doc_upsert(bson_model_doc(old(doc)@), key@, bson_model(val)),
{
    proof {
        lemma_bson_model_doc(doc@);
    }
    let ghost d0 = bson_model_doc(doc@);
    let n = doc.len();
    let mut j: usize = 0;
    while j < n
        invariant
            j <= n,
            n == doc@.len(),
            doc@ == old(doc)@,
            d0 == bson_model_doc(doc@),
            d0.len() == n,
            forall|i: int|
                0 <= i < doc@.len() ==> d0[i] == ((#[trigger] doc@[i]).0@, bson_model(doc@[i].1)),
            forall|i: int| 0 <= i < j ==> (#[trigger] d0[i]).0 != key@,
        decreases n - j,
    {
        if doc[j].0 == key {
            proof {
                assert(d0[j as int].0 == key@);
            }
            doc.remove(j);
            doc.insert(j, (key, val));
            proof {
                lemma_bson_model_doc(doc@);
                lemma_doc_upsert_found(d0, key@, bson_model(val), j as int);
                assert forall|i: int| 0 <= i < doc@.len() implies bson_model_doc(doc@)[i]
                    == d0.update(j as int, (key@, bson_model(val)))[i] by {
                    assert(bson_model_doc(doc@)[i] == (doc@[i].0@, bson_model(doc@[i].1)));
                    if i < j as int {
                        assert(doc@[i] == old(doc)@[i]);
                    } else if i > j as int {
                        assert(doc@[i] == old(doc)@.remove(j as int).insert(j as int, (key, val))[i]);
                        assert(doc@[i] == old(doc)@[i]);
                    }
                }
                assert(bson_model_doc(doc@) =~= doc_upsert(d0, key@, bson_model(val)));
            }
            return ;
        }
        j = j + 1;
    }
    doc.push((key, val));
    proof {
        lemma_bson_model_doc(doc@);
        lemma_doc_upsert_absent(d0, key@, bson_model(val));
        assert forall|i: int| 0 <= i < doc@.len() implies bson_model_doc(doc@)[i] == d0.push(
            (key@, bson_model(val)),
        )[i] by {
            if i < n as int {
                assert(doc@[i] == old(doc)@[i]);
            }
        }
        assert(bson_model_doc(doc@) =~= doc_upsert(d0, key@, bson_model(val)));
    }
}

/// Copy a host key.
pub fn clone_key(k: &HostKey) -> (r: HostKey)
    ensures
        r@ == k@,
{
    match k {
        HostKey::Int(i) => HostKey::Int(*i),
        HostKey::Text(s) => HostKey::Text(s.clone()),
        HostKey::Invalid => HostKey::Invalid,
    }
}

/// Looking up an integer key that first occurs at position `s` yields the
/// value there.
pub proof fn lemma_lookup_int_found(enc: Seq<(KeyModel, BsonModel)>, k: int, s: int)
    requires
        0 <= s < enc.len(),
        enc[s].0 == KeyModel::Int(k),
        forall|m: int| 0 <= m < s ==> (#[trigger] enc[m]).0 != KeyModel::Int(k),
    ensures
        lookup_int(enc, k) == Some(enc[s].1),
    decreases enc.len(),
{
    if s > 0 {
        assert forall|m: int| 0 <= m < s - 1 implies (#[trigger] enc.drop_first()[m]).0
            != KeyModel::Int(k) by {
            assert(enc.drop_first()[m] == enc[m + 1]);
        }
        assert(enc.drop_first()[s - 1] == enc[s]);
        lemma_lookup_int_found(enc.drop_first(), k, s - 1);
    }
}

/// Looking up an integer key that occurs nowhere yields nothing.
pub proof fn lemma_lookup_int_absent(enc: Seq<(KeyModel, BsonModel)>, k: int)
    requires
        forall|m: int| 0 <= m < enc.len() ==> (#[trigger] enc[m]).0 != KeyModel::Int(k),
    ensures
        lookup_int(enc, k) is None,
    decreases enc.len(),
{
    if enc.len() > 0 {
        assert forall|m: int| 0 <= m < enc.drop_first().len() implies (#[trigger] enc.drop_first()[m]).0
            != KeyModel::Int(k) by {
            assert(enc.drop_first()[m] == enc[m + 1]);
        }
        lemma_lookup_int_absent(enc.drop_first(), k);
    }
}

/// Encode a host value into a BSON value; the one refusal is a map-like
/// container holding a key that is neither string nor number.
pub fn coerce(v: &HostValue) -> (r: Result<BsonValue, BridgeError>)
    ensures
        r is Ok <==> spec_encode(v@) is Some,
        r matches Ok(b) ==> Some(b@) == spec_encode(v@),
        r is Err ==> r == Err::<BsonValue, BridgeError>(BridgeError::InvalidKeyType),
    decreases v,
{
    match v {
        HostValue::Nil => Ok(BsonValue::Null),
        HostValue::Boolean(x) => Ok(BsonValue::Boolean(*x)),
        HostValue::Int(i) => {
            if -2147483648i64 <= *i && *i <= 2147483647i64 {
                Ok(BsonValue::Int32(*i as i32))
            } else {
                Ok(BsonValue::Int64(*i))
            }
        },
        HostValue::Double(bits) => Ok(BsonValue::Double(*bits)),
        HostValue::Text(s) => Ok(BsonValue::Text(s.clone())),
        HostValue::Handle(h) => Ok(clone_bson(&h.payload)),
        // The deliberate permissive fallback: an unconvertible host value
        // becomes null rather than an error.
        HostValue::Other => Ok(BsonValue::Null),
        HostValue::Table(entries) => {
            proof {
                lemma_host_model_table(entries@);
                assert(decreases_to!(*v => *entries));
                assert(decreases_to!(*entries => entries@));
            }
            let ghost t = host_model_table(entries@);
            let mut enc: Vec<(HostKey, BsonValue)> = Vec::new();
            let mut j: usize = 0;
            while j < entries.len()
                invariant
                    j <= entries.len(),
                    enc@.len() == j,
                    t == host_model_table(entries@),
                    t.len() == entries@.len(),
                    v@ == HostModel::Table(t),
                    (decreases_to!(*v => entries@)),
                    forall|i: int|
                        0 <= i < entries@.len() ==> t[i] == (key_model(
                            (#[trigger] entries@[i]).0,
                        ), host_model(entries@[i].1)),
                    forall|i: int| 0 <= i < j ==> spec_encode((#[trigger] t[i]).1) is Some,
                    forall|i: int|
                        0 <= i < j ==> key_model((#[trigger] enc@[i]).0) == t[i].0 && bson_model(
                            enc@[i].1,
                        ) == spec_encode(t[i].1)->0,
                decreases entries.len() - j,
            {
                proof {
                    assert(decreases_to!(entries@ => entries@[j as int]));
                    assert(decreases_to!(entries@[j as int] => entries@[j as int].1));
                    assert(t[j as int].1 == host_model(entries@[j as int].1));
                }
                let b = match coerce(&entries[j].1) {
                    Ok(b) => b,
                    Err(e) => {
                        proof {
                            lemma_spec_encode_entries(t);
                            assert(spec_encode(t[j as int].1) is None);
                            assert(spec_encode_entries(t) is None);
                        }
                        return Err(e);
                    },
                };
                let k = clone_key(&entries[j].0);
                enc.push((k, b));
                j = j + 1;
            }
            proof {
                lemma_spec_encode_entries(t);
            }
            let ghost enc_model = spec_encode_entries(t)->0;
            proof {
                assert(spec_encode_entries(t) is Some);
                assert(enc_model.len() == t.len());
                assert forall|i: int| 0 <= i < enc@.len() implies key_model((#[trigger] enc@[i]).0)
                    == enc_model[i].0 && bson_model(enc@[i].1) == enc_model[i].1 by {
                    assert(enc_model[i] == (t[i].0, spec_encode(t[i].1)->0));
                }
            }
            match table_len(entries) {
                Some(n) => {
                    let mut items: Vec<BsonValue> = Vec::new();
                    let mut idx: usize = 0;
                    while idx < n
                        invariant
                            idx <= n,
                            items@.len() == idx,
                            n == t.len(),
                            enc@.len() == n,
                            enc_model.len() == n,
                            forall|i: int|
                                0 <= i < enc@.len() ==> key_model((#[trigger] enc@[i]).0)
                                    == enc_model[i].0 && bson_model(enc@[i].1) == enc_model[i].1,
                            forall|i: int|
                                0 <= i < idx ==> bson_model(#[trigger] items@[i])
                                    == array_from_encoded(enc_model, n as int)[i],
                        decreases n - idx,
                    {
                        let mut s: usize = 0;
                        let mut elem: Option<BsonValue> = None;
                        while s < n
                            invariant_except_break
                                s <= n,
                                idx < n,
                                enc@.len() == n,
                                enc_model.len() == n,
                                forall|i: int|
                                    0 <= i < enc@.len() ==> key_model((#[trigger] enc@[i]).0)
                                        == enc_model[i].0 && bson_model(enc@[i].1)
                                        == enc_model[i].1,
                                elem is None,
                                forall|m: int|
                                    0 <= m < s ==> (#[trigger] enc_model[m]).0 != KeyModel::Int(
                                        idx + 1,
                                    ),
                            ensures
                                elem matches Some(b) ==> (lookup_int(enc_model, idx as int + 1)
                                    matches Some(bm) && bson_model(b) == bm),
                                elem is None ==> forall|m: int|
                                    0 <= m < enc_model.len() ==> (#[trigger] enc_model[m]).0
                                        != KeyModel::Int(idx + 1),
                            decreases n - s,
                        {
                            let hit: bool = match &enc[s].0 {
                                HostKey::Int(k) => *k >= 1 && (*k as u64) == (idx as u64) + 1,
                                _ => false,
                            };
                            if hit {
                                proof {
                                    assert(enc_model[s as int].0 == KeyModel::Int(idx + 1));
                                    lemma_lookup_int_found(enc_model, idx + 1, s as int);
                                }
                                elem = Some(clone_bson(&enc[s].1));
                                break ;
                            }
                            proof {
                                assert(enc_model[s as int].0 != KeyModel::Int(idx + 1));
                            }
                            s = s + 1;
                        }
                        let chosen: BsonValue = match elem {
                            Some(b) => b,
                            None => {
                                proof {
                                    lemma_lookup_int_absent(enc_model, idx + 1);
                                }
                                BsonValue::Null
                            },
                        };
                        proof {
                            assert(bson_model(chosen) == array_from_encoded(enc_model, n as int)[
                            idx as int]);
                        }
                        items.push(chosen);
                        idx = idx + 1;
                    }
                    proof {
                        lemma_bson_model_list(items@);
                        assert forall|i: int| 0 <= i < items@.len() implies bson_model_list(
                            items@,
                        )[i] == array_from_encoded(enc_model, n as int)[i] by {
                            assert(bson_model(items@[i]) == array_from_encoded(
                                enc_model,
                                n as int,
                            )[i]);
                        }
                        assert(bson_model_list(items@) =~= array_from_encoded(
                            enc_model,
                            n as int,
                        ));
                    }
                    Ok(BsonValue::Array(items))
                },
                None => {
                    let mut doc: Vec<(String, BsonValue)> = Vec::new();
                    let mut j2: usize = 0;
                    proof {
                        assert(enc_model.skip(0) =~= enc_model);
                    }
                    while j2 < enc.len()
                        invariant
                            j2 <= enc.len(),
                            enc@.len() == enc_model.len(),
                            v@ == HostModel::Table(t),
                            spec_encode_entries(t) == Some(enc_model),
                            !is_contiguous_array(t),
                            forall|i: int|
                                0 <= i < enc@.len() ==> key_model((#[trigger] enc@[i]).0)
                                    == enc_model[i].0 && bson_model(enc@[i].1) == enc_model[i].1,
                            doc_from_encoded(Seq::empty(), enc_model) == doc_from_encoded(
                                bson_model_doc(doc@),
                                enc_model.skip(j2 as int),
                            ),
                        decreases enc@.len() - j2,
                    {
                        let ghost rest = enc_model.skip(j2 as int);
                        proof {
                            assert(rest.len() == enc_model.len() - j2);
                            assert(rest[0] == enc_model[j2 as int]);
                            assert(rest.drop_first() =~= enc_model.skip(j2 as int + 1));
                        }
                        match key_to_text(&enc[j2].0) {
                            None => {
                                proof {
                                    assert(enc_model[j2 as int].0 is Invalid);
                                    assert(doc_from_encoded(bson_model_doc(doc@), rest) is None);
                                    assert(doc_from_encoded(Seq::empty(), enc_model) is None);
                                    assert(spec_encode(v@) is None);
                                }
                                return Err(BridgeError::InvalidKeyType);
                            },
                            Some(ktext) => {
                                let val = clone_bson(&enc[j2].1);
                                proof {
                                    assert(key_text(enc_model[j2 as int].0) == ktext@);
                                    assert(bson_model(val) == enc_model[j2 as int].1);
                                }
                                doc_insert(&mut doc, ktext, val);
                            },
                        }
                        j2 = j2 + 1;
                    }
                    proof {
                        assert(enc_model.skip(enc_model.len() as int) =~= Seq::empty());
                        assert(doc_from_encoded(Seq::empty(), enc_model) == Some(
                            bson_model_doc(doc@),
                        ));
                    }
                    Ok(BsonValue::Document(doc))
                },
            }
        },
    }
}

/// What field-style projection on a wrapped value yields: the three JSON
/// projections as text, or the decoded host value.
#[derive(Debug, PartialEq)]
pub enum Projection {
    Text(String),
    Value(HostValue),
}

/// The model of a projection result.
pub enum ProjectionModel {
    Text(Seq<char>),
    Value(HostModel),
}

impl View for Projection {
    type V = ProjectionModel;

    open spec fn view(&self) -> ProjectionModel {
        match self {
            Projection::Text(s) => ProjectionModel::Text(s@),
            Projection::Value(v) => ProjectionModel::Value(host_model(*v)),
        }
    }
}

/// What each projection key yields of a wrapped BSON value; nothing for a
/// key the wrapper does not offer.
pub open spec fn index_spec(b: BsonModel, key: Seq<char>) -> Option<ProjectionModel> {
    if key == "as_json"@ || key == "as_relaxed_json"@ {
        Some(ProjectionModel::Text(crate::json::ext_json(b, false)))
    } else if key == "as_canonical_json"@ {
        Some(ProjectionModel::Text(crate::json::ext_json(b, true)))
    } else if key == "as_lua"@ {
        Some(ProjectionModel::Value(crate::from::spec_decode(b)))
    } else {
        None
    }
}

/// Wrap a finished BSON value as a generic document handle that offers
/// the field-style projections.
pub fn bson_new(b: BsonValue) -> (h: BsonHandle)
    ensures
        h@ == (HandleKind::Wrapped, b@),
{
    BsonHandle::make(HandleKind::Wrapped, b)
}

/// Encode a host value and wrap the result as a generic document handle.
pub fn bson(v: &HostValue) -> (r: Result<BsonHandle, BridgeError>)
    ensures
        r is Ok <==> spec_encode(v@) is Some,
        r matches Ok(h) ==> h@.0 == HandleKind::Wrapped && Some(h@.1) == spec_encode(v@),
        r is Err ==> r == Err::<BsonHandle, BridgeError>(BridgeError::InvalidKeyType),
{
    match coerce(v) {
        Ok(b) => Ok(bson_new(b)),
        Err(e) => Err(e),
    }
}

/// The default textual rendering of a wrapped value: its relaxed
/// extended JSON.
pub fn bson_tostring(h: &BsonHandle) -> (r: String)
    ensures
        r@ == crate::json::ext_json(h@.1, false),
{
    crate::json::bson_to_json(&h.payload, false)
}

/// Field-style projection on a wrapped value: the JSON projections under
/// their three names, the decoded host value under "as_lua", and an
/// error for any other key.
pub fn bson_index(h: &BsonHandle, key: &str) -> (r: Result<Projection, BridgeError>)
    requires
        crate::from::index_safe(h@.1),
    ensures
        r is Ok <==> index_spec(h@.1, key@) is Some,
        r matches Ok(p) ==> Some(p@) == index_spec(h@.1, key@),
        r is Err ==> r == Err::<Projection, BridgeError>(BridgeError::InvalidIndexKey),
{
    let k = String::from_str(key);
    if k == String::from_str("as_json") || k == String::from_str("as_relaxed_json") {
        Ok(Projection::Text(crate::json::bson_to_json(&h.payload, false)))
    } else if k == String::from_str("as_canonical_json") {
        Ok(Projection::Text(crate::json::bson_to_json(&h.payload, true)))
    } else if k == String::from_str("as_lua") {
        Ok(Projection::Value(crate::from::bson_to_lua(&h.payload)))
    } else {
        Err(BridgeError::InvalidIndexKey)
    }
}

} // verus!
