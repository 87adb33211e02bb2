//! The value taxonomy: the closed set of BSON variants, the closed set of
//! host-value kinds, and the opaque handles that carry extended BSON values
//! through the host language; with the mathematical models of all three.

use vstd::prelude::*;

verus! {

broadcast use vstd::seq::axiom_seq_index_decreases, vstd::std_specs::vec::axiom_vec_decreases_to_view;

/// A BSON value: eight primitive kinds plus nine extended kinds.
/// `Document` preserves key insertion order; `Array` preserves position.
#[derive(Debug, PartialEq)]
pub enum BsonValue {
    Null,
    Boolean(bool),
    Int32(i32),
    Int64(i64),
    /// IEEE-754 binary64, carried by its bit pattern so that conversion is
    /// exact; the host boundary turns native doubles into bits and back.
    Double(u64),
    Text(String),
    Array(Vec<BsonValue>),
    Document(Vec<(String, BsonValue)>),
    ObjectId([u8; 12]),
    /// Milliseconds since the Unix epoch.
    DateTime(i64),
    /// Byte payload; the subtype is fixed to "generic".
    Binary(Vec<u8>),
    /// Pattern and options.
    Regex(String, String),
    Code(String),
    /// Time and increment.
    Timestamp(u32, u32),
    /// Sixteen raw bytes, interpreted per IEEE-754-2008 decimal128.
    Decimal128([u8; 16]),
    MinKey,
    MaxKey,
}

/// The model of a BSON value: the same tree over mathematical sequences.
pub enum BsonModel {
    Null,
    Boolean(bool),
    Int32(int),
    Int64(int),
    Double(u64),
    Text(Seq<char>),
    Array(Seq<BsonModel>),
    Document(Seq<(Seq<char>, BsonModel)>),
    ObjectId(Seq<u8>),
    DateTime(int),
    Binary(Seq<u8>),
    Regex(Seq<char>, Seq<char>),
    Code(Seq<char>),
    Timestamp(u32, u32),
    Decimal128(Seq<u8>),
    MinKey,
    MaxKey,
}

pub open spec fn bson_model_list(items: Seq<BsonValue>) -> Seq<BsonModel>
    decreases items,
{
    if items.len() == 0 {
        Seq::empty()
    } else {
        seq![bson_model(items[0])] + bson_model_list(items.drop_first())
    }
}

pub open spec fn bson_model_doc(entries: Seq<(String, BsonValue)>) -> Seq<(Seq<char>, BsonModel)>
    decreases entries,
{
    if entries.len() == 0 {
        Seq::empty()
    } else {
        seq![(entries[0].0@, bson_model(entries[0].1))] + bson_model_doc(entries.drop_first())
    }
}

pub open spec fn bson_model(b: BsonValue) -> BsonModel
    decreases b,
{
    match b {
        BsonValue::Null => BsonModel::Null,
        BsonValue::Boolean(x) => BsonModel::Boolean(x),
        BsonValue::Int32(x) => BsonModel::Int32(x as int),
        BsonValue::Int64(x) => BsonModel::Int64(x as int),
        BsonValue::Double(x) => BsonModel::Double(x),
        BsonValue::Text(s) => BsonModel::Text(s@),
        BsonValue::Array(items) => BsonModel::Array(bson_model_list(items@)),
        BsonValue::Document(entries) => BsonModel::Document(bson_model_doc(entries@)),
        BsonValue::ObjectId(id) => BsonModel::ObjectId(id@),
        BsonValue::DateTime(ms) => BsonModel::DateTime(ms as int),
        BsonValue::Binary(bytes) => BsonModel::Binary(bytes@),
        BsonValue::Regex(p, o) => BsonModel::Regex(p@, o@),
        BsonValue::Code(c) => BsonModel::Code(c@),
        BsonValue::Timestamp(t, i) => BsonModel::Timestamp(t, i),
        BsonValue::Decimal128(bytes) => BsonModel::Decimal128(bytes@),
        BsonValue::MinKey => BsonModel::MinKey,
        BsonValue::MaxKey => BsonModel::MaxKey,
    }
}

impl View for BsonValue {
    type V = BsonModel;

    open spec fn view(&self) -> BsonModel {
        bson_model(*self)
    }
}

/// How `bson_model_list` relates to its elements, stated pointwise.
pub proof fn lemma_bson_model_list(items: Seq<BsonValue>)
    ensures
        bson_model_list(items).len() == items.len(),
        forall|i: int|
            0 <= i < items.len() ==> bson_model_list(items)[i] == bson_model(#[trigger] items[i]),
    decreases items,
{
    if items.len() > 0 {
        lemma_bson_model_list(items.drop_first());
        assert forall|i: int| 0 <= i < items.len() implies bson_model_list(items)[i] == bson_model(
            #[trigger] items[i],
        ) by {
            if i > 0 {
                assert(items.drop_first()[i - 1] == items[i]);
            }
        }
    }
}

/// How `bson_model_doc` relates to its entries, stated pointwise.
pub proof fn lemma_bson_model_doc(entries: Seq<(String, BsonValue)>)
    ensures
        bson_model_doc(entries).len() == entries.len(),
        forall|i: int|
            0 <= i < entries.len() ==> bson_model_doc(entries)[i] == ((#[trigger] entries[i]).0@,
            bson_model(entries[i].1)),
    decreases entries,
{
    if entries.len() > 0 {
        lemma_bson_model_doc(entries.drop_first());
        assert forall|i: int| 0 <= i < entries.len() implies bson_model_doc(entries)[i] == ((
        #[trigger] entries[i]).0@, bson_model(entries[i].1)) by {
            if i > 0 {
                assert(entries.drop_first()[i - 1] == entries[i]);
            }
        }
    }
}

/// The identity of an opaque handle: one of the nine extended BSON kinds,
/// or `Wrapped` for a handle that carries a whole encoded value.
#[derive(Clone, Copy, PartialEq, Eq, Structural, Debug)]
pub enum HandleKind {
    ObjectId,
    DateTime,
    Timestamp,
    Binary,
    Regex,
    Code,
    MinKey,
    MaxKey,
    Decimal128,
    Wrapped,
}

/// An opaque handle: a kind tag for validating later unwrap attempts, and
/// the exclusively owned BSON payload it carries through the host language.
#[derive(Debug, PartialEq)]
pub struct BsonHandle {
    pub kind: HandleKind,
    pub payload: BsonValue,
}

impl View for BsonHandle {
    type V = (HandleKind, BsonModel);

    open spec fn view(&self) -> (HandleKind, BsonModel) {
        (self.kind, bson_model(self.payload))
    }
}

/// The extended kind a BSON value decodes to, if any.
pub open spec fn extended_kind_of(b: BsonModel) -> Option<HandleKind> {
    match b {
        BsonModel::ObjectId(_) => Some(HandleKind::ObjectId),
        BsonModel::DateTime(_) => Some(HandleKind::DateTime),
        BsonModel::Timestamp(_, _) => Some(HandleKind::Timestamp),
        BsonModel::Binary(_) => Some(HandleKind::Binary),
        BsonModel::Regex(_, _) => Some(HandleKind::Regex),
        BsonModel::Code(_) => Some(HandleKind::Code),
        BsonModel::MinKey => Some(HandleKind::MinKey),
        BsonModel::MaxKey => Some(HandleKind::MaxKey),
        BsonModel::Decimal128(_) => Some(HandleKind::Decimal128),
        _ => None,
    }
}

/// A handle is well formed when its kind tag matches its payload.
/// A `Wrapped` handle may carry any BSON value.
pub open spec fn handle_wf(kind: HandleKind, payload: BsonModel) -> bool {
    kind == HandleKind::Wrapped || extended_kind_of(payload) == Some(kind)
}

/// A key of the host's hybrid container. The encoder accepts integer and
/// string keys; `Invalid` stands for every other host key kind (booleans,
/// containers, functions), which the encoder rejects. A non-integral number
/// key reaches the engine already rendered to text by the host runtime.
#[derive(Debug, PartialEq)]
pub enum HostKey {
    Int(i64),
    Text(String),
    Invalid,
}

/// The model of a host key.
pub enum KeyModel {
    Int(int),
    Text(Seq<char>),
    Invalid,
}

/// A host scripting value: nil, boolean, number, string, the hybrid
/// associative/sequential container, or an opaque handle. A host number is
/// carried as `Int` when it is exactly integral and in signed 64-bit range,
/// and otherwise as the bit pattern of its IEEE-754 binary64 value; the
/// host boundary performs that classification.
#[derive(Debug, PartialEq)]
pub enum HostValue {
    Nil,
    Boolean(bool),
    Int(i64),
    Double(u64),
    Text(String),
    Table(Vec<(HostKey, HostValue)>),
    Handle(BsonHandle),
    /// Any other host kind (a function, a thread, foreign userdata): the
    /// encoder maps it to null on purpose rather than failing.
    Other,
}

/// The model of a host value.
pub enum HostModel {
    Nil,
    Boolean(bool),
    Int(int),
    Double(u64),
    Text(Seq<char>),
    Table(Seq<(KeyModel, HostModel)>),
    Handle(HandleKind, BsonModel),
    Other,
}

pub open spec fn key_model(k: HostKey) -> KeyModel {
    match k {
        HostKey::Int(i) => KeyModel::Int(i as int),
        HostKey::Text(s) => KeyModel::Text(s@),
        HostKey::Invalid => KeyModel::Invalid,
    }
}

impl View for HostKey {
    type V = KeyModel;

    open spec fn view(&self) -> KeyModel {
        key_model(*self)
    }
}

pub open spec fn host_model_table(entries: Seq<(HostKey, HostValue)>) -> Seq<(KeyModel, HostModel)>
    decreases entries,
{
    if entries.len() == 0 {
        Seq::empty()
    } else {
        seq![(key_model(entries[0].0), host_model(entries[0].1))] + host_model_table(
            entries.drop_first(),
        )
    }
}

pub open spec fn host_model(v: HostValue) -> HostModel
    decreases v,
{
    match v {
        HostValue::Nil => HostModel::Nil,
        HostValue::Boolean(x) => HostModel::Boolean(x),
        HostValue::Int(i) => HostModel::Int(i as int),
        HostValue::Double(bits) => HostModel::Double(bits),
        HostValue::Text(s) => HostModel::Text(s@),
        HostValue::Table(entries) => HostModel::Table(host_model_table(entries@)),
        HostValue::Handle(h) => HostModel::Handle(h.kind, bson_model(h.payload)),
        HostValue::Other => HostModel::Other,
    }
}

impl View for HostValue {
    type V = HostModel;

    open spec fn view(&self) -> HostModel {
        host_model(*self)
    }
}

/// How `host_model_table` relates to its entries, stated pointwise.
pub proof fn lemma_host_model_table(entries: Seq<(HostKey, HostValue)>)
    ensures
        host_model_table(entries).len() == entries.len(),
        forall|i: int|
            0 <= i < entries.len() ==> host_model_table(entries)[i] == (key_model(
                (#[trigger] entries[i]).0,
            ), host_model(entries[i].1)),
    decreases entries,
{
    if entries.len() > 0 {
        lemma_host_model_table(entries.drop_first());
        assert forall|i: int| 0 <= i < entries.len() implies host_model_table(entries)[i] == (
        key_model((#[trigger] entries[i]).0), host_model(entries[i].1)) by {
            if i > 0 {
                assert(entries.drop_first()[i - 1] == entries[i]);
            }
        }
    }
}

/// A table's keys are mutually distinct; `Invalid` keys are opaque and are
/// not compared.
pub open spec fn table_keys_distinct(t: Seq<(KeyModel, HostModel)>) -> bool {
    forall|i: int, j: int|
        0 <= i < j < t.len() && (#[trigger] t[i]).0 != KeyModel::Invalid ==> t[i].0 != (
        #[trigger] t[j]).0
}

/// The decimal digit character for `d` in 0..10.
pub open spec fn dec_digit(d: int) -> char {
    if d == 0 {
        '0'
    } else if d == 1 {
        '1'
    } else if d == 2 {
        '2'
    } else if d == 3 {
        '3'
    } else if d == 4 {
        '4'
    } else if d == 5 {
        '5'
    } else if d == 6 {
        '6'
    } else if d == 7 {
        '7'
    } else if d == 8 {
        '8'
    } else {
        '9'
    }
}

/// The decimal digits of a positive integer, most significant first.
pub open spec fn dec_digits(n: int) -> Seq<char>
    decreases n,
{
    if n <= 0 {
        Seq::empty()
    } else {
        dec_digits(n / 10).push(dec_digit(n % 10))
    }
}

/// The usual decimal rendering of an integer.
pub open spec fn dec_int(i: int) -> Seq<char> {
    if i == 0 {
        seq!['0']
    } else if i < 0 {
        seq!['-'] + dec_digits(-i)
    } else {
        dec_digits(i)
    }
}

/// The lowercase hexadecimal digit for `d` in 0..16.
pub open spec fn hex_digit(d: int) -> char {
    if d < 10 {
        dec_digit(d)
    } else if d == 10 {
        'a'
    } else if d == 11 {
        'b'
    } else if d == 12 {
        'c'
    } else if d == 13 {
        'd'
    } else if d == 14 {
        'e'
    } else {
        'f'
    }
}

/// Lowercase hexadecimal text of a byte sequence, two digits per byte.
pub open spec fn hex_of(bytes: Seq<u8>) -> Seq<char>
    decreases bytes,
{
    if bytes.len() == 0 {
        Seq::empty()
    } else {
        seq![hex_digit(bytes[0] as int / 16), hex_digit(bytes[0] as int % 16)] + hex_of(
            bytes.drop_first(),
        )
    }
}

/// Whether `c` is a hexadecimal digit, either case.
pub open spec fn is_hex_char(c: char) -> bool {
    ('0' <= c && c <= '9') || ('a' <= c && c <= 'f') || ('A' <= c && c <= 'F')
}

/// The value of a hexadecimal digit character.
pub open spec fn hex_char_val(c: char) -> int {
    if '0' <= c && c <= '9' {
        c as int - '0' as int
    } else if 'a' <= c && c <= 'f' {
        10 + c as int - 'a' as int
    } else {
        10 + c as int - 'A' as int
    }
}

/// The bytes read from an even-length hexadecimal text.
pub open spec fn hex_bytes_of(s: Seq<char>) -> Seq<u8>
    decreases s,
{
    if s.len() < 2 {
        Seq::empty()
    } else {
        seq![(hex_char_val(s[0]) * 16 + hex_char_val(s[1])) as u8] + hex_bytes_of(s.skip(2))
    }
}

} // verus!
