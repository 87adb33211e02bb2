//! The opaque handle registry: construction of handles for the nine
//! extended BSON kinds, their kind identity, payload extraction, and the
//! kind-specific textual rendering.

use vstd::prelude::*;
use vstd::string::{StringExecFns, StrSliceExecFns};
use crate::value::{
    BsonValue, BsonModel, BsonHandle, HandleKind, HostValue, handle_wf, extended_kind_of, hex_of,
    hex_bytes_of, is_hex_char, dec_int,
};
use crate::foreign::{
    oid_parse, oid_hex, oid_fresh, current_millis, rfc3339_text, rfc3339_of, rfc3339_in_range,
    timestamp_text, decimal128_text, decimal128_text_of, utf8_text,
};

verus! {

/// The errors this engine can surface to the host.
#[derive(Clone, Copy, PartialEq, Eq, Structural, Debug)]
pub enum BridgeError {
    /// A textual object id that is not 24 hexadecimal digits.
    InvalidObjectId,
    /// A decimal128 byte string whose length is not exactly 16.
    InvalidDecimal128Length,
    /// A map-like container key that is neither a string nor a number.
    InvalidKeyType,
    /// A field-style projection key that no wrapped value offers.
    InvalidIndexKey,
    /// A binary payload rendered as text although it is not UTF-8.
    NonUtf8Binary,
    /// A host-callable operation handed a value of the wrong kind.
    InvalidArgument,
}

impl BsonHandle {
    /// Construct a handle of the given kind around a fully formed payload
    /// of that kind (any payload for `Wrapped`).
    pub fn make(kind: HandleKind, payload: BsonValue) -> (h: BsonHandle)
        requires
            handle_wf(kind, payload@),
        ensures
            h@ == (kind, payload@),
    {
        BsonHandle { kind, payload }
    }

    /// The kind identity the encoder and unwrap validation go by.
    pub fn kind_of(&self) -> (k: HandleKind)
        ensures
            k == self@.0,
    {
        self.kind
    }

    /// Surrender the owned payload.
    pub fn unwrap(self) -> (b: BsonValue)
        ensures
            b@ == self@.1,
    {
        self.payload
    }
}

/// The text a handle of one of the nine extended kinds renders to: hex for
/// object ids; RFC 3339 (or the "Invalid DateTime" sentinel) for datetimes;
/// the labelled forms for timestamps, binary, regexes and code; the two
/// key sentinels; the canonical decimal string for decimal128. Rendering
/// is refused only for a binary payload that is not UTF-8.
pub open spec fn render_text(payload: BsonModel) -> Option<Seq<char>> {
    match payload {
        BsonModel::ObjectId(b) => Some(hex_of(b)),
        BsonModel::DateTime(ms) => Some(
            if rfc3339_in_range(ms) {
                rfc3339_of(ms)
            } else {
                "Invalid DateTime"@
            },
        ),
        BsonModel::Timestamp(t, i) => Some(
            "Timestamp("@ + dec_int(t as int) + ", "@ + dec_int(i as int) + ")"@,
        ),
        BsonModel::Binary(bytes) => if vstd::utf8::valid_utf8(bytes) {
            Some("Binary("@ + vstd::utf8::decode_utf8(bytes) + ")"@)
        } else {
            None
        },
        BsonModel::Regex(p, o) => Some("Regex("@ + p + ", "@ + o + ")"@),
        BsonModel::Code(c) => Some("Code("@ + c + ")"@),
        BsonModel::MinKey => Some("MinKey"@),
        BsonModel::MaxKey => Some("MaxKey"@),
        BsonModel::Decimal128(b) => Some(decimal128_text_of(b)),
        _ => None,
    }
}

/// Copy a byte vector.
pub fn clone_bytes(v: &Vec<u8>) -> (r: Vec<u8>)
    ensures
        r@ == v@,
{
    let mut r: Vec<u8> = Vec::new();
    let mut i: usize = 0;
    while i < v.len()
        invariant
            i <= v.len(),
            r@ == v@.take(i as int),
        decreases v.len() - i,
    {
        r.push(v[i]);
        i = i + 1;
        proof {
            assert(r@ =~= v@.take(i as int));
        }
    }
    proof {
        assert(v@.take(v@.len() as int) =~= v@);
    }
    r
}

/// Render a handle of one of the nine extended kinds, per the kind table.
pub fn render(h: &BsonHandle) -> (r: Result<String, BridgeError>)
    requires
        handle_wf(h@.0, h@.1),
        h@.0 != HandleKind::Wrapped,
    ensures
        r matches Ok(s) ==> render_text(h@.1) == Some(s@),
        r is Err <==> render_text(h@.1) is None,
        r is Err ==> r == Err::<String, BridgeError>(BridgeError::NonUtf8Binary),
{
    match &h.payload {
        BsonValue::ObjectId(b) => Ok(oid_hex(b)),
        BsonValue::DateTime(ms) => match rfc3339_text(*ms) {
            Some(s) => Ok(s),
            None => Ok(String::from_str("Invalid DateTime")),
        },
        BsonValue::Timestamp(t, i) => Ok(timestamp_text(*t, *i)),
        BsonValue::Binary(bytes) => match utf8_text(clone_bytes(bytes)) {
            Some(s) => {
                let mut out = String::from_str("Binary(");
                out.append(s.as_str());
                out.append(")");
                proof {
                    assert(out@ =~= "Binary("@ + vstd::utf8::decode_utf8(bytes@) + ")"@);
                }
                Ok(out)
            },
            None => Err(BridgeError::NonUtf8Binary),
        },
        BsonValue::Regex(p, o) => {
            let mut out = String::from_str("Regex(");
            out.append(p.as_str());
            out.append(", ");
            out.append(o.as_str());
            out.append(")");
            proof {
                assert(out@ =~= "Regex("@ + p@ + ", "@ + o@ + ")"@);
            }
            Ok(out)
        },
        BsonValue::Code(c) => {
            let mut out = String::from_str("Code(");
            out.append(c.as_str());
            out.append(")");
            proof {
                assert(out@ =~= "Code("@ + c@ + ")"@);
            }
            Ok(out)
        },
        BsonValue::MinKey => Ok(String::from_str("MinKey")),
        BsonValue::MaxKey => Ok(String::from_str("MaxKey")),
        BsonValue::Decimal128(b) => Ok(decimal128_text(b)),
        _ => {
            proof {
                assert(extended_kind_of(h@.1) == Some(h@.0));
                assert(false);
            }
            Err(BridgeError::InvalidArgument)
        },
    }
}

/// Build an object id handle: parse the given 24-digit hex text strictly,
/// or draw a fresh identifier when none is given.
pub fn objectid_new(oid: Option<String>) -> (r: Result<BsonHandle, BridgeError>)
    ensures
        r matches Ok(h) ==> h@.0 == HandleKind::ObjectId && (h@.1 matches BsonModel::ObjectId(b)
            && b.len() == 12),
        oid matches Some(s) ==> ((r is Ok <==> (s@.len() == 24 && forall|i: int|
            0 <= i < s@.len() ==> is_hex_char(#[trigger] s@[i]))) && (r matches Ok(h) ==> h@.1
            == BsonModel::ObjectId(hex_bytes_of(s@)))),
        oid is None ==> r is Ok,
        r is Err ==> r == Err::<BsonHandle, BridgeError>(BridgeError::InvalidObjectId),
{
    let bytes: [u8; 12] = match oid {
        Some(s) => match oid_parse(s.as_str()) {
            Some(b) => b,
            None => {
                return Err(BridgeError::InvalidObjectId);
            },
        },
        None => oid_fresh(),
    };
    proof {
        assert(bytes@.len() == 12);
    }
    Ok(BsonHandle::make(HandleKind::ObjectId, BsonValue::ObjectId(bytes)))
}

/// The host-callable object id constructor: a string argument is parsed,
/// anything else asks for a fresh identifier.
pub fn objectid(args: &Vec<HostValue>) -> (r: Result<BsonHandle, BridgeError>)
    ensures
        r matches Ok(h) ==> h@.0 == HandleKind::ObjectId && (h@.1 matches BsonModel::ObjectId(b)
            && b.len() == 12),
        args@.len() == 0 ==> r is Ok,
        args@.len() > 0 ==> (!(args@[0] matches HostValue::Text(_)) ==> r is Ok),
        args@.len() > 0 ==> (args@[0] matches HostValue::Text(s) ==> ((r is Ok <==> (s@.len()
            == 24 && forall|i: int| 0 <= i < s@.len() ==> is_hex_char(#[trigger] s@[i]))) && (r
            matches Ok(h) ==> h@.1 == BsonModel::ObjectId(hex_bytes_of(s@))))),
{
    if args.len() >= 1 {
        match &args[0] {
            HostValue::Text(s) => {
                let copy = String::from_str(s.as_str());
                return objectid_new(Some(copy));
            },
            _ => {},
        }
    }
    objectid_new(None)
}

/// Build a datetime handle from a millisecond count, or from the current
/// wall-clock time when none is given.
pub fn datetime_new(ms: Option<i64>) -> (h: BsonHandle)
    ensures
        h@.0 == HandleKind::DateTime,
        h@.1 matches BsonModel::DateTime(_),
        ms matches Some(m) ==> h@.1 == BsonModel::DateTime(m as int),
{
    let millis: i64 = match ms {
        Some(m) => m,
        None => current_millis(),
    };
    BsonHandle::make(HandleKind::DateTime, BsonValue::DateTime(millis))
}

/// The host-callable datetime constructor: an integer argument is the
/// millisecond count; with no argument the current time is taken; any
/// other argument kind is refused.
pub fn datetime(args: &Vec<HostValue>) -> (r: Result<BsonHandle, BridgeError>)
    ensures
        args@.len() == 0 ==> r is Ok,
        args@.len() > 0 ==> (r is Ok <==> args@[0] matches HostValue::Int(_)),
        r matches Ok(h) ==> h@.0 == HandleKind::DateTime && h@.1 matches BsonModel::DateTime(_),
        args@.len() > 0 ==> (args@[0] matches HostValue::Int(m) ==> (r matches Ok(h) ==> h@.1
            == BsonModel::DateTime(m as int))),
{
    if args.len() == 0 {
        return Ok(datetime_new(None));
    }
    match &args[0] {
        HostValue::Int(m) => Ok(datetime_new(Some(*m))),
        _ => Err(BridgeError::InvalidArgument),
    }
}

/// Build a timestamp handle; the increment defaults to 0.
pub fn timestamp_new(time: u32, increment: Option<u32>) -> (h: BsonHandle)
    ensures
        h@ == (HandleKind::Timestamp, BsonModel::Timestamp(
            time,
            match increment {
                Some(i) => i,
                None => 0u32,
            },
        )),
{
    let inc: u32 = match increment {
        Some(i) => i,
        None => 0,
    };
    BsonHandle::make(HandleKind::Timestamp, BsonValue::Timestamp(time, inc))
}

/// Clamp a host integer into unsigned 32-bit range: anything outside
/// becomes 0, mirroring the host boundary's lenient integer coercion.
pub fn host_int_to_u32(i: i64) -> (r: u32)
    ensures
        r == (if 0 <= i <= u32::MAX {
            i as u32
        } else {
            0u32
        }),
{
    if 0 <= i && i <= 0xffff_ffff {
        i as u32
    } else {
        0
    }
}

/// The host-callable timestamp constructor: an integer time, an optional
/// integer increment; out-of-range integers fall back to 0.
pub fn timestamp(args: &Vec<HostValue>) -> (r: Result<BsonHandle, BridgeError>)
    ensures
        args@.len() > 0 ==> (r is Ok <==> args@[0] matches HostValue::Int(_)),
        args@.len() == 0 ==> r is Err,
        args@.len() > 0 ==> (args@[0] matches HostValue::Int(time) ==> (r matches Ok(h) ==> h@.1
            == BsonModel::Timestamp(
            (if 0 <= time <= u32::MAX {
                time as u32
            } else {
                0u32
            }),
            (if args@.len() >= 2 && (args@[1] matches HostValue::Int(inc) && 0 <= inc
                <= u32::MAX) {
                args@[1]->Int_0 as u32
            } else {
                0u32
            }),
        ))),
        r matches Ok(h) ==> h@.0 == HandleKind::Timestamp && h@.1 matches BsonModel::Timestamp(
            _,
            _,
        ),
{
    if args.len() == 0 {
        return Err(BridgeError::InvalidArgument);
    }
    let time: u32 = match &args[0] {
        HostValue::Int(t) => host_int_to_u32(*t),
        _ => {
            return Err(BridgeError::InvalidArgument);
        },
    };
    let increment: Option<u32> = if args.len() >= 2 {
        match &args[1] {
            HostValue::Int(i) => Some(host_int_to_u32(*i)),
            _ => None,
        }
    } else {
        None
    };
    Ok(timestamp_new(time, increment))
}

/// Build a binary handle around a byte payload; the subtype is generic.
pub fn binary_new(bin: Vec<u8>) -> (h: BsonHandle)
    ensures
        h@ == (HandleKind::Binary, BsonModel::Binary(bin@)),
{
    BsonHandle::make(HandleKind::Binary, BsonValue::Binary(bin))
}

/// The host-callable binary constructor: takes the bytes of a host string.
pub fn binary(args: &Vec<HostValue>) -> (r: Result<BsonHandle, BridgeError>)
    ensures
        r is Ok <==> (args@.len() > 0 && args@[0] matches HostValue::Text(_)),
        args@.len() > 0 ==> (args@[0] matches HostValue::Text(s) ==> (r matches Ok(h) ==> h@ == (
        HandleKind::Binary,
        BsonModel::Binary(vstd::utf8::encode_utf8(s@)),
        ))),
{
    if args.len() == 0 {
        return Err(BridgeError::InvalidArgument);
    }
    match &args[0] {
        HostValue::Text(s) => Ok(binary_new(s.as_str().as_bytes_vec())),
        _ => Err(BridgeError::InvalidArgument),
    }
}

/// Build a regular-expression handle from pattern and options text.
pub fn regex_new(pattern: String, options: String) -> (h: BsonHandle)
    ensures
        h@ == (HandleKind::Regex, BsonModel::Regex(pattern@, options@)),
{
    BsonHandle::make(HandleKind::Regex, BsonValue::Regex(pattern, options))
}

/// The host-callable regex constructor: a pattern string, and options that
/// default to empty when absent or not a string.
pub fn regex(args: &Vec<HostValue>) -> (r: Result<BsonHandle, BridgeError>)
    ensures
        r is Ok <==> (args@.len() > 0 && args@[0] matches HostValue::Text(_)),
        args@.len() > 0 ==> (args@[0] matches HostValue::Text(p) ==> (r matches Ok(h) ==> h@.0
            == HandleKind::Regex && (h@.1 matches BsonModel::Regex(pm, _) && pm == p@))),
{
    if args.len() == 0 {
        return Err(BridgeError::InvalidArgument);
    }
    let pattern: String = match &args[0] {
        HostValue::Text(p) => String::from_str(p.as_str()),
        _ => {
            return Err(BridgeError::InvalidArgument);
        },
    };
    let options: String = if args.len() >= 2 {
        match &args[1] {
            HostValue::Text(o) => String::from_str(o.as_str()),
            _ => String::new(),
        }
    } else {
        String::new()
    };
    Ok(regex_new(pattern, options))
}

/// Build a code handle carrying the text verbatim.
pub fn code_new(code: String) -> (h: BsonHandle)
    ensures
        h@ == (HandleKind::Code, BsonModel::Code(code@)),
{
    BsonHandle::make(HandleKind::Code, BsonValue::Code(code))
}

/// The host-callable code constructor.
pub fn code(args: &Vec<HostValue>) -> (r: Result<BsonHandle, BridgeError>)
    ensures
        r is Ok <==> (args@.len() > 0 && args@[0] matches HostValue::Text(_)),
        args@.len() > 0 ==> (args@[0] matches HostValue::Text(s) ==> (r matches Ok(h) ==> h@ == (
        HandleKind::Code,
        BsonModel::Code(s@),
        ))),
{
    if args.len() == 0 {
        return Err(BridgeError::InvalidArgument);
    }
    match &args[0] {
        HostValue::Text(s) => Ok(code_new(String::from_str(s.as_str()))),
        _ => Err(BridgeError::InvalidArgument),
    }
}

/// Build the singleton-like minimum-key handle.
pub fn minkey_new() -> (h: BsonHandle)
    ensures
        h@ == (HandleKind::MinKey, BsonModel::MinKey),
{
    BsonHandle::make(HandleKind::MinKey, BsonValue::MinKey)
}

/// The host-callable minimum-key constructor.
pub fn minkey() -> (h: BsonHandle)
    ensures
        h@ == (HandleKind::MinKey, BsonModel::MinKey),
{
    minkey_new()
}

/// Build the singleton-like maximum-key handle.
pub fn maxkey_new() -> (h: BsonHandle)
    ensures
        h@ == (HandleKind::MaxKey, BsonModel::MaxKey),
{
    BsonHandle::make(HandleKind::MaxKey, BsonValue::MaxKey)
}

/// The host-callable maximum-key constructor.
pub fn maxkey() -> (h: BsonHandle)
    ensures
        h@ == (HandleKind::MaxKey, BsonModel::MaxKey),
{
    maxkey_new()
}

/// Build a decimal128 handle around exactly sixteen raw bytes; they are
/// interpreted per IEEE-754-2008 decimal128, with no validation beyond
/// the length.
pub fn decimal128_new(bytes: [u8; 16]) -> (h: BsonHandle)
    ensures
        h@ == (HandleKind::Decimal128, BsonModel::Decimal128(bytes@)),
{
    BsonHandle::make(HandleKind::Decimal128, BsonValue::Decimal128(bytes))
}

/// The host-callable decimal128 constructor: the bytes of a host string,
/// refused unless there are exactly sixteen of them.
pub fn decimal128(args: &Vec<HostValue>) -> (r: Result<BsonHandle, BridgeError>)
    ensures
        r is Ok <==> (args@.len() > 0 && (args@[0] matches HostValue::Text(s)
            && vstd::utf8::encode_utf8(s@).len() == 16)),
        args@.len() > 0 ==> (args@[0] matches HostValue::Text(s) ==> (r matches Ok(h) ==> h@ == (
        HandleKind::Decimal128,
        BsonModel::Decimal128(vstd::utf8::encode_utf8(s@)),
        ))),
{
    if args.len() == 0 {
        return Err(BridgeError::InvalidArgument);
    }
    match &args[0] {
        HostValue::Text(s) => {
            let v: Vec<u8> = s.as_str().as_bytes_vec();
            if v.len() != 16 {
                return Err(BridgeError::InvalidDecimal128Length);
            }
            let bytes: [u8; 16] = [v[0], v[1], v[2], v[3], v[4], v[5], v[6], v[7], v[8], v[9],
                v[10], v[11], v[12], v[13], v[14], v[15]];
            proof {
                assert(bytes@ =~= vstd::utf8::encode_utf8(s@));
            }
            Ok(decimal128_new(bytes))
        },
        _ => Err(BridgeError::InvalidArgument),
    }
}

} // verus!
