//! The projection layer: canonical and relaxed extended JSON, the
//! wrapped-handle field projections, and its default text rendering.

use bson_bridge::value::{BsonValue, HostKey, HostValue};
use bson_bridge::registry::BridgeError;
use bson_bridge::to::{bson, bson_new, bson_index, bson_tostring, Projection};
use bson_bridge::json::{bson_to_json, to_debug_string};

#[test]
fn relaxed_integer_is_bare() {
    assert_eq!(bson_to_json(&BsonValue::Int32(42), false), "42");
    assert_eq!(bson_to_json(&BsonValue::Int64(-7), false), "-7");
}

#[test]
fn canonical_integer_is_wrapped() {
    assert_eq!(
        bson_to_json(&BsonValue::Int32(42), true),
        "{\"$numberInt\":\"42\"}"
    );
    assert_eq!(
        bson_to_json(&BsonValue::Int64(2147483648), true),
        "{\"$numberLong\":\"2147483648\"}"
    );
}

#[test]
fn objectid_is_wrapped_in_both_modes() {
    let b = BsonValue::ObjectId([
        0x50, 0x7f, 0x1f, 0x77, 0xbc, 0xf8, 0x6c, 0xd7, 0x99, 0x43, 0x90, 0x11,
    ]);
    let expected = "{\"$oid\":\"507f1f77bcf86cd799439011\"}";
    assert_eq!(bson_to_json(&b, false), expected);
    assert_eq!(bson_to_json(&b, true), expected);
}

#[test]
fn null_boolean_string_forms() {
    assert_eq!(bson_to_json(&BsonValue::Null, false), "null");
    assert_eq!(bson_to_json(&BsonValue::Boolean(true), false), "true");
    assert_eq!(
        bson_to_json(&BsonValue::Text(String::from("hi")), false),
        "\"hi\""
    );
}

#[test]
fn string_escaping() {
    let b = BsonValue::Text(String::from("a\"b\\c\nd\u{1}"));
    assert_eq!(bson_to_json(&b, false), "\"a\\\"b\\\\c\\nd\\u0001\"");
}

#[test]
fn arrays_and_documents_nest() {
    let b = BsonValue::Array(vec![
        BsonValue::Int32(1),
        BsonValue::Document(vec![
            (String::from("a"), BsonValue::Null),
            (String::from("b"), BsonValue::Boolean(false)),
        ]),
    ]);
    assert_eq!(bson_to_json(&b, false), "[1,{\"a\":null,\"b\":false}]");
}

#[test]
fn double_json_forms() {
    let bits = (42.5f64).to_bits();
    assert_eq!(bson_to_json(&BsonValue::Double(bits), false), "42.5");
    assert_eq!(
        bson_to_json(&BsonValue::Double(bits), true),
        "{\"$numberDouble\":\"42.5\"}"
    );
}

#[test]
fn datetime_json_forms() {
    assert_eq!(
        bson_to_json(&BsonValue::DateTime(0), false),
        "{\"$date\":\"1970-01-01T00:00:00Z\"}"
    );
    assert_eq!(
        bson_to_json(&BsonValue::DateTime(0), true),
        "{\"$date\":{\"$numberLong\":\"0\"}}"
    );
    assert_eq!(
        bson_to_json(&BsonValue::DateTime(-5), false),
        "{\"$date\":{\"$numberLong\":\"-5\"}}"
    );
}

#[test]
fn binary_json_uses_base64() {
    let b = BsonValue::Binary(b"Man".to_vec());
    assert_eq!(
        bson_to_json(&b, false),
        "{\"$binary\":{\"base64\":\"TWFu\",\"subType\":\"00\"}}"
    );
    let b2 = BsonValue::Binary(b"M".to_vec());
    assert_eq!(
        bson_to_json(&b2, false),
        "{\"$binary\":{\"base64\":\"TQ==\",\"subType\":\"00\"}}"
    );
}

#[test]
fn extended_wrappers() {
    assert_eq!(
        bson_to_json(&BsonValue::Regex(String::from("^a"), String::from("i")), false),
        "{\"$regularExpression\":{\"pattern\":\"^a\",\"options\":\"i\"}}"
    );
    assert_eq!(
        bson_to_json(&BsonValue::Code(String::from("x=1")), false),
        "{\"$code\":\"x=1\"}"
    );
    assert_eq!(
        bson_to_json(&BsonValue::Timestamp(5, 7), false),
        "{\"$timestamp\":{\"t\":5,\"i\":7}}"
    );
    assert_eq!(bson_to_json(&BsonValue::MinKey, false), "{\"$minKey\":1}");
    assert_eq!(bson_to_json(&BsonValue::MaxKey, false), "{\"$maxKey\":1}");
}

#[test]
fn wrapped_handle_projections() {
    let t = HostValue::Table(vec![
        (HostKey::Int(1), HostValue::Int(10)),
        (HostKey::Int(2), HostValue::Int(20)),
    ]);
    let h = bson(&t).unwrap();
    match bson_index(&h, "as_json").unwrap() {
        Projection::Text(s) => assert_eq!(s, "[10,20]"),
        _ => panic!("expected text"),
    }
    match bson_index(&h, "as_relaxed_json").unwrap() {
        Projection::Text(s) => assert_eq!(s, "[10,20]"),
        _ => panic!("expected text"),
    }
    match bson_index(&h, "as_canonical_json").unwrap() {
        Projection::Text(s) => assert_eq!(
            s,
            "[{\"$numberInt\":\"10\"},{\"$numberInt\":\"20\"}]"
        ),
        _ => panic!("expected text"),
    }
    match bson_index(&h, "as_lua").unwrap() {
        Projection::Value(v) => assert_eq!(v, t),
        _ => panic!("expected a host value"),
    }
    assert_eq!(bson_index(&h, "nope"), Err(BridgeError::InvalidIndexKey));
}

#[test]
fn wrapped_handle_tostring_is_relaxed_json() {
    let h = bson_new(BsonValue::Document(vec![(
        String::from("n"),
        BsonValue::Int32(3),
    )]));
    assert_eq!(bson_tostring(&h), "{\"n\":3}");
}

#[test]
fn non_ascii_text_passes_through() {
    let b = BsonValue::Text(String::from("café"));
    assert_eq!(bson_to_json(&b, false), "\"café\"");
}

#[test]
fn debug_text_follows_the_kind_table() {
    assert_eq!(to_debug_string(&BsonValue::Timestamp(5, 7)).unwrap(), "Timestamp(5, 7)");
    assert_eq!(to_debug_string(&BsonValue::Int32(3)).unwrap(), "3");
    assert_eq!(
        to_debug_string(&BsonValue::Binary(vec![0xff])),
        Err(BridgeError::NonUtf8Binary)
    );
}
