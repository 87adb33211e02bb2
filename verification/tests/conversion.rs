//! The conversion engine end to end: encoding, decoding, the probe, and
//! the constructors.

use bson_bridge::value::{BsonValue, HostKey, HostValue, HandleKind};
use bson_bridge::registry::{
    BridgeError, objectid_new, datetime_new, timestamp_new, binary_new, regex_new, code_new,
    minkey_new, maxkey_new, decimal128_new, render, objectid, datetime, timestamp, binary, regex,
    code, decimal128,
};
use bson_bridge::from::bson_to_lua;
use bson_bridge::to::{coerce, table_len, int_to_string, bson, bson_new};

fn entry(k: HostKey, v: HostValue) -> (HostKey, HostValue) {
    (k, v)
}

#[test]
fn roundtrip_nil() {
    let b = coerce(&HostValue::Nil).unwrap();
    assert_eq!(b, BsonValue::Null);
    assert_eq!(bson_to_lua(&b), HostValue::Nil);
}

#[test]
fn roundtrip_boolean() {
    let b = coerce(&HostValue::Boolean(true)).unwrap();
    assert_eq!(b, BsonValue::Boolean(true));
    assert_eq!(bson_to_lua(&b), HostValue::Boolean(true));
}

#[test]
fn roundtrip_string() {
    let b = coerce(&HostValue::Text(String::from("hello"))).unwrap();
    assert_eq!(b, BsonValue::Text(String::from("hello")));
    assert_eq!(bson_to_lua(&b), HostValue::Text(String::from("hello")));
}

#[test]
fn roundtrip_small_integer() {
    let b = coerce(&HostValue::Int(42)).unwrap();
    assert_eq!(b, BsonValue::Int32(42));
    assert_eq!(bson_to_lua(&b), HostValue::Int(42));
}

#[test]
fn roundtrip_double() {
    let bits = (42.5f64).to_bits();
    let b = coerce(&HostValue::Double(bits)).unwrap();
    assert_eq!(b, BsonValue::Double(bits));
    assert_eq!(bson_to_lua(&b), HostValue::Double(bits));
}

#[test]
fn integer_widening() {
    assert_eq!(coerce(&HostValue::Int(42)).unwrap(), BsonValue::Int32(42));
    assert_eq!(
        coerce(&HostValue::Int(2147483648)).unwrap(),
        BsonValue::Int64(2147483648)
    );
    assert_eq!(
        coerce(&HostValue::Int(-2147483649)).unwrap(),
        BsonValue::Int64(-2147483649)
    );
    let bits = (42.5f64).to_bits();
    assert_eq!(coerce(&HostValue::Double(bits)).unwrap(), BsonValue::Double(bits));
}

#[test]
fn contiguous_table_becomes_array() {
    let t = HostValue::Table(vec![
        entry(HostKey::Int(1), HostValue::Int(10)),
        entry(HostKey::Int(2), HostValue::Int(20)),
        entry(HostKey::Int(3), HostValue::Int(30)),
    ]);
    let b = coerce(&t).unwrap();
    assert_eq!(
        b,
        BsonValue::Array(vec![
            BsonValue::Int32(10),
            BsonValue::Int32(20),
            BsonValue::Int32(30)
        ])
    );
}

#[test]
fn out_of_order_positions_still_an_array() {
    let t = HostValue::Table(vec![
        entry(HostKey::Int(2), HostValue::Int(20)),
        entry(HostKey::Int(1), HostValue::Int(10)),
    ]);
    let b = coerce(&t).unwrap();
    assert_eq!(
        b,
        BsonValue::Array(vec![BsonValue::Int32(10), BsonValue::Int32(20)])
    );
}

#[test]
fn extra_key_becomes_document() {
    let t = HostValue::Table(vec![
        entry(HostKey::Int(1), HostValue::Int(10)),
        entry(HostKey::Int(2), HostValue::Int(20)),
        entry(HostKey::Text(String::from("x")), HostValue::Int(99)),
    ]);
    let b = coerce(&t).unwrap();
    assert_eq!(
        b,
        BsonValue::Document(vec![
            (String::from("1"), BsonValue::Int32(10)),
            (String::from("2"), BsonValue::Int32(20)),
            (String::from("x"), BsonValue::Int32(99)),
        ])
    );
}

#[test]
fn sparse_positions_become_a_document() {
    let t = HostValue::Table(vec![
        entry(HostKey::Int(1), HostValue::Int(10)),
        entry(HostKey::Int(3), HostValue::Int(30)),
    ]);
    let b = coerce(&t).unwrap();
    assert_eq!(
        b,
        BsonValue::Document(vec![
            (String::from("1"), BsonValue::Int32(10)),
            (String::from("3"), BsonValue::Int32(30)),
        ])
    );
}

#[test]
fn empty_table_always_a_document() {
    let t = HostValue::Table(vec![]);
    let b = coerce(&t).unwrap();
    assert_eq!(b, BsonValue::Document(vec![]));
    let back = bson_to_lua(&b);
    assert_eq!(back, HostValue::Table(vec![]));
    let again = coerce(&back).unwrap();
    assert_eq!(again, BsonValue::Document(vec![]));
}

#[test]
fn invalid_key_rejected_whole() {
    let t = HostValue::Table(vec![
        entry(HostKey::Text(String::from("ok")), HostValue::Int(1)),
        entry(HostKey::Invalid, HostValue::Int(2)),
    ]);
    assert_eq!(coerce(&t), Err(BridgeError::InvalidKeyType));
}

#[test]
fn nested_invalid_key_rejected() {
    let inner = HostValue::Table(vec![entry(HostKey::Invalid, HostValue::Nil)]);
    let t = HostValue::Table(vec![entry(HostKey::Int(1), inner)]);
    assert_eq!(coerce(&t), Err(BridgeError::InvalidKeyType));
}

#[test]
fn duplicate_stringified_keys_keep_first_position() {
    let t = HostValue::Table(vec![
        entry(HostKey::Text(String::from("1")), HostValue::Int(5)),
        entry(HostKey::Text(String::from("b")), HostValue::Int(6)),
        entry(HostKey::Int(1), HostValue::Int(7)),
    ]);
    let b = coerce(&t).unwrap();
    assert_eq!(
        b,
        BsonValue::Document(vec![
            (String::from("1"), BsonValue::Int32(7)),
            (String::from("b"), BsonValue::Int32(6)),
        ])
    );
}

#[test]
fn probe_is_untouched_and_exact() {
    let arr = vec![
        entry(HostKey::Int(1), HostValue::Nil),
        entry(HostKey::Int(2), HostValue::Nil),
    ];
    assert_eq!(table_len(&arr), Some(2));
    let empty: Vec<(HostKey, HostValue)> = vec![];
    assert_eq!(table_len(&empty), None);
    let sparse = vec![
        entry(HostKey::Int(1), HostValue::Nil),
        entry(HostKey::Int(3), HostValue::Nil),
    ];
    assert_eq!(table_len(&sparse), None);
}

#[test]
fn handle_reembedded_verbatim() {
    let h = timestamp_new(5, Some(7));
    let b = coerce(&HostValue::Handle(h)).unwrap();
    assert_eq!(b, BsonValue::Timestamp(5, 7));
    let back = bson_to_lua(&b);
    match back {
        HostValue::Handle(h2) => {
            assert_eq!(h2.kind_of(), HandleKind::Timestamp);
            assert_eq!(render(&h2).unwrap(), "Timestamp(5, 7)");
        }
        other => panic!("expected a handle, got {:?}", other),
    }
}

#[test]
fn extended_kinds_decode_to_handles() {
    let back = bson_to_lua(&BsonValue::ObjectId([0xab; 12]));
    match back {
        HostValue::Handle(h) => {
            assert_eq!(h.kind_of(), HandleKind::ObjectId);
            assert_eq!(render(&h).unwrap(), "abababababababababababab");
        }
        other => panic!("expected a handle, got {:?}", other),
    }
}

#[test]
fn decoded_array_uses_one_based_positions() {
    let b = BsonValue::Array(vec![BsonValue::Int32(7), BsonValue::Boolean(false)]);
    let back = bson_to_lua(&b);
    assert_eq!(
        back,
        HostValue::Table(vec![
            entry(HostKey::Int(1), HostValue::Int(7)),
            entry(HostKey::Int(2), HostValue::Boolean(false)),
        ])
    );
}

#[test]
fn decoded_document_keeps_entry_order() {
    let b = BsonValue::Document(vec![
        (String::from("b"), BsonValue::Int32(2)),
        (String::from("a"), BsonValue::Int32(1)),
    ]);
    let back = bson_to_lua(&b);
    assert_eq!(
        back,
        HostValue::Table(vec![
            entry(HostKey::Text(String::from("b")), HostValue::Int(2)),
            entry(HostKey::Text(String::from("a")), HostValue::Int(1)),
        ])
    );
}

#[test]
fn objectid_parses_strictly() {
    let h = objectid_new(Some(String::from("507f1f77bcf86cd799439011"))).unwrap();
    assert_eq!(render(&h).unwrap(), "507f1f77bcf86cd799439011");
    assert_eq!(
        objectid_new(Some(String::from("not-hex"))),
        Err(BridgeError::InvalidObjectId)
    );
    assert_eq!(
        objectid_new(Some(String::from("507f1f77bcf86cd79943901"))),
        Err(BridgeError::InvalidObjectId)
    );
}

#[test]
fn objectid_uppercase_renders_lowercase() {
    let h = objectid_new(Some(String::from("507F1F77BCF86CD799439011"))).unwrap();
    assert_eq!(render(&h).unwrap(), "507f1f77bcf86cd799439011");
}

#[test]
fn objectid_fresh_is_well_formed() {
    let h = objectid_new(None).unwrap();
    assert_eq!(h.kind_of(), HandleKind::ObjectId);
    assert_eq!(render(&h).unwrap().len(), 24);
}

#[test]
fn datetime_renders_rfc3339() {
    let h = datetime_new(Some(0));
    assert_eq!(render(&h).unwrap(), "1970-01-01T00:00:00Z");
}

#[test]
fn datetime_out_of_range_renders_sentinel() {
    let h = datetime_new(Some(i64::MAX));
    assert_eq!(render(&h).unwrap(), "Invalid DateTime");
}

#[test]
fn binary_renders_utf8() {
    let h = binary_new(b"hello".to_vec());
    assert_eq!(render(&h).unwrap(), "Binary(hello)");
}

#[test]
fn binary_refuses_non_utf8() {
    let h = binary_new(vec![0xff, 0xfe]);
    assert_eq!(render(&h), Err(BridgeError::NonUtf8Binary));
}

#[test]
fn regex_code_and_keys_render() {
    assert_eq!(
        render(&regex_new(String::from("^a+$"), String::from("i"))).unwrap(),
        "Regex(^a+$, i)"
    );
    assert_eq!(render(&code_new(String::from("return 1"))).unwrap(), "Code(return 1)");
    assert_eq!(render(&minkey_new()).unwrap(), "MinKey");
    assert_eq!(render(&maxkey_new()).unwrap(), "MaxKey");
}

#[test]
fn decimal128_renders_its_value() {
    let h = decimal128_new([0u8; 16]);
    let text = render(&h).unwrap();
    let again = render(&decimal128_new([0u8; 16])).unwrap();
    assert_eq!(text, again);
    assert!(text.contains('0'));
}

#[test]
fn host_callable_constructors_check_arguments() {
    assert_eq!(
        datetime(&vec![HostValue::Text(String::from("no"))]),
        Err(BridgeError::InvalidArgument)
    );
    assert!(datetime(&vec![]).is_ok());
    assert!(datetime(&vec![HostValue::Int(5)]).is_ok());
    assert_eq!(timestamp(&vec![]), Err(BridgeError::InvalidArgument));
    assert!(timestamp(&vec![HostValue::Int(9)]).is_ok());
    assert!(binary(&vec![HostValue::Text(String::from("x"))]).is_ok());
    assert_eq!(binary(&vec![]), Err(BridgeError::InvalidArgument));
    assert!(regex(&vec![HostValue::Text(String::from("p"))]).is_ok());
    assert!(code(&vec![HostValue::Text(String::from("c"))]).is_ok());
    assert!(objectid(&vec![]).is_ok());
    let h = objectid(&vec![HostValue::Text(String::from("507f1f77bcf86cd799439011"))]).unwrap();
    assert_eq!(render(&h).unwrap(), "507f1f77bcf86cd799439011");
    assert_eq!(
        objectid(&vec![HostValue::Text(String::from("zz"))]),
        Err(BridgeError::InvalidObjectId)
    );
}

#[test]
fn decimal128_length_is_checked() {
    assert_eq!(
        decimal128(&vec![HostValue::Text(String::from("short"))]),
        Err(BridgeError::InvalidDecimal128Length)
    );
    assert!(decimal128(&vec![HostValue::Text(String::from("0123456789abcdef"))]).is_ok());
}

#[test]
fn int_to_string_extremes() {
    assert_eq!(int_to_string(0), "0");
    assert_eq!(int_to_string(-1), "-1");
    assert_eq!(int_to_string(i64::MIN), "-9223372036854775808");
    assert_eq!(int_to_string(i64::MAX), "9223372036854775807");
}

#[test]
fn from_lua_wraps_the_encoding() {
    let h = bson(&HostValue::Int(7)).unwrap();
    assert_eq!(h.kind_of(), HandleKind::Wrapped);
    assert_eq!(h.unwrap(), BsonValue::Int32(7));
    let w = bson_new(BsonValue::MinKey);
    assert_eq!(w.kind_of(), HandleKind::Wrapped);
}

#[test]
fn unconvertible_host_value_falls_back_to_null() {
    assert_eq!(coerce(&HostValue::Other).unwrap(), BsonValue::Null);
    let t = HostValue::Table(vec![entry(HostKey::Int(1), HostValue::Other)]);
    assert_eq!(
        coerce(&t).unwrap(),
        BsonValue::Array(vec![BsonValue::Null])
    );
}

#[test]
fn datetime_rfc3339_year_bounds() {
    let h = datetime_new(Some(253402300799000));
    assert_eq!(render(&h).unwrap(), "9999-12-31T23:59:59Z");
    let h2 = datetime_new(Some(253402300800000));
    assert_eq!(render(&h2).unwrap(), "Invalid DateTime");
    let h3 = datetime_new(Some(-62167219200000));
    assert_eq!(render(&h3).unwrap(), "0000-01-01T00:00:00Z");
    let h4 = datetime_new(Some(-62167219200001));
    assert_eq!(render(&h4).unwrap(), "Invalid DateTime");
}
