//! The projection layer: renders a BSON value as extended JSON text, in
//! canonical mode (every value behind an explicit type wrapper) or
//! relaxed mode (native JSON forms where unambiguous, wrappers only for
//! the extended kinds).

use vstd::prelude::*;
use vstd::string::{StringExecFns, StrSliceExecFns};
use crate::value::{
    BsonValue, BsonModel, bson_model, bson_model_list, bson_model_doc, lemma_bson_model_list,
    lemma_bson_model_doc, dec_int, hex_of, hex_digit,
};
use crate::foreign::{
    base64_of, base64_text, rfc3339_of, rfc3339_in_range, rfc3339_text, decimal128_text_of,
    decimal128_text, double_relaxed_text_of, double_canonical_text_of, double_relaxed_text,
    double_canonical_text, push_char,
};
use crate::to::int_to_string;

verus! {

broadcast use vstd::seq::axiom_seq_index_decreases, vstd::std_specs::vec::axiom_vec_decreases_to_view;

/// How one character stands inside a JSON string: quote and backslash are
/// escaped, the named control characters take their short escapes, other
/// control characters take a four-digit unicode escape, and everything
/// else stands as itself.
pub open spec fn json_escape_char(c: char) -> Seq<char> {
    if c == '"' {
        "\\\""@
    } else if c == '\\' {
        "\\\\"@
    } else if c == '\u{8}' {
        "\\b"@
    } else if c == '\t' {
        "\\t"@
    } else if c == '\n' {
        "\\n"@
    } else if c == '\u{c}' {
        "\\f"@
    } else if c == '\r' {
        "\\r"@
    } else if (c as u32) < 0x20 {
        "\\u00"@ + seq![hex_digit(c as int / 16), hex_digit(c as int % 16)]
    } else {
        seq![c]
    }
}

/// A character sequence escaped for JSON.
pub open spec fn json_escape(s: Seq<char>) -> Seq<char>
    decreases s,
{
    if s.len() == 0 {
        Seq::empty()
    } else {
        json_escape(s.drop_last()) + json_escape_char(s.last())
    }
}

/// A quoted, escaped JSON string.
pub open spec fn json_string(s: Seq<char>) -> Seq<char> {
    "\""@ + json_escape(s) + "\""@
}

/// The elements of an array as JSON, comma-joined.
pub open spec fn ext_json_list(items: Seq<BsonModel>, canonical: bool) -> Seq<char>
    decreases items,
{
    if items.len() == 0 {
        Seq::empty()
    } else if items.len() == 1 {
        ext_json(items.last(), canonical)
    } else {
        ext_json_list(items.drop_last(), canonical) + ","@ + ext_json(items.last(), canonical)
    }
}

/// The entries of a document as JSON members, comma-joined, in entry
/// order.
pub open spec fn ext_json_doc(entries: Seq<(Seq<char>, BsonModel)>, canonical: bool) -> Seq<char>
    decreases entries,
{
    if entries.len() == 0 {
        Seq::empty()
    } else if entries.len() == 1 {
        json_string(entries.last().0) + ":"@ + ext_json(entries.last().1, canonical)
    } else {
        ext_json_doc(entries.drop_last(), canonical) + ","@ + json_string(entries.last().0)
            + ":"@ + ext_json(entries.last().1, canonical)
    }
}

/// The extended JSON text of a BSON value. In relaxed mode primitives
/// take their native JSON forms and a datetime inside the four-digit-year
/// range is RFC 3339 text; in canonical mode integers, doubles and
/// datetimes carry explicit type wrappers. The nine extended kinds carry
/// wrappers in both modes.
pub open spec fn ext_json(b: BsonModel, canonical: bool) -> Seq<char>
    decreases b,
{
    match b {
        BsonModel::Null => "null"@,
        BsonModel::Boolean(x) => if x {
            "true"@
        } else {
            "false"@
        },
        BsonModel::Int32(i) => if canonical {
            "{\"$numberInt\":\""@ + dec_int(i) + "\"}"@
        } else {
            dec_int(i)
        },
        BsonModel::Int64(i) => if canonical {
            "{\"$numberLong\":\""@ + dec_int(i) + "\"}"@
        } else {
            dec_int(i)
        },
        BsonModel::Double(bits) => if canonical {
            double_canonical_text_of(bits)
        } else {
            double_relaxed_text_of(bits)
        },
        BsonModel::Text(s) => json_string(s),
        BsonModel::Array(items) => "["@ + ext_json_list(items, canonical) + "]"@,
        BsonModel::Document(entries) => "{"@ + ext_json_doc(entries, canonical) + "}"@,
        BsonModel::ObjectId(bytes) => "{\"$oid\":\""@ + hex_of(bytes) + "\"}"@,
        BsonModel::DateTime(ms) => if !canonical && 0 <= ms && rfc3339_in_range(ms) {
            "{\"$date\":\""@ + rfc3339_of(ms) + "\"}"@
        } else {
            "{\"$date\":{\"$numberLong\":\""@ + dec_int(ms) + "\"}}"@
        },
        BsonModel::Binary(bytes) => "{\"$binary\":{\"base64\":\""@ + base64_of(bytes)
            + "\",\"subType\":\"00\"}}"@,
        BsonModel::Regex(p, o) => "{\"$regularExpression\":{\"pattern\":"@ + json_string(p)
            + ",\"options\":"@ + json_string(o) + "}}"@,
        BsonModel::Code(c) => "{\"$code\":"@ + json_string(c) + "}"@,
        BsonModel::Timestamp(t, i) => "{\"$timestamp\":{\"t\":"@ + dec_int(t as int) + ",\"i\":"@
            + dec_int(i as int) + "}}"@,
        BsonModel::Decimal128(bytes) => "{\"$numberDecimal\":\""@ + decimal128_text_of(bytes)
            + "\"}"@,
        BsonModel::MinKey => "{\"$minKey\":1}"@,
        BsonModel::MaxKey => "{\"$maxKey\":1}"@,
    }
}

/// Append the lowercase hexadecimal digit for `d`.
fn append_hex_digit(out: &mut String, d: u32)
    requires
        d < 16,
    ensures
        final(out)@ == old(out)@ + seq![hex_digit(d as int)],
{
    if d == 0 {
        out.append("0");
        proof {
            reveal_strlit("0");
            assert(final(out)@ =~= old(out)@ + seq![hex_digit(0)]);
        }
    } else if d == 1 {
        out.append("1");
        proof {
            reveal_strlit("1");
            assert(final(out)@ =~= old(out)@ + seq![hex_digit(1)]);
        }
    } else if d == 2 {
        out.append("2");
        proof {
            reveal_strlit("2");
            assert(final(out)@ =~= old(out)@ + seq![hex_digit(2)]);
        }
    } else if d == 3 {
        out.append("3");
        proof {
            reveal_strlit("3");
            assert(final(out)@ =~= old(out)@ + seq![hex_digit(3)]);
        }
    } else if d == 4 {
        out.append("4");
        proof {
            reveal_strlit("4");
            assert(final(out)@ =~= old(out)@ + seq![hex_digit(4)]);
        }
    } else if d == 5 {
        out.append("5");
        proof {
            reveal_strlit("5");
            assert(final(out)@ =~= old(out)@ + seq![hex_digit(5)]);
        }
    } else if d == 6 {
        out.append("6");
        proof {
            reveal_strlit("6");
            assert(final(out)@ =~= old(out)@ + seq![hex_digit(6)]);
        }
    } else if d == 7 {
        out.append("7");
        proof {
            reveal_strlit("7");
            assert(final(out)@ =~= old(out)@ + seq![hex_digit(7)]);
        }
    } else if d == 8 {
        out.append("8");
        proof {
            reveal_strlit("8");
            assert(final(out)@ =~= old(out)@ + seq![hex_digit(8)]);
        }
    } else if d == 9 {
        out.append("9");
        proof {
            reveal_strlit("9");
            assert(final(out)@ =~= old(out)@ + seq![hex_digit(9)]);
        }
    } else if d == 10 {
        out.append("a");
        proof {
            reveal_strlit("a");
            assert(final(out)@ =~= old(out)@ + seq![hex_digit(10)]);
        }
    } else if d == 11 {
        out.append("b");
        proof {
            reveal_strlit("b");
            assert(final(out)@ =~= old(out)@ + seq![hex_digit(11)]);
        }
    } else if d == 12 {
        out.append("c");
        proof {
            reveal_strlit("c");
            assert(final(out)@ =~= old(out)@ + seq![hex_digit(12)]);
        }
    } else if d == 13 {
        out.append("d");
        proof {
            reveal_strlit("d");
            assert(final(out)@ =~= old(out)@ + seq![hex_digit(13)]);
        }
    } else if d == 14 {
        out.append("e");
        proof {
            reveal_strlit("e");
            assert(final(out)@ =~= old(out)@ + seq![hex_digit(14)]);
        }
    } else {
        out.append("f");
        proof {
            reveal_strlit("f");
            assert(final(out)@ =~= old(out)@ + seq![hex_digit(15)]);
        }
    }
}

/// Append one character in its JSON-escaped form.
fn append_escaped_char(out: &mut String, c: char)
    ensures
        final(out)@ == old(out)@ + json_escape_char(c),
{
    if c == '"' {
        out.append("\\\"");
    } else if c == '\\' {
        out.append("\\\\");
    } else if c == '\u{8}' {
        out.append("\\b");
    } else if c == '\t' {
        out.append("\\t");
    } else if c == '\n' {
        out.append("\\n");
    } else if c == '\u{c}' {
        out.append("\\f");
    } else if c == '\r' {
        out.append("\\r");
    } else if (c as u32) < 0x20 {
        out.append("\\u00");
        let v: u32 = c as u32;
        append_hex_digit(out, v / 16);
        append_hex_digit(out, v % 16);
        proof {
            assert(final(out)@ =~= old(out)@ + json_escape_char(c));
        }
    } else {
        push_char(out, c);
        proof {
            assert(final(out)@ =~= old(out)@ + json_escape_char(c));
        }
    }
}

/// Append a quoted, escaped JSON string.
fn append_json_string(out: &mut String, s: &str)
    ensures
        final(out)@ == old(out)@ + json_string(s@),
{
    out.append("\"");
    let n = s.unicode_len();
    let mut i: usize = 0;
    while i < n
        invariant
            i <= n,
            n == s@.len(),
            out@ == old(out)@ + "\""@ + json_escape(s@.take(i as int)),
        decreases n - i,
    {
        let c = s.get_char(i);
        append_escaped_char(out, c);
        i = i + 1;
        proof {
            assert(s@.take(i as int).drop_last() =~= s@.take(i as int - 1));
            assert(s@.take(i as int).last() == s@[i as int - 1]);
            assert(out@ =~= old(out)@ + "\""@ + json_escape(s@.take(i as int)));
        }
    }
    out.append("\"");
    proof {
        assert(s@.take(n as int) =~= s@);
        assert(final(out)@ =~= old(out)@ + json_string(s@));
    }
}

/// Write the extended JSON text of a BSON value onto `out`, in canonical
/// or relaxed mode.
pub fn write_ext_json(b: &BsonValue, canonical: bool, out: &mut String)
    ensures
        final(out)@ == old(out)@ + ext_json(b@, canonical),
    decreases b,
{
    match b {
        BsonValue::Null => {
            out.append("null");
        },
        BsonValue::Boolean(x) => {
            if *x {
                out.append("true");
            } else {
                out.append("false");
            }
        },
        BsonValue::Int32(i) => {
            if canonical {
                out.append("{\"$numberInt\":\"");
                let t = int_to_string(*i as i64);
                out.append(t.as_str());
                out.append("\"}");
                proof {
                    assert(final(out)@ =~= old(out)@ + ext_json(b@, canonical));
                }
            } else {
                let t = int_to_string(*i as i64);
                out.append(t.as_str());
            }
        },
        BsonValue::Int64(i) => {
            if canonical {
                out.append("{\"$numberLong\":\"");
                let t = int_to_string(*i);
                out.append(t.as_str());
                out.append("\"}");
                proof {
                    assert(final(out)@ =~= old(out)@ + ext_json(b@, canonical));
                }
            } else {
                let t = int_to_string(*i);
                out.append(t.as_str());
            }
        },
        BsonValue::Double(bits) => {
            let t = if canonical {
                double_canonical_text(*bits)
            } else {
                double_relaxed_text(*bits)
            };
            out.append(t.as_str());
        },
        BsonValue::Text(s) => {
            append_json_string(out, s.as_str());
        },
        BsonValue::Array(items) => {
            proof {
                lemma_bson_model_list(items@);
                assert(decreases_to!(*b => *items));
                assert(decreases_to!(*items => items@));
            }
            let ghost model_items = bson_model_list(items@);
            out.append("[");
            let mut j: usize = 0;
            while j < items.len()
                invariant
                    j <= items.len(),
                    *b == BsonValue::Array(*items),
                    (decreases_to!(*b => items@)),
                    model_items == bson_model_list(items@),
                    model_items.len() == items@.len(),
                    forall|i: int|
                        0 <= i < items@.len() ==> model_items[i] == bson_model(
                            #[trigger] items@[i],
                        ),
                    out@ == old(out)@ + "["@ + ext_json_list(
                        model_items.take(j as int),
                        canonical,
                    ),
                decreases items.len() - j,
            {
                proof {
                    assert(decreases_to!(items@ => items@[j as int]));
                }
                if j > 0 {
                    out.append(",");
                }
                write_ext_json(&items[j], canonical, out);
                j = j + 1;
                proof {
                    assert(model_items.take(j as int).drop_last() =~= model_items.take(
                        j as int - 1,
                    ));
                    assert(model_items.take(j as int).last() == model_items[j as int - 1]);
                    assert(out@ =~= old(out)@ + "["@ + ext_json_list(
                        model_items.take(j as int),
                        canonical,
                    ));
                }
            }
            out.append("]");
            proof {
                assert(model_items.take(model_items.len() as int) =~= model_items);
                assert(final(out)@ =~= old(out)@ + ext_json(b@, canonical));
            }
        },
        BsonValue::Document(entries) => {
            proof {
                lemma_bson_model_doc(entries@);
                assert(decreases_to!(*b => *entries));
                assert(decreases_to!(*entries => entries@));
            }
            let ghost model_entries = bson_model_doc(entries@);
            out.append("{");
            let mut j: usize = 0;
            while j < entries.len()
                invariant
                    j <= entries.len(),
                    *b == BsonValue::Document(*entries),
                    (decreases_to!(*b => entries@)),
                    model_entries == bson_model_doc(entries@),
                    model_entries.len() == entries@.len(),
                    forall|i: int|
                        0 <= i < entries@.len() ==> model_entries[i] == ((
                        #[trigger] entries@[i]).0@, bson_model(entries@[i].1)),
                    out@ == old(out)@ + "{"@ + ext_json_doc(
                        model_entries.take(j as int),
                        canonical,
                    ),
                decreases entries.len() - j,
            {
                proof {
                    assert(decreases_to!(entries@ => entries@[j as int]));
                    assert(decreases_to!(entries@[j as int] => entries@[j as int].1));
                }
                if j > 0 {
                    out.append(",");
                }
                append_json_string(out, entries[j].0.as_str());
                out.append(":");
                write_ext_json(&entries[j].1, canonical, out);
                j = j + 1;
                proof {
                    assert(model_entries.take(j as int).drop_last() =~= model_entries.take(
                        j as int - 1,
                    ));
                    assert(model_entries.take(j as int).last() == model_entries[j as int - 1]);
                    assert(out@ =~= old(out)@ + "{"@ + ext_json_doc(
                        model_entries.take(j as int),
                        canonical,
                    ));
                }
            }
            out.append("}");
            proof {
                assert(model_entries.take(model_entries.len() as int) =~= model_entries);
                assert(final(out)@ =~= old(out)@ + ext_json(b@, canonical));
            }
        },
        BsonValue::ObjectId(id) => {
            out.append("{\"$oid\":\"");
            let h = crate::foreign::oid_hex(id);
            out.append(h.as_str());
            out.append("\"}");
            proof {
                assert(final(out)@ =~= old(out)@ + ext_json(b@, canonical));
            }
        },
        BsonValue::DateTime(ms) => {
            if !canonical && *ms >= 0 {
                match rfc3339_text(*ms) {
                    Some(t) => {
                        out.append("{\"$date\":\"");
                        out.append(t.as_str());
                        out.append("\"}");
                        proof {
                            assert(final(out)@ =~= old(out)@ + ext_json(b@, canonical));
                        }
                        return ;
                    },
                    None => {},
                }
            }
            out.append("{\"$date\":{\"$numberLong\":\"");
            let t = int_to_string(*ms);
            out.append(t.as_str());
            out.append("\"}}");
            proof {
                assert(final(out)@ =~= old(out)@ + ext_json(b@, canonical));
            }
        },
        BsonValue::Binary(bytes) => {
            out.append("{\"$binary\":{\"base64\":\"");
            let t = base64_text(bytes);
            out.append(t.as_str());
            out.append("\",\"subType\":\"00\"}}");
            proof {
                assert(final(out)@ =~= old(out)@ + ext_json(b@, canonical));
            }
        },
        BsonValue::Regex(p, o) => {
            out.append("{\"$regularExpression\":{\"pattern\":");
            append_json_string(out, p.as_str());
            out.append(",\"options\":");
            append_json_string(out, o.as_str());
            out.append("}}");
            proof {
                assert(final(out)@ =~= old(out)@ + ext_json(b@, canonical));
            }
        },
        BsonValue::Code(c) => {
            out.append("{\"$code\":");
            append_json_string(out, c.as_str());
            out.append("}");
            proof {
                assert(final(out)@ =~= old(out)@ + ext_json(b@, canonical));
            }
        },
        BsonValue::Timestamp(t, i) => {
            out.append("{\"$timestamp\":{\"t\":");
            let tt = int_to_string(*t as i64);
            out.append(tt.as_str());
            out.append(",\"i\":");
            let it = int_to_string(*i as i64);
            out.append(it.as_str());
            out.append("}}");
            proof {
                assert(final(out)@ =~= old(out)@ + ext_json(b@, canonical));
            }
        },
        BsonValue::Decimal128(bytes) => {
            out.append("{\"$numberDecimal\":\"");
            let t = decimal128_text(bytes);
            out.append(t.as_str());
            out.append("\"}");
            proof {
                assert(final(out)@ =~= old(out)@ + ext_json(b@, canonical));
            }
        },
        BsonValue::MinKey => {
            out.append("{\"$minKey\":1}");
        },
        BsonValue::MaxKey => {
            out.append("{\"$maxKey\":1}");
        },
    }
}

/// The human-readable debug text of a BSON value: a value of an extended
/// kind renders per the handle rendering table, everything else as its
/// relaxed extended JSON. It is refused only for a binary payload that is
/// not UTF-8.
pub open spec fn debug_text(b: BsonModel) -> Option<Seq<char>> {
    match crate::value::extended_kind_of(b) {
        Some(_) => crate::registry::render_text(b),
        None => Some(ext_json(b, false)),
    }
}

/// Render a BSON value for human eyes, per `debug_text`.
pub fn to_debug_string(b: &BsonValue) -> (r: Result<String, crate::registry::BridgeError>)
    ensures
        r matches Ok(s) ==> debug_text(b@) == Some(s@),
        r is Err <==> debug_text(b@) is None,
        r is Err ==> r == Err::<String, crate::registry::BridgeError>(
            crate::registry::BridgeError::NonUtf8Binary,
        ),
{
    let kind: Option<crate::value::HandleKind> = match b {
        BsonValue::ObjectId(_) => Some(crate::value::HandleKind::ObjectId),
        BsonValue::DateTime(_) => Some(crate::value::HandleKind::DateTime),
        BsonValue::Binary(_) => Some(crate::value::HandleKind::Binary),
        BsonValue::Regex(_, _) => Some(crate::value::HandleKind::Regex),
        BsonValue::Code(_) => Some(crate::value::HandleKind::Code),
        BsonValue::Timestamp(_, _) => Some(crate::value::HandleKind::Timestamp),
        BsonValue::Decimal128(_) => Some(crate::value::HandleKind::Decimal128),
        BsonValue::MinKey => Some(crate::value::HandleKind::MinKey),
        BsonValue::MaxKey => Some(crate::value::HandleKind::MaxKey),
        _ => None,
    };
    match kind {
        Some(k) => {
            let h = crate::value::BsonHandle::make(k, crate::to::clone_bson(b));
            crate::registry::render(&h)
        },
        None => Ok(bson_to_json(b, false)),
    }
}

/// The extended JSON text of a BSON value.
pub fn bson_to_json(b: &BsonValue, canonical: bool) -> (r: String)
    ensures
        r@ == ext_json(b@, canonical),
{
    let mut out = String::new();
    write_ext_json(b, canonical, &mut out);
    proof {
        assert(out@ =~= ext_json(b@, canonical));
    }
    out
}

} // verus!
