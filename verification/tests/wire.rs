use regex::Regex;
use xelis_common::api::codec::{decode_data_type, DecodeError};
use xelis_common::api::query::{Query, QueryElement, QueryNumber, QueryValue};
use xelis_common::api::wire::{tag_as_str, tag_from_str, Keyword, WireValue};
use xelis_common::api::{DataElement, DataType, DataValue};

fn text(s: &str) -> DataValue {
    DataValue::String(s.to_string())
}

fn leaf(v: DataValue) -> DataElement {
    DataElement::Value(Some(v))
}

fn tagged(key: &str, body: WireValue) -> WireValue {
    WireValue::Object(vec![(key.to_string(), body)])
}

fn word(s: &str) -> WireValue {
    WireValue::Text(s.to_string())
}

fn u8_scalar(n: u128) -> WireValue {
    tagged("u8", WireValue::Number(n))
}

fn is_tagged(wire: &WireValue, key: &str) -> bool {
    match wire {
        WireValue::Object(entries) => entries.len() == 1 && entries[0].0 == key,
        _ => false,
    }
}

fn body_of(wire: &WireValue) -> &WireValue {
    match wire {
        WireValue::Object(entries) => &entries[0].1,
        _ => panic!("no object"),
    }
}

const DEPTH: usize = 16;

#[test]
fn keywords_have_fixed_lowercase_tokens() {
    let all = [
        (Keyword::Not, "not"),
        (Keyword::And, "and"),
        (Keyword::Or, "or"),
        (Keyword::Type, "type"),
        (Keyword::HasKey, "has_key"),
        (Keyword::ArrayLen, "array_len"),
        (Keyword::ContainsElement, "contains_element"),
        (Keyword::Equal, "equal"),
        (Keyword::StartsWith, "starts_with"),
        (Keyword::EndsWith, "ends_with"),
        (Keyword::ContainsValue, "contains_value"),
        (Keyword::Pattern, "pattern"),
        (Keyword::Above, "above"),
        (Keyword::AboveOrEqual, "above_or_equal"),
        (Keyword::Below, "below"),
        (Keyword::BelowOrEqual, "below_or_equal"),
    ];
    for (keyword, token) in all {
        assert_eq!(keyword.as_str(), token);
        assert_eq!(Keyword::from_str(token), Some(keyword));
    }
    assert_eq!(Keyword::from_str("NOT"), None);
    assert_eq!(Keyword::from_str(""), None);
    assert_eq!(Keyword::from_str("above_or"), None);
}

#[test]
fn type_tags_have_fixed_tokens() {
    let all = [
        (DataType::Bool, "bool"),
        (DataType::String, "string"),
        (DataType::U8, "u8"),
        (DataType::U16, "u16"),
        (DataType::U32, "u32"),
        (DataType::U64, "u64"),
        (DataType::U128, "u128"),
        (DataType::Undefined, "undefined"),
        (DataType::Array, "array"),
        (DataType::Fields, "fields"),
    ];
    for (tag, token) in all {
        assert_eq!(tag_as_str(tag), token);
        assert_eq!(tag_from_str(token), Some(tag));
        assert_eq!(decode_data_type(&word(token)), Some(tag));
    }
    assert_eq!(tag_from_str("u256"), None);
    assert_eq!(decode_data_type(&WireValue::Number(8)), None);
}

#[test]
fn decode_scalar_of_each_type() {
    assert_eq!(DataValue::decode(&tagged("bool", WireValue::Bool(true))), Some(DataValue::Bool(true)));
    assert_eq!(DataValue::decode(&tagged("string", word("hi"))), Some(text("hi")));
    assert_eq!(DataValue::decode(&u8_scalar(255)), Some(DataValue::U8(255)));
    assert_eq!(DataValue::decode(&tagged("u16", WireValue::Number(65535))), Some(DataValue::U16(65535)));
    assert_eq!(DataValue::decode(&tagged("u32", WireValue::Number(7))), Some(DataValue::U32(7)));
    assert_eq!(DataValue::decode(&tagged("u64", WireValue::Number(7))), Some(DataValue::U64(7)));
    assert_eq!(
        DataValue::decode(&tagged("u128", WireValue::Number(u128::MAX))),
        Some(DataValue::U128(u128::MAX))
    );
}

#[test]
fn decode_scalar_refuses_what_does_not_fit() {
    assert_eq!(DataValue::decode(&u8_scalar(256)), None);
    assert_eq!(DataValue::decode(&tagged("u16", WireValue::Number(65536))), None);
    assert_eq!(DataValue::decode(&tagged("u32", WireValue::Number(1 << 32))), None);
    assert_eq!(DataValue::decode(&tagged("u64", WireValue::Number(1 << 64))), None);
    assert_eq!(DataValue::decode(&tagged("u8", word("1"))), None);
    assert_eq!(DataValue::decode(&tagged("bool", WireValue::Number(1))), None);
    assert_eq!(DataValue::decode(&tagged("string", WireValue::Null)), None);
    assert_eq!(DataValue::decode(&tagged("array", WireValue::List(vec![]))), None);
    assert_eq!(DataValue::decode(&WireValue::Number(1)), None);
    assert_eq!(DataValue::decode(&WireValue::Object(vec![])), None);
    assert_eq!(
        DataValue::decode(&WireValue::Object(vec![
            ("u8".to_string(), WireValue::Number(1)),
            ("u8".to_string(), WireValue::Number(1)),
        ])),
        None
    );
}

#[test]
fn encode_scalar_is_tagged_by_its_type() {
    let wire = DataValue::U16(300).encode();
    assert!(is_tagged(&wire, "u16"));
    assert!(matches!(body_of(&wire), WireValue::Number(300)));
    let wire = text("hi").encode();
    assert!(is_tagged(&wire, "string"));
    assert!(matches!(body_of(&wire), WireValue::Text(s) if s == "hi"));
    let wire = DataValue::Bool(false).encode();
    assert!(is_tagged(&wire, "bool"));
    assert!(matches!(body_of(&wire), WireValue::Bool(false)));
    for v in [DataValue::U8(1), DataValue::U32(2), DataValue::U64(3), DataValue::U128(4), text("")] {
        let back = DataValue::decode(&v.encode());
        assert_eq!(back, Some(v));
    }
}

#[test]
fn decode_comparison_shapes() {
    let q = QueryNumber::decode(&tagged("above", WireValue::Number(3))).unwrap();
    assert!(matches!(q, QueryNumber::Above(3)));
    let q = QueryNumber::decode(&tagged("above_or_equal", WireValue::Number(4))).unwrap();
    assert!(matches!(q, QueryNumber::AboveOrEqual(4)));
    let q = QueryNumber::decode(&tagged("below", WireValue::Number(5))).unwrap();
    assert!(matches!(q, QueryNumber::Below(5)));
    let q = QueryNumber::decode(&tagged("below_or_equal", WireValue::Number(0))).unwrap();
    assert!(matches!(q, QueryNumber::BelowOrEqual(0)));
    assert!(QueryNumber::decode(&tagged("equal", WireValue::Number(0))).is_none());
    assert!(QueryNumber::decode(&tagged("above", word("3"))).is_none());
    assert!(QueryNumber::decode(&tagged("above", WireValue::Number(u128::MAX))).is_none());
    assert!(QueryNumber::decode(&WireValue::Number(3)).is_none());
}

#[test]
fn encode_comparison_shapes() {
    let wire = QueryNumber::BelowOrEqual(9).encode();
    assert!(is_tagged(&wire, "below_or_equal"));
    assert!(matches!(body_of(&wire), WireValue::Number(9)));
    assert!(is_tagged(&QueryNumber::Above(1).encode(), "above"));
    assert!(is_tagged(&QueryNumber::AboveOrEqual(1).encode(), "above_or_equal"));
    assert!(is_tagged(&QueryNumber::Below(1).encode(), "below"));
}

#[test]
fn decode_document_shapes() {
    let d = DataElement::decode(&WireValue::Null, DEPTH).unwrap();
    assert!(d.same(&DataElement::Value(None)));
    let d = DataElement::decode(&u8_scalar(4), DEPTH).unwrap();
    assert!(d.same(&leaf(DataValue::U8(4))));
    let d = DataElement::decode(&WireValue::List(vec![u8_scalar(1), WireValue::Null]), DEPTH).unwrap();
    assert!(d.same(&DataElement::Array(vec![leaf(DataValue::U8(1)), DataElement::Value(None)])));
    let pairs = WireValue::List(vec![
        WireValue::List(vec![tagged("string", word("a")), u8_scalar(1)]),
        WireValue::List(vec![tagged("string", word("b")), WireValue::List(vec![])]),
    ]);
    let d = DataElement::decode(&tagged("fields", pairs), DEPTH).unwrap();
    assert!(d.same(&DataElement::Fields(vec![
        (text("a"), leaf(DataValue::U8(1))),
        (text("b"), DataElement::Array(vec![])),
    ])));
}

#[test]
fn decode_document_refuses_malformed_shapes() {
    assert_eq!(DataElement::decode(&WireValue::Number(1), DEPTH).err(), Some(DecodeError::Malformed));
    assert_eq!(DataElement::decode(&word("x"), DEPTH).err(), Some(DecodeError::Malformed));
    assert_eq!(DataElement::decode(&WireValue::Bool(true), DEPTH).err(), Some(DecodeError::Malformed));
    assert_eq!(
        DataElement::decode(&tagged("fields", WireValue::Null), DEPTH).err(),
        Some(DecodeError::Malformed)
    );
    let short_pair = WireValue::List(vec![WireValue::List(vec![u8_scalar(1)])]);
    assert_eq!(
        DataElement::decode(&tagged("fields", short_pair), DEPTH).err(),
        Some(DecodeError::Malformed)
    );
    let bad_key = WireValue::List(vec![WireValue::List(vec![WireValue::Null, u8_scalar(1)])]);
    assert_eq!(
        DataElement::decode(&tagged("fields", bad_key), DEPTH).err(),
        Some(DecodeError::Malformed)
    );
    let no_pair = WireValue::List(vec![u8_scalar(1)]);
    assert_eq!(
        DataElement::decode(&tagged("fields", no_pair), DEPTH).err(),
        Some(DecodeError::Malformed)
    );
    assert_eq!(
        DataElement::decode(&WireValue::List(vec![u8_scalar(1), u8_scalar(999)]), DEPTH).err(),
        Some(DecodeError::Malformed)
    );
}

#[test]
fn decode_document_counts_levels() {
    let flat = WireValue::List(vec![u8_scalar(1)]);
    assert_eq!(DataElement::decode(&flat, 0).err(), Some(DecodeError::ExcessiveNesting));
    assert_eq!(DataElement::decode(&flat, 1).err(), Some(DecodeError::ExcessiveNesting));
    assert!(DataElement::decode(&flat, 2).is_ok());
    assert!(DataElement::decode(&WireValue::Null, 1).is_ok());
    assert!(DataElement::decode(&WireValue::List(vec![]), 1).is_ok());
    assert_eq!(DataElement::decode(&WireValue::Null, 0).err(), Some(DecodeError::ExcessiveNesting));
}

#[test]
fn decode_tree_shapes() {
    let q = Query::decode(&tagged("not", tagged("type", word("u8"))), DEPTH).unwrap();
    assert!(matches!(&q, Query::Not(inner) if matches!(**inner, Query::Type(DataType::U8))));
    let q = Query::decode(&tagged("and", WireValue::List(vec![])), DEPTH).unwrap();
    assert!(matches!(&q, Query::And(ops) if ops.is_empty()));
    let q = Query::decode(
        &tagged("or", WireValue::List(vec![tagged("type", word("array")), tagged("type", word("fields"))])),
        DEPTH,
    )
    .unwrap();
    assert!(matches!(&q, Query::Or(ops) if ops.len() == 2));
    assert!(q.verify_element(&DataElement::Fields(vec![])));
    assert!(!q.verify_element(&DataElement::Value(None)));
    let q = Query::decode(&tagged("type", word("undefined")), DEPTH).unwrap();
    assert!(matches!(q, Query::Type(DataType::Undefined)));
}

#[test]
fn decode_structural_shapes() {
    let key_only = WireValue::Object(vec![("key".to_string(), tagged("string", word("k")))]);
    let q = Query::decode(&tagged("has_key", key_only), DEPTH).unwrap();
    assert!(matches!(
        &q,
        Query::Element(QueryElement::HasKey { key, value: None }) if *key == text("k")
    ));
    let with_value = WireValue::Object(vec![
        ("key".to_string(), tagged("string", word("k"))),
        ("value".to_string(), tagged("equal", u8_scalar(5))),
    ]);
    let q = Query::decode(&tagged("has_key", with_value), DEPTH).unwrap();
    assert!(q.is_for_element());
    assert!(q.verify_element(&DataElement::Fields(vec![(text("k"), leaf(DataValue::U8(5)))])));
    assert!(!q.verify_element(&DataElement::Fields(vec![(text("k"), leaf(DataValue::U8(6)))])));
    let swapped = WireValue::Object(vec![
        ("value".to_string(), tagged("equal", u8_scalar(5))),
        ("key".to_string(), tagged("string", word("k"))),
    ]);
    let q = Query::decode(&tagged("has_key", swapped), DEPTH).unwrap();
    assert!(q.verify_element(&DataElement::Fields(vec![(text("k"), leaf(DataValue::U8(5)))])));
    let null_value = WireValue::Object(vec![
        ("key".to_string(), tagged("string", word("k"))),
        ("value".to_string(), WireValue::Null),
    ]);
    let q = Query::decode(&tagged("has_key", null_value), DEPTH).unwrap();
    assert!(matches!(&q, Query::Element(QueryElement::HasKey { value: None, .. })));
    let q = Query::decode(&tagged("array_len", tagged("below", WireValue::Number(3))), DEPTH).unwrap();
    assert!(matches!(&q, Query::Element(QueryElement::ArrayLen(QueryNumber::Below(3)))));
    let q = Query::decode(&tagged("contains_element", u8_scalar(1)), DEPTH).unwrap();
    assert!(matches!(
        &q,
        Query::Element(QueryElement::ContainsElement(d)) if d.same(&leaf(DataValue::U8(1)))
    ));
}

#[test]
fn decode_scalar_predicate_shapes() {
    let q = Query::decode(&tagged("equal", u8_scalar(5)), DEPTH).unwrap();
    assert!(matches!(&q, Query::Value(QueryValue::Equal(v)) if *v == DataValue::U8(5)));
    let q = Query::decode(&tagged("starts_with", tagged("string", word("he"))), DEPTH).unwrap();
    assert!(matches!(&q, Query::Value(QueryValue::StartsWith(v)) if *v == text("he")));
    let q = Query::decode(&tagged("ends_with", tagged("string", word("lo"))), DEPTH).unwrap();
    assert!(matches!(&q, Query::Value(QueryValue::EndsWith(v)) if *v == text("lo")));
    assert!(!q.verify_value(&text("hello")));
    let q = Query::decode(&tagged("contains_value", tagged("string", word("ll"))), DEPTH).unwrap();
    assert!(matches!(&q, Query::Value(QueryValue::ContainsValue(v)) if *v == text("ll")));
    let q = Query::decode(&tagged("pattern", word("^h.*o$")), DEPTH).unwrap();
    assert!(matches!(&q, Query::Value(QueryValue::Pattern(p)) if p.as_str() == "^h.*o$"));
    assert!(q.verify_value(&text("hello")));
    assert!(!q.verify_value(&text("hello!")));
}

#[test]
fn decode_bare_comparison_shapes() {
    let q = Query::decode(&tagged("above", WireValue::Number(3)), DEPTH).unwrap();
    assert!(matches!(&q, Query::Value(QueryValue::NumberOp(QueryNumber::Above(3)))));
    let q = Query::decode(&tagged("above_or_equal", WireValue::Number(3)), DEPTH).unwrap();
    assert!(matches!(&q, Query::Value(QueryValue::NumberOp(QueryNumber::AboveOrEqual(3)))));
    let q = Query::decode(&tagged("below", WireValue::Number(3)), DEPTH).unwrap();
    assert!(matches!(&q, Query::Value(QueryValue::NumberOp(QueryNumber::Below(3)))));
    let q = Query::decode(&tagged("below_or_equal", WireValue::Number(3)), DEPTH).unwrap();
    assert!(matches!(&q, Query::Value(QueryValue::NumberOp(QueryNumber::BelowOrEqual(3)))));
}

#[test]
fn decode_refuses_what_matches_no_shape() {
    let malformed = [
        WireValue::Null,
        WireValue::Bool(true),
        WireValue::Number(1),
        word("not"),
        WireValue::List(vec![]),
        WireValue::Object(vec![]),
        tagged("nor", WireValue::List(vec![])),
        tagged("not", WireValue::Null),
        tagged("and", tagged("type", word("u8"))),
        tagged("or", WireValue::Null),
        tagged("and", WireValue::List(vec![WireValue::Null])),
        tagged("type", word("u7")),
        tagged("type", WireValue::Number(8)),
        tagged("has_key", WireValue::Null),
        tagged("has_key", WireValue::Object(vec![])),
        tagged("has_key", WireValue::Object(vec![("value".to_string(), tagged("type", word("u8")))])),
        tagged("has_key", WireValue::Object(vec![("key".to_string(), WireValue::Number(1))])),
        tagged(
            "has_key",
            WireValue::Object(vec![
                ("key".to_string(), u8_scalar(1)),
                ("other".to_string(), WireValue::Null),
            ]),
        ),
        tagged("array_len", WireValue::Number(3)),
        tagged("array_len", tagged("equal", u8_scalar(3))),
        tagged("contains_element", WireValue::Number(3)),
        tagged("equal", WireValue::Number(5)),
        tagged("starts_with", word("he")),
        tagged("pattern", WireValue::Number(5)),
        tagged("above", word("5")),
        tagged("below", WireValue::Number(u128::MAX)),
        WireValue::Object(vec![
            ("not".to_string(), tagged("type", word("u8"))),
            ("and".to_string(), WireValue::List(vec![])),
        ]),
    ];
    for wire in malformed.iter() {
        assert_eq!(Query::decode(wire, DEPTH).err(), Some(DecodeError::Malformed), "{:?}", wire);
    }
}

#[test]
fn decode_refuses_a_pattern_that_does_not_compile() {
    assert_eq!(
        Query::decode(&tagged("pattern", word("foo(bar")), DEPTH).err(),
        Some(DecodeError::InvalidPattern)
    );
    assert_eq!(
        Query::decode(&tagged("not", tagged("pattern", word("[a-"))), DEPTH).err(),
        Some(DecodeError::InvalidPattern)
    );
    let list = WireValue::List(vec![tagged("type", word("u8")), tagged("pattern", word("*"))]);
    assert_eq!(Query::decode(&tagged("and", list), DEPTH).err(), Some(DecodeError::InvalidPattern));
}

#[test]
fn decode_reports_the_first_fault_in_order() {
    let list = WireValue::List(vec![tagged("pattern", word("(")), WireValue::Null]);
    assert_eq!(Query::decode(&tagged("or", list), DEPTH).err(), Some(DecodeError::InvalidPattern));
    let list = WireValue::List(vec![WireValue::Null, tagged("pattern", word("("))]);
    assert_eq!(Query::decode(&tagged("or", list), DEPTH).err(), Some(DecodeError::Malformed));
}

fn nested_not(levels: usize) -> WireValue {
    let mut wire = tagged("type", word("u8"));
    for _ in 1..levels {
        wire = tagged("not", wire);
    }
    wire
}

#[test]
fn decode_refuses_what_nests_deeper_than_allowed() {
    assert!(Query::decode(&nested_not(1), 1).is_ok());
    assert_eq!(Query::decode(&nested_not(1), 0).err(), Some(DecodeError::ExcessiveNesting));
    assert!(Query::decode(&nested_not(5), 5).is_ok());
    assert_eq!(Query::decode(&nested_not(6), 5).err(), Some(DecodeError::ExcessiveNesting));
    assert_eq!(Query::decode(&nested_not(200), 64).err(), Some(DecodeError::ExcessiveNesting));
    let list = tagged("and", WireValue::List(vec![nested_not(1), nested_not(3)]));
    assert!(Query::decode(&list, 4).is_ok());
    assert_eq!(Query::decode(&list, 3).err(), Some(DecodeError::ExcessiveNesting));
    let empty = tagged("and", WireValue::List(vec![]));
    assert!(Query::decode(&empty, 1).is_ok());
    // the document under `contains_element` counts too
    let deep_doc = tagged("contains_element", WireValue::List(vec![WireValue::List(vec![])]));
    assert!(Query::decode(&deep_doc, 3).is_ok());
    assert_eq!(Query::decode(&deep_doc, 2).err(), Some(DecodeError::ExcessiveNesting));
    // and the query under `has_key`
    let nested = tagged(
        "has_key",
        WireValue::Object(vec![
            ("key".to_string(), u8_scalar(1)),
            ("value".to_string(), nested_not(2)),
        ]),
    );
    assert!(Query::decode(&nested, 3).is_ok());
    assert_eq!(Query::decode(&nested, 2).err(), Some(DecodeError::ExcessiveNesting));
}

#[test]
fn depth_is_checked_before_the_shape() {
    assert_eq!(Query::decode(&WireValue::Null, 0).err(), Some(DecodeError::ExcessiveNesting));
    assert_eq!(
        Query::decode(&tagged("not", WireValue::Null), 1).err(),
        Some(DecodeError::ExcessiveNesting)
    );
    assert_eq!(Query::decode(&tagged("not", WireValue::Null), 2).err(), Some(DecodeError::Malformed));
}

#[test]
fn encode_tree_shapes() {
    let wire = Query::Not(Box::new(Query::Type(DataType::U64))).encode();
    assert!(is_tagged(&wire, "not"));
    assert!(is_tagged(body_of(&wire), "type"));
    assert!(matches!(body_of(body_of(&wire)), WireValue::Text(s) if s == "u64"));
    let wire = Query::And(vec![Box::new(Query::Or(vec![]))]).encode();
    assert!(is_tagged(&wire, "and"));
    match body_of(&wire) {
        WireValue::List(items) => {
            assert_eq!(items.len(), 1);
            assert!(is_tagged(&items[0], "or"));
            assert!(matches!(body_of(&items[0]), WireValue::List(inner) if inner.is_empty()));
        }
        _ => panic!("no list"),
    }
}

#[test]
fn encode_leaf_shapes_have_no_wrapping_key() {
    let wire = Query::Value(QueryValue::Equal(DataValue::U8(5))).encode();
    assert!(is_tagged(&wire, "equal"));
    assert!(is_tagged(body_of(&wire), "u8"));
    let wire = Query::Value(QueryValue::NumberOp(QueryNumber::Above(2))).encode();
    assert!(is_tagged(&wire, "above"));
    let wire = Query::Value(QueryValue::Pattern(Regex::new("a+b").unwrap())).encode();
    assert!(is_tagged(&wire, "pattern"));
    assert!(matches!(body_of(&wire), WireValue::Text(s) if s == "a+b"));
    assert!(is_tagged(&QueryValue::StartsWith(text("a")).encode(), "starts_with"));
    assert!(is_tagged(&QueryValue::EndsWith(text("a")).encode(), "ends_with"));
    assert!(is_tagged(&QueryValue::ContainsValue(text("a")).encode(), "contains_value"));
    let wire = Query::Element(QueryElement::ArrayLen(QueryNumber::Below(3))).encode();
    assert!(is_tagged(&wire, "array_len"));
    assert!(is_tagged(body_of(&wire), "below"));
    let wire = Query::Element(QueryElement::ContainsElement(DataElement::Value(None))).encode();
    assert!(is_tagged(&wire, "contains_element"));
    assert!(matches!(body_of(&wire), WireValue::Null));
}

#[test]
fn encode_has_key_omits_an_absent_value() {
    let wire = QueryElement::HasKey { key: text("k"), value: None }.encode();
    assert!(is_tagged(&wire, "has_key"));
    match body_of(&wire) {
        WireValue::Object(entries) => {
            assert_eq!(entries.len(), 1);
            assert_eq!(entries[0].0, "key");
            assert!(is_tagged(&entries[0].1, "string"));
        }
        _ => panic!("no object"),
    }
    let wire = QueryElement::HasKey {
        key: text("k"),
        value: Some(Box::new(Query::Type(DataType::Bool))),
    }
    .encode();
    match body_of(&wire) {
        WireValue::Object(entries) => {
            assert_eq!(entries.len(), 2);
            assert_eq!(entries[0].0, "key");
            assert_eq!(entries[1].0, "value");
            assert!(is_tagged(&entries[1].1, "type"));
        }
        _ => panic!("no object"),
    }
}

#[test]
fn encode_document_shapes() {
    assert!(matches!(DataElement::Value(None).encode(), WireValue::Null));
    assert!(is_tagged(&leaf(DataValue::U64(1)).encode(), "u64"));
    let wire = DataElement::Array(vec![leaf(DataValue::U8(1)), DataElement::Value(None)]).encode();
    match &wire {
        WireValue::List(items) => {
            assert_eq!(items.len(), 2);
            assert!(is_tagged(&items[0], "u8"));
            assert!(matches!(items[1], WireValue::Null));
        }
        _ => panic!("no list"),
    }
    let wire = DataElement::Fields(vec![(text("a"), leaf(DataValue::U8(1)))]).encode();
    assert!(is_tagged(&wire, "fields"));
    match body_of(&wire) {
        WireValue::List(pairs) => {
            assert_eq!(pairs.len(), 1);
            match &pairs[0] {
                WireValue::List(pair) => {
                    assert_eq!(pair.len(), 2);
                    assert!(is_tagged(&pair[0], "string"));
                    assert!(is_tagged(&pair[1], "u8"));
                }
                _ => panic!("no pair"),
            }
        }
        _ => panic!("no list"),
    }
}

fn battery() -> Vec<Query> {
    let person = || {
        DataElement::Fields(vec![
            (text("name"), leaf(text("alice"))),
            (text("tags"), DataElement::Array(vec![leaf(DataValue::U8(1)), leaf(text("x"))])),
        ])
    };
    vec![
        Query::And(vec![]),
        Query::Or(vec![]),
        Query::Type(DataType::Fields),
        Query::Type(DataType::U128),
        Query::Not(Box::new(Query::Type(DataType::Array))),
        Query::Value(QueryValue::Equal(DataValue::U64(5))),
        Query::Value(QueryValue::Equal(DataValue::U8(5))),
        Query::Value(QueryValue::StartsWith(text("he"))),
        Query::Value(QueryValue::EndsWith(text("lo"))),
        Query::Value(QueryValue::ContainsValue(DataValue::U8(2))),
        Query::Value(QueryValue::Pattern(Regex::new("^[a-z]+$").unwrap())),
        Query::Value(QueryValue::NumberOp(QueryNumber::Above(4))),
        Query::Value(QueryValue::NumberOp(QueryNumber::AboveOrEqual(5))),
        Query::Value(QueryValue::NumberOp(QueryNumber::Below(500))),
        Query::Value(QueryValue::NumberOp(QueryNumber::BelowOrEqual(usize::MAX))),
        Query::Element(QueryElement::ArrayLen(QueryNumber::Below(3))),
        Query::Element(QueryElement::HasKey { key: text("name"), value: None }),
        Query::Element(QueryElement::HasKey {
            key: text("name"),
            value: Some(Box::new(Query::Value(QueryValue::StartsWith(text("al"))))),
        }),
        Query::Element(QueryElement::ContainsElement(leaf(DataValue::U8(1)))),
        Query::Element(QueryElement::ContainsElement(person())),
        Query::Or(vec![
            Box::new(Query::And(vec![
                Box::new(Query::Value(QueryValue::NumberOp(QueryNumber::Above(3)))),
                Box::new(Query::Not(Box::new(Query::Value(QueryValue::Equal(DataValue::U8(5)))))),
            ])),
            Box::new(Query::Element(QueryElement::HasKey {
                key: text("tags"),
                value: Some(Box::new(Query::Element(QueryElement::ContainsElement(leaf(text("x")))))),
            })),
            Box::new(Query::Type(DataType::Undefined)),
        ]),
    ]
}

fn document_fixtures() -> Vec<DataElement> {
    vec![
        DataElement::Value(None),
        leaf(DataValue::U8(5)),
        leaf(DataValue::U64(5)),
        leaf(DataValue::U16(400)),
        leaf(text("hello")),
        leaf(text("Hello 2")),
        leaf(DataValue::Bool(true)),
        DataElement::Array(vec![]),
        DataElement::Array(vec![leaf(DataValue::U8(1)), leaf(DataValue::U64(1))]),
        DataElement::Array(vec![
            DataElement::Fields(vec![
                (text("tags"), DataElement::Array(vec![leaf(DataValue::U8(1)), leaf(text("x"))])),
                (text("name"), leaf(text("alice"))),
            ]),
            leaf(DataValue::U64(1)),
            leaf(DataValue::U64(2)),
        ]),
        DataElement::Fields(vec![
            (text("name"), leaf(text("alice"))),
            (text("tags"), DataElement::Array(vec![leaf(text("x"))])),
        ]),
        DataElement::Fields(vec![(text("name"), leaf(text("bob")))]),
    ]
}

fn scalar_fixtures() -> Vec<DataValue> {
    vec![
        DataValue::U8(5),
        DataValue::U64(5),
        DataValue::U16(400),
        DataValue::U128(12),
        text("hello"),
        text("Hello 2"),
        text(""),
        DataValue::Bool(false),
    ]
}

#[test]
fn written_queries_read_back_with_the_same_answers() {
    for query in battery() {
        let wire = query.encode();
        let back = Query::decode(&wire, DEPTH).unwrap();
        assert_eq!(back.is_for_element(), query.is_for_element());
        for d in document_fixtures() {
            assert_eq!(back.verify_element(&d), query.verify_element(&d), "{:?} on {:?}", query, d);
        }
        for v in scalar_fixtures() {
            assert_eq!(back.verify_value(&v), query.verify_value(&v), "{:?} on {:?}", query, v);
        }
    }
}

#[test]
fn written_documents_read_back() {
    for d in document_fixtures() {
        let back = DataElement::decode(&d.encode(), DEPTH).unwrap();
        assert!(back.same(&d), "{:?}", d);
    }
    let repeated = DataElement::Fields(vec![
        (text("k"), leaf(DataValue::U8(1))),
        (text("k"), leaf(DataValue::U8(2))),
    ]);
    let back = DataElement::decode(&repeated.encode(), DEPTH).unwrap();
    assert!(back.same(&repeated));
    assert!(back.get(&text("k")).unwrap().same(&leaf(DataValue::U8(1))));
}

#[test]
fn written_queries_that_nest_too_deep_are_refused() {
    let deepest = battery().pop().unwrap();
    // or > has_key > contains_element > leaf: four levels
    let wire = deepest.encode();
    assert!(Query::decode(&wire, 4).is_ok());
    assert_eq!(Query::decode(&wire, 3).err(), Some(DecodeError::ExcessiveNesting));
    for query in battery() {
        assert_eq!(Query::decode(&query.encode(), 0).err(), Some(DecodeError::ExcessiveNesting));
    }
}
