use indexmap::IndexMap;
use xelis_common::api::query::{Query, QueryNumber, QueryResult, QueryValue};
use xelis_common::api::{DataElement, DataValue};

#[test]
fn result_page_keeps_insertion_order_and_unique_keys() {
    let mut entries = IndexMap::new();
    entries.insert(DataValue::U64(3), DataElement::Value(Some(DataValue::U8(30))));
    entries.insert(DataValue::U64(1), DataElement::Value(Some(DataValue::U8(10))));
    entries.insert(DataValue::U64(3), DataElement::Value(Some(DataValue::U8(31))));
    entries.insert(DataValue::U8(3), DataElement::Value(None));
    let page = QueryResult { entries, next: Some(4) };
    assert_eq!(page.entries.len(), 3);
    let keys: Vec<&DataValue> = page.entries.keys().collect();
    assert_eq!(keys, vec![&DataValue::U64(3), &DataValue::U64(1), &DataValue::U8(3)]);
    assert!(page.entries[&DataValue::U64(3)].same(&DataElement::Value(Some(DataValue::U8(31)))));
    assert_eq!(page.next, Some(4));
}

#[test]
fn result_page_of_an_exhausted_scan() {
    let page = QueryResult { entries: IndexMap::new(), next: None };
    assert!(page.entries.is_empty());
    assert!(page.next.is_none());
}

#[test]
fn result_page_assembled_from_matching_records() {
    let records = vec![
        (DataValue::U64(1), DataElement::Value(Some(DataValue::U16(100)))),
        (DataValue::U64(2), DataElement::Value(Some(DataValue::U16(700)))),
        (DataValue::U64(3), DataElement::Value(Some(DataValue::U16(900)))),
    ];
    let query = Query::Value(QueryValue::NumberOp(QueryNumber::Above(500)));
    let mut entries = IndexMap::new();
    for (key, record) in records {
        if query.verify_element(&record) {
            entries.insert(key, record);
        }
    }
    let page = QueryResult { entries, next: None };
    let keys: Vec<&DataValue> = page.entries.keys().collect();
    assert_eq!(keys, vec![&DataValue::U64(2), &DataValue::U64(3)]);
}
