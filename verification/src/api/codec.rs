//! Reading queries and documents from the wire format, and writing them.
//!
//! A predicate is an object with one entry, whose key is a [`Keyword`]. The
//! keywords of the tree itself are tried first, then those of the
//! predicates over the shape of a document, then those over a scalar, then
//! the bare comparisons. Each predicate and each document takes one level
//! of nesting; what nests deeper than the caller allows is refused.

use crate::api::data::{
    array_view, fields_view, lemma_fields_view_push, DataElement, DataType, DataValue, Document,
    Scalar,
};
use crate::api::pattern::{regex_new, regex_source};
use crate::api::query::{
    element_view, queries_view, query_view, PredicateTree, Query, QueryElement, QueryNumber,
    QueryValue, ScalarPredicate, StructuralPredicate,
};
use crate::api::text::same_text;
use crate::api::wire::{
    entries_view, lemma_entries_view, lemma_list_view, lemma_parse_tag_name, list_view, parse_tag,
    tag_as_str, tag_from_str, tag_name, tagged, wire_view, Keyword, Wire, WireValue,
};
use regex::Regex;
use vstd::prelude::*;

verus! {

/// Why a wire value is no query or no document.
#[derive(Clone, Copy, Debug, PartialEq, Eq, Structural)]
pub enum DecodeError {
    /// No shape of the grammar matches.
    Malformed,
    /// The source of a pattern does not compile.
    InvalidPattern,
    /// The value nests deeper than allowed.
    ExcessiveNesting,
}

/// The type tag that a wire value names.
pub open spec fn decode_tag(wire: Wire) -> Option<DataType> {
    match wire {
        Wire::Text(name) => parse_tag(name),
        _ => None,
    }
}

/// The scalar of a given type that a wire value holds. An integer must fit
/// the width of its type.
pub open spec fn scalar_of(tag: DataType, body: Wire) -> Option<Scalar> {
    match (tag, body) {
        (DataType::Bool, Wire::Bool(b)) => Some(Scalar::Bool(b)),
        (DataType::String, Wire::Text(s)) => Some(Scalar::String(s)),
        (DataType::U8, Wire::Number(n)) => if n <= u8::MAX {
            Some(Scalar::U8(n as u8))
        } else {
            None
        },
        (DataType::U16, Wire::Number(n)) => if n <= u16::MAX {
            Some(Scalar::U16(n as u16))
        } else {
            None
        },
        (DataType::U32, Wire::Number(n)) => if n <= u32::MAX {
            Some(Scalar::U32(n as u32))
        } else {
            None
        },
        (DataType::U64, Wire::Number(n)) => if n <= u64::MAX {
            Some(Scalar::U64(n as u64))
        } else {
            None
        },
        (DataType::U128, Wire::Number(n)) => Some(Scalar::U128(n)),
        _ => None,
    }
}

/// The scalar that a wire value stands for: an object with one entry, keyed
/// by the token of the scalar's type.
pub open spec fn decode_scalar(wire: Wire) -> Option<Scalar> {
    match wire {
        Wire::Object(entries) => if entries.len() == 1 {
            match parse_tag(entries[0].0) {
                Some(tag) => scalar_of(tag, entries[0].1),
                None => None,
            }
        } else {
            None
        },
        _ => None,
    }
}

/// The threshold that a wire value holds.
pub open spec fn decode_threshold(wire: Wire) -> Option<usize> {
    match wire {
        Wire::Number(n) => if n <= usize::MAX {
            Some(n as usize)
        } else {
            None
        },
        _ => None,
    }
}

/// The comparison that a keyword names, with its threshold.
pub open spec fn number_of(keyword: Keyword, threshold: usize) -> Option<QueryNumber> {
    match keyword {
        Keyword::Above => Some(QueryNumber::Above(threshold)),
        Keyword::AboveOrEqual => Some(QueryNumber::AboveOrEqual(threshold)),
        Keyword::Below => Some(QueryNumber::Below(threshold)),
        Keyword::BelowOrEqual => Some(QueryNumber::BelowOrEqual(threshold)),
        _ => None,
    }
}

/// The comparison that a wire value stands for: an object with one entry,
/// keyed by the comparison, that holds the threshold.
pub open spec fn decode_number(wire: Wire) -> Option<QueryNumber> {
    match wire {
        Wire::Object(entries) => if entries.len() == 1 {
            match (Keyword::parse(entries[0].0), decode_threshold(entries[0].1)) {
                (Some(keyword), Some(threshold)) => number_of(keyword, threshold),
                _ => None,
            }
        } else {
            None
        },
        _ => None,
    }
}

/// The document that a wire value stands for, read to a depth of at most
/// `depth` levels: `null` is the empty leaf, a list is an array, an object
/// with the one key `fields` is a field map written as a list of pairs of
/// key and document, and any other object is a scalar.
pub open spec fn decode_document(wire: Wire, depth: nat) -> Result<Document, DecodeError>
    decreases depth, 0int, 0nat,
{
    if depth == 0 {
        Err(DecodeError::ExcessiveNesting)
    } else {
        match wire {
            Wire::Null => Ok(Document::Value(None)),
            Wire::List(items) => match decode_documents(items, (depth - 1) as nat) {
                Ok(documents) => Ok(Document::Array(documents)),
                Err(e) => Err(e),
            },
            Wire::Object(entries) => if entries.len() == 1 && entries[0].0 == tag_name(
                DataType::Fields,
            ) {
                match entries[0].1 {
                    Wire::List(pairs) => match decode_fields(pairs, (depth - 1) as nat) {
                        Ok(fields) => Ok(Document::Fields(fields)),
                        Err(e) => Err(e),
                    },
                    _ => Err(DecodeError::Malformed),
                }
            } else {
                match decode_scalar(wire) {
                    Some(value) => Ok(Document::Value(Some(value))),
                    None => Err(DecodeError::Malformed),
                }
            },
            _ => Err(DecodeError::Malformed),
        }
    }
}

/// The documents that a list of wire values stands for. The first value
/// that is no document decides the error.
pub open spec fn decode_documents(items: Seq<Wire>, depth: nat) -> Result<
    Seq<Document>,
    DecodeError,
>
    decreases depth, 1int, items.len(),
{
    if items.len() == 0 {
        Ok(Seq::empty())
    } else {
        match decode_documents(items.drop_last(), depth) {
            Err(e) => Err(e),
            Ok(documents) => match decode_document(items.last(), depth) {
                Err(e) => Err(e),
                Ok(document) => Ok(documents.push(document)),
            },
        }
    }
}

/// The field map that a list of pairs stands for. A key that occurs more
/// than once is bound by its first pair. The first pair that is malformed
/// decides the error; within a pair the key is read first.
pub open spec fn decode_fields(pairs: Seq<Wire>, depth: nat) -> Result<
    Map<Scalar, Document>,
    DecodeError,
>
    decreases depth, 1int, pairs.len(),
{
    if pairs.len() == 0 {
        Ok(Map::empty())
    } else {
        match decode_fields(pairs.drop_last(), depth) {
            Err(e) => Err(e),
            Ok(fields) => match pairs.last() {
                Wire::List(pair) => if pair.len() == 2 {
                    match decode_scalar(pair[0]) {
                        None => Err(DecodeError::Malformed),
                        Some(key) => match decode_document(pair[1], depth) {
                            Err(e) => Err(e),
                            Ok(document) => Ok(
                                if fields.contains_key(key) {
                                    fields
                                } else {
                                    fields.insert(key, document)
                                },
                            ),
                        },
                    }
                } else {
                    Err(DecodeError::Malformed)
                },
                _ => Err(DecodeError::Malformed),
            },
        }
    }
}

/// The query that a wire value stands for, read to a depth of at most
/// `depth` levels.
pub open spec fn decode_query(wire: Wire, depth: nat) -> Result<PredicateTree, DecodeError>
    decreases depth, 1int, 0nat,
{
    if depth == 0 {
        Err(DecodeError::ExcessiveNesting)
    } else {
        match wire {
            Wire::Object(entries) => if entries.len() == 1 {
                match Keyword::parse(entries[0].0) {
                    Some(keyword) => decode_keyed(keyword, entries[0].1, depth),
                    None => Err(DecodeError::Malformed),
                }
            } else {
                Err(DecodeError::Malformed)
            },
            _ => Err(DecodeError::Malformed),
        }
    }
}

/// The query that a keyword and the value under it stand for.
pub open spec fn decode_keyed(keyword: Keyword, body: Wire, depth: nat) -> Result<
    PredicateTree,
    DecodeError,
>
    decreases depth, 0int, 0nat,
{
    if depth == 0 {
        Err(DecodeError::ExcessiveNesting)
    } else {
        match keyword {
            Keyword::Not => match decode_query(body, (depth - 1) as nat) {
                Ok(op) => Ok(PredicateTree::Not(Box::new(op))),
                Err(e) => Err(e),
            },
            Keyword::And => match body {
                Wire::List(items) => match decode_queries(items, (depth - 1) as nat) {
                    Ok(operations) => Ok(PredicateTree::And(operations)),
                    Err(e) => Err(e),
                },
                _ => Err(DecodeError::Malformed),
            },
            Keyword::Or => match body {
                Wire::List(items) => match decode_queries(items, (depth - 1) as nat) {
                    Ok(operations) => Ok(PredicateTree::Or(operations)),
                    Err(e) => Err(e),
                },
                _ => Err(DecodeError::Malformed),
            },
            Keyword::Type => match decode_tag(body) {
                Some(tag) => Ok(PredicateTree::Type(tag)),
                None => Err(DecodeError::Malformed),
            },
            Keyword::HasKey => match has_key_parts(body) {
                Some((key_wire, value_wire)) => match decode_scalar(key_wire) {
                    None => Err(DecodeError::Malformed),
                    Some(key) => match value_wire {
                        None | Some(Wire::Null) => Ok(
                            PredicateTree::Element(StructuralPredicate::HasKey { key, value: None }),
                        ),
                        Some(nested) => match decode_query(nested, (depth - 1) as nat) {
                            Ok(query) => Ok(
                                PredicateTree::Element(
                                    StructuralPredicate::HasKey {
                                        key,
                                        value: Some(Box::new(query)),
                                    },
                                ),
                            ),
                            Err(e) => Err(e),
                        },
                    },
                },
                None => Err(DecodeError::Malformed),
            },
            Keyword::ArrayLen => match decode_number(body) {
                Some(query) => Ok(PredicateTree::Element(StructuralPredicate::ArrayLen(query))),
                None => Err(DecodeError::Malformed),
            },
            Keyword::ContainsElement => match decode_document(body, (depth - 1) as nat) {
                Ok(document) => Ok(
                    PredicateTree::Element(StructuralPredicate::ContainsElement(document)),
                ),
                Err(e) => Err(e),
            },
            Keyword::Equal => match decode_scalar(body) {
                Some(value) => Ok(PredicateTree::Value(ScalarPredicate::Equal(value))),
                None => Err(DecodeError::Malformed),
            },
            Keyword::StartsWith => match decode_scalar(body) {
                Some(value) => Ok(PredicateTree::Value(ScalarPredicate::StartsWith(value))),
                None => Err(DecodeError::Malformed),
            },
            Keyword::EndsWith => match decode_scalar(body) {
                Some(value) => Ok(PredicateTree::Value(ScalarPredicate::EndsWith(value))),
                None => Err(DecodeError::Malformed),
            },
            Keyword::ContainsValue => match decode_scalar(body) {
                Some(value) => Ok(PredicateTree::Value(ScalarPredicate::ContainsValue(value))),
                None => Err(DecodeError::Malformed),
            },
            Keyword::Pattern => match body {
                Wire::Text(source) => match regex_new(source) {
                    Ok(pattern) => Ok(PredicateTree::Value(ScalarPredicate::Pattern(pattern))),
                    Err(_) => Err(DecodeError::InvalidPattern),
                },
                _ => Err(DecodeError::Malformed),
            },
            Keyword::Above | Keyword::AboveOrEqual | Keyword::Below | Keyword::BelowOrEqual => {
                match decode_threshold(body) {
                    Some(threshold) => match number_of(keyword, threshold) {
                        Some(query) => Ok(PredicateTree::Value(ScalarPredicate::NumberOp(query))),
                        None => Err(DecodeError::Malformed),
                    },
                    None => Err(DecodeError::Malformed),
                }
            },
        }
    }
}

/// The queries that a list of wire values stands for. The first value that
/// is no query decides the error.
pub open spec fn decode_queries(items: Seq<Wire>, depth: nat) -> Result<
    Seq<PredicateTree>,
    DecodeError,
>
    decreases depth, 2int, items.len(),
{
    if items.len() == 0 {
        Ok(Seq::empty())
    } else {
        match decode_queries(items.drop_last(), depth) {
            Err(e) => Err(e),
            Ok(operations) => match decode_query(items.last(), depth) {
                Err(e) => Err(e),
                Ok(operation) => Ok(operations.push(operation)),
            },
        }
    }
}

/// The two parts of what stands under `has_key`: the value under `key`, and
/// the value under `value` where there is one. The object holds these
/// entries and no others, in either order.
pub open spec fn has_key_parts(body: Wire) -> Option<(Wire, Option<Wire>)> {
    match body {
        Wire::Object(entries) => if entries.len() == 1 && entries[0].0 == "key"@ {
            Some((entries[0].1, None))
        } else if entries.len() == 2 && entries[0].0 == "key"@ && entries[1].0 == "value"@ {
            Some((entries[0].1, Some(entries[1].1)))
        } else if entries.len() == 2 && entries[0].0 == "value"@ && entries[1].0 == "key"@ {
            Some((entries[1].1, Some(entries[0].1)))
        } else {
            None
        },
        _ => None,
    }
}

/// Whether a value that was read is the one that the grammar gives.
pub open spec fn read_as<T: View>(r: Result<T, DecodeError>, expected: Result<T::V, DecodeError>) -> bool {
    match expected {
        Ok(model) => r matches Ok(value) && value@ == model,
        Err(e) => r matches Err(found) && found == e,
    }
}

/// Reads a type tag.
pub fn decode_data_type(wire: &WireValue) -> (r: Option<DataType>)
    ensures
        r == decode_tag(wire@),
{
    match wire {
        WireValue::Text(name) => tag_from_str(name.as_str()),
        _ => None,
    }
}

/// Reads a threshold.
fn read_threshold(wire: &WireValue) -> (r: Option<usize>)
    ensures
        r == decode_threshold(wire@),
{
    match wire {
        WireValue::Number(n) => if *n <= usize::MAX as u128 {
            Some(*n as usize)
        } else {
            None
        },
        _ => None,
    }
}

/// Builds the comparison that a keyword names.
fn make_number(keyword: Keyword, threshold: usize) -> (r: Option<QueryNumber>)
    ensures
        r == number_of(keyword, threshold),
{
    match keyword {
        Keyword::Above => Some(QueryNumber::Above(threshold)),
        Keyword::AboveOrEqual => Some(QueryNumber::AboveOrEqual(threshold)),
        Keyword::Below => Some(QueryNumber::Below(threshold)),
        Keyword::BelowOrEqual => Some(QueryNumber::BelowOrEqual(threshold)),
        _ => None,
    }
}

impl QueryNumber {
    /// Reads a comparison.
    pub fn decode(wire: &WireValue) -> (r: Option<QueryNumber>)
        ensures
            r == decode_number(wire@),
    {
        match wire {
            WireValue::Object(entries) => {
                proof {
                    lemma_entries_view(entries@);
                }
                if entries.len() == 1 {
                    match (Keyword::from_str(entries[0].0.as_str()), read_threshold(&entries[0].1)) {
                        (Some(keyword), Some(threshold)) => make_number(keyword, threshold),
                        _ => None,
                    }
                } else {
                    None
                }
            },
            _ => None,
        }
    }
}

/// Builds the scalar of a given type that a wire value holds.
fn make_scalar(tag: DataType, body: &WireValue) -> (r: Option<DataValue>)
    ensures
        match scalar_of(tag, body@) {
            Some(model) => r matches Some(value) && value@ == model,
            None => r is None,
        },
{
    match (tag, body) {
        (DataType::Bool, WireValue::Bool(b)) => Some(DataValue::Bool(*b)),
        (DataType::String, WireValue::Text(s)) => Some(DataValue::String(s.clone())),
        (DataType::U8, WireValue::Number(n)) => if *n <= u8::MAX as u128 {
            Some(DataValue::U8(*n as u8))
        } else {
            None
        },
        (DataType::U16, WireValue::Number(n)) => if *n <= u16::MAX as u128 {
            Some(DataValue::U16(*n as u16))
        } else {
            None
        },
        (DataType::U32, WireValue::Number(n)) => if *n <= u32::MAX as u128 {
            Some(DataValue::U32(*n as u32))
        } else {
            None
        },
        (DataType::U64, WireValue::Number(n)) => if *n <= u64::MAX as u128 {
            Some(DataValue::U64(*n as u64))
        } else {
            None
        },
        (DataType::U128, WireValue::Number(n)) => Some(DataValue::U128(*n)),
        _ => None,
    }
}

impl DataValue {
    /// Reads a scalar.
    pub fn decode(wire: &WireValue) -> (r: Option<DataValue>)
        ensures
            match decode_scalar(wire@) {
                Some(model) => r matches Some(value) && value@ == model,
                None => r is None,
            },
    {
        match wire {
            WireValue::Object(entries) => {
                proof {
                    lemma_entries_view(entries@);
                }
                if entries.len() == 1 {
                    match tag_from_str(entries[0].0.as_str()) {
                        Some(tag) => make_scalar(tag, &entries[0].1),
                        None => None,
                    }
                } else {
                    None
                }
            },
            _ => None,
        }
    }
}

/// Once a value of a list is no document, the list is none, with the same
/// error.
pub proof fn lemma_decode_documents_prefix(items: Seq<Wire>, depth: nat, k: int)
    requires
        0 <= k <= items.len(),
        decode_documents(items.subrange(0, k), depth) is Err,
    ensures
        decode_documents(items, depth) == decode_documents(items.subrange(0, k), depth),
    decreases items.len() - k,
{
    if k == items.len() {
        assert(items.subrange(0, k) =~= items);
    } else {
        assert(items.subrange(0, k + 1).drop_last() =~= items.subrange(0, k));
        lemma_decode_documents_prefix(items, depth, k + 1);
    }
}

/// Once a pair of a list is malformed, the list is no field map, with the
/// same error.
pub proof fn lemma_decode_fields_prefix(pairs: Seq<Wire>, depth: nat, k: int)
    requires
        0 <= k <= pairs.len(),
        decode_fields(pairs.subrange(0, k), depth) is Err,
    ensures
        decode_fields(pairs, depth) == decode_fields(pairs.subrange(0, k), depth),
    decreases pairs.len() - k,
{
    if k == pairs.len() {
        assert(pairs.subrange(0, k) =~= pairs);
    } else {
        assert(pairs.subrange(0, k + 1).drop_last() =~= pairs.subrange(0, k));
        lemma_decode_fields_prefix(pairs, depth, k + 1);
    }
}

/// Once a value of a list is no query, the list is none, with the same
/// error.
pub proof fn lemma_decode_queries_prefix(items: Seq<Wire>, depth: nat, k: int)
    requires
        0 <= k <= items.len(),
        decode_queries(items.subrange(0, k), depth) is Err,
    ensures
        decode_queries(items, depth) == decode_queries(items.subrange(0, k), depth),
    decreases items.len() - k,
{
    if k == items.len() {
        assert(items.subrange(0, k) =~= items);
    } else {
        assert(items.subrange(0, k + 1).drop_last() =~= items.subrange(0, k));
        lemma_decode_queries_prefix(items, depth, k + 1);
    }
}

impl DataElement {
    /// Reads a document that nests no deeper than `max_depth` levels.
    pub fn decode(wire: &WireValue, max_depth: usize) -> (r: Result<DataElement, DecodeError>)
        ensures
            read_as(r, decode_document(wire@, max_depth as nat)),
            r matches Ok(element) ==> element_depth(element) <= max_depth,
        decreases max_depth, 0int, 0nat,
    {
        if max_depth == 0 {
            return Err(DecodeError::ExcessiveNesting);
        }
        match wire {
            WireValue::Null => Ok(DataElement::Value(None)),
            WireValue::List(items) => match decode_element_list(items, max_depth - 1) {
                Ok(elements) => Ok(DataElement::Array(elements)),
                Err(e) => Err(e),
            },
            WireValue::Object(entries) => {
                proof {
                    lemma_entries_view(entries@);
                    reveal_strlit("fields");
                }
                if entries.len() == 1 && same_text(entries[0].0.as_str(), "fields") {
                    match &entries[0].1 {
                        WireValue::List(pairs) => match decode_field_list(pairs, max_depth - 1) {
                            Ok(fields) => Ok(DataElement::Fields(fields)),
                            Err(e) => Err(e),
                        },
                        _ => Err(DecodeError::Malformed),
                    }
                } else {
                    match DataValue::decode(wire) {
                        Some(value) => Ok(DataElement::Value(Some(value))),
                        None => Err(DecodeError::Malformed),
                    }
                }
            },
            _ => Err(DecodeError::Malformed),
        }
    }
}

/// Reads the elements of an array.
#[verifier::loop_isolation(false)]
fn decode_element_list(items: &Vec<WireValue>, depth: usize) -> (r: Result<
    Vec<DataElement>,
    DecodeError,
>)
    ensures
        match decode_documents(list_view(items@), depth as nat) {
            Ok(models) => r matches Ok(elements) && array_view(elements@) == models,
            Err(e) => r matches Err(found) && found == e,
        },
        r matches Ok(elements) ==> max_element_depth(elements@) <= depth,
    decreases depth, 1int, items.len(),
{
    let ghost wires = list_view(items@);
    proof {
        lemma_list_view(items@);
    }
    let mut elements: Vec<DataElement> = Vec::new();
    let mut i: usize = 0;
    assert(array_view(elements@) =~= Seq::<Document>::empty());
    while i < items.len()
        invariant
            i <= items.len(),
            decode_documents(wires.subrange(0, i as int), depth as nat) == Ok::<
                Seq<Document>,
                DecodeError,
            >(array_view(elements@)),
            max_element_depth(elements@) <= depth,
        decreases items.len() - i,
    {
        let ghost before = elements@;
        assert(wires.subrange(0, i + 1).drop_last() =~= wires.subrange(0, i as int));
        assert(wires.subrange(0, i + 1).last() == wire_view(items[i as int]));
        match DataElement::decode(&items[i], depth) {
            Ok(element) => {
                elements.push(element);
                assert(array_view(elements@) =~= array_view(before).push(element@));
                assert(elements@.drop_last() =~= before);
            },
            Err(e) => {
                proof {
                    lemma_decode_documents_prefix(wires, depth as nat, i + 1);
                }
                return Err(e);
            },
        }
        i += 1;
    }
    assert(wires.subrange(0, i as int) =~= wires);
    Ok(elements)
}

/// Reads the entries of a field map.
#[verifier::loop_isolation(false)]
fn decode_field_list(pairs: &Vec<WireValue>, depth: usize) -> (r: Result<
    Vec<(DataValue, DataElement)>,
    DecodeError,
>)
    ensures
        match decode_fields(list_view(pairs@), depth as nat) {
            Ok(model) => r matches Ok(entries) && fields_view(entries@) == model,
            Err(e) => r matches Err(found) && found == e,
        },
        r matches Ok(entries) ==> max_entry_depth(entries@) <= depth,
    decreases depth, 1int, pairs.len(),
{
    let ghost wires = list_view(pairs@);
    proof {
        lemma_list_view(pairs@);
    }
    let mut entries: Vec<(DataValue, DataElement)> = Vec::new();
    let mut i: usize = 0;
    while i < pairs.len()
        invariant
            i <= pairs.len(),
            decode_fields(wires.subrange(0, i as int), depth as nat) == Ok::<
                Map<Scalar, Document>,
                DecodeError,
            >(fields_view(entries@)),
            max_entry_depth(entries@) <= depth,
        decreases pairs.len() - i,
    {
        let ghost before = entries@;
        assert(wires.subrange(0, i + 1).drop_last() =~= wires.subrange(0, i as int));
        assert(wires.subrange(0, i + 1).last() == wire_view(pairs[i as int]));
        let read: Result<(DataValue, DataElement), DecodeError> = match &pairs[i] {
            WireValue::List(pair) => {
                proof {
                    lemma_list_view(pair@);
                }
                if pair.len() == 2 {
                    match DataValue::decode(&pair[0]) {
                        None => Err(DecodeError::Malformed),
                        Some(key) => match DataElement::decode(&pair[1], depth) {
                            Err(e) => Err(e),
                            Ok(element) => {
                                assert(element_depth(element) <= depth);
                                Ok((key, element))
                            },
                        },
                    }
                } else {
                    Err(DecodeError::Malformed)
                }
            },
            _ => Err(DecodeError::Malformed),
        };
        match read {
            Ok(entry) => {
                proof {
                    lemma_fields_view_push(before, entry);
                }
                assert(element_depth(entry.1) <= depth);
                entries.push(entry);
                assert(entries@.drop_last() =~= before);
            },
            Err(e) => {
                assert(decode_fields(wires.subrange(0, i + 1), depth as nat) == Err::<
                    Map<Scalar, Document>,
                    DecodeError,
                >(e));
                proof {
                    lemma_decode_fields_prefix(wires, depth as nat, i + 1);
                }
                return Err(e);
            },
        }
        i += 1;
    }
    assert(wires.subrange(0, i as int) =~= wires);
    Ok(entries)
}

/// Splits what stands under `has_key` into the value under `key` and the
/// value under `value`.
fn split_has_key(body: &WireValue) -> (r: Option<(&WireValue, Option<&WireValue>)>)
    ensures
        match has_key_parts(body@) {
            Some((key, value)) => r matches Some((found_key, found_value)) && found_key@ == key
                && match value {
                Some(nested) => found_value matches Some(found) && found@ == nested,
                None => found_value is None,
            },
            None => r is None,
        },
{
    match body {
        WireValue::Object(entries) => {
            proof {
                lemma_entries_view(entries@);
            }
            if entries.len() == 1 && same_text(entries[0].0.as_str(), "key") {
                Some((&entries[0].1, None))
            } else if entries.len() == 2 && same_text(entries[0].0.as_str(), "key") && same_text(
                entries[1].0.as_str(),
                "value",
            ) {
                Some((&entries[0].1, Some(&entries[1].1)))
            } else if entries.len() == 2 && same_text(entries[0].0.as_str(), "value") && same_text(
                entries[1].0.as_str(),
                "key",
            ) {
                Some((&entries[1].1, Some(&entries[0].1)))
            } else {
                None
            }
        },
        _ => None,
    }
}

impl Query {
    /// Reads a query that nests no deeper than `max_depth` levels.
    ///
    /// Fails with `ExcessiveNesting` where the value nests deeper, with
    /// `InvalidPattern` where the source of a pattern does not compile, and
    /// with `Malformed` where no shape of the grammar matches. Of several
    /// faults the one that is met first, reading in order, decides.
    pub fn decode(wire: &WireValue, max_depth: usize) -> (r: Result<Query, DecodeError>)
        ensures
            read_as(r, decode_query(wire@, max_depth as nat)),
            r matches Ok(query) ==> query_depth(query) <= max_depth && patterns_are_compiled(query),
        decreases max_depth, 1int, 0nat,
    {
        if max_depth == 0 {
            return Err(DecodeError::ExcessiveNesting);
        }
        match wire {
            WireValue::Object(entries) => {
                proof {
                    lemma_entries_view(entries@);
                }
                if entries.len() == 1 {
                    match Keyword::from_str(entries[0].0.as_str()) {
                        Some(keyword) => decode_keyed_query(keyword, &entries[0].1, max_depth),
                        None => Err(DecodeError::Malformed),
                    }
                } else {
                    Err(DecodeError::Malformed)
                }
            },
            _ => Err(DecodeError::Malformed),
        }
    }
}

/// Reads the scalar operand of a predicate.
fn decode_operand(body: &WireValue) -> (r: Result<DataValue, DecodeError>)
    ensures
        match decode_scalar(body@) {
            Some(model) => r matches Ok(value) && value@ == model,
            None => r matches Err(e) && e == DecodeError::Malformed,
        },
{
    match DataValue::decode(body) {
        Some(value) => Ok(value),
        None => Err(DecodeError::Malformed),
    }
}

/// Reads the query that stands under a keyword.
fn decode_keyed_query(keyword: Keyword, body: &WireValue, depth: usize) -> (r: Result<
    Query,
    DecodeError,
>)
    ensures
        read_as(r, decode_keyed(keyword, body@, depth as nat)),
        r matches Ok(query) ==> query_depth(query) <= depth && patterns_are_compiled(query),
    decreases depth, 0int, 2nat,
{
    if depth == 0 {
        return Err(DecodeError::ExcessiveNesting);
    }
    match keyword {
        Keyword::Not | Keyword::And | Keyword::Or | Keyword::Type => decode_tree_node(
            keyword,
            body,
            depth,
        ),
        Keyword::HasKey | Keyword::ArrayLen | Keyword::ContainsElement => {
            match decode_shape_node(keyword, body, depth) {
                Ok(query) => Ok(Query::Element(query)),
                Err(e) => Err(e),
            }
        },
        _ => match decode_value_node(keyword, body, depth) {
            Ok(query) => Ok(Query::Value(query)),
            Err(e) => Err(e),
        },
    }
}

/// Reads what stands under one of the keywords of the tree itself.
fn decode_tree_node(keyword: Keyword, body: &WireValue, depth: usize) -> (r: Result<
    Query,
    DecodeError,
>)
    requires
        depth > 0,
        keyword is Not || keyword is And || keyword is Or || keyword is Type,
    ensures
        read_as(r, decode_keyed(keyword, body@, depth as nat)),
        r matches Ok(query) ==> query_depth(query) <= depth && patterns_are_compiled(query),
    decreases depth, 0int, 1nat,
{
    match keyword {
        Keyword::Not => match Query::decode(body, depth - 1) {
            Ok(op) => Ok(Query::Not(Box::new(op))),
            Err(e) => Err(e),
        },
        Keyword::And => match body {
            WireValue::List(items) => match decode_query_list(items, depth - 1) {
                Ok(operations) => Ok(Query::And(operations)),
                Err(e) => Err(e),
            },
            _ => Err(DecodeError::Malformed),
        },
        Keyword::Or => match body {
            WireValue::List(items) => match decode_query_list(items, depth - 1) {
                Ok(operations) => Ok(Query::Or(operations)),
                Err(e) => Err(e),
            },
            _ => Err(DecodeError::Malformed),
        },
        _ => match decode_data_type(body) {
            Some(tag) => Ok(Query::Type(tag)),
            None => Err(DecodeError::Malformed),
        },
    }
}

/// Reads what stands under one of the keywords of the predicates over the
/// shape of a document.
fn decode_shape_node(keyword: Keyword, body: &WireValue, depth: usize) -> (r: Result<
    QueryElement,
    DecodeError,
>)
    requires
        depth > 0,
        keyword is HasKey || keyword is ArrayLen || keyword is ContainsElement,
    ensures
        match decode_keyed(keyword, body@, depth as nat) {
            Ok(model) => r matches Ok(query) && PredicateTree::Element(element_view(query))
                == model,
            Err(e) => r matches Err(found) && found == e,
        },
        r matches Ok(query) ==> query_element_depth(query) <= depth && patterns_are_compiled(
            Query::Element(query),
        ),
    decreases depth, 0int, 1nat,
{
    match keyword {
        Keyword::HasKey => match split_has_key(body) {
            Some((key_wire, value_wire)) => match DataValue::decode(key_wire) {
                None => Err(DecodeError::Malformed),
                Some(key) => match value_wire {
                    None => Ok(QueryElement::HasKey { key, value: None }),
                    Some(WireValue::Null) => Ok(QueryElement::HasKey { key, value: None }),
                    Some(nested) => match Query::decode(nested, depth - 1) {
                        Ok(inner) => Ok(QueryElement::HasKey { key, value: Some(Box::new(inner)) }),
                        Err(e) => Err(e),
                    },
                },
            },
            None => Err(DecodeError::Malformed),
        },
        Keyword::ArrayLen => match QueryNumber::decode(body) {
            Some(number) => Ok(QueryElement::ArrayLen(number)),
            None => Err(DecodeError::Malformed),
        },
        _ => match DataElement::decode(body, depth - 1) {
            Ok(element) => Ok(QueryElement::ContainsElement(element)),
            Err(e) => Err(e),
        },
    }
}

/// Reads what stands under one of the keywords of the predicates over a
/// scalar, the bare comparisons among them.
fn decode_value_node(keyword: Keyword, body: &WireValue, depth: usize) -> (r: Result<
    QueryValue,
    DecodeError,
>)
    requires
        depth > 0,
        !(keyword is Not || keyword is And || keyword is Or || keyword is Type),
        !(keyword is HasKey || keyword is ArrayLen || keyword is ContainsElement),
    ensures
        match decode_keyed(keyword, body@, depth as nat) {
            Ok(model) => r matches Ok(query) && PredicateTree::Value(query@) == model,
            Err(e) => r matches Err(found) && found == e,
        },
        r matches Ok(query) ==> patterns_are_compiled(Query::Value(query)),
{
    match keyword {
        Keyword::Equal => match decode_operand(body) {
            Ok(value) => Ok(QueryValue::Equal(value)),
            Err(e) => Err(e),
        },
        Keyword::StartsWith => match decode_operand(body) {
            Ok(value) => Ok(QueryValue::StartsWith(value)),
            Err(e) => Err(e),
        },
        Keyword::EndsWith => match decode_operand(body) {
            Ok(value) => Ok(QueryValue::EndsWith(value)),
            Err(e) => Err(e),
        },
        Keyword::ContainsValue => match decode_operand(body) {
            Ok(value) => Ok(QueryValue::ContainsValue(value)),
            Err(e) => Err(e),
        },
        Keyword::Pattern => match body {
            WireValue::Text(source) => match Regex::new(source.as_str()) {
                Ok(pattern) => Ok(QueryValue::Pattern(pattern)),
                Err(_) => Err(DecodeError::InvalidPattern),
            },
            _ => Err(DecodeError::Malformed),
        },
        _ => match read_threshold(body) {
            Some(threshold) => match make_number(keyword, threshold) {
                Some(number) => Ok(QueryValue::NumberOp(number)),
                None => Err(DecodeError::Malformed),
            },
            None => Err(DecodeError::Malformed),
        },
    }
}

/// Reads the operands of `And` or `Or`.
#[verifier::loop_isolation(false)]
fn decode_query_list(items: &Vec<WireValue>, depth: usize) -> (r: Result<
    Vec<Box<Query>>,
    DecodeError,
>)
    ensures
        match decode_queries(list_view(items@), depth as nat) {
            Ok(models) => r matches Ok(operations) && queries_view(operations@) == models,
            Err(e) => r matches Err(found) && found == e,
        },
        r matches Ok(operations) ==> max_query_depth(operations@) <= depth
            && all_patterns_are_compiled(operations@),
    decreases depth, 2int, items.len(),
{
    let ghost wires = list_view(items@);
    proof {
        lemma_list_view(items@);
    }
    let mut operations: Vec<Box<Query>> = Vec::new();
    let mut i: usize = 0;
    assert(queries_view(operations@) =~= Seq::<PredicateTree>::empty());
    while i < items.len()
        invariant
            i <= items.len(),
            decode_queries(wires.subrange(0, i as int), depth as nat) == Ok::<
                Seq<PredicateTree>,
                DecodeError,
            >(queries_view(operations@)),
            max_query_depth(operations@) <= depth,
            all_patterns_are_compiled(operations@),
        decreases items.len() - i,
    {
        let ghost before = operations@;
        assert(wires.subrange(0, i + 1).drop_last() =~= wires.subrange(0, i as int));
        assert(wires.subrange(0, i + 1).last() == wire_view(items[i as int]));
        match Query::decode(&items[i], depth) {
            Ok(operation) => {
                let ghost model = query_view(operation);
                operations.push(Box::new(operation));
                assert(queries_view(operations@) =~= queries_view(before).push(model));
                assert(operations@.drop_last() =~= before);
            },
            Err(e) => {
                proof {
                    lemma_decode_queries_prefix(wires, depth as nat, i + 1);
                }
                return Err(e);
            },
        }
        i += 1;
    }
    assert(wires.subrange(0, i as int) =~= wires);
    Ok(operations)
}

/// The wire form of a scalar: an object with one entry, keyed by the token
/// of the scalar's type.
pub open spec fn scalar_wire(value: Scalar) -> Wire {
    match value {
        Scalar::Bool(b) => tagged(tag_name(DataType::Bool), Wire::Bool(b)),
        Scalar::String(s) => tagged(tag_name(DataType::String), Wire::Text(s)),
        Scalar::U8(n) => tagged(tag_name(DataType::U8), Wire::Number(n as u128)),
        Scalar::U16(n) => tagged(tag_name(DataType::U16), Wire::Number(n as u128)),
        Scalar::U32(n) => tagged(tag_name(DataType::U32), Wire::Number(n as u128)),
        Scalar::U64(n) => tagged(tag_name(DataType::U64), Wire::Number(n as u128)),
        Scalar::U128(n) => tagged(tag_name(DataType::U128), Wire::Number(n)),
    }
}

/// The wire form of a comparison.
pub open spec fn number_wire(query: QueryNumber) -> Wire {
    match query {
        QueryNumber::Above(t) => tagged(Keyword::Above.name(), Wire::Number(t as u128)),
        QueryNumber::AboveOrEqual(t) => tagged(
            Keyword::AboveOrEqual.name(),
            Wire::Number(t as u128),
        ),
        QueryNumber::Below(t) => tagged(Keyword::Below.name(), Wire::Number(t as u128)),
        QueryNumber::BelowOrEqual(t) => tagged(
            Keyword::BelowOrEqual.name(),
            Wire::Number(t as u128),
        ),
    }
}

/// The wire form of a predicate over a scalar. A pattern is written as its
/// source.
pub open spec fn value_wire(query: ScalarPredicate) -> Wire {
    match query {
        ScalarPredicate::Equal(v) => tagged(Keyword::Equal.name(), scalar_wire(v)),
        ScalarPredicate::StartsWith(v) => tagged(Keyword::StartsWith.name(), scalar_wire(v)),
        ScalarPredicate::EndsWith(v) => tagged(Keyword::EndsWith.name(), scalar_wire(v)),
        ScalarPredicate::ContainsValue(v) => tagged(Keyword::ContainsValue.name(), scalar_wire(v)),
        ScalarPredicate::Pattern(pattern) => tagged(
            Keyword::Pattern.name(),
            Wire::Text(regex_source(pattern)),
        ),
        ScalarPredicate::NumberOp(number) => number_wire(number),
    }
}

/// The wire form of a pair of a field map.
pub open spec fn pair_wire(entry: (DataValue, DataElement)) -> Wire
    decreases entry, 2int,
{
    Wire::List(seq![scalar_wire(entry.0@), element_wire(entry.1)])
}

/// The wire forms of the elements of an array, in the same order.
pub open spec fn elements_wire(items: Seq<DataElement>) -> Seq<Wire>
    decreases items, 0int,
{
    if items.len() == 0 {
        Seq::empty()
    } else {
        elements_wire(items.drop_last()).push(element_wire(items.last()))
    }
}

/// The wire forms of the entries of a field map, in the same order.
pub open spec fn pairs_wire(entries: Seq<(DataValue, DataElement)>) -> Seq<Wire>
    decreases entries, 0int,
{
    if entries.len() == 0 {
        Seq::empty()
    } else {
        pairs_wire(entries.drop_last()).push(pair_wire(entries.last()))
    }
}

/// The wire form of a document. The entries of a field map are written in
/// the order in which the document keeps them.
pub open spec fn element_wire(element: DataElement) -> Wire
    decreases element, 1int,
{
    match element {
        DataElement::Value(None) => Wire::Null,
        DataElement::Value(Some(value)) => scalar_wire(value@),
        DataElement::Array(items) => Wire::List(elements_wire(items@)),
        DataElement::Fields(entries) => tagged(
            tag_name(DataType::Fields),
            Wire::List(pairs_wire(entries@)),
        ),
    }
}

/// The wire forms of the operands of `And` or `Or`, in the same order.
pub open spec fn queries_wire(operations: Seq<Box<Query>>) -> Seq<Wire>
    decreases operations, 0int,
{
    if operations.len() == 0 {
        Seq::empty()
    } else {
        queries_wire(operations.drop_last()).push(query_wire(*operations.last()))
    }
}

/// The wire form of a query.
pub open spec fn query_wire(query: Query) -> Wire
    decreases query, 1int,
{
    match query {
        Query::Not(op) => tagged(Keyword::Not.name(), query_wire(*op)),
        Query::And(operations) => tagged(
            Keyword::And.name(),
            Wire::List(queries_wire(operations@)),
        ),
        Query::Or(operations) => tagged(Keyword::Or.name(), Wire::List(queries_wire(operations@))),
        Query::Type(expected) => tagged(Keyword::Type.name(), Wire::Text(tag_name(expected))),
        Query::Element(query) => query_element_wire(query),
        Query::Value(query) => value_wire(query@),
    }
}

/// The wire form of a predicate over the shape of a document.
pub open spec fn query_element_wire(query: QueryElement) -> Wire
    decreases query, 1int,
{
    match query {
        QueryElement::HasKey { key, value: None } => tagged(
            Keyword::HasKey.name(),
            Wire::Object(seq![("key"@, scalar_wire(key@))]),
        ),
        QueryElement::HasKey { key, value: Some(nested) } => tagged(
            Keyword::HasKey.name(),
            Wire::Object(seq![("key"@, scalar_wire(key@)), ("value"@, query_wire(*nested))]),
        ),
        QueryElement::ArrayLen(number) => tagged(Keyword::ArrayLen.name(), number_wire(number)),
        QueryElement::ContainsElement(element) => tagged(
            Keyword::ContainsElement.name(),
            element_wire(element),
        ),
    }
}

/// The larger of two numbers.
pub open spec fn larger(a: nat, b: nat) -> nat {
    if a >= b {
        a
    } else {
        b
    }
}

/// The number of levels of the deepest document of a list; 0 for an empty
/// list.
pub open spec fn max_element_depth(items: Seq<DataElement>) -> nat
    decreases items, 0int,
{
    if items.len() == 0 {
        0
    } else {
        larger(max_element_depth(items.drop_last()), element_depth(items.last()))
    }
}

/// The number of levels of the deepest document among the entries of a
/// field map; 0 for an empty list.
pub open spec fn max_entry_depth(entries: Seq<(DataValue, DataElement)>) -> nat
    decreases entries, 0int,
{
    if entries.len() == 0 {
        0
    } else {
        larger(max_entry_depth(entries.drop_last()), element_depth(entries.last().1))
    }
}

/// The number of levels in which a document nests: 1 for a leaf, and one
/// more than its deepest member for an array or a field map.
pub open spec fn element_depth(element: DataElement) -> nat
    decreases element, 1int,
{
    match element {
        DataElement::Value(_) => 1,
        DataElement::Array(items) => 1 + max_element_depth(items@),
        DataElement::Fields(entries) => 1 + max_entry_depth(entries@),
    }
}

/// The number of levels of the deepest query of a list; 0 for an empty
/// list.
pub open spec fn max_query_depth(operations: Seq<Box<Query>>) -> nat
    decreases operations, 0int,
{
    if operations.len() == 0 {
        0
    } else {
        larger(max_query_depth(operations.drop_last()), query_depth(*operations.last()))
    }
}

/// The number of levels in which a query nests: 1 for a leaf, one more
/// than its deepest operand for `Not`, `And` and `Or`, and one more than
/// the nested query or the document for `HasKey` and `ContainsElement`.
pub open spec fn query_depth(query: Query) -> nat
    decreases query, 1int,
{
    match query {
        Query::Not(op) => 1 + query_depth(*op),
        Query::And(operations) => 1 + max_query_depth(operations@),
        Query::Or(operations) => 1 + max_query_depth(operations@),
        Query::Type(_) => 1,
        Query::Element(query) => query_element_depth(query),
        Query::Value(_) => 1,
    }
}

/// The number of levels in which a predicate over the shape of a document
/// nests.
pub open spec fn query_element_depth(query: QueryElement) -> nat
    decreases query, 1int,
{
    match query {
        QueryElement::HasKey { key, value: None } => 1,
        QueryElement::HasKey { key, value: Some(nested) } => 1 + query_depth(*nested),
        QueryElement::ArrayLen(_) => 1,
        QueryElement::ContainsElement(element) => 1 + element_depth(element),
    }
}

/// Whether a pattern is the one that compiling its own source gives.
pub open spec fn pattern_is_compiled(pattern: Regex) -> bool {
    regex_new(regex_source(pattern)) == Ok::<Regex, regex::Error>(pattern)
}

/// Whether each query of a list satisfies [`patterns_are_compiled`].
pub open spec fn all_patterns_are_compiled(operations: Seq<Box<Query>>) -> bool
    decreases operations, 0int,
{
    if operations.len() == 0 {
        true
    } else {
        all_patterns_are_compiled(operations.drop_last()) && patterns_are_compiled(
            *operations.last(),
        )
    }
}

/// Whether each pattern in a query is the one that compiling its own
/// source gives. This holds of every query that was read from the wire;
/// it can fail of one that was built around a pattern compiled with other
/// options.
pub open spec fn patterns_are_compiled(query: Query) -> bool
    decreases query, 1int,
{
    match query {
        Query::Not(op) => patterns_are_compiled(*op),
        Query::And(operations) => all_patterns_are_compiled(operations@),
        Query::Or(operations) => all_patterns_are_compiled(operations@),
        Query::Type(_) => true,
        Query::Element(QueryElement::HasKey { key, value: Some(nested) }) => patterns_are_compiled(
            *nested,
        ),
        Query::Element(_) => true,
        Query::Value(QueryValue::Pattern(pattern)) => pattern_is_compiled(pattern),
        Query::Value(_) => true,
    }
}

/// Builds an object with one entry.
fn make_tagged(key: &str, body: WireValue) -> (r: WireValue)
    ensures
        r@ == tagged(key@, body@),
{
    let mut entries: Vec<(String, WireValue)> = Vec::new();
    entries.push((key.to_owned(), body));
    proof {
        lemma_entries_view(entries@);
        assert(entries_view(entries@) =~= seq![(key@, body@)]);
    }
    WireValue::Object(entries)
}

impl DataValue {
    /// Writes the scalar.
    pub fn encode(&self) -> (r: WireValue)
        ensures
            r@ == scalar_wire(self@),
    {
        match self {
            DataValue::Bool(b) => make_tagged(tag_as_str(DataType::Bool), WireValue::Bool(*b)),
            DataValue::String(s) => make_tagged(
                tag_as_str(DataType::String),
                WireValue::Text(s.clone()),
            ),
            DataValue::U8(n) => make_tagged(tag_as_str(DataType::U8), WireValue::Number(*n as u128)),
            DataValue::U16(n) => make_tagged(
                tag_as_str(DataType::U16),
                WireValue::Number(*n as u128),
            ),
            DataValue::U32(n) => make_tagged(
                tag_as_str(DataType::U32),
                WireValue::Number(*n as u128),
            ),
            DataValue::U64(n) => make_tagged(
                tag_as_str(DataType::U64),
                WireValue::Number(*n as u128),
            ),
            DataValue::U128(n) => make_tagged(tag_as_str(DataType::U128), WireValue::Number(*n)),
        }
    }
}

impl QueryNumber {
    /// Writes the comparison.
    pub fn encode(&self) -> (r: WireValue)
        ensures
            r@ == number_wire(*self),
    {
        match self {
            QueryNumber::Above(t) => make_tagged(
                Keyword::Above.as_str(),
                WireValue::Number(*t as u128),
            ),
            QueryNumber::AboveOrEqual(t) => make_tagged(
                Keyword::AboveOrEqual.as_str(),
                WireValue::Number(*t as u128),
            ),
            QueryNumber::Below(t) => make_tagged(
                Keyword::Below.as_str(),
                WireValue::Number(*t as u128),
            ),
            QueryNumber::BelowOrEqual(t) => make_tagged(
                Keyword::BelowOrEqual.as_str(),
                WireValue::Number(*t as u128),
            ),
        }
    }
}

impl QueryValue {
    /// Writes the predicate.
    pub fn encode(&self) -> (r: WireValue)
        ensures
            r@ == value_wire(self@),
    {
        match self {
            QueryValue::Equal(v) => make_tagged(Keyword::Equal.as_str(), v.encode()),
            QueryValue::StartsWith(v) => make_tagged(Keyword::StartsWith.as_str(), v.encode()),
            QueryValue::EndsWith(v) => make_tagged(Keyword::EndsWith.as_str(), v.encode()),
            QueryValue::ContainsValue(v) => make_tagged(
                Keyword::ContainsValue.as_str(),
                v.encode(),
            ),
            QueryValue::Pattern(pattern) => make_tagged(
                Keyword::Pattern.as_str(),
                WireValue::Text(pattern.as_str().to_owned()),
            ),
            QueryValue::NumberOp(number) => number.encode(),
        }
    }
}

impl DataElement {
    /// Writes the document.
    #[verifier::loop_isolation(false)]
    pub fn encode(&self) -> (r: WireValue)
        ensures
            r@ == element_wire(*self),
        decreases self,
    {
        match self {
            DataElement::Value(None) => WireValue::Null,
            DataElement::Value(Some(value)) => value.encode(),
            DataElement::Array(items) => {
                let mut wires: Vec<WireValue> = Vec::new();
                let mut i: usize = 0;
                assert(items@.subrange(0, 0) =~= Seq::<DataElement>::empty());
                assert(list_view(wires@) =~= Seq::<Wire>::empty());
                while i < items.len()
                    invariant
                        i <= items.len(),
                        list_view(wires@) == elements_wire(items@.subrange(0, i as int)),
                    decreases items.len() - i,
                {
                    let ghost before = wires@;
                    let wire = items[i].encode();
                    wires.push(wire);
                    proof {
                        lemma_list_view(before);
                        lemma_list_view(wires@);
                        assert(items@.subrange(0, i + 1).drop_last() =~= items@.subrange(
                            0,
                            i as int,
                        ));
                        assert(list_view(wires@) =~= list_view(before).push(wire@));
                    }
                    i += 1;
                }
                assert(items@.subrange(0, i as int) =~= items@);
                WireValue::List(wires)
            },
            DataElement::Fields(entries) => {
                let mut wires: Vec<WireValue> = Vec::new();
                let mut i: usize = 0;
                assert(entries@.subrange(0, 0) =~= Seq::<(DataValue, DataElement)>::empty());
                assert(list_view(wires@) =~= Seq::<Wire>::empty());
                while i < entries.len()
                    invariant
                        i <= entries.len(),
                        list_view(wires@) == pairs_wire(entries@.subrange(0, i as int)),
                    decreases entries.len() - i,
                {
                    let ghost before = wires@;
                    let mut pair: Vec<WireValue> = Vec::new();
                    pair.push(entries[i].0.encode());
                    pair.push(entries[i].1.encode());
                    proof {
                        lemma_list_view(pair@);
                        assert(list_view(pair@) =~= seq![
                            scalar_wire(entries[i as int].0@),
                            element_wire(entries[i as int].1),
                        ]);
                    }
                    let wire = WireValue::List(pair);
                    assert(wire@ == pair_wire(entries[i as int]));
                    wires.push(wire);
                    proof {
                        lemma_list_view(before);
                        lemma_list_view(wires@);
                        assert(entries@.subrange(0, i + 1).drop_last() =~= entries@.subrange(
                            0,
                            i as int,
                        ));
                        assert(list_view(wires@) =~= list_view(before).push(wire@));
                    }
                    i += 1;
                }
                assert(entries@.subrange(0, i as int) =~= entries@);
                make_tagged(tag_as_str(DataType::Fields), WireValue::List(wires))
            },
        }
    }
}

impl Query {
    /// Writes the query.
    pub fn encode(&self) -> (r: WireValue)
        ensures
            r@ == query_wire(*self),
        decreases self, 1int,
    {
        match self {
            Query::Not(op) => make_tagged(Keyword::Not.as_str(), op.encode()),
            Query::And(operations) => make_tagged(
                Keyword::And.as_str(),
                WireValue::List(encode_query_list(operations)),
            ),
            Query::Or(operations) => make_tagged(
                Keyword::Or.as_str(),
                WireValue::List(encode_query_list(operations)),
            ),
            Query::Type(expected) => make_tagged(
                Keyword::Type.as_str(),
                WireValue::Text(tag_as_str(*expected).to_owned()),
            ),
            Query::Element(query) => query.encode(),
            Query::Value(query) => query.encode(),
        }
    }
}

/// Writes the operands of `And` or `Or`.
#[verifier::loop_isolation(false)]
fn encode_query_list(operations: &Vec<Box<Query>>) -> (r: Vec<WireValue>)
    ensures
        list_view(r@) == queries_wire(operations@),
    decreases operations, 0int,
{
    let mut wires: Vec<WireValue> = Vec::new();
    let mut i: usize = 0;
    assert(operations@.subrange(0, 0) =~= Seq::<Box<Query>>::empty());
    assert(list_view(wires@) =~= Seq::<Wire>::empty());
    while i < operations.len()
        invariant
            i <= operations.len(),
            list_view(wires@) == queries_wire(operations@.subrange(0, i as int)),
        decreases operations.len() - i,
    {
        let ghost before = wires@;
        let wire = operations[i].encode();
        wires.push(wire);
        proof {
            lemma_list_view(before);
            lemma_list_view(wires@);
            assert(operations@.subrange(0, i + 1).drop_last() =~= operations@.subrange(
                0,
                i as int,
            ));
            assert(list_view(wires@) =~= list_view(before).push(wire@));
        }
        i += 1;
    }
    assert(operations@.subrange(0, i as int) =~= operations@);
    wires
}

impl QueryElement {
    /// Writes the predicate.
    pub fn encode(&self) -> (r: WireValue)
        ensures
            r@ == query_element_wire(*self),
        decreases self, 1int,
    {
        match self {
            QueryElement::HasKey { key, value } => {
                let mut entries: Vec<(String, WireValue)> = Vec::new();
                entries.push(("key".to_owned(), key.encode()));
                match value {
                    Some(nested) => {
                        entries.push(("value".to_owned(), nested.encode()));
                        proof {
                            lemma_entries_view(entries@);
                            assert(entries_view(entries@) =~= seq![
                                ("key"@, scalar_wire(key@)),
                                ("value"@, query_wire(**nested)),
                            ]);
                        }
                    },
                    None => {
                        proof {
                            lemma_entries_view(entries@);
                            assert(entries_view(entries@) =~= seq![("key"@, scalar_wire(key@))]);
                        }
                    },
                }
                make_tagged(Keyword::HasKey.as_str(), WireValue::Object(entries))
            },
            QueryElement::ArrayLen(number) => make_tagged(
                Keyword::ArrayLen.as_str(),
                number.encode(),
            ),
            QueryElement::ContainsElement(element) => make_tagged(
                Keyword::ContainsElement.as_str(),
                element.encode(),
            ),
        }
    }
}

/// A scalar that is written and read again is the same scalar.
pub proof fn lemma_scalar_round_trip(value: Scalar)
    ensures
        decode_scalar(scalar_wire(value)) == Some(value),
{
    lemma_parse_tag_name(value.kind());
}

/// A comparison that is written and read again is the same comparison.
pub proof fn lemma_number_round_trip(query: QueryNumber)
    ensures
        decode_number(number_wire(query)) == Some(query),
{
    Keyword::Above.lemma_parse_name();
    Keyword::AboveOrEqual.lemma_parse_name();
    Keyword::Below.lemma_parse_name();
    Keyword::BelowOrEqual.lemma_parse_name();
}

/// A document that is written and then read to a depth of `depth` levels
/// is the same document where it nests no deeper, and is refused for its
/// nesting where it does.
pub proof fn lemma_element_round_trip(element: DataElement, depth: nat)
    ensures
        decode_document(element_wire(element), depth) == (if element_depth(element) <= depth {
            Ok::<Document, DecodeError>(element@)
        } else {
            Err(DecodeError::ExcessiveNesting)
        }),
    decreases element, 1int,
{
    if depth > 0 {
        match element {
            DataElement::Value(None) => {},
            DataElement::Value(Some(value)) => {
                lemma_scalar_round_trip(value@);
                lemma_parse_tag_name(value@.kind());
                lemma_parse_tag_name(DataType::Fields);
            },
            DataElement::Array(items) => {
                lemma_elements_round_trip(items@, (depth - 1) as nat);
            },
            DataElement::Fields(entries) => {
                lemma_entries_round_trip(entries@, (depth - 1) as nat);
            },
        }
    }
}

/// The elements of an array that are written and read again are the same
/// elements where none nests deeper than `depth` levels.
pub proof fn lemma_elements_round_trip(items: Seq<DataElement>, depth: nat)
    ensures
        decode_documents(elements_wire(items), depth) == (if max_element_depth(items) <= depth {
            Ok::<Seq<Document>, DecodeError>(array_view(items))
        } else {
            Err(DecodeError::ExcessiveNesting)
        }),
    decreases items, 0int,
{
    if items.len() == 0 {
        assert(array_view(items) =~= Seq::<Document>::empty());
    } else {
        let front = items.drop_last();
        lemma_elements_round_trip(front, depth);
        lemma_element_round_trip(items.last(), depth);
        let wires = elements_wire(items);
        assert(wires.drop_last() =~= elements_wire(front));
        assert(wires.last() == element_wire(items.last()));
        assert(array_view(items) =~= array_view(front).push(items.last()@));
    }
}

/// The entries of a field map that are written and read again give the
/// same map where no document among them nests deeper than `depth` levels.
pub proof fn lemma_entries_round_trip(entries: Seq<(DataValue, DataElement)>, depth: nat)
    ensures
        decode_fields(pairs_wire(entries), depth) == (if max_entry_depth(entries) <= depth {
            Ok::<Map<Scalar, Document>, DecodeError>(fields_view(entries))
        } else {
            Err(DecodeError::ExcessiveNesting)
        }),
    decreases entries, 0int,
{
    if entries.len() > 0 {
        let front = entries.drop_last();
        let entry = entries.last();
        lemma_entries_round_trip(front, depth);
        lemma_element_round_trip(entry.1, depth);
        lemma_scalar_round_trip(entry.0@);
        let wires = pairs_wire(entries);
        assert(wires.drop_last() =~= pairs_wire(front));
        assert(wires.last() == pair_wire(entry));
        assert(front.push(entry) =~= entries);
        lemma_fields_view_push(front, entry);
    }
}

/// Under its keyword, an object with one entry is read as the keyword
/// says.
pub proof fn lemma_decode_tagged(keyword: Keyword, body: Wire, depth: nat)
    requires
        depth > 0,
    ensures
        decode_query(tagged(keyword.name(), body), depth) == decode_keyed(keyword, body, depth),
{
    keyword.lemma_parse_name();
}

/// The wire form of a query is an object.
pub proof fn lemma_query_wire_is_object(query: Query)
    ensures
        query_wire(query) is Object,
{
    reveal_with_fuel(query_wire, 2);
}

/// A query nests in at least one level.
pub proof fn lemma_query_depth_positive(query: Query)
    ensures
        query_depth(query) >= 1,
{
    reveal_with_fuel(query_depth, 2);
}

/// A query that is written and then read to a depth of `depth` levels is
/// the same query where it nests no deeper, and is refused for its nesting
/// where it does.
pub proof fn lemma_query_round_trip(query: Query, depth: nat)
    requires
        patterns_are_compiled(query),
    ensures
        decode_query(query_wire(query), depth) == (if query_depth(query) <= depth {
            Ok::<PredicateTree, DecodeError>(query@)
        } else {
            Err(DecodeError::ExcessiveNesting)
        }),
    decreases query, 1int,
{
    lemma_query_depth_positive(query);
    lemma_query_wire_is_object(query);
    if depth > 0 {
        let inner = (depth - 1) as nat;
        match query {
            Query::Not(op) => {
                lemma_query_round_trip(*op, inner);
                lemma_decode_tagged(Keyword::Not, query_wire(*op), depth);
                assert(decode_keyed(Keyword::Not, query_wire(*op), depth) == (if query_depth(*op)
                    <= inner {
                    Ok::<PredicateTree, DecodeError>(PredicateTree::Not(Box::new(query_view(*op))))
                } else {
                    Err(DecodeError::ExcessiveNesting)
                }));
            },
            Query::And(operations) => {
                lemma_queries_round_trip(operations@, inner);
                let body = Wire::List(queries_wire(operations@));
                lemma_decode_tagged(Keyword::And, body, depth);
                assert(decode_keyed(Keyword::And, body, depth) == (if max_query_depth(operations@)
                    <= inner {
                    Ok::<PredicateTree, DecodeError>(
                        PredicateTree::And(queries_view(operations@)),
                    )
                } else {
                    Err(DecodeError::ExcessiveNesting)
                }));
            },
            Query::Or(operations) => {
                lemma_queries_round_trip(operations@, inner);
                let body = Wire::List(queries_wire(operations@));
                lemma_decode_tagged(Keyword::Or, body, depth);
                assert(decode_keyed(Keyword::Or, body, depth) == (if max_query_depth(operations@)
                    <= inner {
                    Ok::<PredicateTree, DecodeError>(PredicateTree::Or(queries_view(operations@)))
                } else {
                    Err(DecodeError::ExcessiveNesting)
                }));
            },
            Query::Type(expected) => {
                lemma_parse_tag_name(expected);
                let body = Wire::Text(tag_name(expected));
                lemma_decode_tagged(Keyword::Type, body, depth);
                assert(decode_keyed(Keyword::Type, body, depth) == Ok::<
                    PredicateTree,
                    DecodeError,
                >(PredicateTree::Type(expected)));
            },
            Query::Element(shape) => {
                lemma_shape_round_trip(shape, depth);
            },
            Query::Value(predicate) => {
                lemma_value_round_trip(predicate, depth);
            },
        }
    }
}

/// The operands of `And` or `Or` that are written and read again are the
/// same operands where none nests deeper than `depth` levels.
pub proof fn lemma_queries_round_trip(operations: Seq<Box<Query>>, depth: nat)
    requires
        all_patterns_are_compiled(operations),
    ensures
        decode_queries(queries_wire(operations), depth) == (if max_query_depth(operations)
            <= depth {
            Ok::<Seq<PredicateTree>, DecodeError>(queries_view(operations))
        } else {
            Err(DecodeError::ExcessiveNesting)
        }),
    decreases operations, 0int,
{
    if operations.len() == 0 {
        assert(queries_view(operations) =~= Seq::<PredicateTree>::empty());
    } else {
        let front = operations.drop_last();
        lemma_queries_round_trip(front, depth);
        lemma_query_round_trip(*operations.last(), depth);
        let wires = queries_wire(operations);
        assert(wires.drop_last() =~= queries_wire(front));
        assert(wires.last() == query_wire(*operations.last()));
        assert(queries_view(operations) =~= queries_view(front).push(
            query_view(*operations.last()),
        ));
    }
}

/// A predicate over the shape of a document that is written and read again
/// is the same predicate where it nests no deeper than `depth` levels.
pub proof fn lemma_shape_round_trip(shape: QueryElement, depth: nat)
    requires
        depth > 0,
        patterns_are_compiled(Query::Element(shape)),
    ensures
        decode_query(query_element_wire(shape), depth) == (if query_element_depth(shape) <= depth {
            Ok::<PredicateTree, DecodeError>(PredicateTree::Element(element_view(shape)))
        } else {
            Err(DecodeError::ExcessiveNesting)
        }),
    decreases shape, 1int,
{
    let inner = (depth - 1) as nat;
    match shape {
        QueryElement::HasKey { key, value: None } => {
            lemma_scalar_round_trip(key@);
            let body = Wire::Object(seq![("key"@, scalar_wire(key@))]);
            lemma_decode_tagged(Keyword::HasKey, body, depth);
            assert(has_key_parts(body) == Some((scalar_wire(key@), None::<Wire>)));
            assert(decode_keyed(Keyword::HasKey, body, depth) == Ok::<PredicateTree, DecodeError>(
                PredicateTree::Element(StructuralPredicate::HasKey { key: key@, value: None }),
            ));
        },
        QueryElement::HasKey { key, value: Some(nested) } => {
            lemma_scalar_round_trip(key@);
            lemma_query_round_trip(*nested, inner);
            lemma_query_wire_is_object(*nested);
            let body = Wire::Object(
                seq![("key"@, scalar_wire(key@)), ("value"@, query_wire(*nested))],
            );
            lemma_decode_tagged(Keyword::HasKey, body, depth);
            reveal_strlit("key");
            reveal_strlit("value");
            assert("key"@.len() == 3 && "value"@.len() == 5);
            assert(has_key_parts(body) == Some((scalar_wire(key@), Some(query_wire(*nested)))));
            assert(decode_keyed(Keyword::HasKey, body, depth) == (if query_depth(*nested) <= inner {
                Ok::<PredicateTree, DecodeError>(
                    PredicateTree::Element(
                        StructuralPredicate::HasKey {
                            key: key@,
                            value: Some(Box::new(query_view(*nested))),
                        },
                    ),
                )
            } else {
                Err(DecodeError::ExcessiveNesting)
            }));
        },
        QueryElement::ArrayLen(number) => {
            lemma_number_round_trip(number);
            let body = number_wire(number);
            lemma_decode_tagged(Keyword::ArrayLen, body, depth);
            assert(decode_keyed(Keyword::ArrayLen, body, depth) == Ok::<
                PredicateTree,
                DecodeError,
            >(PredicateTree::Element(StructuralPredicate::ArrayLen(number))));
        },
        QueryElement::ContainsElement(element) => {
            lemma_element_round_trip(element, inner);
            let body = element_wire(element);
            lemma_decode_tagged(Keyword::ContainsElement, body, depth);
            assert(decode_keyed(Keyword::ContainsElement, body, depth) == (if element_depth(element)
                <= inner {
                Ok::<PredicateTree, DecodeError>(
                    PredicateTree::Element(StructuralPredicate::ContainsElement(element@)),
                )
            } else {
                Err(DecodeError::ExcessiveNesting)
            }));
        },
    }
}

/// A predicate over a scalar that is written and read again is the same
/// predicate.
pub proof fn lemma_value_round_trip(predicate: QueryValue, depth: nat)
    requires
        depth > 0,
        patterns_are_compiled(Query::Value(predicate)),
    ensures
        decode_query(value_wire(predicate@), depth) == Ok::<PredicateTree, DecodeError>(
            PredicateTree::Value(predicate@),
        ),
{
    match predicate {
        QueryValue::Equal(v) => {
            lemma_scalar_round_trip(v@);
            lemma_decode_tagged(Keyword::Equal, scalar_wire(v@), depth);
            assert(decode_keyed(Keyword::Equal, scalar_wire(v@), depth) == Ok::<
                PredicateTree,
                DecodeError,
            >(PredicateTree::Value(ScalarPredicate::Equal(v@))));
        },
        QueryValue::StartsWith(v) => {
            lemma_scalar_round_trip(v@);
            lemma_decode_tagged(Keyword::StartsWith, scalar_wire(v@), depth);
            assert(decode_keyed(Keyword::StartsWith, scalar_wire(v@), depth) == Ok::<
                PredicateTree,
                DecodeError,
            >(PredicateTree::Value(ScalarPredicate::StartsWith(v@))));
        },
        QueryValue::EndsWith(v) => {
            lemma_scalar_round_trip(v@);
            lemma_decode_tagged(Keyword::EndsWith, scalar_wire(v@), depth);
            assert(decode_keyed(Keyword::EndsWith, scalar_wire(v@), depth) == Ok::<
                PredicateTree,
                DecodeError,
            >(PredicateTree::Value(ScalarPredicate::EndsWith(v@))));
        },
        QueryValue::ContainsValue(v) => {
            lemma_scalar_round_trip(v@);
            lemma_decode_tagged(Keyword::ContainsValue, scalar_wire(v@), depth);
            assert(decode_keyed(Keyword::ContainsValue, scalar_wire(v@), depth) == Ok::<
                PredicateTree,
                DecodeError,
            >(PredicateTree::Value(ScalarPredicate::ContainsValue(v@))));
        },
        QueryValue::Pattern(pattern) => {
            let body = Wire::Text(regex_source(pattern));
            lemma_decode_tagged(Keyword::Pattern, body, depth);
            assert(decode_keyed(Keyword::Pattern, body, depth) == Ok::<PredicateTree, DecodeError>(
                PredicateTree::Value(ScalarPredicate::Pattern(pattern)),
            ));
        },
        QueryValue::NumberOp(number) => {
            match number {
                QueryNumber::Above(t) => {
                    lemma_decode_tagged(Keyword::Above, Wire::Number(t as u128), depth);
                    assert(decode_keyed(Keyword::Above, Wire::Number(t as u128), depth) == Ok::<
                        PredicateTree,
                        DecodeError,
                    >(PredicateTree::Value(ScalarPredicate::NumberOp(number))));
                },
                QueryNumber::AboveOrEqual(t) => {
                    lemma_decode_tagged(Keyword::AboveOrEqual, Wire::Number(t as u128), depth);
                    assert(decode_keyed(Keyword::AboveOrEqual, Wire::Number(t as u128), depth)
                        == Ok::<PredicateTree, DecodeError>(
                        PredicateTree::Value(ScalarPredicate::NumberOp(number)),
                    ));
                },
                QueryNumber::Below(t) => {
                    lemma_decode_tagged(Keyword::Below, Wire::Number(t as u128), depth);
                    assert(decode_keyed(Keyword::Below, Wire::Number(t as u128), depth) == Ok::<
                        PredicateTree,
                        DecodeError,
                    >(PredicateTree::Value(ScalarPredicate::NumberOp(number))));
                },
                QueryNumber::BelowOrEqual(t) => {
                    lemma_decode_tagged(Keyword::BelowOrEqual, Wire::Number(t as u128), depth);
                    assert(decode_keyed(Keyword::BelowOrEqual, Wire::Number(t as u128), depth)
                        == Ok::<PredicateTree, DecodeError>(
                        PredicateTree::Value(ScalarPredicate::NumberOp(number)),
                    ));
                },
            }
        },
    }
}

/// Writing a query and reading it back gives the same query, and so the
/// same answers on every document and every scalar, provided that the
/// query nests no deeper than the reader allows and that its patterns are
/// those that compiling their sources gives.
pub proof fn lemma_written_query_reads_back(query: Query, max_depth: nat)
    requires
        patterns_are_compiled(query),
        query_depth(query) <= max_depth,
    ensures
        decode_query(query_wire(query), max_depth) == Ok::<PredicateTree, DecodeError>(query@),
{
    lemma_query_round_trip(query, max_depth);
}

/// Reading a written query that nests deeper than the reader allows fails
/// with `ExcessiveNesting`.
pub proof fn lemma_deep_query_is_refused(query: Query, max_depth: nat)
    requires
        patterns_are_compiled(query),
        query_depth(query) > max_depth,
    ensures
        decode_query(query_wire(query), max_depth) == Err::<PredicateTree, DecodeError>(
            DecodeError::ExcessiveNesting,
        ),
{
    lemma_query_round_trip(query, max_depth);
}

} // verus!
