//! Queries: predicates over scalars and documents, and their evaluation.

use crate::api::data::{array_view, find_field, DataElement, DataType, DataValue, Document, Scalar};
use crate::api::pattern::regex_is_match;
use crate::api::text::{contains, is_substring, starts_with};
use indexmap::IndexMap;
use regex::Regex;
use vstd::prelude::*;

verus! {

/// Comparison of a number against a threshold.
#[derive(Debug)]
pub enum QueryNumber {
    // >
    Above(usize),
    // >=
    AboveOrEqual(usize),
    // <
    Below(usize),
    // <=
    BelowOrEqual(usize),
}

impl Scalar {
    /// The number that an unsigned integer of any width holds; `None` for a
    /// scalar that is no unsigned integer.
    pub open spec fn magnitude(self) -> Option<nat> {
        match self {
            Scalar::U8(n) => Some(n as nat),
            Scalar::U16(n) => Some(n as nat),
            Scalar::U32(n) => Some(n as nat),
            Scalar::U64(n) => Some(n as nat),
            Scalar::U128(n) => Some(n as nat),
            _ => None,
        }
    }
}

impl QueryNumber {
    /// Whether a number stands in the relation to the threshold.
    pub open spec fn accepts(self, n: nat) -> bool {
        match self {
            QueryNumber::Above(t) => n > t,
            QueryNumber::AboveOrEqual(t) => n >= t,
            QueryNumber::Below(t) => n < t,
            QueryNumber::BelowOrEqual(t) => n <= t,
        }
    }

    /// Whether a scalar is an unsigned integer that stands in the relation to
    /// the threshold. The comparison is made on the numbers themselves,
    /// whatever the width of the scalar.
    pub open spec fn matches(self, v: Scalar) -> bool {
        match v.magnitude() {
            Some(n) => self.accepts(n),
            None => false,
        }
    }

    /// Compares a number, widened to 128 bits, against the threshold.
    fn compare(&self, n: u128) -> (r: bool)
        ensures
            r == self.accepts(n as nat),
    {
        match self {
            QueryNumber::Above(t) => n > *t as u128,
            QueryNumber::AboveOrEqual(t) => n >= *t as u128,
            QueryNumber::Below(t) => n < *t as u128,
            QueryNumber::BelowOrEqual(t) => n <= *t as u128,
        }
    }

    /// Evaluates the comparison on a scalar. A scalar that is no unsigned
    /// integer does not match.
    pub fn verify(&self, v: &DataValue) -> (r: bool)
        ensures
            r == self.matches(v@),
    {
        match v {
            DataValue::U128(n) => self.compare(*n),
            DataValue::U64(n) => self.compare(*n as u128),
            DataValue::U32(n) => self.compare(*n as u128),
            DataValue::U16(n) => self.compare(*n as u128),
            DataValue::U8(n) => self.compare(*n as u128),
            _ => false,
        }
    }
}

/// Predicate over a scalar.
#[derive(Debug)]
pub enum QueryValue {
    // ==
    Equal(DataValue),
    // Following are transformed to string and compared
    StartsWith(DataValue),
    EndsWith(DataValue),
    ContainsValue(DataValue),
    // Regex pattern on DataValue only
    Pattern(Regex),
    NumberOp(QueryNumber),
}

/// Mathematical model of a [`QueryValue`].
pub ghost enum ScalarPredicate {
    Equal(Scalar),
    StartsWith(Scalar),
    EndsWith(Scalar),
    ContainsValue(Scalar),
    Pattern(Regex),
    NumberOp(QueryNumber),
}

impl View for QueryValue {
    type V = ScalarPredicate;

    open spec fn view(&self) -> ScalarPredicate {
        match self {
            QueryValue::Equal(v) => ScalarPredicate::Equal(v@),
            QueryValue::StartsWith(v) => ScalarPredicate::StartsWith(v@),
            QueryValue::EndsWith(v) => ScalarPredicate::EndsWith(v@),
            QueryValue::ContainsValue(v) => ScalarPredicate::ContainsValue(v@),
            QueryValue::Pattern(p) => ScalarPredicate::Pattern(*p),
            QueryValue::NumberOp(q) => ScalarPredicate::NumberOp(*q),
        }
    }
}

impl ScalarPredicate {
    /// Whether a scalar satisfies the predicate.
    ///
    /// `Equal` holds of the same scalar of the same type only. The three text
    /// predicates compare canonical texts; `EndsWith` holds when the text of
    /// the scalar begins with the operand, as `StartsWith` does. `Pattern`
    /// holds when the pattern is found anywhere in the text.
    pub open spec fn matches(self, v: Scalar) -> bool {
        match self {
            ScalarPredicate::Equal(expected) => v == expected,
            ScalarPredicate::StartsWith(operand) => operand.text().is_prefix_of(v.text()),
            ScalarPredicate::EndsWith(operand) => operand.text().is_prefix_of(v.text()),
            ScalarPredicate::ContainsValue(operand) => is_substring(operand.text(), v.text()),
            ScalarPredicate::Pattern(pattern) => regex_is_match(pattern, v.text()),
            ScalarPredicate::NumberOp(query) => query.matches(v),
        }
    }
}

impl QueryValue {
    /// Evaluates the predicate on a scalar.
    pub fn verify(&self, v: &DataValue) -> (r: bool)
        ensures
            r == self@.matches(v@),
    {
        match self {
            QueryValue::Equal(expected) => *v == *expected,
            QueryValue::StartsWith(value) => {
                let text = v.to_string();
                let operand = value.to_string();
                starts_with(text.as_str(), operand.as_str())
            },
            QueryValue::EndsWith(value) => {
                let text = v.to_string();
                let operand = value.to_string();
                starts_with(text.as_str(), operand.as_str())
            },
            QueryValue::ContainsValue(value) => {
                let text = v.to_string();
                let operand = value.to_string();
                contains(text.as_str(), operand.as_str())
            },
            QueryValue::Pattern(pattern) => {
                let text = v.to_string();
                pattern.is_match(text.as_str())
            },
            QueryValue::NumberOp(query) => query.verify(v),
        }
    }
}

/// Predicate over a document, composed of leaves by `Not`, `And` and `Or`.
#[derive(Debug)]
pub enum Query {
    // !
    Not(Box<Query>),
    // &&
    And(Vec<Box<Query>>),
    // ||
    Or(Vec<Box<Query>>),
    // Check value type
    Type(DataType),
    Element(QueryElement),
    Value(QueryValue),
}

/// Predicate over the shape of a document.
#[derive(Debug)]
pub enum QueryElement {
    // Check if DataElement::Fields has key and optional check on value
    HasKey { key: DataValue, value: Option<Box<Query>> },
    // check the array
    ArrayLen(QueryNumber),
    // Only array supported
    ContainsElement(DataElement),
}

/// Mathematical model of a [`Query`].
pub ghost enum PredicateTree {
    Not(Box<PredicateTree>),
    And(Seq<PredicateTree>),
    Or(Seq<PredicateTree>),
    Type(DataType),
    Element(StructuralPredicate),
    Value(ScalarPredicate),
}

/// Mathematical model of a [`QueryElement`].
pub ghost enum StructuralPredicate {
    HasKey { key: Scalar, value: Option<Box<PredicateTree>> },
    ArrayLen(QueryNumber),
    ContainsElement(Document),
}

/// The predicates that a list of queries stands for, in the same order.
pub open spec fn queries_view(queries: Seq<Box<Query>>) -> Seq<PredicateTree>
    decreases queries, 0int,
{
    Seq::new(
        queries.len(),
        |i: int|
            if 0 <= i < queries.len() {
                query_view(*queries[i])
            } else {
                arbitrary()
            },
    )
}

/// The predicate that a query stands for.
pub open spec fn query_view(query: Query) -> PredicateTree
    decreases query, 1int,
{
    match query {
        Query::Not(op) => PredicateTree::Not(Box::new(query_view(*op))),
        Query::And(operations) => PredicateTree::And(queries_view(operations@)),
        Query::Or(operations) => PredicateTree::Or(queries_view(operations@)),
        Query::Type(expected) => PredicateTree::Type(expected),
        Query::Element(query) => PredicateTree::Element(element_view(query)),
        Query::Value(query) => PredicateTree::Value(query@),
    }
}

/// The predicate that a query over the shape of a document stands for.
pub open spec fn element_view(query: QueryElement) -> StructuralPredicate
    decreases query, 1int,
{
    match query {
        QueryElement::HasKey { key, value: None } => StructuralPredicate::HasKey {
            key: key@,
            value: None,
        },
        QueryElement::HasKey { key, value: Some(nested) } => StructuralPredicate::HasKey {
            key: key@,
            value: Some(Box::new(query_view(*nested))),
        },
        QueryElement::ArrayLen(query) => StructuralPredicate::ArrayLen(query),
        QueryElement::ContainsElement(element) => StructuralPredicate::ContainsElement(element@),
    }
}

impl View for Query {
    type V = PredicateTree;

    open spec fn view(&self) -> PredicateTree {
        query_view(*self)
    }
}

impl View for QueryElement {
    type V = StructuralPredicate;

    open spec fn view(&self) -> StructuralPredicate {
        element_view(*self)
    }
}

impl PredicateTree {
    /// Whether a document satisfies the predicate.
    ///
    /// `And` holds when every operand holds, so an empty `And` holds of every
    /// document; `Or` holds when some operand holds, so an empty `Or` holds of
    /// none. A predicate over a scalar holds of a leaf whose scalar
    /// satisfies it, and of no other document.
    pub open spec fn matches_document(self, element: Document) -> bool
        decreases self,
    {
        match self {
            PredicateTree::Not(op) => !op.matches_document(element),
            PredicateTree::And(operations) => forall|i: int|
                0 <= i < operations.len() ==> (#[trigger] operations[i]).matches_document(element),
            PredicateTree::Or(operations) => exists|i: int|
                0 <= i < operations.len() && (#[trigger] operations[i]).matches_document(element),
            PredicateTree::Type(expected) => element.kind() == expected,
            PredicateTree::Element(query) => query.matches(element),
            PredicateTree::Value(query) => match element {
                Document::Value(Some(value)) => query.matches(value),
                _ => false,
            },
        }
    }

    /// Whether a bare scalar satisfies the predicate. A predicate over the
    /// shape of a document holds of no scalar.
    pub open spec fn matches_scalar(self, value: Scalar) -> bool
        decreases self,
    {
        match self {
            PredicateTree::Not(op) => !op.matches_scalar(value),
            PredicateTree::And(operations) => forall|i: int|
                0 <= i < operations.len() ==> (#[trigger] operations[i]).matches_scalar(value),
            PredicateTree::Or(operations) => exists|i: int|
                0 <= i < operations.len() && (#[trigger] operations[i]).matches_scalar(value),
            PredicateTree::Type(expected) => value.kind() == expected,
            PredicateTree::Element(_) => false,
            PredicateTree::Value(query) => query.matches(value),
        }
    }

    /// Whether the root of the tree is a predicate over the shape of a
    /// document.
    pub open spec fn is_structural(self) -> bool {
        self is Element
    }
}

impl StructuralPredicate {
    /// Whether a document satisfies the predicate.
    ///
    /// `HasKey` holds of a field map that binds the key to a document that
    /// satisfies the nested predicate; without a nested predicate it holds of
    /// nothing. `ArrayLen` holds of an array whose length stands in the
    /// relation. `ContainsElement` holds of an array with an element equal to
    /// the given document.
    pub open spec fn matches(self, data: Document) -> bool
        decreases self,
    {
        match self {
            StructuralPredicate::HasKey { key, value } => match data {
                Document::Fields(fields) => fields.contains_key(key) && match value {
                    Some(query) => query.matches_document(fields[key]),
                    None => false,
                },
                _ => false,
            },
            StructuralPredicate::ArrayLen(query) => match data {
                Document::Array(array) => query.accepts(array.len()),
                _ => false,
            },
            StructuralPredicate::ContainsElement(query) => match data {
                Document::Array(array) => array.contains(query),
                _ => false,
            },
        }
    }
}

/// `And` holds of a document exactly when each operand does.
pub proof fn lemma_and_matches_document(operations: Seq<PredicateTree>, element: Document)
    ensures
        PredicateTree::And(operations).matches_document(element) <==> forall|i: int|
            0 <= i < operations.len() ==> (#[trigger] operations[i]).matches_document(element),
{
    let tree = PredicateTree::And(operations);
    if exists|i: int| 0 <= i < operations.len() && !(#[trigger] operations[i]).matches_document(element) {
        let i = choose|i: int| 0 <= i < operations.len() && !(#[trigger] operations[i]).matches_document(element);
        assert(decreases_to!(tree => tree->And_0));
        assert(decreases_to!(tree => tree->And_0[i]));
    }
}

/// `Or` holds of a document exactly when some operand does.
pub proof fn lemma_or_matches_document(operations: Seq<PredicateTree>, element: Document)
    ensures
        PredicateTree::Or(operations).matches_document(element) <==> exists|i: int|
            0 <= i < operations.len() && (#[trigger] operations[i]).matches_document(element),
{
    let tree = PredicateTree::Or(operations);
    if exists|i: int| 0 <= i < operations.len() && (#[trigger] operations[i]).matches_document(element) {
        let i = choose|i: int| 0 <= i < operations.len() && (#[trigger] operations[i]).matches_document(element);
        assert(decreases_to!(tree => tree->Or_0));
        assert(decreases_to!(tree => tree->Or_0[i]));
    }
}

/// `And` holds of a scalar exactly when each operand does.
pub proof fn lemma_and_matches_scalar(operations: Seq<PredicateTree>, value: Scalar)
    ensures
        PredicateTree::And(operations).matches_scalar(value) <==> forall|i: int|
            0 <= i < operations.len() ==> (#[trigger] operations[i]).matches_scalar(value),
{
    let tree = PredicateTree::And(operations);
    if exists|i: int| 0 <= i < operations.len() && !(#[trigger] operations[i]).matches_scalar(value) {
        let i = choose|i: int| 0 <= i < operations.len() && !(#[trigger] operations[i]).matches_scalar(value);
        assert(decreases_to!(tree => tree->And_0));
        assert(decreases_to!(tree => tree->And_0[i]));
    }
}

/// `Or` holds of a scalar exactly when some operand does.
pub proof fn lemma_or_matches_scalar(operations: Seq<PredicateTree>, value: Scalar)
    ensures
        PredicateTree::Or(operations).matches_scalar(value) <==> exists|i: int|
            0 <= i < operations.len() && (#[trigger] operations[i]).matches_scalar(value),
{
    let tree = PredicateTree::Or(operations);
    if exists|i: int| 0 <= i < operations.len() && (#[trigger] operations[i]).matches_scalar(value) {
        let i = choose|i: int| 0 <= i < operations.len() && (#[trigger] operations[i]).matches_scalar(value);
        assert(decreases_to!(tree => tree->Or_0));
        assert(decreases_to!(tree => tree->Or_0[i]));
    }
}

/// On an unsigned integer of any width, each comparison is the comparison of
/// the number it holds with the threshold.
pub proof fn lemma_range_compares_numbers(threshold: usize, v: Scalar)
    requires
        v.magnitude() is Some,
    ensures
        QueryNumber::Above(threshold).matches(v) == (v.magnitude()->0 > threshold),
        QueryNumber::AboveOrEqual(threshold).matches(v) == (v.magnitude()->0 >= threshold),
        QueryNumber::Below(threshold).matches(v) == (v.magnitude()->0 < threshold),
        QueryNumber::BelowOrEqual(threshold).matches(v) == (v.magnitude()->0 <= threshold),
{
}

/// An `And` without operands holds of every document and of every scalar.
pub proof fn lemma_empty_and_holds(element: Document, value: Scalar)
    ensures
        PredicateTree::And(Seq::empty()).matches_document(element),
        PredicateTree::And(Seq::empty()).matches_scalar(value),
{
}

/// An `Or` without operands holds of no document and of no scalar.
pub proof fn lemma_empty_or_fails(element: Document, value: Scalar)
    ensures
        !PredicateTree::Or(Seq::empty()).matches_document(element),
        !PredicateTree::Or(Seq::empty()).matches_scalar(value),
{
}

/// `Not` holds exactly where its operand does not.
pub proof fn lemma_not_negates(op: PredicateTree, element: Document, value: Scalar)
    ensures
        PredicateTree::Not(Box::new(op)).matches_document(element) == !op.matches_document(element),
        PredicateTree::Not(Box::new(op)).matches_scalar(value) == !op.matches_scalar(value),
{
}

/// `HasKey` without a nested predicate holds of no document, whether the
/// key is bound in it or not.
pub proof fn lemma_has_key_without_predicate_fails(key: Scalar, data: Document)
    ensures
        !(StructuralPredicate::HasKey { key, value: None }).matches(data),
        !PredicateTree::Element(StructuralPredicate::HasKey { key, value: None }).matches_document(
            data,
        ),
{
    reveal_with_fuel(PredicateTree::matches_document, 2);
}

/// A tree is structural exactly when its root is a predicate over the shape
/// of a document, and such a tree holds of no scalar.
pub proof fn lemma_structural_root(tree: PredicateTree, value: Scalar)
    ensures
        tree.is_structural() <==> tree is Element,
        tree.is_structural() ==> !tree.matches_scalar(value),
{
}

impl Query {
    /// Evaluates the query on a document.
    #[verifier::loop_isolation(false)]
    pub fn verify_element(&self, element: &DataElement) -> (r: bool)
        ensures
            r == self@.matches_document(element@),
        decreases self,
    {
        match self {
            Query::Element(query) => query.verify(element),
            Query::Value(query) => match element {
                DataElement::Value(Some(value)) => query.verify(value),
                _ => false,
            },
            Query::Not(op) => !op.verify_element(element),
            Query::Or(operations) => {
                proof {
                    lemma_or_matches_document(queries_view(operations@), element@);
                }
                let mut i: usize = 0;
                while i < operations.len()
                    invariant
                        i <= operations.len(),
                        forall|j: int|
                            0 <= j < i ==> !(#[trigger] queries_view(
                                operations@,
                            )[j]).matches_document(element@),
                    decreases operations.len() - i,
                {
                    if operations[i].verify_element(element) {
                        assert(queries_view(operations@)[i as int].matches_document(element@));
                        return true;
                    }
                    i += 1;
                }
                false
            },
            Query::And(operations) => {
                proof {
                    lemma_and_matches_document(queries_view(operations@), element@);
                }
                let mut i: usize = 0;
                while i < operations.len()
                    invariant
                        i <= operations.len(),
                        forall|j: int|
                            0 <= j < i ==> (#[trigger] queries_view(
                                operations@,
                            )[j]).matches_document(element@),
                    decreases operations.len() - i,
                {
                    if !operations[i].verify_element(element) {
                        assert(!queries_view(operations@)[i as int].matches_document(element@));
                        return false;
                    }
                    i += 1;
                }
                true
            },
            Query::Type(expected) => element.kind() == *expected,
        }
    }

    /// Evaluates the query on a bare scalar.
    #[verifier::loop_isolation(false)]
    pub fn verify_value(&self, value: &DataValue) -> (r: bool)
        ensures
            r == self@.matches_scalar(value@),
        decreases self,
    {
        match self {
            Query::Element(_) => false,
            Query::Value(query) => query.verify(value),
            Query::Not(op) => !op.verify_value(value),
            Query::Or(operations) => {
                proof {
                    lemma_or_matches_scalar(queries_view(operations@), value@);
                }
                let mut i: usize = 0;
                while i < operations.len()
                    invariant
                        i <= operations.len(),
                        forall|j: int|
                            0 <= j < i ==> !(#[trigger] queries_view(operations@)[j]).matches_scalar(
                                value@,
                            ),
                    decreases operations.len() - i,
                {
                    if operations[i].verify_value(value) {
                        assert(queries_view(operations@)[i as int].matches_scalar(value@));
                        return true;
                    }
                    i += 1;
                }
                false
            },
            Query::And(operations) => {
                proof {
                    lemma_and_matches_scalar(queries_view(operations@), value@);
                }
                let mut i: usize = 0;
                while i < operations.len()
                    invariant
                        i <= operations.len(),
                        forall|j: int|
                            0 <= j < i ==> (#[trigger] queries_view(operations@)[j]).matches_scalar(
                                value@,
                            ),
                    decreases operations.len() - i,
                {
                    if !operations[i].verify_value(value) {
                        assert(!queries_view(operations@)[i as int].matches_scalar(value@));
                        return false;
                    }
                    i += 1;
                }
                true
            },
            Query::Type(expected) => value.kind() == *expected,
        }
    }

    /// Whether the root of the query is a predicate over the shape of a
    /// document, so that the query is meant for [`Query::verify_element`].
    pub fn is_for_element(&self) -> (r: bool)
        ensures
            r == self@.is_structural(),
    {
        match self {
            Query::Element(_) => true,
            _ => false,
        }
    }
}

impl QueryElement {
    /// Evaluates the predicate on a document.
    #[verifier::loop_isolation(false)]
    pub fn verify(&self, data: &DataElement) -> (r: bool)
        ensures
            r == self@.matches(data@),
        decreases self,
    {
        match self {
            QueryElement::HasKey { key, value } => match data {
                DataElement::Fields(fields) => match find_field(fields, key) {
                    Some(i) => match value {
                        Some(query) => query.verify_element(&fields[i].1),
                        None => false,
                    },
                    None => false,
                },
                _ => false,
            },
            QueryElement::ArrayLen(query) => match data {
                DataElement::Array(array) => {
                    assert(array_view(array@).len() == array.len());
                    query.verify(&DataValue::U64(array.len() as u64))
                },
                _ => false,
            },
            QueryElement::ContainsElement(query) => match data {
                DataElement::Array(array) => {
                    assert(array_view(array@).len() == array.len());
                    let mut i: usize = 0;
                    while i < array.len()
                        invariant
                            i <= array.len(),
                            forall|j: int| 0 <= j < i ==> (#[trigger] array_view(array@)[j]) != query@,
                        decreases array.len() - i,
                    {
                        if array[i].same(query) {
                            assert(array_view(array@)[i as int] == query@);
                            return true;
                        }
                        i += 1;
                    }
                    false
                },
                _ => false,
            },
        }
    }
}

/// `indexmap::IndexMap`, a hash map that keeps its entries in the order in
/// which they were inserted. Nothing is known of what it holds.
#[verifier::external_type_specification]
#[verifier::external_body]
#[verifier::reject_recursive_types(K)]
#[verifier::reject_recursive_types(V)]
#[verifier::reject_recursive_types(S)]
pub struct ExIndexMap<K, V, S>(IndexMap<K, V, S>);

/// One page of the documents that a scan has matched, keyed by their
/// scalars, with the offset at which the scan goes on; `next` is `None` when
/// the scan is exhausted.
#[derive(Debug)]
pub struct QueryResult {
    pub entries: IndexMap<DataValue, DataElement>,
    pub next: Option<usize>,
}

} // verus!
