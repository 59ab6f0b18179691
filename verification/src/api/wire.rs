//! The self-describing tree in which queries and documents travel, and the
//! fixed tokens of its grammar.

use crate::api::data::DataType;
use crate::api::text::same_text;
use vstd::prelude::*;

verus! {

/// A value of the wire format: what a self-describing encoding such as JSON
/// can hold.
#[derive(Debug)]
pub enum WireValue {
    Null,
    Bool(bool),
    Number(u128),
    Text(String),
    List(Vec<WireValue>),
    Object(Vec<(String, WireValue)>),
}

/// Mathematical model of a [`WireValue`]. An object is the sequence of its
/// entries, in the order in which they were written.
pub ghost enum Wire {
    Null,
    Bool(bool),
    Number(u128),
    Text(Seq<char>),
    List(Seq<Wire>),
    Object(Seq<(Seq<char>, Wire)>),
}

/// The models of a list of values, in the same order.
pub open spec fn list_view(items: Seq<WireValue>) -> Seq<Wire>
    decreases items, 0int,
{
    Seq::new(
        items.len(),
        |i: int|
            if 0 <= i < items.len() {
                wire_view(items[i])
            } else {
                arbitrary()
            },
    )
}

/// The models of the entries of an object, in the same order.
pub open spec fn entries_view(entries: Seq<(String, WireValue)>) -> Seq<(Seq<char>, Wire)>
    decreases entries, 0int,
{
    Seq::new(
        entries.len(),
        |i: int|
            if 0 <= i < entries.len() {
                (entries[i].0@, wire_view(entries[i].1))
            } else {
                arbitrary()
            },
    )
}

/// The model of a value.
pub open spec fn wire_view(value: WireValue) -> Wire
    decreases value, 1int,
{
    match value {
        WireValue::Null => Wire::Null,
        WireValue::Bool(b) => Wire::Bool(b),
        WireValue::Number(n) => Wire::Number(n),
        WireValue::Text(s) => Wire::Text(s@),
        WireValue::List(items) => Wire::List(list_view(items@)),
        WireValue::Object(entries) => Wire::Object(entries_view(entries@)),
    }
}

impl View for WireValue {
    type V = Wire;

    open spec fn view(&self) -> Wire {
        wire_view(*self)
    }
}

/// The model of a list holds the model of each of its values.
pub proof fn lemma_list_view(items: Seq<WireValue>)
    ensures
        list_view(items).len() == items.len(),
        forall|i: int| 0 <= i < items.len() ==> (#[trigger] list_view(items)[i]) == wire_view(items[i]),
{
}

/// The model of the entries of an object holds the model of each entry.
pub proof fn lemma_entries_view(entries: Seq<(String, WireValue)>)
    ensures
        entries_view(entries).len() == entries.len(),
        forall|i: int|
            0 <= i < entries.len() ==> (#[trigger] entries_view(entries)[i]) == (
                entries[i].0@,
                wire_view(entries[i].1),
            ),
{
    assert forall|i: int| 0 <= i < entries.len() implies (#[trigger] entries_view(entries)[i]) == (
        entries[i].0@,
        wire_view(entries[i].1),
    ) by {
        assert(decreases_to!(entries => entries[i]));
        assert(decreases_to!(entries[i] => entries[i].1));
        assert(decreases_to!(entries => entries[i].1));
    }
}

/// An object with one entry.
pub open spec fn tagged(key: Seq<char>, body: Wire) -> Wire {
    Wire::Object(seq![(key, body)])
}

/// The key under which a kind of predicate is written.
#[derive(Clone, Copy, Debug, PartialEq, Eq, Structural)]
pub enum Keyword {
    Not,
    And,
    Or,
    Type,
    HasKey,
    ArrayLen,
    ContainsElement,
    Equal,
    StartsWith,
    EndsWith,
    ContainsValue,
    Pattern,
    Above,
    AboveOrEqual,
    Below,
    BelowOrEqual,
}

impl Keyword {
    /// The token of the keyword.
    pub open spec fn name(self) -> Seq<char> {
        match self {
            Keyword::Not => "not"@,
            Keyword::And => "and"@,
            Keyword::Or => "or"@,
            Keyword::Type => "type"@,
            Keyword::HasKey => "has_key"@,
            Keyword::ArrayLen => "array_len"@,
            Keyword::ContainsElement => "contains_element"@,
            Keyword::Equal => "equal"@,
            Keyword::StartsWith => "starts_with"@,
            Keyword::EndsWith => "ends_with"@,
            Keyword::ContainsValue => "contains_value"@,
            Keyword::Pattern => "pattern"@,
            Keyword::Above => "above"@,
            Keyword::AboveOrEqual => "above_or_equal"@,
            Keyword::Below => "below"@,
            Keyword::BelowOrEqual => "below_or_equal"@,
        }
    }

    /// The keyword that a key names, if any.
    pub open spec fn parse(key: Seq<char>) -> Option<Keyword> {
        if key == Keyword::Not.name() {
            Some(Keyword::Not)
        } else if key == Keyword::And.name() {
            Some(Keyword::And)
        } else if key == Keyword::Or.name() {
            Some(Keyword::Or)
        } else if key == Keyword::Type.name() {
            Some(Keyword::Type)
        } else if key == Keyword::HasKey.name() {
            Some(Keyword::HasKey)
        } else if key == Keyword::ArrayLen.name() {
            Some(Keyword::ArrayLen)
        } else if key == Keyword::ContainsElement.name() {
            Some(Keyword::ContainsElement)
        } else if key == Keyword::Equal.name() {
            Some(Keyword::Equal)
        } else if key == Keyword::StartsWith.name() {
            Some(Keyword::StartsWith)
        } else if key == Keyword::EndsWith.name() {
            Some(Keyword::EndsWith)
        } else if key == Keyword::ContainsValue.name() {
            Some(Keyword::ContainsValue)
        } else if key == Keyword::Pattern.name() {
            Some(Keyword::Pattern)
        } else if key == Keyword::Above.name() {
            Some(Keyword::Above)
        } else if key == Keyword::AboveOrEqual.name() {
            Some(Keyword::AboveOrEqual)
        } else if key == Keyword::Below.name() {
            Some(Keyword::Below)
        } else if key == Keyword::BelowOrEqual.name() {
            Some(Keyword::BelowOrEqual)
        } else {
            None
        }
    }

    /// Each keyword is the one that its own token names.
    pub proof fn lemma_parse_name(self)
        ensures
            Keyword::parse(self.name()) == Some(self),
    {
        reveal_strlit("not");
        assert("not"@.len() == 3 && "not"@[0] == 'n');
        reveal_strlit("and");
        assert("and"@.len() == 3 && "and"@[0] == 'a');
        reveal_strlit("or");
        assert("or"@.len() == 2 && "or"@[0] == 'o');
        reveal_strlit("type");
        assert("type"@.len() == 4 && "type"@[0] == 't');
        reveal_strlit("has_key");
        assert("has_key"@.len() == 7 && "has_key"@[0] == 'h');
        reveal_strlit("array_len");
        assert("array_len"@.len() == 9 && "array_len"@[0] == 'a');
        reveal_strlit("contains_element");
        assert("contains_element"@.len() == 16 && "contains_element"@[0] == 'c');
        reveal_strlit("equal");
        assert("equal"@.len() == 5 && "equal"@[0] == 'e');
        reveal_strlit("starts_with");
        assert("starts_with"@.len() == 11 && "starts_with"@[0] == 's');
        reveal_strlit("ends_with");
        assert("ends_with"@.len() == 9 && "ends_with"@[0] == 'e');
        reveal_strlit("contains_value");
        assert("contains_value"@.len() == 14 && "contains_value"@[0] == 'c');
        reveal_strlit("pattern");
        assert("pattern"@.len() == 7 && "pattern"@[0] == 'p');
        reveal_strlit("above");
        assert("above"@.len() == 5 && "above"@[0] == 'a');
        reveal_strlit("above_or_equal");
        assert("above_or_equal"@.len() == 14 && "above_or_equal"@[0] == 'a');
        reveal_strlit("below");
        assert("below"@.len() == 5 && "below"@[0] == 'b');
        reveal_strlit("below_or_equal");
        assert("below_or_equal"@.len() == 14 && "below_or_equal"@[0] == 'b');
    }

    /// The token of the keyword.
    pub fn as_str(self) -> (r: &'static str)
        ensures
            r@ == self.name(),
    {
        match self {
            Keyword::Not => "not",
            Keyword::And => "and",
            Keyword::Or => "or",
            Keyword::Type => "type",
            Keyword::HasKey => "has_key",
            Keyword::ArrayLen => "array_len",
            Keyword::ContainsElement => "contains_element",
            Keyword::Equal => "equal",
            Keyword::StartsWith => "starts_with",
            Keyword::EndsWith => "ends_with",
            Keyword::ContainsValue => "contains_value",
            Keyword::Pattern => "pattern",
            Keyword::Above => "above",
            Keyword::AboveOrEqual => "above_or_equal",
            Keyword::Below => "below",
            Keyword::BelowOrEqual => "below_or_equal",
        }
    }

    /// Reads a key as a keyword.
    pub fn from_str(key: &str) -> (r: Option<Keyword>)
        ensures
            r == Keyword::parse(key@),
    {
        if same_text(key, "not") {
            Some(Keyword::Not)
        } else if same_text(key, "and") {
            Some(Keyword::And)
        } else if same_text(key, "or") {
            Some(Keyword::Or)
        } else if same_text(key, "type") {
            Some(Keyword::Type)
        } else if same_text(key, "has_key") {
            Some(Keyword::HasKey)
        } else if same_text(key, "array_len") {
            Some(Keyword::ArrayLen)
        } else if same_text(key, "contains_element") {
            Some(Keyword::ContainsElement)
        } else if same_text(key, "equal") {
            Some(Keyword::Equal)
        } else if same_text(key, "starts_with") {
            Some(Keyword::StartsWith)
        } else if same_text(key, "ends_with") {
            Some(Keyword::EndsWith)
        } else if same_text(key, "contains_value") {
            Some(Keyword::ContainsValue)
        } else if same_text(key, "pattern") {
            Some(Keyword::Pattern)
        } else if same_text(key, "above") {
            Some(Keyword::Above)
        } else if same_text(key, "above_or_equal") {
            Some(Keyword::AboveOrEqual)
        } else if same_text(key, "below") {
            Some(Keyword::Below)
        } else if same_text(key, "below_or_equal") {
            Some(Keyword::BelowOrEqual)
        } else {
            None
        }
    }
}

/// The token of a type tag.
pub open spec fn tag_name(tag: DataType) -> Seq<char> {
    match tag {
        DataType::Bool => "bool"@,
        DataType::String => "string"@,
        DataType::U8 => "u8"@,
        DataType::U16 => "u16"@,
        DataType::U32 => "u32"@,
        DataType::U64 => "u64"@,
        DataType::U128 => "u128"@,
        DataType::Undefined => "undefined"@,
        DataType::Array => "array"@,
        DataType::Fields => "fields"@,
    }
}

/// The type tag that a token names, if any.
pub open spec fn parse_tag(name: Seq<char>) -> Option<DataType> {
    if name == tag_name(DataType::Bool) {
        Some(DataType::Bool)
    } else if name == tag_name(DataType::String) {
        Some(DataType::String)
    } else if name == tag_name(DataType::U8) {
        Some(DataType::U8)
    } else if name == tag_name(DataType::U16) {
        Some(DataType::U16)
    } else if name == tag_name(DataType::U32) {
        Some(DataType::U32)
    } else if name == tag_name(DataType::U64) {
        Some(DataType::U64)
    } else if name == tag_name(DataType::U128) {
        Some(DataType::U128)
    } else if name == tag_name(DataType::Undefined) {
        Some(DataType::Undefined)
    } else if name == tag_name(DataType::Array) {
        Some(DataType::Array)
    } else if name == tag_name(DataType::Fields) {
        Some(DataType::Fields)
    } else {
        None
    }
}

/// Each type tag is the one that its own token names.
pub proof fn lemma_parse_tag_name(tag: DataType)
    ensures
        parse_tag(tag_name(tag)) == Some(tag),
{
    reveal_strlit("bool");
    assert("bool"@.len() == 4 && "bool"@[0] == 'b' && "bool"@[1] == 'o');
    reveal_strlit("string");
    assert("string"@.len() == 6 && "string"@[0] == 's' && "string"@[1] == 't');
    reveal_strlit("u8");
    assert("u8"@.len() == 2 && "u8"@[0] == 'u' && "u8"@[1] == '8');
    reveal_strlit("u16");
    assert("u16"@.len() == 3 && "u16"@[0] == 'u' && "u16"@[1] == '1');
    reveal_strlit("u32");
    assert("u32"@.len() == 3 && "u32"@[0] == 'u' && "u32"@[1] == '3');
    reveal_strlit("u64");
    assert("u64"@.len() == 3 && "u64"@[0] == 'u' && "u64"@[1] == '6');
    reveal_strlit("u128");
    assert("u128"@.len() == 4 && "u128"@[0] == 'u' && "u128"@[1] == '1');
    reveal_strlit("undefined");
    assert("undefined"@.len() == 9 && "undefined"@[0] == 'u' && "undefined"@[1] == 'n');
    reveal_strlit("array");
    assert("array"@.len() == 5 && "array"@[0] == 'a' && "array"@[1] == 'r');
    reveal_strlit("fields");
    assert("fields"@.len() == 6 && "fields"@[0] == 'f' && "fields"@[1] == 'i');
}

/// The token of a type tag.
pub fn tag_as_str(tag: DataType) -> (r: &'static str)
    ensures
        r@ == tag_name(tag),
{
    match tag {
        DataType::Bool => "bool",
        DataType::String => "string",
        DataType::U8 => "u8",
        DataType::U16 => "u16",
        DataType::U32 => "u32",
        DataType::U64 => "u64",
        DataType::U128 => "u128",
        DataType::Undefined => "undefined",
        DataType::Array => "array",
        DataType::Fields => "fields",
    }
}

/// Reads a token as a type tag.
pub fn tag_from_str(name: &str) -> (r: Option<DataType>)
    ensures
        r == parse_tag(name@),
{
    if same_text(name, "bool") {
        Some(DataType::Bool)
    } else if same_text(name, "string") {
        Some(DataType::String)
    } else if same_text(name, "u8") {
        Some(DataType::U8)
    } else if same_text(name, "u16") {
        Some(DataType::U16)
    } else if same_text(name, "u32") {
        Some(DataType::U32)
    } else if same_text(name, "u64") {
        Some(DataType::U64)
    } else if same_text(name, "u128") {
        Some(DataType::U128)
    } else if same_text(name, "undefined") {
        Some(DataType::Undefined)
    } else if same_text(name, "array") {
        Some(DataType::Array)
    } else if same_text(name, "fields") {
        Some(DataType::Fields)
    } else {
        None
    }
}

} // verus!
