//! The document model that queries are evaluated against.

use crate::api::text::push_char;
use vstd::prelude::*;

verus! {

/// Tag that names the type of a scalar or the shape of a document.
#[derive(Clone, Copy, Debug, PartialEq, Eq, Structural)]
pub enum DataType {
    Bool,
    String,
    U8,
    U16,
    U32,
    U64,
    U128,
    Undefined,
    Array,
    Fields,
}

/// A leaf value.
#[derive(Clone, Debug, Eq, Hash)]
pub enum DataValue {
    Bool(bool),
    String(String),
    U8(u8),
    U16(u16),
    U32(u32),
    U64(u64),
    U128(u128),
}

/// Mathematical model of a [`DataValue`].
pub ghost enum Scalar {
    Bool(bool),
    String(Seq<char>),
    U8(u8),
    U16(u16),
    U32(u32),
    U64(u64),
    U128(u128),
}

impl View for DataValue {
    type V = Scalar;

    open spec fn view(&self) -> Scalar {
        match self {
            DataValue::Bool(b) => Scalar::Bool(*b),
            DataValue::String(s) => Scalar::String(s@),
            DataValue::U8(n) => Scalar::U8(*n),
            DataValue::U16(n) => Scalar::U16(*n),
            DataValue::U32(n) => Scalar::U32(*n),
            DataValue::U64(n) => Scalar::U64(*n),
            DataValue::U128(n) => Scalar::U128(*n),
        }
    }
}

impl Scalar {
    /// The type tag of the scalar.
    pub open spec fn kind(self) -> DataType {
        match self {
            Scalar::Bool(_) => DataType::Bool,
            Scalar::String(_) => DataType::String,
            Scalar::U8(_) => DataType::U8,
            Scalar::U16(_) => DataType::U16,
            Scalar::U32(_) => DataType::U32,
            Scalar::U64(_) => DataType::U64,
            Scalar::U128(_) => DataType::U128,
        }
    }
}

/// The character that stands for a decimal digit.
pub open spec fn digit_char(d: nat) -> char {
    (48 + d) as char
}

/// The decimal numeral of a number, without a sign or leading zeros.
pub open spec fn decimal(n: nat) -> Seq<char>
    decreases n,
{
    if n < 10 {
        seq![digit_char(n)]
    } else {
        decimal(n / 10).push(digit_char(n % 10))
    }
}

impl Scalar {
    /// The canonical text of the scalar: `true` or `false`, the string
    /// itself, or the decimal numeral of an integer.
    pub open spec fn text(self) -> Seq<char> {
        match self {
            Scalar::Bool(b) => if b { "true"@ } else { "false"@ },
            Scalar::String(s) => s,
            Scalar::U8(n) => decimal(n as nat),
            Scalar::U16(n) => decimal(n as nat),
            Scalar::U32(n) => decimal(n as nat),
            Scalar::U64(n) => decimal(n as nat),
            Scalar::U128(n) => decimal(n as nat),
        }
    }
}

/// The digits of a numeral that was collected lowest digit first.
pub open spec fn digits_reversed(digits: Seq<u8>) -> Seq<char> {
    Seq::new(digits.len(), |i: int| digit_char(digits[digits.len() - 1 - i] as nat))
}

fn digit_to_char(d: u8) -> (c: char)
    requires
        d < 10,
    ensures
        c == digit_char(d as nat),
{
    match d {
        0 => '0',
        1 => '1',
        2 => '2',
        3 => '3',
        4 => '4',
        5 => '5',
        6 => '6',
        7 => '7',
        8 => '8',
        _ => '9',
    }
}

/// Writes a number as a decimal numeral.
pub fn render_decimal(n: u128) -> (r: String)
    ensures
        r@ == decimal(n as nat),
{
    let mut digits: Vec<u8> = Vec::new();
    digits.push((n % 10) as u8);
    let mut rest: u128 = n / 10;
    assert(digits_reversed(digits@) =~= seq![digit_char((n % 10) as nat)]);
    while rest > 0
        invariant
            digits.len() >= 1,
            forall|i: int| 0 <= i < digits.len() ==> digits[i] < 10,
            decimal(n as nat) == (if rest == 0 {
                Seq::<char>::empty()
            } else {
                decimal(rest as nat)
            }) + digits_reversed(digits@),
        decreases rest,
    {
        let ghost before = digits@;
        let d: u8 = (rest % 10) as u8;
        digits.push(d);
        assert(digits_reversed(digits@) =~= seq![digit_char(d as nat)] + digits_reversed(before));
        assert(decimal(rest as nat) =~= (if rest / 10 == 0 {
            Seq::<char>::empty()
        } else {
            decimal((rest / 10) as nat)
        }) + seq![digit_char(d as nat)]);
        rest = rest / 10;
    }
    let mut out = String::new();
    let mut k: usize = digits.len();
    while k > 0
        invariant
            k <= digits.len(),
            forall|i: int| 0 <= i < digits.len() ==> digits[i] < 10,
            out@ == digits_reversed(digits@).subrange(0, digits.len() - k),
        decreases k,
    {
        k -= 1;
        push_char(&mut out, digit_to_char(digits[k]));
        assert(out@ =~= digits_reversed(digits@).subrange(0, digits.len() - k));
    }
    assert(out@ =~= digits_reversed(digits@));
    out
}

impl PartialEq for DataValue {
    fn eq(&self, other: &Self) -> (r: bool) {
        match (self, other) {
            (DataValue::Bool(a), DataValue::Bool(b)) => *a == *b,
            (DataValue::String(a), DataValue::String(b)) => *a == *b,
            (DataValue::U8(a), DataValue::U8(b)) => *a == *b,
            (DataValue::U16(a), DataValue::U16(b)) => *a == *b,
            (DataValue::U32(a), DataValue::U32(b)) => *a == *b,
            (DataValue::U64(a), DataValue::U64(b)) => *a == *b,
            (DataValue::U128(a), DataValue::U128(b)) => *a == *b,
            _ => false,
        }
    }
}

impl vstd::std_specs::cmp::PartialEqSpecImpl for DataValue {
    open spec fn obeys_eq_spec() -> bool {
        true
    }

    open spec fn eq_spec(&self, other: &Self) -> bool {
        self@ == other@
    }
}

impl DataValue {
    /// The canonical text of the value.
    pub fn to_string(&self) -> (r: String)
        ensures
            r@ == self@.text(),
    {
        match self {
            DataValue::Bool(b) => if *b {
                "true".to_owned()
            } else {
                "false".to_owned()
            },
            DataValue::String(s) => s.clone(),
            DataValue::U8(n) => render_decimal(*n as u128),
            DataValue::U16(n) => render_decimal(*n as u128),
            DataValue::U32(n) => render_decimal(*n as u128),
            DataValue::U64(n) => render_decimal(*n as u128),
            DataValue::U128(n) => render_decimal(*n),
        }
    }

    /// The type tag of the value.
    pub fn kind(&self) -> (r: DataType)
        ensures
            r == self@.kind(),
    {
        match self {
            DataValue::Bool(_) => DataType::Bool,
            DataValue::String(_) => DataType::String,
            DataValue::U8(_) => DataType::U8,
            DataValue::U16(_) => DataType::U16,
            DataValue::U32(_) => DataType::U32,
            DataValue::U64(_) => DataType::U64,
            DataValue::U128(_) => DataType::U128,
        }
    }
}

/// A document: a leaf, an array of documents, or a field map.
///
/// A field map is kept as a list of entries in insertion order. A key that
/// occurs more than once is looked up at its first entry; later entries with
/// the same key are never seen.
#[derive(Debug)]
pub enum DataElement {
    Value(Option<DataValue>),
    Array(Vec<DataElement>),
    Fields(Vec<(DataValue, DataElement)>),
}

/// Mathematical model of a [`DataElement`].
pub ghost enum Document {
    Value(Option<Scalar>),
    Array(Seq<Document>),
    Fields(Map<Scalar, Document>),
}

/// The documents that a list of elements stands for, in the same order.
pub open spec fn array_view(items: Seq<DataElement>) -> Seq<Document>
    decreases items, 0int,
{
    Seq::new(items.len(), |i: int| if 0 <= i < items.len() { items[i]@ } else { Document::Value(None) })
}

/// The map that a list of entries stands for: each key is bound to the
/// document of its first entry.
pub open spec fn fields_view(entries: Seq<(DataValue, DataElement)>) -> Map<Scalar, Document>
    decreases entries, 0int,
{
    if entries.len() == 0 {
        Map::empty()
    } else {
        fields_view(entries.drop_first()).insert(entries[0].0@, entries[0].1@)
    }
}

impl View for DataElement {
    type V = Document;

    open spec fn view(&self) -> Document
        decreases self, 1int,
    {
        match self {
            DataElement::Value(None) => Document::Value(None),
            DataElement::Value(Some(v)) => Document::Value(Some(v@)),
            DataElement::Array(items) => Document::Array(array_view(items@)),
            DataElement::Fields(entries) => Document::Fields(fields_view(entries@)),
        }
    }
}

impl Document {
    /// The type tag of the document: that of its scalar for a leaf that holds
    /// one, `Undefined` for an empty leaf, and the shape otherwise.
    pub open spec fn kind(self) -> DataType {
        match self {
            Document::Value(None) => DataType::Undefined,
            Document::Value(Some(v)) => v.kind(),
            Document::Array(_) => DataType::Array,
            Document::Fields(_) => DataType::Fields,
        }
    }
}

/// A key is bound in the map of a list of entries exactly when some entry
/// carries it.
pub proof fn lemma_fields_view_dom(entries: Seq<(DataValue, DataElement)>, key: Scalar)
    ensures
        fields_view(entries).contains_key(key) <==> exists|i: int|
            0 <= i < entries.len() && (#[trigger] entries[i]).0@ == key,
    decreases entries.len(),
{
    if entries.len() > 0 {
        let rest = entries.drop_first();
        lemma_fields_view_dom(rest, key);
        assert(fields_view(entries) == fields_view(rest).insert(entries[0].0@, entries[0].1@));
        if fields_view(entries).contains_key(key) {
            if entries[0].0@ != key {
                let i = choose|i: int| 0 <= i < rest.len() && (#[trigger] rest[i]).0@ == key;
                assert(entries[i + 1].0@ == key);
            }
        }
        if exists|i: int| 0 <= i < entries.len() && (#[trigger] entries[i]).0@ == key {
            let i = choose|i: int| 0 <= i < entries.len() && (#[trigger] entries[i]).0@ == key;
            if i > 0 {
                assert(rest[i - 1].0@ == key);
            }
        }
    }
}

/// The map of a list of entries binds a key to the document of the first
/// entry that carries it.
pub proof fn lemma_fields_view_first(entries: Seq<(DataValue, DataElement)>, i: int)
    requires
        0 <= i < entries.len(),
        forall|j: int| 0 <= j < i ==> (#[trigger] entries[j]).0@ != entries[i].0@,
    ensures
        fields_view(entries).contains_key(entries[i].0@),
        fields_view(entries)[entries[i].0@] == entries[i].1@,
    decreases entries.len(),
{
    assert(fields_view(entries) == fields_view(entries.drop_first()).insert(
        entries[0].0@,
        entries[0].1@,
    ));
    if i > 0 {
        let rest = entries.drop_first();
        assert(rest[i - 1] == entries[i]);
        assert forall|j: int| 0 <= j < i - 1 implies (#[trigger] rest[j]).0@ != rest[i - 1].0@ by {
            assert(rest[j] == entries[j + 1]);
        }
        lemma_fields_view_first(rest, i - 1);
        assert(entries[0].0@ != entries[i].0@);
    }
}

/// An entry added at the end of a list binds its key only where no earlier
/// entry carries it.
pub proof fn lemma_fields_view_push(
    entries: Seq<(DataValue, DataElement)>,
    entry: (DataValue, DataElement),
)
    ensures
        fields_view(entries.push(entry)) == (if fields_view(entries).contains_key(entry.0@) {
            fields_view(entries)
        } else {
            fields_view(entries).insert(entry.0@, entry.1@)
        }),
    decreases entries.len(),
{
    let longer = entries.push(entry);
    assert(fields_view(longer) == fields_view(longer.drop_first()).insert(
        longer[0].0@,
        longer[0].1@,
    ));
    if entries.len() == 0 {
        assert(longer.drop_first() =~= entries);
        assert(fields_view(entries) =~= Map::empty());
    } else {
        let rest = entries.drop_first();
        assert(longer.drop_first() =~= rest.push(entry));
        lemma_fields_view_push(rest, entry);
        assert(fields_view(entries) == fields_view(rest).insert(entries[0].0@, entries[0].1@));
        assert(fields_view(longer) =~= (if fields_view(entries).contains_key(entry.0@) {
            fields_view(entries)
        } else {
            fields_view(entries).insert(entry.0@, entry.1@)
        }));
    }
}

/// Index of the first entry that carries `key`, if any.
pub fn find_field(entries: &Vec<(DataValue, DataElement)>, key: &DataValue) -> (r: Option<usize>)
    ensures
        match r {
            Some(i) => {
                &&& i < entries.len()
                &&& entries[i as int].0@ == key@
                &&& forall|j: int| 0 <= j < i ==> (#[trigger] entries[j]).0@ != key@
                &&& fields_view(entries@).contains_key(key@)
                &&& fields_view(entries@)[key@] == entries[i as int].1@
            },
            None => !fields_view(entries@).contains_key(key@),
        },
{
    let mut i: usize = 0;
    while i < entries.len()
        invariant
            i <= entries.len(),
            forall|j: int| 0 <= j < i ==> (#[trigger] entries[j]).0@ != key@,
        decreases entries.len() - i,
    {
        if entries[i].0 == *key {
            proof {
                lemma_fields_view_first(entries@, i as int);
            }
            return Some(i);
        }
        i += 1;
    }
    proof {
        lemma_fields_view_dom(entries@, key@);
    }
    None
}

impl DataElement {
    /// The type tag of the document.
    pub fn kind(&self) -> (r: DataType)
        ensures
            r == self@.kind(),
    {
        match self {
            DataElement::Value(None) => DataType::Undefined,
            DataElement::Value(Some(v)) => v.kind(),
            DataElement::Array(_) => DataType::Array,
            DataElement::Fields(_) => DataType::Fields,
        }
    }

    /// The document bound to `key` in a field map; `None` for a key that is
    /// not bound, and for a document that is no field map.
    pub fn get(&self, key: &DataValue) -> (r: Option<&DataElement>)
        ensures
            match self@ {
                Document::Fields(map) if map.contains_key(key@) => r matches Some(found)
                    && found@ == map[key@],
                _ => r is None,
            },
    {
        match self {
            DataElement::Fields(entries) => match find_field(entries, key) {
                Some(i) => Some(&entries[i].1),
                None => None,
            },
            _ => None,
        }
    }

    /// Whether two documents are the same: the same shape, equal scalars of
    /// equal type, equal arrays element by element, and field maps that bind
    /// the same keys to the same documents.
    #[verifier::loop_isolation(false)]
    pub fn same(&self, other: &DataElement) -> (r: bool)
        ensures
            r == (self@ == other@),
        decreases self,
    {
        match (self, other) {
            (DataElement::Value(None), DataElement::Value(None)) => true,
            (DataElement::Value(Some(a)), DataElement::Value(Some(b))) => *a == *b,
            (DataElement::Array(a), DataElement::Array(b)) => {
                if a.len() != b.len() {
                    assert(array_view(a@).len() != array_view(b@).len());
                    return false;
                }
                let mut i: usize = 0;
                while i < a.len()
                    invariant
                        i <= a.len(),
                        a.len() == b.len(),
                        forall|j: int| 0 <= j < i ==> (#[trigger] a[j])@ == b[j]@,
                    decreases a.len() - i,
                {
                    if !a[i].same(&b[i]) {
                        assert(array_view(a@)[i as int] != array_view(b@)[i as int]);
                        return false;
                    }
                    i += 1;
                }
                assert(array_view(a@) =~= array_view(b@));
                true
            },
            (DataElement::Fields(a), DataElement::Fields(b)) => {
                let ghost left = fields_view(a@);
                let ghost right = fields_view(b@);
                let mut i: usize = 0;
                while i < a.len()
                    invariant
                        i <= a.len(),
                        left == fields_view(a@),
                        right == fields_view(b@),
                        forall|j: int|
                            0 <= j < i ==> right.contains_key((#[trigger] a[j]).0@) && right[a[j].0@]
                                == left[a[j].0@],
                    decreases a.len() - i,
                {
                    let first = find_field(a, &a[i].0);
                    let there = find_field(b, &a[i].0);
                    proof {
                        lemma_fields_view_dom(a@, a[i as int].0@);
                    }
                    match (first, there) {
                        (Some(k), Some(l)) => {
                            if !a[k].1.same(&b[l].1) {
                                assert(left[a[i as int].0@] != right[a[i as int].0@]);
                                return false;
                            }
                        },
                        _ => {
                            assert(left.contains_key(a[i as int].0@));
                            assert(!right.contains_key(a[i as int].0@));
                            return false;
                        },
                    }
                    i += 1;
                }
                let mut j: usize = 0;
                while j < b.len()
                    invariant
                        j <= b.len(),
                        left == fields_view(a@),
                        forall|k: int| 0 <= k < j ==> left.contains_key((#[trigger] b[k]).0@),
                    decreases b.len() - j,
                {
                    if find_field(a, &b[j].0).is_none() {
                        proof {
                            lemma_fields_view_dom(b@, b[j as int].0@);
                        }
                        assert(fields_view(b@).contains_key(b[j as int].0@));
                        return false;
                    }
                    j += 1;
                }
                assert(left =~= right) by {
                    assert forall|key: Scalar| #[trigger]
                        left.dom().contains(key) == right.dom().contains(key) by {
                        lemma_fields_view_dom(a@, key);
                        lemma_fields_view_dom(b@, key);
                    }
                    assert forall|key: Scalar| #[trigger] left.dom().contains(key) implies left[key]
                        == right[key] by {
                        lemma_fields_view_dom(a@, key);
                    }
                }
                true
            },
            _ => false,
        }
    }
}

impl PartialEq for DataElement {
    fn eq(&self, other: &Self) -> (r: bool) {
        self.same(other)
    }
}

impl vstd::std_specs::cmp::PartialEqSpecImpl for DataElement {
    open spec fn obeys_eq_spec() -> bool {
        true
    }

    open spec fn eq_spec(&self, other: &Self) -> bool {
        self@ == other@
    }
}

} // verus!
