//! Node values, input rows and output tables.

use vstd::prelude::*;

use crate::double;
use crate::double::Double;
use crate::handle::{CHandle, HandleModel};
use crate::rational::Rational;
use crate::text;

verus! {

/// A pair of doubles.
#[derive(Clone, Copy, PartialEq, Eq, Structural, Debug)]
pub struct Vec2 {
    pub x: Double,
    pub y: Double,
}

/// Three doubles.
#[derive(Clone, Copy, PartialEq, Eq, Structural, Debug)]
pub struct Vec3 {
    pub x: Double,
    pub y: Double,
    pub z: Double,
}

/// Four doubles.
#[derive(Clone, Copy, PartialEq, Eq, Structural, Debug)]
pub struct Vec4 {
    pub x: Double,
    pub y: Double,
    pub z: Double,
    pub w: Double,
}

/// A color with alpha.
#[derive(Clone, Copy, PartialEq, Eq, Structural, Debug)]
pub struct Color {
    pub r: Double,
    pub g: Double,
    pub b: Double,
    pub a: Double,
}

/// The type of a value or of an input.
#[derive(Clone, Copy, PartialEq, Eq, Structural, Hash, Debug)]
pub enum ValueType {
    Empty,
    Int,
    Float,
    Rational,
    Boolean,
    Color,
    Matrix,
    Text,
    Vec2,
    Vec3,
    Vec4,
    Combo,
    StrCombo,
    Binary,
    Texture,
}

/// A value on an input, in a row or in a table.
#[derive(PartialEq, Debug)]
pub enum NodeValue {
    /// No value.
    Empty,
    Int(i64),
    Float(Double),
    Rational(Rational),
    Boolean(bool),
    Color(Color),
    /// A four by four matrix, row by row.
    Matrix([Double; 16]),
    Text(String),
    Vec2(Vec2),
    Vec3(Vec3),
    Vec4(Vec4),
    /// The index of a selected option.
    Combo(i64),
    /// The text of a selected option.
    StrCombo(String),
    /// Raw bytes.
    Binary(Vec<u8>),
    /// A texture, or the job that will produce it.
    Texture(CHandle),
}

/// What a [`NodeValue`] stands for.
#[verifier::ext_equal]
pub enum ValueModel {
    Empty,
    Int(i64),
    Float(Double),
    Rational(Rational),
    Boolean(bool),
    Color(Color),
    Matrix(Seq<Double>),
    Text(Seq<char>),
    Vec2(Vec2),
    Vec3(Vec3),
    Vec4(Vec4),
    Combo(i64),
    StrCombo(Seq<char>),
    Binary(Seq<u8>),
    Texture(HandleModel),
}

impl ValueModel {
    /// The value read as a number: numeric kinds convert, a boolean is
    /// one or zero, and everything else is zero.
    pub open spec fn number(self) -> Double {
        match self {
            ValueModel::Float(f) => f,
            ValueModel::Int(i) => double::double_of_int(i as int),
            ValueModel::Combo(i) => double::double_of_int(i as int),
            ValueModel::Rational(q) => double::double_of_ratio(
                q.spec_numer() as int,
                q.spec_denom() as nat,
            ),
            ValueModel::Boolean(b) => Double {
                bits: if b {
                    double::ONE
                } else {
                    double::ZERO
                },
            },
            _ => Double { bits: double::ZERO },
        }
    }

    /// The type of the value.
    pub open spec fn kind(self) -> ValueType {
        match self {
            ValueModel::Empty => ValueType::Empty,
            ValueModel::Int(_) => ValueType::Int,
            ValueModel::Float(_) => ValueType::Float,
            ValueModel::Rational(_) => ValueType::Rational,
            ValueModel::Boolean(_) => ValueType::Boolean,
            ValueModel::Color(_) => ValueType::Color,
            ValueModel::Matrix(_) => ValueType::Matrix,
            ValueModel::Text(_) => ValueType::Text,
            ValueModel::Vec2(_) => ValueType::Vec2,
            ValueModel::Vec3(_) => ValueType::Vec3,
            ValueModel::Vec4(_) => ValueType::Vec4,
            ValueModel::Combo(_) => ValueType::Combo,
            ValueModel::StrCombo(_) => ValueType::StrCombo,
            ValueModel::Binary(_) => ValueType::Binary,
            ValueModel::Texture(_) => ValueType::Texture,
        }
    }
}

impl NodeValue {
    /// What this value stands for.
    pub open spec fn view(&self) -> ValueModel
        decreases self,
    {
        match self {
            NodeValue::Empty => ValueModel::Empty,
            NodeValue::Int(i) => ValueModel::Int(*i),
            NodeValue::Float(f) => ValueModel::Float(*f),
            NodeValue::Rational(q) => ValueModel::Rational(*q),
            NodeValue::Boolean(b) => ValueModel::Boolean(*b),
            NodeValue::Color(c) => ValueModel::Color(*c),
            NodeValue::Matrix(m) => ValueModel::Matrix(m@),
            NodeValue::Text(s) => ValueModel::Text(s@),
            NodeValue::Vec2(v) => ValueModel::Vec2(*v),
            NodeValue::Vec3(v) => ValueModel::Vec3(*v),
            NodeValue::Vec4(v) => ValueModel::Vec4(*v),
            NodeValue::Combo(i) => ValueModel::Combo(*i),
            NodeValue::StrCombo(s) => ValueModel::StrCombo(s@),
            NodeValue::Binary(b) => ValueModel::Binary(b@),
            NodeValue::Texture(h) => ValueModel::Texture(h.view()),
        }
    }

    /// The value read as a number.
    pub fn to_double(&self) -> (r: Double)
        ensures
            r == self@.number(),
    {
        match self {
            NodeValue::Float(f) => *f,
            NodeValue::Int(i) => Double::of_int(*i),
            NodeValue::Combo(i) => Double::of_int(*i),
            NodeValue::Rational(q) => q.to_double(),
            NodeValue::Boolean(b) => Double {
                bits: if *b {
                    double::ONE
                } else {
                    double::ZERO
                },
            },
            _ => Double { bits: double::ZERO },
        }
    }

    /// The type of the value.
    pub fn value_type(&self) -> (r: ValueType)
        ensures
            r == self@.kind(),
    {
        match self {
            NodeValue::Empty => ValueType::Empty,
            NodeValue::Int(_) => ValueType::Int,
            NodeValue::Float(_) => ValueType::Float,
            NodeValue::Rational(_) => ValueType::Rational,
            NodeValue::Boolean(_) => ValueType::Boolean,
            NodeValue::Color(_) => ValueType::Color,
            NodeValue::Matrix(_) => ValueType::Matrix,
            NodeValue::Text(_) => ValueType::Text,
            NodeValue::Vec2(_) => ValueType::Vec2,
            NodeValue::Vec3(_) => ValueType::Vec3,
            NodeValue::Vec4(_) => ValueType::Vec4,
            NodeValue::Combo(_) => ValueType::Combo,
            NodeValue::StrCombo(_) => ValueType::StrCombo,
            NodeValue::Binary(_) => ValueType::Binary,
            NodeValue::Texture(_) => ValueType::Texture,
        }
    }
}

impl Clone for NodeValue {
    /// A copy of the value. A texture value shares its handle's box.
    fn clone(&self) -> (r: NodeValue)
        ensures
            r@ == self@,
    {
        match self {
            NodeValue::Empty => NodeValue::Empty,
            NodeValue::Int(i) => NodeValue::Int(*i),
            NodeValue::Float(f) => NodeValue::Float(*f),
            NodeValue::Rational(q) => NodeValue::Rational(*q),
            NodeValue::Boolean(b) => NodeValue::Boolean(*b),
            NodeValue::Color(c) => NodeValue::Color(*c),
            NodeValue::Matrix(m) => NodeValue::Matrix(*m),
            NodeValue::Text(s) => NodeValue::Text(s.clone()),
            NodeValue::Vec2(v) => NodeValue::Vec2(*v),
            NodeValue::Vec3(v) => NodeValue::Vec3(*v),
            NodeValue::Vec4(v) => NodeValue::Vec4(*v),
            NodeValue::Combo(i) => NodeValue::Combo(*i),
            NodeValue::StrCombo(s) => NodeValue::StrCombo(s.clone()),
            NodeValue::Binary(b) => {
                let copy: Vec<u8> = b.clone();
                assert(copy@ =~= b@);
                NodeValue::Binary(copy)
            },
            NodeValue::Texture(h) => NodeValue::Texture(h.clone()),
        }
    }
}

/// The values of a node's inputs, by input id.
#[derive(PartialEq, Debug)]
pub struct NodeValueRow {
    entries: Vec<(String, NodeValue)>,
}

/// The map that a list of entries describes: the last entry of a key
/// counts.
pub open spec fn entries_map(entries: Seq<(String, NodeValue)>) -> Map<Seq<char>, ValueModel>
    decreases entries,
{
    if entries.len() == 0 {
        Map::empty()
    } else {
        let last = entries[entries.len() - 1];
        entries_map(entries.subrange(0, entries.len() - 1)).insert(last.0@, last.1.view())
    }
}

/// Adding one entry adds its key.
proof fn lemma_entries_push(entries: Seq<(String, NodeValue)>, i: int)
    requires
        0 <= i < entries.len(),
    ensures
        entries_map(entries.subrange(0, i + 1)) == entries_map(entries.subrange(0, i)).insert(
            entries[i].0@,
            entries[i].1@,
        ),
{
    let longer = entries.subrange(0, i + 1);
    assert(longer.subrange(0, longer.len() - 1) =~= entries.subrange(0, i));
}

/// Entries of other keys leave a key's value as it was before them.
proof fn lemma_entries_tail(entries: Seq<(String, NodeValue)>, from: int, key: Seq<char>)
    requires
        0 <= from <= entries.len(),
        forall|j: int| from <= j < entries.len() ==> (#[trigger] entries[j]).0@ != key,
    ensures
        entries_map(entries).contains_key(key) == entries_map(
            entries.subrange(0, from),
        ).contains_key(key),
        entries_map(entries).contains_key(key) ==> entries_map(entries)[key] == entries_map(
            entries.subrange(0, from),
        )[key],
    decreases entries.len() - from,
{
    if from == entries.len() {
        assert(entries.subrange(0, from) =~= entries);
    } else {
        lemma_entries_tail(entries, from + 1, key);
        lemma_entries_push(entries, from);
    }
}

/// Replacing the value of a key's last entry replaces the key's value.
proof fn lemma_entries_update(
    entries: Seq<(String, NodeValue)>,
    at: int,
    entry: (String, NodeValue),
    upto: int,
)
    requires
        0 <= at < upto <= entries.len(),
        entry.0@ == entries[at].0@,
        forall|j: int| at < j < entries.len() ==> (#[trigger] entries[j]).0@ != entries[at].0@,
    ensures
        entries_map(entries.update(at, entry).subrange(0, upto)) == entries_map(
            entries.subrange(0, upto),
        ).insert(entry.0@, entry.1@),
    decreases upto,
{
    let changed = entries.update(at, entry);
    lemma_entries_push(changed, upto - 1);
    lemma_entries_push(entries, upto - 1);
    if upto - 1 == at {
        assert(changed.subrange(0, at) =~= entries.subrange(0, at));
        assert(entries_map(changed.subrange(0, upto)) =~= entries_map(
            entries.subrange(0, upto),
        ).insert(entry.0@, entry.1@));
    } else {
        lemma_entries_update(entries, at, entry, upto - 1);
        assert(changed[upto - 1] == entries[upto - 1]);
        assert(entries_map(changed.subrange(0, upto)) =~= entries_map(
            entries.subrange(0, upto),
        ).insert(entry.0@, entry.1@));
    }
}

impl NodeValueRow {
    /// The values by input id.
    pub closed spec fn view(&self) -> Map<Seq<char>, ValueModel>
        decreases self,
    {
        entries_map(self.entries@)
    }

    /// An empty row.
    pub fn new() -> (r: NodeValueRow)
        ensures
            r@ == Map::<Seq<char>, ValueModel>::empty(),
    {
        NodeValueRow { entries: Vec::new() }
    }

    /// The index of the last entry of `key`.
    fn position(&self, key: &str) -> (r: Option<usize>)
        ensures
            match r {
                Some(i) => {
                    &&& i < self.entries@.len()
                    &&& self.entries@[i as int].0@ == key@
                    &&& forall|j: int|
                        i < j < self.entries@.len() ==> (#[trigger] self.entries@[j]).0@ != key@
                    &&& self@.contains_key(key@)
                    &&& self@[key@] == self.entries@[i as int].1@
                },
                None => {
                    !self@.contains_key(key@)
                },
            },
    {
        let mut i: usize = self.entries.len();
        while i > 0
            invariant
                i <= self.entries@.len(),
                forall|j: int|
                    i <= j < self.entries@.len() ==> (#[trigger] self.entries@[j]).0@ != key@,
            decreases i,
        {
            i = i - 1;
            if text::same(self.entries[i].0.as_str(), key) {
                proof {
                    lemma_entries_tail(self.entries@, i + 1, key@);
                    lemma_entries_push(self.entries@, i as int);
                }
                return Some(i);
            }
        }
        proof {
            lemma_entries_tail(self.entries@, 0, key@);
            assert(self.entries@.subrange(0, 0) =~= Seq::empty());
        }
        None
    }

    /// Borrow the value of `key`.
    pub fn get(&self, key: &str) -> (r: Option<&NodeValue>)
        ensures
            match r {
                Some(value) => self@.contains_key(key@) && value@ == self@[key@],
                None => !self@.contains_key(key@),
            },
    {
        match self.position(key) {
            Some(i) => Some(&self.entries[i].1),
            None => None,
        }
    }

    /// Whether `key` has a value.
    pub fn contains_key(&self, key: &str) -> (r: bool)
        ensures
            r == self@.contains_key(key@),
    {
        self.position(key).is_some()
    }

    /// Set the value of `key`.
    pub fn insert(&mut self, key: String, value: NodeValue)
        ensures
            final(self)@ == old(self)@.insert(key@, value@),
    {
        match self.position(key.as_str()) {
            Some(i) => {
                proof {
                    let entries = self.entries@;
                    lemma_entries_update(entries, i as int, (key, value), entries.len() as int);
                    assert(entries.subrange(0, entries.len() as int) =~= entries);
                    let changed = entries.update(i as int, (key, value));
                    assert(changed.subrange(0, entries.len() as int) =~= changed);
                }
                self.entries.set(i, (key, value));
            },
            None => {
                let ghost entries = self.entries@;
                self.entries.push((key, value));
                proof {
                    lemma_entries_push(self.entries@, entries.len() as int);
                    assert(self.entries@.subrange(0, entries.len() as int) =~= entries);
                    assert(self.entries@.subrange(0, entries.len() as int + 1) =~= self.entries@);
                }
            },
        }
    }

    /// Drop the value of `key`.
    pub fn remove(&mut self, key: &str)
        ensures
            final(self)@ == old(self)@.remove(key@),
    {
        let mut kept: Vec<(String, NodeValue)> = Vec::new();
        let mut i: usize = 0;
        assert(self.entries@.subrange(0, 0) =~= Seq::empty());
        assert(entries_map(kept@) =~= entries_map(self.entries@.subrange(0, 0)).remove(key@));
        while i < self.entries.len()
            invariant
                self.entries@ == old(self).entries@,
                i <= self.entries@.len(),
                entries_map(kept@) == entries_map(self.entries@.subrange(0, i as int)).remove(
                    key@,
                ),
            decreases self.entries@.len() - i,
        {
            proof {
                lemma_entries_push(self.entries@, i as int);
            }
            let entry: &(String, NodeValue) = &self.entries[i];
            if text::same(entry.0.as_str(), key) {
                assert(entries_map(kept@) =~= entries_map(
                    self.entries@.subrange(0, i + 1),
                ).remove(key@));
            } else {
                let ghost before = kept@;
                kept.push((entry.0.clone(), entry.1.clone()));
                proof {
                    lemma_entries_push(kept@, before.len() as int);
                    assert(kept@.subrange(0, before.len() as int) =~= before);
                    assert(kept@.subrange(0, before.len() as int + 1) =~= kept@);
                    assert(entries_map(kept@) =~= entries_map(
                        self.entries@.subrange(0, i + 1),
                    ).remove(key@));
                }
            }
            i = i + 1;
        }
        assert(self.entries@.subrange(0, i as int) =~= self.entries@);
        self.entries = kept;
    }
}

impl Clone for NodeValueRow {
    fn clone(&self) -> (r: NodeValueRow)
        ensures
            r@ == self@,
    {
        let mut copy: Vec<(String, NodeValue)> = Vec::new();
        let mut i: usize = 0;
        assert(self.entries@.subrange(0, 0) =~= copy@);
        while i < self.entries.len()
            invariant
                i <= self.entries@.len(),
                entries_map(copy@) == entries_map(self.entries@.subrange(0, i as int)),
            decreases self.entries@.len() - i,
        {
            let ghost before = copy@;
            copy.push((self.entries[i].0.clone(), self.entries[i].1.clone()));
            proof {
                lemma_entries_push(self.entries@, i as int);
                lemma_entries_push(copy@, before.len() as int);
                assert(copy@.subrange(0, before.len() as int) =~= before);
                assert(copy@.subrange(0, before.len() as int + 1) =~= copy@);
            }
            i = i + 1;
        }
        assert(self.entries@.subrange(0, i as int) =~= self.entries@);
        NodeValueRow { entries: copy }
    }
}

impl Default for NodeValueRow {
    fn default() -> (r: NodeValueRow)
        ensures
            r@ == Map::<Seq<char>, ValueModel>::empty(),
    {
        NodeValueRow::new()
    }
}

/// One entry of an output table: its type, its value and its tag.
pub type TableEntry = (ValueType, ValueModel, Option<Seq<char>>);

/// The values a node has put out, oldest first.
#[derive(PartialEq, Debug)]
pub struct NodeValueTable {
    rows: Vec<(ValueType, NodeValue, Option<String>)>,
}

/// What one table row stands for.
pub open spec fn row_model(row: (ValueType, NodeValue, Option<String>)) -> TableEntry {
    (
        row.0,
        row.1@,
        match row.2 {
            Some(tag) => Some(tag@),
            None => None,
        },
    )
}

/// The most recent value of a type in a table.
pub open spec fn last_of(entries: Seq<TableEntry>, kind: ValueType) -> Option<ValueModel>
    decreases entries.len(),
{
    if entries.len() == 0 {
        None
    } else if entries.last().0 == kind {
        Some(entries.last().1)
    } else {
        last_of(entries.drop_last(), kind)
    }
}

impl NodeValueTable {
    /// The entries, oldest first.
    pub closed spec fn view(&self) -> Seq<TableEntry> {
        self.rows@.map_values(|row: (ValueType, NodeValue, Option<String>)| row_model(row))
    }

    /// An empty table.
    pub fn new() -> (r: NodeValueTable)
        ensures
            r@ == Seq::<TableEntry>::empty(),
    {
        let r = NodeValueTable { rows: Vec::new() };
        assert(r@ =~= Seq::<TableEntry>::empty());
        r
    }

    /// Append a value.
    pub fn push(&mut self, kind: ValueType, value: NodeValue, tag: Option<String>)
        ensures
            final(self)@ == old(self)@.push(
                (
                    kind,
                    value@,
                    match tag {
                        Some(t) => Some(t@),
                        None => None,
                    },
                ),
            ),
    {
        self.rows.push((kind, value, tag));
        assert(self@ =~= old(self)@.push(row_model((kind, value, tag))));
    }

    /// The most recent value of type `kind`.
    pub fn get(&self, kind: ValueType) -> (r: Option<&NodeValue>)
        ensures
            match r {
                Some(value) => last_of(self@, kind) == Some(value@),
                None => last_of(self@, kind) is None,
            },
    {
        let mut i: usize = self.rows.len();
        assert(self@.subrange(0, self@.len() as int) =~= self@);
        while i > 0
            invariant
                i <= self.rows@.len(),
                last_of(self@, kind) == last_of(self@.subrange(0, i as int), kind),
            decreases i,
        {
            let ghost prefix = self@.subrange(0, i as int);
            i = i - 1;
            assert(prefix.last() == row_model(self.rows@[i as int]));
            assert(prefix.drop_last() =~= self@.subrange(0, i as int));
            if self.rows[i].0 == kind {
                return Some(&self.rows[i].1);
            }
        }
        None
    }

    /// The most recent value of any type.
    pub fn last_value(&self) -> (r: Option<&NodeValue>)
        ensures
            match r {
                Some(value) => self@.len() > 0 && self@.last().1 == value@,
                None => self@.len() == 0,
            },
    {
        let n: usize = self.rows.len();
        if n == 0 {
            None
        } else {
            Some(&self.rows[n - 1].1)
        }
    }

    /// The number of entries.
    pub fn count(&self) -> (r: usize)
        ensures
            r == self@.len(),
    {
        self.rows.len()
    }

    /// Whether the table has no entries.
    pub fn is_empty(&self) -> (r: bool)
        ensures
            r == (self@.len() == 0),
    {
        self.rows.len() == 0
    }

    /// Drop every entry.
    pub fn clear(&mut self)
        ensures
            final(self)@ == Seq::<TableEntry>::empty(),
    {
        self.rows = Vec::new();
        assert(self@ =~= Seq::<TableEntry>::empty());
    }
}

impl Clone for NodeValueTable {
    fn clone(&self) -> (r: NodeValueTable)
        ensures
            r@ == self@,
    {
        let mut rows: Vec<(ValueType, NodeValue, Option<String>)> = Vec::new();
        let mut i: usize = 0;
        while i < self.rows.len()
            invariant
                i <= self.rows@.len(),
                rows@.len() == i,
                forall|j: int|
                    0 <= j < i ==> row_model(#[trigger] rows@[j]) == row_model(self.rows@[j]),
            decreases self.rows@.len() - i,
        {
            let row: &(ValueType, NodeValue, Option<String>) = &self.rows[i];
            let tag: Option<String> = match &row.2 {
                Some(t) => Some(t.clone()),
                None => None,
            };
            rows.push((row.0, row.1.clone(), tag));
            i = i + 1;
        }
        let r = NodeValueTable { rows };
        assert(r@ =~= self@) by {
            assert forall|j: int| 0 <= j < r@.len() implies r@[j] == self@[j] by {
                assert(r@[j] == row_model(r.rows@[j]));
            }
        }
        r
    }
}

impl Default for NodeValueTable {
    fn default() -> (r: NodeValueTable)
        ensures
            r@ == Seq::<TableEntry>::empty(),
    {
        NodeValueTable::new()
    }
}

/// A float is its own number, an integer and a combo index convert, true is
/// one, and what is no number is zero.
pub proof fn law_numbers_convert(value: &NodeValue, r: Double)
    requires
        call_ensures(NodeValue::to_double, (value,), r),
    ensures
        value matches NodeValue::Float(f) ==> r == f,
        value matches NodeValue::Int(i) ==> r == double::double_of_int(i as int),
        value matches NodeValue::Combo(i) ==> r == double::double_of_int(i as int),
        value matches NodeValue::Rational(q) ==> r == double::double_of_ratio(
            q.spec_numer() as int,
            q.spec_denom() as nat,
        ),
        value == NodeValue::Boolean(true) ==> r == double::double_of_int(1),
        value == NodeValue::Boolean(false) ==> r == (Double { bits: 0 }),
        value is Empty || value is Color || value is Matrix || value is Text || value is Vec2
            || value is Vec3 || value is Vec4 || value is StrCombo || value is Binary
            || value is Texture ==> r == (Double { bits: 0 }),
{
    double::lemma_one();
}

/// A value has the type that it is named after.
pub proof fn law_values_have_their_types(value: &NodeValue, r: ValueType)
    requires
        call_ensures(NodeValue::value_type, (value,), r),
    ensures
        r == ValueType::Empty <==> value is Empty,
        r == ValueType::Int <==> value is Int,
        r == ValueType::Float <==> value is Float,
        r == ValueType::Rational <==> value is Rational,
        r == ValueType::Boolean <==> value is Boolean,
        r == ValueType::Color <==> value is Color,
        r == ValueType::Matrix <==> value is Matrix,
        r == ValueType::Text <==> value is Text,
        r == ValueType::Vec2 <==> value is Vec2,
        r == ValueType::Vec3 <==> value is Vec3,
        r == ValueType::Vec4 <==> value is Vec4,
        r == ValueType::Combo <==> value is Combo,
        r == ValueType::StrCombo <==> value is StrCombo,
        r == ValueType::Binary <==> value is Binary,
        r == ValueType::Texture <==> value is Texture,
{
}

} // verus!
