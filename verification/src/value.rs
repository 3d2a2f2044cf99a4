//! The values that flow through the engine: what resolvers return and what a
//! response is made of.
use crate::keyed::{ascending, holds_key, key_lt, lemma_same_keys, place_of, StrMap};
use vstd::prelude::*;

verus! {

/// A floating-point number, carried as the bits of its IEEE 754 binary64 form.
#[derive(Clone, Copy, Debug, PartialEq, Eq, Structural)]
pub struct FloatBits {
    pub bits: u64,
}

/// An instant in UTC: whole seconds since the Unix epoch and the nanoseconds
/// that follow them.
#[derive(Clone, Copy, Debug, PartialEq, Eq, Structural)]
pub struct Timestamp {
    pub seconds: i64,
    pub nanoseconds: u32,
}

/// A value as executable data.
///
/// An identifier is a `String`. An `Object` lists its fields in ascending
/// order of their names, whatever the order in which they were put in.
#[derive(Debug, PartialEq)]
pub enum DataValue {
    String(String),
    Int(i64),
    Float(FloatBits),
    Boolean(bool),
    DateTime(Timestamp),
    Null,
    List(Vec<DataValue>),
    Object(StrMap<DataValue>),
}

/// What a [`DataValue`] holds: a finite tree of scalars, lists and objects.
pub enum Value {
    String(Seq<char>),
    Int(int),
    /// The bits of the number's IEEE 754 binary64 form, as a number.
    Float(int),
    Boolean(bool),
    /// Seconds since the Unix epoch, and the nanoseconds that follow them.
    DateTime(int, int),
    Null,
    List(Seq<Value>),
    Object(Map<Seq<char>, Value>),
}

impl View for DataValue {
    type V = Value;

    open(crate) spec fn view(&self) -> Value
        decreases self,
    {
        match self {
            DataValue::String(s) => Value::String(s@),
            DataValue::Int(i) => Value::Int(*i as int),
            DataValue::Float(f) => Value::Float(f.bits as int),
            DataValue::Boolean(b) => Value::Boolean(*b),
            DataValue::DateTime(t) => Value::DateTime(t.seconds as int, t.nanoseconds as int),
            DataValue::Null => Value::Null,
            DataValue::List(l) => Value::List(
                Seq::new(
                    l@.len(),
                    |i: int|
                        if 0 <= i < l@.len() {
                            l@[i].view()
                        } else {
                            Value::Null
                        },
                ),
            ),
            DataValue::Object(m) => Value::Object(
                Map::new(
                    |k: Seq<char>| holds_key(m.entries@, k),
                    |k: Seq<char>|
                        if holds_key(m.entries@, k) {
                            m.entries@[place_of(m.entries@, k)].1.view()
                        } else {
                            Value::Null
                        },
                ),
            ),
        }
    }
}

/// What the values of a map hold, key by key.
pub open spec fn deep(m: Map<Seq<char>, DataValue>) -> Map<Seq<char>, Value> {
    m.map_values(|v: DataValue| v@)
}

/// What the items of a list hold, item by item.
pub open spec fn deep_list(l: Seq<DataValue>) -> Seq<Value> {
    l.map_values(|v: DataValue| v@)
}

/// The name of the kind of a value, for diagnostics. A list is named after
/// its first item.
pub open spec fn kind_name(v: Value) -> Seq<char>
    decreases v,
{
    match v {
        Value::String(_) => "String"@,
        Value::Int(_) => "Int"@,
        Value::Float(_) => "Float"@,
        Value::Boolean(_) => "Boolean"@,
        Value::DateTime(_, _) => "DateTime"@,
        Value::Null => "Null"@,
        Value::List(items) => if items.len() > 0 {
            "List("@ + kind_name(items[0]) + ")"@
        } else {
            "List(...)"@
        },
        Value::Object(_) => "Object(...)"@,
    }
}

/// A string holds its characters.
pub proof fn lemma_view_string(s: String)
    ensures
        DataValue::String(s)@ == Value::String(s@),
{
}

/// An integer holds its number.
pub proof fn lemma_view_int(i: i64)
    ensures
        DataValue::Int(i)@ == Value::Int(i as int),
{
}

/// A float holds its bits.
pub proof fn lemma_view_float(f: FloatBits)
    ensures
        DataValue::Float(f)@ == Value::Float(f.bits as int),
{
}

/// A boolean holds its truth value.
pub proof fn lemma_view_boolean(b: bool)
    ensures
        DataValue::Boolean(b)@ == Value::Boolean(b),
{
}

/// A date and time holds its instant.
pub proof fn lemma_view_datetime(t: Timestamp)
    ensures
        DataValue::DateTime(t)@ == Value::DateTime(t.seconds as int, t.nanoseconds as int),
{
}

/// Null holds nothing.
pub proof fn lemma_view_null()
    ensures
        DataValue::Null@ == Value::Null,
{
}

/// A list holds what its items hold, in their order.
pub proof fn lemma_view_list(l: Vec<DataValue>)
    ensures
        DataValue::List(l)@ == Value::List(deep_list(l@)),
{
    assert(DataValue::List(l)@->List_0 =~= deep_list(l@));
}

/// An object holds, under each key of its map, what the value there holds.
pub proof fn lemma_view_object(m: StrMap<DataValue>)
    ensures
        DataValue::Object(m)@ == Value::Object(deep(m@)),
{
    assert(DataValue::Object(m)@->Object_0 =~= deep(m@));
}

/// Entries with the same keys, whose values hold the same, make objects that
/// hold the same.
proof fn lemma_same_entries(a: StrMap<DataValue>, b: StrMap<DataValue>)
    requires
        a.wf(),
        b.wf(),
        a.entries@.len() == b.entries@.len(),
        forall|i: int|
            0 <= i < a.entries@.len() ==> (#[trigger] a.entries@[i]).0@ == b.entries@[i].0@
                && a.entries@[i].1@ == b.entries@[i].1@,
    ensures
        DataValue::Object(a)@ == DataValue::Object(b)@,
{
    lemma_same_keys(a.entries@, b.entries@);
    assert(DataValue::Object(a)@->Object_0 =~= DataValue::Object(b)@->Object_0);
}

impl Clone for DataValue {
    /// A copy that holds the same.
    fn clone(&self) -> (r: Self)
        ensures
            r@ == self@,
        decreases self,
    {
        match self {
            DataValue::String(s) => DataValue::String(s.clone()),
            DataValue::Int(i) => DataValue::Int(*i),
            DataValue::Float(f) => DataValue::Float(*f),
            DataValue::Boolean(b) => DataValue::Boolean(*b),
            DataValue::DateTime(t) => DataValue::DateTime(*t),
            DataValue::Null => DataValue::Null,
            DataValue::List(l) => {
                let mut items: Vec<DataValue> = Vec::new();
                let mut i: usize = 0;
                while i < l.len()
                    invariant
                        0 <= i <= l@.len(),
                        items@.len() == i,
                        *self == DataValue::List(*l),
                        forall|j: int| 0 <= j < i ==> (#[trigger] items@[j])@ == l@[j]@,
                    decreases l@.len() - i,
                {
                    assert(self->List_0 == *l);
                    assert(decreases_to!(*self => self->List_0));
                    assert(decreases_to!(*l => l[i as int]));
                    let item = l[i].clone();
                    items.push(item);
                    i = i + 1;
                }
                proof {
                    assert(DataValue::List(items)@->List_0 =~= self@->List_0);
                }
                DataValue::List(items)
            },
            DataValue::Object(m) => {
                assert(self->Object_0 == *m);
                assert(decreases_to!(*self => self->Object_0));
                let copy = copy_fields(m);
                proof {
                    lemma_view_object(*m);
                    lemma_view_object(copy);
                }
                DataValue::Object(copy)
            },
        }
    }
}

/// A copy of the fields of an object that holds the same.
pub fn copy_fields(m: &StrMap<DataValue>) -> (r: StrMap<DataValue>)
    ensures
        deep(r@) == deep(m@),
    decreases m,
{
    proof {
        use_type_invariant(m);
    }
    let mut entries: Vec<(String, DataValue)> = Vec::new();
    let mut i: usize = 0;
    while i < m.entries.len()
        invariant
            0 <= i <= m.entries@.len(),
            entries@.len() == i,
            forall|j: int|
                0 <= j < i ==> (#[trigger] entries@[j]).0@ == m.entries@[j].0@ && entries@[j].1@
                    == m.entries@[j].1@,
        decreases m.entries@.len() - i,
    {
        assert(decreases_to!(*m => m.entries));
        assert(decreases_to!(m.entries => m.entries[i as int]));
        assert(decreases_to!(m.entries[i as int] => m.entries[i as int].1));
        let key = m.entries[i].0.clone();
        let value = m.entries[i].1.clone();
        entries.push((key, value));
        i = i + 1;
    }
    proof {
        assert(ascending(entries@)) by {
            assert forall|a: int, b: int| 0 <= a < b < entries@.len() implies key_lt(
                (#[trigger] entries@[a]).0@,
                (#[trigger] entries@[b]).0@,
            ) by {
                assert(key_lt(m.entries@[a].0@, m.entries@[b].0@));
            }
        }
    }
    let copy = StrMap { entries };
    proof {
        lemma_same_entries(copy, *m);
        lemma_view_object(*m);
        lemma_view_object(copy);
    }
    copy
}

impl DataValue {
    /// A string in a box.
    pub fn boxed_string(s: String) -> (r: Box<DataValue>)
        ensures
            r@ == Value::String(s@),
    {
        Box::new(DataValue::String(s))
    }

    /// An integer in a box.
    pub fn boxed_int(i: i64) -> (r: Box<DataValue>)
        ensures
            r@ == Value::Int(i as int),
    {
        Box::new(DataValue::Int(i))
    }

    /// A float in a box.
    pub fn boxed_float(f: FloatBits) -> (r: Box<DataValue>)
        ensures
            r@ == Value::Float(f.bits as int),
    {
        Box::new(DataValue::Float(f))
    }

    /// A boolean in a box.
    pub fn boxed_bool(b: bool) -> (r: Box<DataValue>)
        ensures
            r@ == Value::Boolean(b),
    {
        Box::new(DataValue::Boolean(b))
    }

    /// Null in a box.
    pub fn boxed_null() -> (r: Box<DataValue>)
        ensures
            r@ == Value::Null,
    {
        Box::new(DataValue::Null)
    }

    /// A date and time in a box.
    pub fn boxed_datetime(dt: Timestamp) -> (r: Box<DataValue>)
        ensures
            r@ == Value::DateTime(dt.seconds as int, dt.nanoseconds as int),
    {
        Box::new(DataValue::DateTime(dt))
    }

    /// A list in a box.
    pub fn boxed_list(list: Vec<DataValue>) -> (r: Box<DataValue>)
        ensures
            r@ == Value::List(deep_list(list@)),
    {
        proof {
            lemma_view_list(list);
        }
        Box::new(DataValue::List(list))
    }

    /// An object in a box.
    pub fn boxed_object(map: StrMap<DataValue>) -> (r: Box<DataValue>)
        ensures
            r@ == Value::Object(deep(map@)),
    {
        proof {
            lemma_view_object(map);
        }
        Box::new(DataValue::Object(map))
    }

    /// The value in a box.
    pub fn to_boxed(self) -> (r: Box<DataValue>)
        ensures
            *r == self,
    {
        Box::new(self)
    }

    /// The name of the kind of the value, for diagnostics.
    pub fn get_type_name(&self) -> (name: String)
        ensures
            name@ == kind_name(self@),
        decreases self,
    {
        match self {
            DataValue::String(_) => String::from_str("String"),
            DataValue::Int(_) => String::from_str("Int"),
            DataValue::Float(_) => String::from_str("Float"),
            DataValue::Boolean(_) => String::from_str("Boolean"),
            DataValue::DateTime(_) => String::from_str("DateTime"),
            DataValue::Null => String::from_str("Null"),
            DataValue::List(item) => {
                if item.len() > 0 {
                    let head = item[0].get_type_name();
                    String::from_str("List(").concat(head.as_str()).concat(")")
                } else {
                    String::from_str("List(...)")
                }
            },
            DataValue::Object(_) => String::from_str("Object(...)"),
        }
    }
}

/// What can be turned into a value: the native types of a resolver's data.
pub trait ToDataValue {
    /// Whether `v` is what the conversion may give. An implementation that
    /// states nothing of itself allows every value.
    open spec fn converts_to(&self, v: Value) -> bool {
        true
    }

    /// The value that stands for `self`. The conversion never fails.
    fn to_data_value(&self) -> (r: DataValue)
        ensures
            self.converts_to(r@),
    ;
}

/// The number that a `u64` stands for as a 64-bit signed integer: itself
/// where it fits, else what its bits say as two's complement.
pub open spec fn wrapped(x: u64) -> int {
    if x <= 0x7fff_ffff_ffff_ffff {
        x as int
    } else {
        x as int - 0x1_0000_0000_0000_0000
    }
}

impl ToDataValue for DataValue {
    open spec fn converts_to(&self, v: Value) -> bool {
        v == self@
    }

    fn to_data_value(&self) -> (r: DataValue)
        ensures
            r@ == self@,
    {
        self.clone()
    }
}

impl ToDataValue for String {
    open spec fn converts_to(&self, v: Value) -> bool {
        v == Value::String(self@)
    }

    fn to_data_value(&self) -> (r: DataValue)
        ensures
            r@ == Value::String(self@),
    {
        DataValue::String(self.clone())
    }
}

impl ToDataValue for i64 {
    open spec fn converts_to(&self, v: Value) -> bool {
        v == Value::Int(*self as int)
    }

    fn to_data_value(&self) -> (r: DataValue)
        ensures
            r@ == Value::Int(*self as int),
    {
        DataValue::Int(*self)
    }
}

impl ToDataValue for i32 {
    open spec fn converts_to(&self, v: Value) -> bool {
        v == Value::Int(*self as int)
    }

    fn to_data_value(&self) -> (r: DataValue)
        ensures
            r@ == Value::Int(*self as int),
    {
        DataValue::Int(*self as i64)
    }
}

impl ToDataValue for i16 {
    open spec fn converts_to(&self, v: Value) -> bool {
        v == Value::Int(*self as int)
    }

    fn to_data_value(&self) -> (r: DataValue)
        ensures
            r@ == Value::Int(*self as int),
    {
        DataValue::Int(*self as i64)
    }
}

impl ToDataValue for i8 {
    open spec fn converts_to(&self, v: Value) -> bool {
        v == Value::Int(*self as int)
    }

    fn to_data_value(&self) -> (r: DataValue)
        ensures
            r@ == Value::Int(*self as int),
    {
        DataValue::Int(*self as i64)
    }
}

impl ToDataValue for u64 {
    open spec fn converts_to(&self, v: Value) -> bool {
        v == Value::Int(wrapped(*self))
    }

    fn to_data_value(&self) -> (r: DataValue)
        ensures
            r@ == Value::Int(wrapped(*self)),
    {
        let x = *self;
        let i = #[verifier::truncate]
        (x as i64);
        assert(i as int == wrapped(x)) by (bit_vector)
            requires
                i == #[verifier::truncate]
                (x as i64),
        ;
        DataValue::Int(i)
    }
}

impl ToDataValue for u32 {
    open spec fn converts_to(&self, v: Value) -> bool {
        v == Value::Int(*self as int)
    }

    fn to_data_value(&self) -> (r: DataValue)
        ensures
            r@ == Value::Int(*self as int),
    {
        DataValue::Int(*self as i64)
    }
}

impl ToDataValue for u16 {
    open spec fn converts_to(&self, v: Value) -> bool {
        v == Value::Int(*self as int)
    }

    fn to_data_value(&self) -> (r: DataValue)
        ensures
            r@ == Value::Int(*self as int),
    {
        DataValue::Int(*self as i64)
    }
}

impl ToDataValue for u8 {
    open spec fn converts_to(&self, v: Value) -> bool {
        v == Value::Int(*self as int)
    }

    fn to_data_value(&self) -> (r: DataValue)
        ensures
            r@ == Value::Int(*self as int),
    {
        DataValue::Int(*self as i64)
    }
}

impl ToDataValue for bool {
    open spec fn converts_to(&self, v: Value) -> bool {
        v == Value::Boolean(*self)
    }

    fn to_data_value(&self) -> (r: DataValue)
        ensures
            r@ == Value::Boolean(*self),
    {
        DataValue::Boolean(*self)
    }
}

impl ToDataValue for FloatBits {
    open spec fn converts_to(&self, v: Value) -> bool {
        v == Value::Float(self.bits as int)
    }

    fn to_data_value(&self) -> (r: DataValue)
        ensures
            r@ == Value::Float(self.bits as int),
    {
        DataValue::Float(*self)
    }
}

impl ToDataValue for Timestamp {
    open spec fn converts_to(&self, v: Value) -> bool {
        v == Value::DateTime(self.seconds as int, self.nanoseconds as int)
    }

    fn to_data_value(&self) -> (r: DataValue)
        ensures
            r@ == Value::DateTime(self.seconds as int, self.nanoseconds as int),
    {
        DataValue::DateTime(*self)
    }
}

impl<T: ToDataValue> ToDataValue for Vec<T> {
    /// A list of the same length, each item converted in its place.
    open spec fn converts_to(&self, v: Value) -> bool {
        &&& v is List
        &&& v->List_0.len() == self@.len()
        &&& forall|i: int| 0 <= i < self@.len() ==> (#[trigger] self@[i]).converts_to(v->List_0[i])
    }

    fn to_data_value(&self) -> (r: DataValue)
        ensures
            self.converts_to(r@),
    {
        let mut list: Vec<DataValue> = Vec::new();
        let mut i: usize = 0;
        while i < self.len()
            invariant
                0 <= i <= self@.len(),
                list@.len() == i,
                forall|j: int| 0 <= j < i ==> (#[trigger] self@[j]).converts_to(list@[j]@),
            decreases self@.len() - i,
        {
            let item = self[i].to_data_value();
            list.push(item);
            i = i + 1;
        }
        proof {
            lemma_view_list(list);
        }
        DataValue::List(list)
    }
}

impl<T: ToDataValue> ToDataValue for Option<T> {
    /// What is there is converted, and what is missing is null.
    open spec fn converts_to(&self, v: Value) -> bool {
        match self {
            Some(x) => x.converts_to(v),
            None => v == Value::Null,
        }
    }

    fn to_data_value(&self) -> (r: DataValue)
        ensures
            self.converts_to(r@),
    {
        match self {
            Some(v) => v.to_data_value(),
            None => DataValue::Null,
        }
    }
}

impl<V: ToDataValue> ToDataValue for StrMap<V> {
    /// An object with the same keys, each value converted under its key.
    open spec fn converts_to(&self, v: Value) -> bool {
        &&& v is Object
        &&& v->Object_0.dom() == self@.dom()
        &&& forall|k: Seq<char>| #[trigger]
            self@.contains_key(k) ==> self@[k].converts_to(v->Object_0[k])
    }

    fn to_data_value(&self) -> (r: DataValue)
        ensures
            self.converts_to(r@),
    {
        let mut fields: StrMap<DataValue> = StrMap::new();
        let n = self.len();
        let mut i: usize = 0;
        proof {
            use_type_invariant(self);
            self.lemma_keys();
        }
        while i < n
            invariant
                n == self.keys().len(),
                self.wf(),
                0 <= i <= n,
                forall|k: Seq<char>| #[trigger]
                    fields@.contains_key(k) <==> exists|j: int|
                        0 <= j < i && #[trigger] self.keys()[j] == k,
                forall|k: Seq<char>| #[trigger]
                    fields@.contains_key(k) ==> self@.contains_key(k) && self@[k].converts_to(
                        fields@[k]@,
                    ),
            decreases n - i,
        {
            let key = self.key_at(i).clone();
            let value = self.value_at(i).to_data_value();
            let ghost before = fields@;
            fields.insert(key, value);
            proof {
                assert forall|k: Seq<char>| #[trigger]
                    fields@.contains_key(k) <==> exists|j: int|
                        0 <= j < i + 1 && #[trigger] self.keys()[j] == k by {
                    if fields@.contains_key(k) {
                        if k == key@ {
                            assert(self.keys()[i as int] == k);
                        } else {
                            assert(before.contains_key(k));
                            let j = choose|j: int| 0 <= j < i && #[trigger] self.keys()[j] == k;
                            assert(self.keys()[j] == k);
                        }
                    }
                    if exists|j: int| 0 <= j < i + 1 && #[trigger] self.keys()[j] == k {
                        let j = choose|j: int| 0 <= j < i + 1 && #[trigger] self.keys()[j] == k;
                        if j < i {
                            assert(before.contains_key(k));
                        }
                    }
                }
            }
            i = i + 1;
        }
        proof {
            self.lemma_keys();
            lemma_view_object(fields);
            assert(deep(fields@).dom() =~= self@.dom()) by {
                assert forall|k: Seq<char>| self@.contains_key(k) implies fields@.contains_key(
                    k,
                ) by {
                    assert(self.keys().contains(k));
                    let j = choose|j: int| 0 <= j < self.keys().len() && self.keys()[j] == k;
                    assert(self.keys()[j] == k);
                }
            }
        }
        DataValue::Object(fields)
    }
}

} // verus!
