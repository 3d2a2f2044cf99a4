//! A builder of object values.
use crate::keyed::StrMap;
use crate::schema::resolve::Store;
use crate::value::{deep, deep_list, lemma_view_list, lemma_view_object, DataValue, FloatBits, Timestamp, Value};
use vstd::prelude::*;

verus! {

/// Builds an object value field by field. A field that is added again takes
/// the place of the earlier one.
pub struct DataValueObjectBuilder {
    pub(crate) status: StrMap<DataValue>,
}

impl DataValueObjectBuilder {
    /// The fields added so far.
    pub open(crate) spec fn fields(self) -> Store {
        deep(self.status@)
    }

    /// A builder without fields.
    pub fn new() -> (b: Self)
        ensures
            b.fields() == Map::<Seq<char>, Value>::empty(),
    {
        let b = DataValueObjectBuilder { status: StrMap::new() };
        assert(b.fields() =~= Map::<Seq<char>, Value>::empty());
        b
    }

    /// The object of the fields added so far.
    pub fn build(self) -> (v: DataValue)
        ensures
            v@ == Value::Object(self.fields()),
    {
        proof {
            lemma_view_object(self.status);
        }
        DataValue::Object(self.status)
    }

    /// Adds a field with any value.
    pub fn add_any_field(self, name: &str, value: DataValue) -> (b: Self)
        ensures
            b.fields() == self.fields().insert(name@, value@),
    {
        let mut status = self.status;
        status.insert(String::from_str(name), value);
        let b = DataValueObjectBuilder { status };
        assert(b.fields() =~= self.fields().insert(name@, value@));
        b
    }

    /// Adds a field with a string.
    pub fn add_str_field(self, name: &str, value: String) -> (b: Self)
        ensures
            b.fields() == self.fields().insert(name@, Value::String(value@)),
    {
        self.add_any_field(name, DataValue::String(value))
    }

    /// Adds a field with an identifier, which is a string.
    pub fn add_id_field(self, name: &str, value: String) -> (b: Self)
        ensures
            b.fields() == self.fields().insert(name@, Value::String(value@)),
    {
        self.add_any_field(name, DataValue::String(value))
    }

    /// Adds a field with an integer.
    pub fn add_int_field(self, name: &str, value: i64) -> (b: Self)
        ensures
            b.fields() == self.fields().insert(name@, Value::Int(value as int)),
    {
        self.add_any_field(name, DataValue::Int(value))
    }

    /// Adds a field with a float.
    pub fn add_float_field(self, name: &str, value: FloatBits) -> (b: Self)
        ensures
            b.fields() == self.fields().insert(name@, Value::Float(value.bits as int)),
    {
        self.add_any_field(name, DataValue::Float(value))
    }

    /// Adds a field with a boolean.
    pub fn add_bool_field(self, name: &str, value: bool) -> (b: Self)
        ensures
            b.fields() == self.fields().insert(name@, Value::Boolean(value)),
    {
        self.add_any_field(name, DataValue::Boolean(value))
    }

    /// Adds a field that is null.
    pub fn add_null_field(self, name: &str) -> (b: Self)
        ensures
            b.fields() == self.fields().insert(name@, Value::Null),
    {
        self.add_any_field(name, DataValue::Null)
    }

    /// Adds a field with a date and time.
    pub fn add_datetime_field(self, name: &str, value: Timestamp) -> (b: Self)
        ensures
            b.fields() == self.fields().insert(
                name@,
                Value::DateTime(value.seconds as int, value.nanoseconds as int),
            ),
    {
        self.add_any_field(name, DataValue::DateTime(value))
    }

    /// Adds a field with a list.
    pub fn add_list_field(self, name: &str, value: Vec<DataValue>) -> (b: Self)
        ensures
            b.fields() == self.fields().insert(name@, Value::List(deep_list(value@))),
    {
        proof {
            lemma_view_list(value);
        }
        self.add_any_field(name, DataValue::List(value))
    }

    /// Adds a field with an object. The value has to be an object.
    pub fn add_object_field(self, name: &str, value: DataValue) -> (b: Self)
        requires
            value@ is Object,
        ensures
            b.fields() == self.fields().insert(name@, value@),
    {
        self.add_any_field(name, value)
    }
}

} // verus!
