//! The fields of object types and of input object types.
use crate::ast::Selection;
use crate::error::Failure;
use crate::schema::resolve::{DefaultFieldResolveFunc, FieldResolveFunc, Outcome, Store};
use crate::value::Value;
use crate::schema::types::{FieldType, InputType, ScalarType};
use vstd::prelude::*;

verus! {

/// A field of an object type: its declared type and the resolver that gives
/// its value where the parent's data does not hold one.
pub struct Field {
    pub name: String,
    pub field_type: FieldType,
    pub description: String,
    pub resolve: Box<dyn FieldResolveFunc>,
}

/// A field of an input object type.
pub struct InputField {
    pub name: String,
    pub field_type: InputType,
    pub description: String,
}

/// Whether the resolver of a field is the one that always fails: every call
/// of it gives the failure of a resolver that was not set, and leaves the
/// context as it was.
pub open spec fn unresolved(f: Field) -> bool {
    forall|before: Store, source: Value, arguments: Store, selections: Seq<Selection>, after: Store, out: Outcome| #[trigger]
        f.resolve.resolves(before, source, arguments, selections, after, out) <==> (after == before
            && out == Err::<Value, Failure>(Failure::DefaultResolveError))
}

impl Field {
    /// A field of type identifier, without name or description, whose resolver is
    /// the one that always fails: its value has to come with the parent's data.
    pub fn basic_id() -> (f: Self)
        ensures
            f.name@ == Seq::<char>::empty(),
            f.description@ == Seq::<char>::empty(),
            f.field_type is ScalarType,
            f.field_type->ScalarType_0 is ID,
            unresolved(f),
    {
        Field {
            name: String::new(),
            field_type: FieldType::ScalarType(ScalarType::ID),
            description: String::new(),
            resolve: Box::new(DefaultFieldResolveFunc),
        }
    }

    /// A field of type integer, without name or description, whose resolver is
    /// the one that always fails: its value has to come with the parent's data.
    pub fn basic_int() -> (f: Self)
        ensures
            f.name@ == Seq::<char>::empty(),
            f.description@ == Seq::<char>::empty(),
            f.field_type is ScalarType,
            f.field_type->ScalarType_0 is Int,
            unresolved(f),
    {
        Field {
            name: String::new(),
            field_type: FieldType::ScalarType(ScalarType::Int),
            description: String::new(),
            resolve: Box::new(DefaultFieldResolveFunc),
        }
    }

    /// A field of type float, without name or description, whose resolver is
    /// the one that always fails: its value has to come with the parent's data.
    pub fn basic_float() -> (f: Self)
        ensures
            f.name@ == Seq::<char>::empty(),
            f.description@ == Seq::<char>::empty(),
            f.field_type is ScalarType,
            f.field_type->ScalarType_0 is Float,
            unresolved(f),
    {
        Field {
            name: String::new(),
            field_type: FieldType::ScalarType(ScalarType::Float),
            description: String::new(),
            resolve: Box::new(DefaultFieldResolveFunc),
        }
    }

    /// A field of type string, without name or description, whose resolver is
    /// the one that always fails: its value has to come with the parent's data.
    pub fn basic_str() -> (f: Self)
        ensures
            f.name@ == Seq::<char>::empty(),
            f.description@ == Seq::<char>::empty(),
            f.field_type is ScalarType,
            f.field_type->ScalarType_0 is String,
            unresolved(f),
    {
        Field {
            name: String::new(),
            field_type: FieldType::ScalarType(ScalarType::String),
            description: String::new(),
            resolve: Box::new(DefaultFieldResolveFunc),
        }
    }

    /// A field of type boolean, without name or description, whose resolver is
    /// the one that always fails: its value has to come with the parent's data.
    pub fn basic_bool() -> (f: Self)
        ensures
            f.name@ == Seq::<char>::empty(),
            f.description@ == Seq::<char>::empty(),
            f.field_type is ScalarType,
            f.field_type->ScalarType_0 is Boolean,
            unresolved(f),
    {
        Field {
            name: String::new(),
            field_type: FieldType::ScalarType(ScalarType::Boolean),
            description: String::new(),
            resolve: Box::new(DefaultFieldResolveFunc),
        }
    }

    /// A field of type date and time, without name or description, whose resolver is
    /// the one that always fails: its value has to come with the parent's data.
    pub fn basic_datetime() -> (f: Self)
        ensures
            f.name@ == Seq::<char>::empty(),
            f.description@ == Seq::<char>::empty(),
            f.field_type is ScalarType,
            f.field_type->ScalarType_0 is DateTime,
            unresolved(f),
    {
        Field {
            name: String::new(),
            field_type: FieldType::ScalarType(ScalarType::DateTime),
            description: String::new(),
            resolve: Box::new(DefaultFieldResolveFunc),
        }
    }
}

impl InputField {
    /// A field of type identifier for an input object, without name or description.
    pub fn basic_id() -> (f: Self)
        ensures
            f.name@ == Seq::<char>::empty(),
            f.description@ == Seq::<char>::empty(),
            f.field_type is ScalarType,
            f.field_type->ScalarType_0 is ID,
    {
        InputField {
            name: String::new(),
            field_type: InputType::ScalarType(ScalarType::ID),
            description: String::new(),
        }
    }

    /// A field of type integer for an input object, without name or description.
    pub fn basic_int() -> (f: Self)
        ensures
            f.name@ == Seq::<char>::empty(),
            f.description@ == Seq::<char>::empty(),
            f.field_type is ScalarType,
            f.field_type->ScalarType_0 is Int,
    {
        InputField {
            name: String::new(),
            field_type: InputType::ScalarType(ScalarType::Int),
            description: String::new(),
        }
    }

    /// A field of type float for an input object, without name or description.
    pub fn basic_float() -> (f: Self)
        ensures
            f.name@ == Seq::<char>::empty(),
            f.description@ == Seq::<char>::empty(),
            f.field_type is ScalarType,
            f.field_type->ScalarType_0 is Float,
    {
        InputField {
            name: String::new(),
            field_type: InputType::ScalarType(ScalarType::Float),
            description: String::new(),
        }
    }

    /// A field of type string for an input object, without name or description.
    pub fn basic_str() -> (f: Self)
        ensures
            f.name@ == Seq::<char>::empty(),
            f.description@ == Seq::<char>::empty(),
            f.field_type is ScalarType,
            f.field_type->ScalarType_0 is String,
    {
        InputField {
            name: String::new(),
            field_type: InputType::ScalarType(ScalarType::String),
            description: String::new(),
        }
    }

    /// A field of type boolean for an input object, without name or description.
    pub fn basic_bool() -> (f: Self)
        ensures
            f.name@ == Seq::<char>::empty(),
            f.description@ == Seq::<char>::empty(),
            f.field_type is ScalarType,
            f.field_type->ScalarType_0 is Boolean,
    {
        InputField {
            name: String::new(),
            field_type: InputType::ScalarType(ScalarType::Boolean),
            description: String::new(),
        }
    }

    /// A field of type date and time for an input object, without name or description.
    pub fn basic_datetime() -> (f: Self)
        ensures
            f.name@ == Seq::<char>::empty(),
            f.description@ == Seq::<char>::empty(),
            f.field_type is ScalarType,
            f.field_type->ScalarType_0 is DateTime,
    {
        InputField {
            name: String::new(),
            field_type: InputType::ScalarType(ScalarType::DateTime),
            description: String::new(),
        }
    }
}

} // verus!
