//! The types that a schema declares for its fields.
use crate::error::Error;
use crate::keyed::StrMap;
use crate::schema::field::{Field, InputField};
use crate::schema::resolve::{outcome, Outcome};
use crate::value::{DataValue, Value};
use vstd::prelude::*;

verus! {

/// The declared type of a field.
pub enum FieldType {
    ScalarType(ScalarType),
    NonNullType(Box<FieldType>),
    List(Box<FieldType>),
    EnumType(EnumType),
    ObjectType(ObjectType),
}

/// The scalars that the engine knows by itself.
#[derive(Clone, Copy, Debug, PartialEq, Eq, Structural)]
pub enum StaticType {
    ID,
    String,
    Int,
    Float,
    Boolean,
    DateTime,
}

/// A scalar type: one of those that the engine knows, or one of the schema's
/// own.
pub enum ScalarType {
    ID,
    String,
    Int,
    Float,
    Boolean,
    DateTime,
    CustomScalar(Box<dyn CustomScalar>),
}

/// A scalar of the schema's own: it says itself which values it takes and
/// what it makes of them.
pub trait CustomScalar {
    /// What the scalar may make of `data`. An implementation that states
    /// nothing of itself allows every outcome.
    open spec fn accepts(&self, data: Value, out: Outcome) -> bool {
        true
    }

    /// Checks and converts a value.
    fn execute(&self, data: DataValue) -> (out: Result<DataValue, Error>)
        ensures
            self.accepts(data@, outcome(out)),
    ;
}

/// An enum type: declared in place, or named in the schema's registry.
#[derive(Debug, PartialEq)]
pub enum EnumType {
    DirectEnum(DirectEnum),
    LinkEnum(String),
}

/// An enum with its members.
#[derive(Debug, PartialEq)]
pub struct DirectEnum {
    pub name: String,
    pub description: String,
    pub values: Vec<EnumValue>,
}

/// A member of an enum.
#[derive(Debug, PartialEq)]
pub struct EnumValue {
    pub value: String,
    pub description: String,
}

/// An object type: declared in place, or named in the schema's registry. By
/// its name a type can be shared among fields, and can hold a field of itself.
pub enum ObjectType {
    DirectObject(DirectObject),
    LinkObject(String),
}

/// An object type with its fields, by name.
pub struct DirectObject {
    pub name: String,
    pub fields: StrMap<Field>,
    pub description: String,
}

/// The declared type of an argument or of a field of an input object.
pub enum InputType {
    ScalarType(ScalarType),
    NonNullType(Box<FieldType>),
    List(Box<FieldType>),
    EnumType(EnumType),
    ObjectType(InputObjectType),
}

/// An input object type: declared in place, or named in the schema's registry.
pub enum InputObjectType {
    DirectInputObject(DirectInputObject),
    LinkInputObject(String),
}

/// An input object type with its fields, by name.
pub struct DirectInputObject {
    pub name: String,
    pub fields: StrMap<InputField>,
    pub description: String,
}

/// The arguments that a root field accepts, by name.
pub type ArgumentMap = StrMap<InputType>;

/// An enum as the builders name it.
pub type QLEnum = DirectEnum;

/// A member of an enum as the builders name it.
pub type QLEnumValue = EnumValue;

/// An object type as the builders name it.
pub type CustomType = DirectObject;

/// An input object type as the builders name it.
pub type QLInput = DirectInputObject;

/// The type of an argument as the builders name it.
pub type InputFieldType = InputType;

} // verus!
