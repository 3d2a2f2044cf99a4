//! Builders of the types that a schema names: objects, enums and input
//! objects.
use crate::error::BuildError;
use crate::keyed::StrMap;
use crate::schema::field::{Field, InputField};
use crate::schema::types::{
    CustomType, DirectEnum, DirectInputObject, DirectObject, EnumValue, FieldType, InputFieldType,
    InputObjectType, InputType, ObjectType, QLEnum, QLEnumValue, QLInput,
};
use vstd::prelude::*;

verus! {

/// Builds an object type field by field.
pub struct CustomTypeBuilder {
    pub(crate) status: CustomType,
}

impl CustomTypeBuilder {
    /// The object type as it is built so far.
    pub open(crate) spec fn built(self) -> CustomType {
        self.status
    }

    /// A builder of an object type called `name`, without fields or
    /// description.
    pub fn new(name: &str) -> (b: Self)
        ensures
            b.built().name@ == name@,
            b.built().description@ == Seq::<char>::empty(),
            b.built().fields@ == Map::<Seq<char>, Field>::empty(),
    {
        CustomTypeBuilder {
            status: DirectObject {
                name: String::from_str(name),
                fields: StrMap::new(),
                description: String::new(),
            },
        }
    }

    /// The object type.
    pub fn build(self) -> (t: CustomType)
        ensures
            t == self.built(),
    {
        self.status
    }

    /// The object type. It never fails.
    pub fn build_ok(self) -> (t: Result<CustomType, BuildError>)
        ensures
            t == Ok::<CustomType, BuildError>(self.built()),
    {
        Ok(self.status)
    }

    /// The object type as the type of a field, declared in place.
    pub fn build_field(self) -> (t: FieldType)
        ensures
            t == FieldType::ObjectType(ObjectType::DirectObject(self.built())),
    {
        FieldType::ObjectType(ObjectType::DirectObject(self.status))
    }

    /// Adds a field under `name`. A field added under the same name before
    /// gives way to it.
    pub fn add_field(self, name: &str, field: Field) -> (b: Self)
        ensures
            b.built().name == self.built().name,
            b.built().description == self.built().description,
            b.built().fields@ == self.built().fields@.insert(name@, field),
    {
        let mut status = self.status;
        status.fields.insert(String::from_str(name), field);
        CustomTypeBuilder { status }
    }

    /// Sets the description.
    pub fn set_description(self, desc: &str) -> (b: Self)
        ensures
            b.built().name == self.built().name,
            b.built().description@ == desc@,
            b.built().fields == self.built().fields,
    {
        let mut status = self.status;
        status.description = String::from_str(desc);
        CustomTypeBuilder { status }
    }
}

/// Builds an enum member by member.
pub struct QLEnumBuilder {
    pub(crate) status: QLEnum,
}

/// The members of an enum: the value and the description of each, in order.
pub open spec fn members(values: Seq<QLEnumValue>) -> Seq<(Seq<char>, Seq<char>)> {
    values.map_values(|v: QLEnumValue| (v.value@, v.description@))
}

impl QLEnumBuilder {
    /// The enum as it is built so far.
    pub open(crate) spec fn built(self) -> QLEnum {
        self.status
    }

    /// A builder of an enum called `name`, without members or description.
    pub fn new(name: &str) -> (b: Self)
        ensures
            b.built().name@ == name@,
            b.built().description@ == Seq::<char>::empty(),
            members(b.built().values@) == Seq::<(Seq<char>, Seq<char>)>::empty(),
    {
        let b = QLEnumBuilder {
            status: DirectEnum {
                name: String::from_str(name),
                description: String::new(),
                values: Vec::new(),
            },
        };
        assert(members(b.built().values@) =~= Seq::<(Seq<char>, Seq<char>)>::empty());
        b
    }

    /// The enum.
    pub fn build(self) -> (e: QLEnum)
        ensures
            e == self.built(),
    {
        self.status
    }

    /// The enum. It never fails.
    pub fn build_ok(self) -> (e: Result<QLEnum, BuildError>)
        ensures
            e == Ok::<QLEnum, BuildError>(self.built()),
    {
        Ok(self.status)
    }

    /// Adds the member `value`, without description, after the members
    /// added before.
    pub fn add_value(self, value: &str) -> (b: Self)
        ensures
            b.built().name == self.built().name,
            b.built().description == self.built().description,
            members(b.built().values@) == members(self.built().values@).push(
                (value@, Seq::<char>::empty()),
            ),
    {
        let mut status = self.status;
        status.values.push(
            EnumValue { value: String::from_str(value), description: String::new() },
        );
        let b = QLEnumBuilder { status };
        assert(members(b.built().values@) =~= members(self.built().values@).push(
            (value@, Seq::<char>::empty()),
        ));
        b
    }

    /// Adds the member `value` with the description `desc`, after the members
    /// added before.
    pub fn add_value_with_desc(self, value: &str, desc: &str) -> (b: Self)
        ensures
            b.built().name == self.built().name,
            b.built().description == self.built().description,
            members(b.built().values@) == members(self.built().values@).push((value@, desc@)),
    {
        let mut status = self.status;
        status.values.push(
            EnumValue { value: String::from_str(value), description: String::from_str(desc) },
        );
        let b = QLEnumBuilder { status };
        assert(members(b.built().values@) =~= members(self.built().values@).push(
            (value@, desc@),
        ));
        b
    }

    /// Sets the description.
    pub fn set_description(self, desc: &str) -> (b: Self)
        ensures
            b.built().name == self.built().name,
            b.built().description@ == desc@,
            b.built().values == self.built().values,
    {
        let mut status = self.status;
        status.description = String::from_str(desc);
        QLEnumBuilder { status }
    }
}

/// Builds an input object type field by field.
pub struct QLInputBuilder {
    pub(crate) status: QLInput,
}

impl QLInputBuilder {
    /// The input object type as it is built so far.
    pub open(crate) spec fn built(self) -> QLInput {
        self.status
    }

    /// A builder of an input object type called `name`, without fields or
    /// description.
    pub fn new(name: &str) -> (b: Self)
        ensures
            b.built().name@ == name@,
            b.built().description@ == Seq::<char>::empty(),
            b.built().fields@ == Map::<Seq<char>, InputField>::empty(),
    {
        QLInputBuilder {
            status: DirectInputObject {
                name: String::from_str(name),
                fields: StrMap::new(),
                description: String::new(),
            },
        }
    }

    /// The input object type.
    pub fn build(self) -> (t: QLInput)
        ensures
            t == self.built(),
    {
        self.status
    }

    /// The input object type as the type of an argument, declared in place.
    pub fn build_field(self) -> (t: InputFieldType)
        ensures
            t == InputType::ObjectType(InputObjectType::DirectInputObject(self.built())),
    {
        InputType::ObjectType(InputObjectType::DirectInputObject(self.status))
    }

    /// The input object type. It never fails.
    pub fn build_ok(self) -> (t: Result<QLInput, BuildError>)
        ensures
            t == Ok::<QLInput, BuildError>(self.built()),
    {
        Ok(self.build())
    }

    /// Adds a field under `name`. A field added under the same name before
    /// gives way to it.
    pub fn add_field(self, name: &str, field: InputField) -> (b: Self)
        ensures
            b.built().name == self.built().name,
            b.built().description == self.built().description,
            b.built().fields@ == self.built().fields@.insert(name@, field),
    {
        let mut status = self.status;
        status.fields.insert(String::from_str(name), field);
        QLInputBuilder { status }
    }

    /// Sets the description.
    pub fn set_description(self, desc: &str) -> (b: Self)
        ensures
            b.built().name == self.built().name,
            b.built().description@ == desc@,
            b.built().fields == self.built().fields,
    {
        let mut status = self.status;
        status.description = String::from_str(desc);
        QLInputBuilder { status }
    }
}

} // verus!
