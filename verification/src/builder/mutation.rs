//! A builder of mutations.
use crate::error::BuildError;
use crate::keyed::StrMap;
use crate::schema::resolve::{ApiResolveFunc, DefaultApiResolveFunc};
use crate::schema::root::{unresolved, Mutation, RootField};
use crate::schema::types::{FieldType, InputFieldType, InputType, ScalarType};
use vstd::prelude::*;

verus! {

/// Builds a mutation: a field at the root of the mutations of a schema.
pub struct MutationBuilder {
    pub(crate) status: Mutation,
}

impl MutationBuilder {
    /// The mutation as it is built so far.
    pub open(crate) spec fn built(self) -> Mutation {
        self.status
    }

    /// A builder of a mutation of type boolean, without arguments or
    /// description, whose resolver is the one that always fails.
    pub fn new() -> (b: Self)
        ensures
            b.built().field_type is ScalarType,
            b.built().field_type->ScalarType_0 is Boolean,
            b.built().arguments@ == Map::<Seq<char>, InputType>::empty(),
            b.built().description@ == Seq::<char>::empty(),
            unresolved(b.built()),
    {
        MutationBuilder {
            status: RootField {
                field_type: FieldType::ScalarType(ScalarType::Boolean),
                arguments: StrMap::new(),
                description: String::new(),
                resolve: Box::new(DefaultApiResolveFunc),
            },
        }
    }

    /// The mutation. It never fails.
    pub fn build(self) -> (q: Result<Mutation, BuildError>)
        ensures
            q == Ok::<Mutation, BuildError>(self.built()),
    {
        Ok(self.status)
    }

    /// Sets the type of the mutation's result.
    pub fn set_type(self, field_type: FieldType) -> (b: Self)
        ensures
            b.built().field_type == field_type,
            b.built().arguments == self.built().arguments,
            b.built().description == self.built().description,
            b.built().resolve == self.built().resolve,
    {
        let mut status = self.status;
        status.field_type = field_type;
        MutationBuilder { status }
    }

    /// Adds an argument under `name`.
    pub fn add_argument(self, name: &str, argument_type: InputFieldType) -> (b: Self)
        ensures
            b.built().field_type == self.built().field_type,
            b.built().arguments@ == self.built().arguments@.insert(name@, argument_type),
            b.built().description == self.built().description,
            b.built().resolve == self.built().resolve,
    {
        let mut status = self.status;
        status.arguments.insert(String::from_str(name), argument_type);
        MutationBuilder { status }
    }

    /// Sets the description.
    pub fn set_description(self, desc: &str) -> (b: Self)
        ensures
            b.built().field_type == self.built().field_type,
            b.built().arguments == self.built().arguments,
            b.built().description@ == desc@,
            b.built().resolve == self.built().resolve,
    {
        let mut status = self.status;
        status.description = String::from_str(desc);
        MutationBuilder { status }
    }

    /// Sets the resolver, in place of the one set before.
    pub fn set_resolve(self, resolve: Box<dyn ApiResolveFunc>) -> (b: Self)
        ensures
            b.built().field_type == self.built().field_type,
            b.built().arguments == self.built().arguments,
            b.built().description == self.built().description,
            b.built().resolve == resolve,
    {
        let mut status = self.status;
        let mut given = resolve;
        core::mem::swap(&mut status.resolve, &mut given);
        MutationBuilder { status }
    }
}

} // verus!
