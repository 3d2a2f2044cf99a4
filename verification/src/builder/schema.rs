//! A builder of schemas.
use crate::error::{BuildError, BuildFailure};
use crate::keyed::StrMap;
use crate::schema::root::{Mutation, MutationMap, Query, RootField};
use crate::schema::storage::TypeStorage;
use crate::schema::types::{
    CustomType, DirectEnum, DirectInputObject, DirectObject, EnumType, FieldType, InputFieldType,
    InputObjectType, InputType, ObjectType, QLEnum, QLInput,
};
use crate::schema::Schema;
use vstd::prelude::*;

verus! {

/// Builds a schema: registers the types that fields name, and adds queries
/// and mutations, which may name the types registered before them.
pub struct SchemaBuilder {
    pub(crate) status: Schema,
}

/// The mutations of a schema, none where it has no mutations.
pub open spec fn mutations_of(schema: Schema) -> Map<Seq<char>, RootField> {
    match schema.mutations {
        Some(m) => m@,
        None => Map::empty(),
    }
}

impl SchemaBuilder {
    /// The schema as it is built so far.
    pub open(crate) spec fn built(self) -> Schema {
        self.status
    }

    /// Whether two builders differ at most in their queries and mutations.
    pub open spec fn same_types(self, other: SchemaBuilder) -> bool {
        &&& self.built().id == other.built().id
        &&& self.built().description == other.built().description
        &&& self.built().subscritions == other.built().subscritions
        &&& self.built().type_storage == other.built().type_storage
    }

    /// Whether two builders differ at most in the types they have registered.
    pub open spec fn same_roots(self, other: SchemaBuilder) -> bool {
        &&& self.built().id == other.built().id
        &&& self.built().description == other.built().description
        &&& self.built().subscritions == other.built().subscritions
        &&& self.built().queries == other.built().queries
        &&& self.built().mutations == other.built().mutations
    }

    /// A builder of a schema with the identifier `name`: without queries,
    /// without mutations, and with nothing in its registry.
    pub fn new(name: &str) -> (b: Self)
        ensures
            b.built().id@ == name@,
            b.built().description is None,
            b.built().queries@ == Map::<Seq<char>, RootField>::empty(),
            b.built().mutations is None,
            b.built().subscritions is None,
            b.built().type_storage.enums@ == Map::<Seq<char>, DirectEnum>::empty(),
            b.built().type_storage.objects@ == Map::<Seq<char>, DirectObject>::empty(),
            b.built().type_storage.inputs@ == Map::<Seq<char>, DirectInputObject>::empty(),
    {
        SchemaBuilder {
            status: Schema {
                id: String::from_str(name),
                description: None,
                queries: StrMap::new(),
                mutations: None,
                subscritions: None,
                type_storage: TypeStorage {
                    enums: StrMap::new(),
                    objects: StrMap::new(),
                    inputs: StrMap::new(),
                },
            },
        }
    }

    /// The schema. It never fails.
    pub fn build(self) -> (s: Result<Schema, BuildError>)
        ensures
            s == Ok::<Schema, BuildError>(self.built()),
    {
        Ok(self.status)
    }

    /// Adds the query that `query_func` makes, under `name`. The function
    /// sees the builder, to name the types registered in it; where it fails,
    /// its failure is the result.
    pub fn add_query<F>(self, name: &str, query_func: F) -> (out: Result<Self, BuildError>) where
        F: Fn(&Self) -> Result<Query, BuildError>,

        requires
            query_func.requires((&self,)),
        ensures
            match out {
                Ok(b) => exists|q: Query| #[trigger]
                    query_func.ensures((&self,), Ok(q)) && b.built().queries@
                        == self.built().queries@.insert(name@, q) && b.built().mutations
                        == self.built().mutations && b.same_types(self),
                Err(e) => query_func.ensures((&self,), Err(e)),
            },
    {
        match query_func(&self) {
            Ok(query) => {
                let mut status = self.status;
                status.queries.insert(String::from_str(name), query);
                Ok(SchemaBuilder { status })
            },
            Err(e) => Err(e),
        }
    }

    /// Adds the mutation that `mutation_func` makes, under `name`. The
    /// function sees the builder, to name the types registered in it; where
    /// it fails, its failure is the result.
    pub fn add_mutation<F>(self, name: &str, mutation_func: F) -> (out: Result<
        Self,
        BuildError,
    >) where F: Fn(&Self) -> Result<Mutation, BuildError>
        requires
            mutation_func.requires((&self,)),
        ensures
            match out {
                Ok(b) => exists|m: Mutation| #[trigger]
                    mutation_func.ensures((&self,), Ok(m)) && b.built().mutations is Some
                        && mutations_of(b.built()) == mutations_of(self.built()).insert(name@, m)
                        && b.built().queries == self.built().queries && b.same_types(self),
                Err(e) => mutation_func.ensures((&self,), Err(e)),
            },
    {
        match mutation_func(&self) {
            Ok(mutation) => {
                let Schema { id, description, queries, mutations, subscritions, type_storage } =
                    self.status;
                let mut map: MutationMap = match mutations {
                    Some(m) => m,
                    None => StrMap::new(),
                };
                map.insert(String::from_str(name), mutation);
                Ok(
                    SchemaBuilder {
                        status: Schema {
                            id,
                            description,
                            queries,
                            mutations: Some(map),
                            subscritions,
                            type_storage,
                        },
                    },
                )
            },
            Err(e) => Err(e),
        }
    }

    /// Registers an object type under its name, for fields to name it.
    pub fn add_object(self, custom_type: CustomType) -> (b: Self)
        ensures
            b.same_roots(self),
            b.built().type_storage.objects@ == self.built().type_storage.objects@.insert(
                custom_type.name@,
                custom_type,
            ),
            b.built().type_storage.enums == self.built().type_storage.enums,
            b.built().type_storage.inputs == self.built().type_storage.inputs,
    {
        let mut status = self.status;
        let name = custom_type.name.clone();
        status.type_storage.objects.insert(name, custom_type);
        SchemaBuilder { status }
    }

    /// Registers the object type that `custom_type_func` makes, under its
    /// name. The function sees the builder, to name the types registered in
    /// it; where it fails, its failure is the result.
    pub fn add_object_with_status<F>(self, custom_type_func: F) -> (out: Result<
        Self,
        BuildError,
    >) where F: Fn(&Self) -> Result<CustomType, BuildError>
        requires
            custom_type_func.requires((&self,)),
        ensures
            match out {
                Ok(b) => exists|t: CustomType| #[trigger]
                    custom_type_func.ensures((&self,), Ok(t)) && b.same_roots(self)
                        && b.built().type_storage.objects@
                        == self.built().type_storage.objects@.insert(t.name@, t)
                        && b.built().type_storage.enums == self.built().type_storage.enums
                        && b.built().type_storage.inputs == self.built().type_storage.inputs,
                Err(e) => custom_type_func.ensures((&self,), Err(e)),
            },
    {
        match custom_type_func(&self) {
            Ok(custom_type) => Ok(self.add_object(custom_type)),
            Err(e) => Err(e),
        }
    }

    /// Registers an enum under its name, for fields and arguments to name it.
    pub fn add_enum(self, enum_type: QLEnum) -> (b: Self)
        ensures
            b.same_roots(self),
            b.built().type_storage.enums@ == self.built().type_storage.enums@.insert(
                enum_type.name@,
                enum_type,
            ),
            b.built().type_storage.objects == self.built().type_storage.objects,
            b.built().type_storage.inputs == self.built().type_storage.inputs,
    {
        let mut status = self.status;
        let name = enum_type.name.clone();
        status.type_storage.enums.insert(name, enum_type);
        SchemaBuilder { status }
    }

    /// Registers an input object type under its name, for arguments to name
    /// it.
    pub fn add_input_object(self, input_object: QLInput) -> (b: Self)
        ensures
            b.same_roots(self),
            b.built().type_storage.inputs@ == self.built().type_storage.inputs@.insert(
                input_object.name@,
                input_object,
            ),
            b.built().type_storage.objects == self.built().type_storage.objects,
            b.built().type_storage.enums == self.built().type_storage.enums,
    {
        let mut status = self.status;
        let name = input_object.name.clone();
        status.type_storage.inputs.insert(name, input_object);
        SchemaBuilder { status }
    }

    /// Registers the input object type that `input_object_func` makes, under
    /// its name. The function sees the builder, to name the types registered
    /// in it; where it fails, its failure is the result.
    pub fn add_input_object_with_status<F>(self, input_object_func: F) -> (out: Result<
        Self,
        BuildError,
    >) where F: Fn(&Self) -> Result<QLInput, BuildError>
        requires
            input_object_func.requires((&self,)),
        ensures
            match out {
                Ok(b) => exists|t: QLInput| #[trigger]
                    input_object_func.ensures((&self,), Ok(t)) && b.same_roots(self)
                        && b.built().type_storage.inputs@
                        == self.built().type_storage.inputs@.insert(t.name@, t)
                        && b.built().type_storage.objects == self.built().type_storage.objects
                        && b.built().type_storage.enums == self.built().type_storage.enums,
                Err(e) => input_object_func.ensures((&self,), Err(e)),
            },
    {
        match input_object_func(&self) {
            Ok(input_type) => Ok(self.add_input_object(input_type)),
            Err(e) => Err(e),
        }
    }

    /// The type of a field that names the object type `name`. The name has
    /// to be registered.
    pub fn get_object_type(&self, name: &str) -> (out: Result<FieldType, BuildError>)
        ensures
            match out {
                Ok(t) => {
                    &&& self.built().type_storage.objects@.contains_key(name@)
                    &&& t matches FieldType::ObjectType(ObjectType::LinkObject(key))
                    &&& key@ == name@
                },
                Err(e) => {
                    &&& !self.built().type_storage.objects@.contains_key(name@)
                    &&& e@ == BuildFailure::NoSuchObjectType(name@)
                },
            },
    {
        if self.status.type_storage.objects.contains_key(name) {
            Ok(FieldType::ObjectType(ObjectType::LinkObject(String::from_str(name))))
        } else {
            Err(BuildError::NoSuchObjectType(String::from_str(name)))
        }
    }

    /// The type of a field that names the enum `name`. The name has to be
    /// registered.
    pub fn get_enum_type(&self, name: &str) -> (out: Result<FieldType, BuildError>)
        ensures
            match out {
                Ok(t) => {
                    &&& self.built().type_storage.enums@.contains_key(name@)
                    &&& t matches FieldType::EnumType(EnumType::LinkEnum(key))
                    &&& key@ == name@
                },
                Err(e) => {
                    &&& !self.built().type_storage.enums@.contains_key(name@)
                    &&& e@ == BuildFailure::NoSuchEnumType(name@)
                },
            },
    {
        if self.status.type_storage.enums.contains_key(name) {
            Ok(FieldType::EnumType(EnumType::LinkEnum(String::from_str(name))))
        } else {
            Err(BuildError::NoSuchEnumType(String::from_str(name)))
        }
    }

    /// The type of an argument that names the enum `name`. The name has to
    /// be registered.
    pub fn get_enum_input_type(&self, name: &str) -> (out: Result<InputFieldType, BuildError>)
        ensures
            match out {
                Ok(t) => {
                    &&& self.built().type_storage.enums@.contains_key(name@)
                    &&& t matches InputType::EnumType(EnumType::LinkEnum(key))
                    &&& key@ == name@
                },
                Err(e) => {
                    &&& !self.built().type_storage.enums@.contains_key(name@)
                    &&& e@ == BuildFailure::NoSuchEnumType(name@)
                },
            },
    {
        if self.status.type_storage.enums.contains_key(name) {
            Ok(InputType::EnumType(EnumType::LinkEnum(String::from_str(name))))
        } else {
            Err(BuildError::NoSuchEnumType(String::from_str(name)))
        }
    }

    /// The type of an argument that names the input object type `name`. The
    /// name has to be registered.
    pub fn get_input_type(&self, name: &str) -> (out: Result<InputFieldType, BuildError>)
        ensures
            match out {
                Ok(t) => {
                    &&& self.built().type_storage.inputs@.contains_key(name@)
                    &&& t matches InputType::ObjectType(InputObjectType::LinkInputObject(key))
                    &&& key@ == name@
                },
                Err(e) => {
                    &&& !self.built().type_storage.inputs@.contains_key(name@)
                    &&& e@ == BuildFailure::NoSuchObjectType(name@)
                },
            },
    {
        if self.status.type_storage.inputs.contains_key(name) {
            Ok(InputType::ObjectType(InputObjectType::LinkInputObject(String::from_str(name))))
        } else {
            Err(BuildError::NoSuchObjectType(String::from_str(name)))
        }
    }
}

} // verus!
