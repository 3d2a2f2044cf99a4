use rust_graphql_resolver::ast::{
    Definition, Document, Field as RequestField, OperationDefinition, Selection, SelectionSet,
};
use rust_graphql_resolver::builder::field::{CustomTypeBuilder, QLEnumBuilder, QLInputBuilder};
use rust_graphql_resolver::builder::mutation::MutationBuilder;
use rust_graphql_resolver::builder::query::QueryBuilder;
use rust_graphql_resolver::builder::schema::SchemaBuilder;
use rust_graphql_resolver::error::{BuildError, Error};
use rust_graphql_resolver::keyed::StrMap;
use rust_graphql_resolver::schema::field::{Field, InputField};
use rust_graphql_resolver::schema::resolve::{
    ApiResolveFunc, DefaultFieldResolveFunc, FieldResolveFunc, QLApiParam, QLContext,
};
use rust_graphql_resolver::schema::root::{Mutation, Query};
use rust_graphql_resolver::schema::types::{
    CustomType, EnumType, FieldType, InputFieldType, InputObjectType, InputType, ObjectType,
    QLInput, ScalarType,
};
use rust_graphql_resolver::schema::NotSupported;
use rust_graphql_resolver::value::DataValue;

fn text(s: &str) -> DataValue {
    DataValue::String(s.to_string())
}

fn object(entries: Vec<(&str, DataValue)>) -> DataValue {
    let mut map = StrMap::new();
    for (k, v) in entries {
        map.insert(k.to_string(), v);
    }
    DataValue::Object(map)
}

fn select(name: &str, items: Vec<Selection>) -> Selection {
    Selection::Field(RequestField {
        alias: None,
        name: name.to_string(),
        arguments: vec![],
        selection_set: SelectionSet { items },
    })
}

struct Fixed(DataValue);

impl ApiResolveFunc for Fixed {
    fn call(&self, _context: &mut QLContext, _parameter: &QLApiParam) -> Result<DataValue, Error> {
        Ok(self.0.clone())
    }
}

fn is_scalar(t: &FieldType, name: &str) -> bool {
    match (t, name) {
        (FieldType::ScalarType(ScalarType::ID), "ID") => true,
        (FieldType::ScalarType(ScalarType::Int), "Int") => true,
        (FieldType::ScalarType(ScalarType::Float), "Float") => true,
        (FieldType::ScalarType(ScalarType::String), "String") => true,
        (FieldType::ScalarType(ScalarType::Boolean), "Boolean") => true,
        (FieldType::ScalarType(ScalarType::DateTime), "DateTime") => true,
        _ => false,
    }
}

fn is_input_scalar(t: &InputType, name: &str) -> bool {
    match (t, name) {
        (InputType::ScalarType(ScalarType::ID), "ID") => true,
        (InputType::ScalarType(ScalarType::Int), "Int") => true,
        (InputType::ScalarType(ScalarType::Float), "Float") => true,
        (InputType::ScalarType(ScalarType::String), "String") => true,
        (InputType::ScalarType(ScalarType::Boolean), "Boolean") => true,
        (InputType::ScalarType(ScalarType::DateTime), "DateTime") => true,
        _ => false,
    }
}

#[test]
fn enum_builder_collects_members_in_order() {
    let e = QLEnumBuilder::new("Color")
        .add_value("Red")
        .add_value_with_desc("Green", "go")
        .set_description("colors")
        .add_value("Blue")
        .build();
    assert_eq!(e.name, "Color");
    assert_eq!(e.description, "colors");
    let members: Vec<(&str, &str)> =
        e.values.iter().map(|v| (v.value.as_str(), v.description.as_str())).collect();
    assert_eq!(members, vec![("Red", ""), ("Green", "go"), ("Blue", "")]);
    let empty = QLEnumBuilder::new("Nothing").build_ok().ok().unwrap();
    assert_eq!(empty.name, "Nothing");
    assert_eq!(empty.description, "");
    assert!(empty.values.is_empty());
}

#[test]
fn basic_fields_have_their_scalar_and_no_name() {
    let fields = vec![
        (Field::basic_id(), "ID"),
        (Field::basic_int(), "Int"),
        (Field::basic_float(), "Float"),
        (Field::basic_str(), "String"),
        (Field::basic_bool(), "Boolean"),
        (Field::basic_datetime(), "DateTime"),
    ];
    for (f, name) in fields {
        assert!(is_scalar(&f.field_type, name));
        assert_eq!(f.name, "");
        assert_eq!(f.description, "");
        let mut context = QLContext::new();
        let selections = vec![];
        let parameter = QLApiParam {
            arguments: rust_graphql_resolver::schema::resolve::ArgumentValueMap::from(&vec![]),
            selection_sets: &selections,
        };
        assert_eq!(
            f.resolve.call(&mut context, &DataValue::Null, &parameter),
            Err(Error::DefaultResolveError)
        );
        assert_eq!(
            DefaultFieldResolveFunc.call(&mut context, &DataValue::Null, &parameter),
            Err(Error::DefaultResolveError)
        );
    }
    let inputs = vec![
        (InputField::basic_id(), "ID"),
        (InputField::basic_int(), "Int"),
        (InputField::basic_float(), "Float"),
        (InputField::basic_str(), "String"),
        (InputField::basic_bool(), "Boolean"),
        (InputField::basic_datetime(), "DateTime"),
    ];
    for (f, name) in inputs {
        assert!(is_input_scalar(&f.field_type, name));
        assert_eq!(f.name, "");
        assert_eq!(f.description, "");
    }
}

#[test]
fn object_type_builder_collects_fields_by_name() {
    let t = CustomTypeBuilder::new("Thing")
        .add_field("id", Field::basic_id())
        .add_field("n", Field::basic_str())
        .set_description("a thing")
        .add_field("n", Field::basic_int())
        .build();
    assert_eq!(t.name, "Thing");
    assert_eq!(t.description, "a thing");
    assert_eq!(t.fields.len(), 2);
    assert!(is_scalar(&t.fields.get("id").unwrap().field_type, "ID"));
    assert!(is_scalar(&t.fields.get("n").unwrap().field_type, "Int"));
    let ok: Result<CustomType, BuildError> = CustomTypeBuilder::new("T").build_ok();
    assert_eq!(ok.ok().unwrap().name, "T");
    match CustomTypeBuilder::new("Direct").add_field("x", Field::basic_bool()).build_field() {
        FieldType::ObjectType(ObjectType::DirectObject(obj)) => {
            assert_eq!(obj.name, "Direct");
            assert!(obj.fields.contains_key("x"));
        },
        _ => panic!("the type is an object declared in place"),
    }
}

#[test]
fn input_object_builder_collects_fields_by_name() {
    let t = QLInputBuilder::new("Search")
        .add_field("id", InputField::basic_id())
        .add_field("when", InputField::basic_datetime())
        .set_description("what to look for")
        .build();
    assert_eq!(t.name, "Search");
    assert_eq!(t.description, "what to look for");
    assert_eq!(t.fields.len(), 2);
    assert!(is_input_scalar(&t.fields.get("when").unwrap().field_type, "DateTime"));
    let ok: Result<QLInput, BuildError> = QLInputBuilder::new("I").build_ok();
    assert_eq!(ok.ok().unwrap().name, "I");
    match QLInputBuilder::new("Direct").build_field() {
        InputType::ObjectType(InputObjectType::DirectInputObject(obj)) => assert_eq!(obj.name, "Direct"),
        _ => panic!("the type is an input object declared in place"),
    }
}

#[test]
fn query_and_mutation_builders_set_their_parts() {
    let q: Query = QueryBuilder::new()
        .set_type(FieldType::ScalarType(ScalarType::String))
        .add_argument("id", InputFieldType::ScalarType(ScalarType::ID))
        .set_description("says hello")
        .set_resolve(Box::new(Fixed(text("hi"))))
        .build()
        .ok()
        .unwrap();
    assert!(is_scalar(&q.field_type, "String"));
    assert_eq!(q.description, "says hello");
    assert_eq!(q.arguments.len(), 1);
    assert!(is_input_scalar(q.arguments.get("id").unwrap(), "ID"));
    let selections = vec![];
    let parameter = QLApiParam {
        arguments: rust_graphql_resolver::schema::resolve::ArgumentValueMap::from(&vec![]),
        selection_sets: &selections,
    };
    assert_eq!(q.resolve.call(&mut QLContext::new(), &parameter), Ok(text("hi")));
    let blank: Mutation = MutationBuilder::new().build().ok().unwrap();
    assert!(is_scalar(&blank.field_type, "Boolean"));
    assert_eq!(blank.description, "");
    assert!(blank.arguments.is_empty());
    assert_eq!(
        blank.resolve.call(&mut QLContext::new(), &parameter),
        Err(Error::DefaultResolveError)
    );
    let m: Mutation = MutationBuilder::new()
        .set_type(FieldType::ScalarType(ScalarType::Int))
        .add_argument("n", InputFieldType::ScalarType(ScalarType::Int))
        .set_description("counts")
        .set_resolve(Box::new(Fixed(DataValue::Int(1))))
        .build()
        .ok()
        .unwrap();
    assert!(is_scalar(&m.field_type, "Int"));
    assert_eq!(m.description, "counts");
    assert_eq!(m.resolve.call(&mut QLContext::new(), &parameter), Ok(DataValue::Int(1)));
    let blank_query: Query = QueryBuilder::new().build().ok().unwrap();
    assert!(is_scalar(&blank_query.field_type, "Boolean"));
}

#[test]
fn schema_builder_registers_types_and_names_them() {
    let builder = SchemaBuilder::new("s")
        .add_enum(QLEnumBuilder::new("Color").add_value("Red").build())
        .add_object(CustomTypeBuilder::new("Thing").add_field("id", Field::basic_id()).build())
        .add_input_object(QLInputBuilder::new("Search").build());
    match builder.get_object_type("Thing") {
        Ok(FieldType::ObjectType(ObjectType::LinkObject(name))) => assert_eq!(name, "Thing"),
        _ => panic!("the object type is registered"),
    }
    match builder.get_enum_type("Color") {
        Ok(FieldType::EnumType(EnumType::LinkEnum(name))) => assert_eq!(name, "Color"),
        _ => panic!("the enum is registered"),
    }
    match builder.get_enum_input_type("Color") {
        Ok(InputType::EnumType(EnumType::LinkEnum(name))) => assert_eq!(name, "Color"),
        _ => panic!("the enum is registered"),
    }
    match builder.get_input_type("Search") {
        Ok(InputType::ObjectType(InputObjectType::LinkInputObject(name))) => assert_eq!(name, "Search"),
        _ => panic!("the input object type is registered"),
    }
    assert_eq!(
        builder.get_object_type("Color").err(),
        Some(BuildError::NoSuchObjectType("Color".to_string()))
    );
    assert_eq!(
        builder.get_enum_type("Thing").err(),
        Some(BuildError::NoSuchEnumType("Thing".to_string()))
    );
    assert_eq!(
        builder.get_enum_input_type("Thing").err(),
        Some(BuildError::NoSuchEnumType("Thing".to_string()))
    );
    assert_eq!(
        builder.get_input_type("Thing").err(),
        Some(BuildError::NoSuchObjectType("Thing".to_string()))
    );
    let schema = builder.build().ok().unwrap();
    assert_eq!(schema.id, "s");
    assert_eq!(schema.description, None);
    assert!(schema.queries.is_empty());
    assert!(schema.mutations.is_none());
    assert_eq!(schema.subscritions, None::<NotSupported>);
    assert_eq!(schema.type_storage.enums.len(), 1);
    assert_eq!(schema.type_storage.objects.len(), 1);
    assert_eq!(schema.type_storage.inputs.len(), 1);
}

#[test]
fn schema_builder_adds_queries_and_mutations_that_name_registered_types() {
    let schema = SchemaBuilder::new("things")
        .add_object_with_status(|_builder| {
            CustomTypeBuilder::new("Thing")
                .add_field("id", Field::basic_id())
                .add_field("name", Field::basic_str())
                .build_ok()
        })
        .ok()
        .unwrap()
        .add_input_object_with_status(|builder| {
            let _ = builder.get_object_type("Thing")?;
            QLInputBuilder::new("Search").build_ok()
        })
        .ok()
        .unwrap()
        .add_query("thing", |builder| {
            QueryBuilder::new()
                .set_type(builder.get_object_type("Thing")?)
                .set_resolve(Box::new(Fixed(object(vec![("id", text("1")), ("name", text("one"))]))))
                .build()
        })
        .ok()
        .unwrap()
        .add_mutation("rename", |builder| {
            MutationBuilder::new()
                .set_type(builder.get_object_type("Thing")?)
                .set_resolve(Box::new(Fixed(object(vec![("id", text("1")), ("name", text("uno"))]))))
                .build()
        })
        .ok()
        .unwrap()
        .add_mutation("reset", |_builder| MutationBuilder::new().build())
        .ok()
        .unwrap()
        .build()
        .ok()
        .unwrap();
    assert_eq!(schema.queries.len(), 1);
    assert_eq!(schema.mutations.as_ref().map(|m| m.len()), Some(2));
    let doc = Document {
        definitions: vec![Definition::Operation(OperationDefinition::SelectionSet(SelectionSet {
            items: vec![select("thing", vec![select("name", vec![])])],
        }))],
    };
    assert_eq!(
        schema.execute_document(QLContext::new(), doc, None),
        Ok(object(vec![("data", object(vec![("thing", object(vec![("name", text("one"))]))]))]))
    );
}

#[test]
fn schema_builder_hands_on_the_failure_of_a_function() {
    let failed = SchemaBuilder::new("s").add_query("q", |builder| {
        QueryBuilder::new().set_type(builder.get_object_type("Missing")?).build()
    });
    assert_eq!(failed.err().map(|e| e.message()), Some("No such object type Missing, set it first".to_string()));
    let failed = SchemaBuilder::new("s").add_mutation("m", |builder| {
        MutationBuilder::new().set_type(builder.get_enum_type("Missing")?).build()
    });
    assert_eq!(failed.err(), Some(BuildError::NoSuchEnumType("Missing".to_string())));
    let failed = SchemaBuilder::new("s")
        .add_object_with_status(|_builder| Err(BuildError::NoSuchInputType("X".to_string())));
    assert_eq!(failed.err(), Some(BuildError::NoSuchInputType("X".to_string())));
    let failed = SchemaBuilder::new("s")
        .add_input_object_with_status(|builder| {
            let _ = builder.get_input_type("Missing")?;
            QLInputBuilder::new("I").build_ok()
        });
    assert_eq!(failed.err(), Some(BuildError::NoSuchObjectType("Missing".to_string())));
}

struct Unset;

impl FieldResolveFunc for Unset {
    fn call(
        &self,
        _context: &mut QLContext,
        _source: &DataValue,
        _parameter: &QLApiParam,
    ) -> Result<DataValue, Error> {
        Ok(DataValue::Null)
    }
}

#[test]
fn a_field_can_be_given_a_resolver_of_its_own() {
    let f = Field { name: "x".to_string(), resolve: Box::new(Unset), ..Field::basic_int() };
    let selections = vec![];
    let parameter = QLApiParam {
        arguments: rust_graphql_resolver::schema::resolve::ArgumentValueMap::from(&vec![]),
        selection_sets: &selections,
    };
    assert_eq!(f.resolve.call(&mut QLContext::new(), &DataValue::Null, &parameter), Ok(DataValue::Null));
}

#[test]
fn a_schema_tells_of_itself() {
    let entry = |kind: &str, name: &str, description: &str| {
        object(vec![("kind", text(kind)), ("name", text(name)), ("description", text(description))])
    };
    let bare = SchemaBuilder::new("bare").build().ok().unwrap();
    let scalars = vec![
        entry("SCALAR", "ID", ""),
        entry("SCALAR", "String", ""),
        entry("SCALAR", "Int", ""),
        entry("SCALAR", "Float", ""),
        entry("SCALAR", "Boolean", ""),
        entry("SCALAR", "DateTime", ""),
    ];
    assert_eq!(
        rust_graphql_resolver::builder::introspection::create_introspection_data(&bare),
        object(vec![
            ("description", text("")),
            ("queryType", DataValue::Null),
            ("mutationType", DataValue::Null),
            ("subscriptionType", DataValue::Null),
            ("types", DataValue::List(scalars.clone())),
        ])
    );
    let mut full = SchemaBuilder::new("full")
        .add_enum(QLEnumBuilder::new("Shade").set_description("of grey").build())
        .add_enum(QLEnumBuilder::new("Color").build())
        .add_object(CustomTypeBuilder::new("Thing").set_description("a thing").build())
        .add_input_object(QLInputBuilder::new("Search").build())
        .add_query("q", |_b| QueryBuilder::new().build())
        .ok()
        .unwrap()
        .add_mutation("m", |_b| MutationBuilder::new().build())
        .ok()
        .unwrap()
        .build()
        .ok()
        .unwrap();
    full.description = Some("everything".to_string());
    let mut types = scalars;
    types.push(entry("ENUM", "Color", ""));
    types.push(entry("ENUM", "Shade", "of grey"));
    types.push(entry("OBJECT", "Thing", "a thing"));
    types.push(entry("INPUT_OBJECT", "Search", ""));
    assert_eq!(
        rust_graphql_resolver::builder::introspection::create_introspection_data(&full),
        object(vec![
            ("description", text("everything")),
            ("queryType", entry("OBJECT", "Query", "")),
            ("mutationType", entry("OBJECT", "Mutation", "")),
            ("subscriptionType", DataValue::Null),
            ("types", DataValue::List(types)),
        ])
    );
}
