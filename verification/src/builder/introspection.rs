//! What a schema tells of itself.
use crate::builder::value::DataValueObjectBuilder;
use crate::keyed::StrMap;
use crate::schema::types::{DirectEnum, DirectInputObject, DirectObject, StaticType};
use crate::schema::Schema;
use crate::value::{deep_list, DataValue, Value};
use vstd::prelude::*;

verus! {

/// The entry of a type: its kind, its name and its description.
pub open spec fn type_entry(kind: Seq<char>, name: Seq<char>, description: Seq<char>) -> Value {
    Value::Object(
        Map::<Seq<char>, Value>::empty().insert("kind"@, Value::String(kind)).insert(
            "name"@,
            Value::String(name),
        ).insert("description"@, Value::String(description)),
    )
}

/// The entries of the scalars that the engine knows by itself.
pub open spec fn built_in_entries() -> Seq<Value> {
    seq![
        type_entry("SCALAR"@, StaticType::ID.name(), ""@),
        type_entry("SCALAR"@, StaticType::String.name(), ""@),
        type_entry("SCALAR"@, StaticType::Int.name(), ""@),
        type_entry("SCALAR"@, StaticType::Float.name(), ""@),
        type_entry("SCALAR"@, StaticType::Boolean.name(), ""@),
        type_entry("SCALAR"@, StaticType::DateTime.name(), ""@),
    ]
}

/// The entries of the enums of a registry, in ascending order of their keys.
pub open spec fn enum_entries(enums: StrMap<DirectEnum>) -> Seq<Value> {
    Seq::new(
        enums.keys().len(),
        |i: int| type_entry("ENUM"@, enums@[enums.keys()[i]].name@, enums@[enums.keys()[i]].description@),
    )
}

/// The entries of the object types of a registry, in ascending order of
/// their keys.
pub open spec fn object_entries(objects: StrMap<DirectObject>) -> Seq<Value> {
    Seq::new(
        objects.keys().len(),
        |i: int|
            type_entry(
                "OBJECT"@,
                objects@[objects.keys()[i]].name@,
                objects@[objects.keys()[i]].description@,
            ),
    )
}

/// The entries of the input object types of a registry, in ascending order
/// of their keys.
pub open spec fn input_entries(inputs: StrMap<DirectInputObject>) -> Seq<Value> {
    Seq::new(
        inputs.keys().len(),
        |i: int|
            type_entry(
                "INPUT_OBJECT"@,
                inputs@[inputs.keys()[i]].name@,
                inputs@[inputs.keys()[i]].description@,
            ),
    )
}

/// What a schema tells of itself: its description, the types of its roots,
/// where it has them, and the types that it knows by itself or by its
/// registry. Types that fields declare in place are not among them.
pub open spec fn introspection_of(schema: Schema) -> Value {
    Value::Object(
        Map::<Seq<char>, Value>::empty().insert(
            "description"@,
            Value::String(
                match schema.description {
                    Some(d) => d@,
                    None => Seq::empty(),
                },
            ),
        ).insert(
            "queryType"@,
            if schema.queries.keys().len() == 0 {
                Value::Null
            } else {
                type_entry("OBJECT"@, "Query"@, ""@)
            },
        ).insert(
            "mutationType"@,
            if schema.mutations is None {
                Value::Null
            } else {
                type_entry("OBJECT"@, "Mutation"@, ""@)
            },
        ).insert("subscriptionType"@, Value::Null).insert(
            "types"@,
            Value::List(
                built_in_entries() + enum_entries(schema.type_storage.enums) + object_entries(
                    schema.type_storage.objects,
                ) + input_entries(schema.type_storage.inputs),
            ),
        ),
    )
}

/// Makes the entry of a type.
fn make_entry(kind: &str, name: &str, description: &str) -> (entry: DataValue)
    ensures
        entry@ == type_entry(kind@, name@, description@),
{
    DataValueObjectBuilder::new().add_str_field("kind", String::from_str(kind)).add_str_field(
        "name",
        String::from_str(name),
    ).add_str_field("description", String::from_str(description)).build()
}

/// Makes the data of a schema's introspection.
pub fn create_introspection_data(schema: &Schema) -> (data: DataValue)
    ensures
        data@ == introspection_of(*schema),
{
    let desc = match &schema.description {
        Some(d) => d.clone(),
        None => String::new(),
    };
    let mut builder = DataValueObjectBuilder::new().add_str_field("description", desc);
    if schema.queries.is_empty() {
        builder = builder.add_null_field("queryType");
    } else {
        builder = builder.add_object_field("queryType", make_entry("OBJECT", "Query", ""));
    }
    if schema.mutations.is_none() {
        builder = builder.add_null_field("mutationType");
    } else {
        builder = builder.add_object_field("mutationType", make_entry("OBJECT", "Mutation", ""));
    }
    builder = builder.add_null_field("subscriptionType");

    let mut types: Vec<DataValue> = Vec::new();
    types.push(make_entry("SCALAR", StaticType::ID.get_name(), ""));
    types.push(make_entry("SCALAR", StaticType::String.get_name(), ""));
    types.push(make_entry("SCALAR", StaticType::Int.get_name(), ""));
    types.push(make_entry("SCALAR", StaticType::Float.get_name(), ""));
    types.push(make_entry("SCALAR", StaticType::Boolean.get_name(), ""));
    types.push(make_entry("SCALAR", StaticType::DateTime.get_name(), ""));
    proof {
        let built = built_in_entries();
        assert(built.len() == 6);
        assert(deep_list(types@)[0] == built[0]);
        assert(deep_list(types@)[1] == built[1]);
        assert(deep_list(types@)[2] == built[2]);
        assert(deep_list(types@)[3] == built[3]);
        assert(deep_list(types@)[4] == built[4]);
        assert(deep_list(types@)[5] == built[5]);
        assert(deep_list(types@) =~= built);
    }

    let enums = &schema.type_storage.enums;
    let mut i: usize = 0;
    while i < enums.len()
        invariant
            0 <= i <= enums.keys().len(),
            deep_list(types@) == built_in_entries() + enum_entries(*enums).take(i as int),
        decreases enums.keys().len() - i,
    {
        let e = enums.value_at(i);
        let ghost before = deep_list(types@);
        types.push(make_entry("ENUM", e.name.as_str(), e.description.as_str()));
        assert(deep_list(types@) =~= before.push(enum_entries(*enums)[i as int]));
        assert(deep_list(types@) =~= built_in_entries() + enum_entries(*enums).take(i as int + 1));
        i = i + 1;
    }
    assert(enum_entries(*enums).take(i as int) =~= enum_entries(*enums));

    let objects = &schema.type_storage.objects;
    let ghost first = built_in_entries() + enum_entries(*enums);
    let mut j: usize = 0;
    while j < objects.len()
        invariant
            0 <= j <= objects.keys().len(),
            deep_list(types@) == first + object_entries(*objects).take(j as int),
        decreases objects.keys().len() - j,
    {
        let o = objects.value_at(j);
        let ghost before = deep_list(types@);
        types.push(make_entry("OBJECT", o.name.as_str(), o.description.as_str()));
        assert(deep_list(types@) =~= before.push(object_entries(*objects)[j as int]));
        assert(deep_list(types@) =~= first + object_entries(*objects).take(j as int + 1));
        j = j + 1;
    }
    assert(object_entries(*objects).take(j as int) =~= object_entries(*objects));

    let inputs = &schema.type_storage.inputs;
    let ghost second = first + object_entries(*objects);
    let mut k: usize = 0;
    while k < inputs.len()
        invariant
            0 <= k <= inputs.keys().len(),
            deep_list(types@) == second + input_entries(*inputs).take(k as int),
        decreases inputs.keys().len() - k,
    {
        let o = inputs.value_at(k);
        let ghost before = deep_list(types@);
        types.push(make_entry("INPUT_OBJECT", o.name.as_str(), o.description.as_str()));
        assert(deep_list(types@) =~= before.push(input_entries(*inputs)[k as int]));
        assert(deep_list(types@) =~= second + input_entries(*inputs).take(k as int + 1));
        k = k + 1;
    }
    assert(input_entries(*inputs).take(k as int) =~= input_entries(*inputs));

    builder = builder.add_list_field("types", types);
    builder.build()
}

} // verus!
