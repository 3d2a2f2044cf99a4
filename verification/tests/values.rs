use rust_graphql_resolver::ast::LiteralValue;
use rust_graphql_resolver::builder::value::DataValueObjectBuilder;
use rust_graphql_resolver::error::{BuildError, Error};
use rust_graphql_resolver::keyed::{key_rank, same_text, Rank, StrMap};
use rust_graphql_resolver::schema::resolve::ArgumentValueMap;
use rust_graphql_resolver::value::{copy_fields, DataValue, FloatBits, Timestamp, ToDataValue};

fn text(s: &str) -> DataValue {
    DataValue::String(s.to_string())
}

fn object(entries: Vec<(&str, DataValue)>) -> DataValue {
    let mut map = StrMap::new();
    for (k, v) in entries {
        map.insert(k.to_string(), v);
    }
    DataValue::Object(map)
}

struct HelloWorld {
    hello: String,
    greeting: String,
}

impl ToDataValue for HelloWorld {
    fn to_data_value(&self) -> DataValue {
        let mut map = StrMap::new();
        map.insert("hello".to_string(), self.hello.to_data_value());
        map.insert("greeting".to_string(), self.greeting.to_data_value());
        DataValue::Object(map)
    }
}

#[test]
fn test_generate_datavalue_derive() {
    let h = HelloWorld {
        hello: "hello".to_string(),
        greeting: "rust-graphql-resolver".to_string(),
    };
    let dv = h.to_data_value();
    assert_eq!(
        dv,
        object(vec![
            ("hello", DataValue::String("hello".to_string())),
            (
                "greeting",
                DataValue::String("rust-graphql-resolver".to_string())
            ),
        ])
    )
}

#[test]
fn key_order_is_byte_order() {
    assert_eq!(key_rank("a", "b"), Rank::Before);
    assert_eq!(key_rank("b", "a"), Rank::After);
    assert_eq!(key_rank("abc", "abc"), Rank::Same);
    assert_eq!(key_rank("ab", "abc"), Rank::Before);
    assert_eq!(key_rank("abc", "ab"), Rank::After);
    assert_eq!(key_rank("", ""), Rank::Same);
    assert_eq!(key_rank("", "a"), Rank::Before);
    assert_eq!(key_rank("Z", "a"), Rank::Before);
    assert_eq!(key_rank("z", "\u{e9}"), Rank::Before);
    assert_eq!(key_rank("\u{e9}", "\u{4e2d}"), Rank::Before);
    assert!("z" < "\u{e9}");
    assert!("\u{e9}" < "\u{4e2d}");
}

#[test]
fn same_text_compares_characters() {
    assert!(same_text("hello", "hello"));
    assert!(!same_text("hello", "hellp"));
    assert!(!same_text("hello", "hell"));
    assert!(same_text("", ""));
}

#[test]
fn map_keeps_keys_in_ascending_order() {
    let mut m: StrMap<i64> = StrMap::new();
    assert!(m.is_empty());
    assert_eq!(m.insert("pear".to_string(), 3), None);
    assert_eq!(m.insert("apple".to_string(), 1), None);
    assert_eq!(m.insert("fig".to_string(), 2), None);
    assert_eq!(m.len(), 3);
    assert_eq!(m.key_at(0).as_str(), "apple");
    assert_eq!(m.key_at(1).as_str(), "fig");
    assert_eq!(m.key_at(2).as_str(), "pear");
    assert_eq!(*m.value_at(0), 1);
    assert_eq!(*m.value_at(1), 2);
    assert_eq!(*m.value_at(2), 3);
    assert!(!m.is_empty());
}

#[test]
fn map_insert_replaces_and_returns_the_old_value() {
    let mut m: StrMap<i64> = StrMap::new();
    assert_eq!(m.insert("k".to_string(), 1), None);
    assert_eq!(m.insert("k".to_string(), 2), Some(1));
    assert_eq!(m.len(), 1);
    assert_eq!(m.get("k"), Some(&2));
    assert_eq!(m.get("other"), None);
    assert!(m.contains_key("k"));
    assert!(!m.contains_key("other"));
}

#[test]
fn map_remove_takes_the_entry_out() {
    let mut m: StrMap<i64> = StrMap::new();
    m.insert("a".to_string(), 1);
    m.insert("b".to_string(), 2);
    m.insert("c".to_string(), 3);
    assert_eq!(m.remove("b"), Some(2));
    assert_eq!(m.remove("b"), None);
    assert_eq!(m.len(), 2);
    assert_eq!(m.key_at(0).as_str(), "a");
    assert_eq!(m.key_at(1).as_str(), "c");
    assert_eq!(m.remove("zzz"), None);
    assert_eq!(m.len(), 2);
}

#[test]
fn maps_with_the_same_contents_are_equal_whatever_the_order_of_insertion() {
    let mut a: StrMap<i64> = StrMap::new();
    a.insert("x".to_string(), 1);
    a.insert("y".to_string(), 2);
    a.insert("z".to_string(), 3);
    let mut b: StrMap<i64> = StrMap::new();
    b.insert("z".to_string(), 3);
    b.insert("x".to_string(), 1);
    b.insert("y".to_string(), 2);
    assert_eq!(a, b);
    b.insert("y".to_string(), 5);
    assert_ne!(a, b);
}

#[test]
fn map_finds_every_key_among_many() {
    let mut m: StrMap<usize> = StrMap::new();
    let names: Vec<String> = (0..200).map(|i| format!("key{}", (i * 37) % 200)).collect();
    for (i, n) in names.iter().enumerate() {
        m.insert(n.clone(), i);
    }
    assert_eq!(m.len(), 200);
    for (i, n) in names.iter().enumerate() {
        assert_eq!(m.get(n.as_str()), Some(&i));
    }
    for i in 1..m.len() {
        assert!(m.key_at(i - 1) < m.key_at(i));
    }
    assert_eq!(m.get("key200"), None);
}

#[test]
fn type_names_of_values() {
    assert_eq!(text("a").get_type_name(), "String");
    assert_eq!(DataValue::Int(1).get_type_name(), "Int");
    assert_eq!(DataValue::Float(FloatBits { bits: 1.5f64.to_bits() }).get_type_name(), "Float");
    assert_eq!(DataValue::Boolean(true).get_type_name(), "Boolean");
    assert_eq!(
        DataValue::DateTime(Timestamp { seconds: 0, nanoseconds: 0 }).get_type_name(),
        "DateTime"
    );
    assert_eq!(DataValue::Null.get_type_name(), "Null");
    assert_eq!(DataValue::List(vec![]).get_type_name(), "List(...)");
    assert_eq!(DataValue::List(vec![DataValue::Int(1), text("x")]).get_type_name(), "List(Int)");
    assert_eq!(
        DataValue::List(vec![DataValue::List(vec![text("x")])]).get_type_name(),
        "List(List(String))"
    );
    assert_eq!(object(vec![]).get_type_name(), "Object(...)");
}

#[test]
fn clone_copies_the_whole_tree() {
    let v = object(vec![
        ("list", DataValue::List(vec![DataValue::Int(1), DataValue::Null, text("x")])),
        ("inner", object(vec![("b", DataValue::Boolean(false)), ("a", DataValue::Int(-7))])),
        ("f", DataValue::Float(FloatBits { bits: 2.25f64.to_bits() })),
        ("t", DataValue::DateTime(Timestamp { seconds: 12, nanoseconds: 34 })),
    ]);
    let c = v.clone();
    assert_eq!(c, v);
    match &v {
        DataValue::Object(m) => assert_eq!(DataValue::Object(copy_fields(m)), v),
        _ => panic!("an object was built"),
    }
}

#[test]
fn boxed_constructors_box_their_variant() {
    assert_eq!(*DataValue::boxed_string("s".to_string()), text("s"));
    assert_eq!(*DataValue::boxed_int(5), DataValue::Int(5));
    assert_eq!(
        *DataValue::boxed_float(FloatBits { bits: 7 }),
        DataValue::Float(FloatBits { bits: 7 })
    );
    assert_eq!(*DataValue::boxed_bool(true), DataValue::Boolean(true));
    assert_eq!(*DataValue::boxed_null(), DataValue::Null);
    assert_eq!(
        *DataValue::boxed_datetime(Timestamp { seconds: 1, nanoseconds: 2 }),
        DataValue::DateTime(Timestamp { seconds: 1, nanoseconds: 2 })
    );
    assert_eq!(
        *DataValue::boxed_list(vec![DataValue::Int(1)]),
        DataValue::List(vec![DataValue::Int(1)])
    );
    let mut m = StrMap::new();
    m.insert("k".to_string(), DataValue::Int(1));
    assert_eq!(*DataValue::boxed_object(m), object(vec![("k", DataValue::Int(1))]));
    assert_eq!(*DataValue::Int(9).to_boxed(), DataValue::Int(9));
}

#[test]
fn native_types_convert_to_values() {
    assert_eq!(7i64.to_data_value(), DataValue::Int(7));
    assert_eq!((-7i32).to_data_value(), DataValue::Int(-7));
    assert_eq!((-300i16).to_data_value(), DataValue::Int(-300));
    assert_eq!((-128i8).to_data_value(), DataValue::Int(-128));
    assert_eq!(7u64.to_data_value(), DataValue::Int(7));
    assert_eq!(4_000_000_000u32.to_data_value(), DataValue::Int(4_000_000_000));
    assert_eq!(65535u16.to_data_value(), DataValue::Int(65535));
    assert_eq!(255u8.to_data_value(), DataValue::Int(255));
    assert_eq!(true.to_data_value(), DataValue::Boolean(true));
    assert_eq!("s".to_string().to_data_value(), text("s"));
    assert_eq!(DataValue::Int(3).to_data_value(), DataValue::Int(3));
    assert_eq!(
        FloatBits { bits: 0.5f64.to_bits() }.to_data_value(),
        DataValue::Float(FloatBits { bits: 0.5f64.to_bits() })
    );
    assert_eq!(
        Timestamp { seconds: 5, nanoseconds: 6 }.to_data_value(),
        DataValue::DateTime(Timestamp { seconds: 5, nanoseconds: 6 })
    );
}

#[test]
fn large_unsigned_numbers_wrap_into_the_signed_range() {
    assert_eq!(u64::MAX.to_data_value(), DataValue::Int(-1));
    assert_eq!((1u64 << 63).to_data_value(), DataValue::Int(i64::MIN));
    assert_eq!(((1u64 << 63) - 1).to_data_value(), DataValue::Int(i64::MAX));
}

#[test]
fn collections_convert_item_by_item() {
    assert_eq!(
        vec![1i64, 2, 3].to_data_value(),
        DataValue::List(vec![DataValue::Int(1), DataValue::Int(2), DataValue::Int(3)])
    );
    let none: Option<i64> = None;
    assert_eq!(none.to_data_value(), DataValue::Null);
    assert_eq!(Some(4i64).to_data_value(), DataValue::Int(4));
    assert_eq!(
        vec![Some(true), None].to_data_value(),
        DataValue::List(vec![DataValue::Boolean(true), DataValue::Null])
    );
    let mut m: StrMap<i64> = StrMap::new();
    m.insert("b".to_string(), 2);
    m.insert("a".to_string(), 1);
    assert_eq!(
        m.to_data_value(),
        object(vec![("a", DataValue::Int(1)), ("b", DataValue::Int(2))])
    );
}

#[test]
fn literals_stand_for_values() {
    assert_eq!(DataValue::from(&LiteralValue::Variable("id".to_string())), text("id"));
    assert_eq!(DataValue::from(&LiteralValue::Int(42)), DataValue::Int(42));
    assert_eq!(
        DataValue::from(&LiteralValue::Float(FloatBits { bits: 1.25f64.to_bits() })),
        DataValue::Float(FloatBits { bits: 1.25f64.to_bits() })
    );
    assert_eq!(DataValue::from(&LiteralValue::String("s".to_string())), text("s"));
    assert_eq!(DataValue::from(&LiteralValue::Boolean(true)), DataValue::Boolean(true));
    assert_eq!(DataValue::from(&LiteralValue::Null), DataValue::Null);
    assert_eq!(DataValue::from(&LiteralValue::Enum("Red".to_string())), text("Red"));
    let mut inner = StrMap::new();
    inner.insert("k".to_string(), LiteralValue::Enum("E".to_string()));
    inner.insert("a".to_string(), LiteralValue::Null);
    let lit = LiteralValue::List(vec![
        LiteralValue::Int(1),
        LiteralValue::Object(inner),
        LiteralValue::List(vec![]),
    ]);
    assert_eq!(
        DataValue::from(&lit),
        DataValue::List(vec![
            DataValue::Int(1),
            object(vec![("a", DataValue::Null), ("k", text("E"))]),
            DataValue::List(vec![]),
        ])
    );
}

#[test]
fn later_arguments_of_the_same_name_stand() {
    let args = ArgumentValueMap::from(&vec![
        ("id".to_string(), LiteralValue::String("1".to_string())),
        ("n".to_string(), LiteralValue::Int(2)),
        ("id".to_string(), LiteralValue::Variable("var".to_string())),
    ]);
    assert_eq!(args.get(&"id".to_string()), Some(&text("var")));
    assert_eq!(args.get(&"n".to_string()), Some(&DataValue::Int(2)));
    assert_eq!(args.get(&"missing".to_string()), None);
}

#[test]
fn object_builder_adds_fields() {
    let v = DataValueObjectBuilder::new()
        .add_str_field("s", "text".to_string())
        .add_id_field("id", "id1".to_string())
        .add_int_field("i", 3)
        .add_float_field("f", FloatBits { bits: 9 })
        .add_bool_field("b", true)
        .add_null_field("n")
        .add_datetime_field("t", Timestamp { seconds: 1, nanoseconds: 2 })
        .add_list_field("l", vec![DataValue::Int(1)])
        .add_object_field("o", DataValueObjectBuilder::new().add_int_field("x", 1).build())
        .add_any_field("any", DataValue::Boolean(false))
        .add_int_field("i", 4)
        .build();
    assert_eq!(
        v,
        object(vec![
            ("s", text("text")),
            ("id", text("id1")),
            ("i", DataValue::Int(4)),
            ("f", DataValue::Float(FloatBits { bits: 9 })),
            ("b", DataValue::Boolean(true)),
            ("n", DataValue::Null),
            ("t", DataValue::DateTime(Timestamp { seconds: 1, nanoseconds: 2 })),
            ("l", DataValue::List(vec![DataValue::Int(1)])),
            ("o", object(vec![("x", DataValue::Int(1))])),
            ("any", DataValue::Boolean(false)),
        ])
    );
    assert_eq!(DataValueObjectBuilder::new().build(), object(vec![]));
}

#[test]
fn errors_describe_themselves() {
    assert_eq!(
        Error::ParseError("x".to_string()).message(),
        "parse graphql request error: x"
    );
    assert_eq!(
        Error::UnSupportedYetError("x".to_string()).message(),
        "Unsupported yet error: x"
    );
    assert_eq!(
        Error::DefaultResolveError.message(),
        "This is default resulover, should not be invoked"
    );
    assert_eq!(Error::NotFoundError("x".to_string()).message(), "NotFound: x");
    assert_eq!(
        Error::DataTypeMisMatchError("Int".to_string(), "String".to_string()).message(),
        "DataTypeMisMatchError expect: Int, actul: String"
    );
    assert_eq!(
        Error::MissingReferenceCustomTypeError.message(),
        "Missing reference custom type"
    );
    assert_eq!(Error::MutationSchemaNotDefined.message(), "Mutation schema not defined");
    assert_eq!(
        Error::MultipleOperationNeedTarget.message(),
        "Must provide operation name if query contains multiple operations"
    );
    assert_eq!(
        Error::OnlyOneOperationCanNamed("A".to_string()).message(),
        "There can only be one operation named A"
    );
    assert_eq!(
        Error::MustBeDefinedAnonymousOperation.message(),
        "This anonymous operation must be the only defined operation"
    );
    assert_eq!(Error::NoSuchFragment("F".to_string()).message(), "No such Fragment F");
    assert_eq!(
        BuildError::NoSuchObjectType("T".to_string()).message(),
        "No such object type T, set it first"
    );
    assert_eq!(
        BuildError::NoSuchEnumType("T".to_string()).message(),
        "No such enum type T, set it first"
    );
    assert_eq!(
        BuildError::NoSuchInputType("T".to_string()).message(),
        "No such input type T, set it first"
    );
}
