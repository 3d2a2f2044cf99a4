use rust_graphql_resolver::ast::{
    Definition, Document, Field as RequestField, FragmentDefinition, FragmentSpread,
    InlineFragment, LiteralValue, Mutation as MutationOperation, OperationDefinition,
    OperationKind, Query as QueryOperation, Selection, SelectionSet, Subscription,
};
use rust_graphql_resolver::error::Error;
use rust_graphql_resolver::keyed::StrMap;
use rust_graphql_resolver::schema::choose_operation;
use rust_graphql_resolver::schema::field::Field;
use rust_graphql_resolver::schema::resolve::{
    ApiResolveFunc, DefaultApiResolveFunc, QLApiParam, QLContext,
};
use rust_graphql_resolver::schema::root::RootField;
use rust_graphql_resolver::schema::storage::TypeStorage;
use rust_graphql_resolver::schema::types::{
    DirectObject, FieldType, ObjectType, ScalarType,
};
use rust_graphql_resolver::schema::Schema;
use rust_graphql_resolver::value::DataValue;
use std::cell::RefCell;
use std::collections::HashMap;
use std::rc::Rc;

fn text(s: &str) -> DataValue {
    DataValue::String(s.to_string())
}

fn object(entries: Vec<(&str, DataValue)>) -> DataValue {
    let mut map = StrMap::new();
    for (k, v) in entries {
        map.insert(k.to_string(), v);
    }
    DataValue::Object(map)
}

fn data(v: DataValue) -> DataValue {
    object(vec![("data", v)])
}

fn select(name: &str) -> Selection {
    Selection::Field(RequestField {
        alias: None,
        name: name.to_string(),
        arguments: vec![],
        selection_set: SelectionSet { items: vec![] },
    })
}

fn call(alias: Option<&str>, name: &str, args: Vec<(&str, LiteralValue)>, items: Vec<Selection>) -> Selection {
    Selection::Field(RequestField {
        alias: alias.map(|a| a.to_string()),
        name: name.to_string(),
        arguments: args.into_iter().map(|(k, v)| (k.to_string(), v)).collect(),
        selection_set: SelectionSet { items },
    })
}

fn bare(items: Vec<Selection>) -> Definition {
    Definition::Operation(OperationDefinition::SelectionSet(SelectionSet { items }))
}

fn query(name: Option<&str>, items: Vec<Selection>) -> Definition {
    Definition::Operation(OperationDefinition::Query(QueryOperation {
        name: name.map(|n| n.to_string()),
        selection_set: SelectionSet { items },
    }))
}

fn mutation(name: Option<&str>, items: Vec<Selection>) -> Definition {
    Definition::Operation(OperationDefinition::Mutation(MutationOperation {
        name: name.map(|n| n.to_string()),
        selection_set: SelectionSet { items },
    }))
}

fn subscription(name: Option<&str>, items: Vec<Selection>) -> Definition {
    Definition::Operation(OperationDefinition::Subscription(Subscription {
        name: name.map(|n| n.to_string()),
        selection_set: SelectionSet { items },
    }))
}

fn fragment(name: &str, items: Vec<Selection>) -> Definition {
    Definition::Fragment(FragmentDefinition {
        name: name.to_string(),
        selection_set: SelectionSet { items },
    })
}

fn document(definitions: Vec<Definition>) -> Document {
    Document { definitions }
}

struct Fixed(DataValue);

impl ApiResolveFunc for Fixed {
    fn call(&self, _context: &mut QLContext, _parameter: &QLApiParam) -> Result<DataValue, Error> {
        Ok(self.0.clone())
    }
}

type Items = Rc<RefCell<HashMap<String, DataValue>>>;

struct AddItem(Items);

impl ApiResolveFunc for AddItem {
    fn call(&self, _context: &mut QLContext, parameter: &QLApiParam) -> Result<DataValue, Error> {
        let id = parameter
            .arguments
            .get(&"id".to_string())
            .ok_or(Error::NotFoundError("argument: 'id'".to_string()))?;
        let val = parameter
            .arguments
            .get(&"val".to_string())
            .ok_or(Error::NotFoundError("argument: 'val'".to_string()))?;
        match (id, val) {
            (DataValue::String(i), DataValue::String(v)) => {
                let item = object(vec![("id", text(i)), ("val", text(v))]);
                self.0.borrow_mut().insert(i.clone(), item.clone());
                Ok(item)
            },
            _ => Err(Error::DataTypeMisMatchError(
                "(ID, String)".to_string(),
                "others case".to_string(),
            )),
        }
    }
}

struct GetItem(Items);

impl ApiResolveFunc for GetItem {
    fn call(&self, _context: &mut QLContext, parameter: &QLApiParam) -> Result<DataValue, Error> {
        match parameter.arguments.get(&"id".to_string()) {
            Some(DataValue::String(id)) => match self.0.borrow().get(id) {
                Some(item) => Ok(item.clone()),
                None => Ok(DataValue::Null),
            },
            _ => Err(Error::NotFoundError("argument: 'id'".to_string())),
        }
    }
}

fn root(ty: FieldType, resolve: Box<dyn ApiResolveFunc>) -> RootField {
    RootField { field_type: ty, arguments: StrMap::new(), description: String::new(), resolve }
}

fn schema(queries: Vec<(&str, RootField)>, mutations: Option<Vec<(&str, RootField)>>) -> Schema {
    let mut q = StrMap::new();
    for (name, f) in queries {
        q.insert(name.to_string(), f);
    }
    let m = mutations.map(|list| {
        let mut map = StrMap::new();
        for (name, f) in list {
            map.insert(name.to_string(), f);
        }
        map
    });
    Schema {
        id: "test".to_string(),
        description: None,
        queries: q,
        mutations: m,
        subscritions: None,
        type_storage: TypeStorage {
            enums: StrMap::new(),
            objects: StrMap::new(),
            inputs: StrMap::new(),
        },
    }
}

fn hello_schema() -> Schema {
    schema(
        vec![
            ("hello", root(FieldType::ScalarType(ScalarType::String), Box::new(Fixed(text("world"))))),
            ("answer", root(FieldType::ScalarType(ScalarType::Int), Box::new(Fixed(DataValue::Int(42))))),
        ],
        None,
    )
}

fn item_type() -> FieldType {
    let mut fields = StrMap::new();
    fields.insert("id".to_string(), Field { name: "id".to_string(), ..Field::basic_id() });
    fields.insert("val".to_string(), Field { name: "val".to_string(), ..Field::basic_str() });
    FieldType::ObjectType(ObjectType::DirectObject(DirectObject {
        name: "Item".to_string(),
        fields,
        description: String::new(),
    }))
}

fn item_schema(items: Items) -> Schema {
    schema(
        vec![("item", root(item_type(), Box::new(GetItem(items.clone()))))],
        Some(vec![("addItem", root(item_type(), Box::new(AddItem(items))))]),
    )
}

fn run(schema: &Schema, doc: Document, name: Option<&str>) -> Result<DataValue, Error> {
    schema.execute_document(QLContext::new(), doc, name.map(|n| n.to_string()))
}

#[test]
fn hello_world() {
    let result = run(&hello_schema(), document(vec![bare(vec![select("hello")])]), None);
    assert_eq!(result, Ok(data(object(vec![("hello", text("world"))]))));
}

#[test]
fn a_field_stands_under_its_alias() {
    let doc = document(vec![bare(vec![call(Some("x"), "hello", vec![], vec![])])]);
    assert_eq!(run(&hello_schema(), doc, None), Ok(data(object(vec![("x", text("world"))]))));
}

#[test]
fn one_root_field_can_be_asked_under_several_aliases() {
    let doc = document(vec![query(
        None,
        vec![
            call(Some("b"), "hello", vec![], vec![]),
            select("answer"),
            call(Some("a"), "hello", vec![], vec![]),
            call(Some("answer"), "hello", vec![], vec![]),
        ],
    )]);
    assert_eq!(
        run(&hello_schema(), doc, None),
        Ok(data(object(vec![("a", text("world")), ("answer", text("world")), ("b", text("world"))])))
    );
}

#[test]
fn mutations_store_and_queries_read_back() {
    let items: Items = Rc::new(RefCell::new(HashMap::new()));
    let schema = item_schema(items);
    let both = vec![select("id"), select("val")];
    let first = document(vec![mutation(
        None,
        vec![call(
            Some("add1"),
            "addItem",
            vec![
                ("id", LiteralValue::String("1".to_string())),
                ("val", LiteralValue::String("one".to_string())),
            ],
            both.iter().map(|s| clone_selection(s)).collect(),
        )],
    )]);
    assert_eq!(
        run(&schema, first, None),
        Ok(data(object(vec![("add1", object(vec![("id", text("1")), ("val", text("one"))]))])))
    );
    let second = document(vec![mutation(
        Some("Add"),
        vec![call(
            None,
            "addItem",
            vec![
                ("id", LiteralValue::String("2".to_string())),
                ("val", LiteralValue::String("two".to_string())),
            ],
            vec![select("val")],
        )],
    )]);
    assert_eq!(
        run(&schema, second, None),
        Ok(data(object(vec![("addItem", object(vec![("val", text("two"))]))])))
    );
    let read = document(vec![bare(vec![
        call(Some("get1"), "item", vec![("id", LiteralValue::String("1".to_string()))], vec![select("id"), select("val")]),
        call(Some("get2"), "item", vec![("id", LiteralValue::String("2".to_string()))], vec![select("id"), select("val")]),
        call(Some("get3"), "item", vec![("id", LiteralValue::String("3".to_string()))], vec![select("id"), select("val")]),
    ])]);
    assert_eq!(
        run(&schema, read, None),
        Ok(data(object(vec![
            ("get1", object(vec![("id", text("1")), ("val", text("one"))])),
            ("get2", object(vec![("id", text("2")), ("val", text("two"))])),
            ("get3", DataValue::Null),
        ])))
    );
}

fn clone_selection(s: &Selection) -> Selection {
    match s {
        Selection::Field(f) => select(f.name.as_str()),
        Selection::FragmentSpread(fs) => {
            Selection::FragmentSpread(FragmentSpread { fragment_name: fs.fragment_name.clone() })
        },
        Selection::InlineFragment(_) => {
            Selection::InlineFragment(InlineFragment { selection_set: SelectionSet { items: vec![] } })
        },
    }
}

#[test]
fn two_named_queries_need_a_name() {
    let doc = || {
        document(vec![
            query(Some("First"), vec![select("hello")]),
            query(Some("Second"), vec![select("answer")]),
        ])
    };
    let schema = hello_schema();
    assert_eq!(run(&schema, doc(), None), Err(Error::MultipleOperationNeedTarget));
    assert_eq!(run(&schema, doc(), Some("Third")), Err(Error::MultipleOperationNeedTarget));
    assert_eq!(
        run(&schema, doc(), Some("First")),
        Ok(data(object(vec![("hello", text("world"))])))
    );
    assert_eq!(
        run(&schema, doc(), Some("Second")),
        Ok(data(object(vec![("answer", DataValue::Int(42))])))
    );
}

#[test]
fn the_operation_that_is_not_chosen_is_not_run() {
    let doc = document(vec![
        query(Some("Good"), vec![select("hello")]),
        query(Some("Bad"), vec![select("unknown")]),
        subscription(Some("Worse"), vec![select("hello")]),
    ]);
    assert_eq!(
        run(&hello_schema(), doc, Some("Good")),
        Ok(data(object(vec![("hello", text("world"))])))
    );
}

#[test]
fn a_name_shared_by_operations_of_two_kinds_chooses_none() {
    let items: Items = Rc::new(RefCell::new(HashMap::new()));
    let doc = document(vec![
        query(Some("Same"), vec![select("item")]),
        mutation(Some("Same"), vec![select("addItem")]),
        query(Some("Other"), vec![select("item")]),
    ]);
    assert_eq!(run(&item_schema(items), doc, Some("Same")), Err(Error::MultipleOperationNeedTarget));
}

#[test]
fn a_single_operation_runs_without_a_name_or_under_its_own() {
    let schema = hello_schema();
    let doc = || document(vec![query(Some("Only"), vec![select("hello")])]);
    let expected = Ok(data(object(vec![("hello", text("world"))])));
    assert_eq!(run(&schema, doc(), None), expected);
    assert_eq!(run(&schema, doc(), Some("Only")), expected);
    assert_eq!(
        run(&schema, doc(), Some("Else")),
        Err(Error::NotFoundError("operation Else".to_string()))
    );
    assert_eq!(
        run(&schema, document(vec![bare(vec![select("hello")])]), Some("Any")),
        Err(Error::NotFoundError("operation Any".to_string()))
    );
}

#[test]
fn an_anonymous_operation_must_be_alone() {
    let schema = hello_schema();
    let doc = || {
        document(vec![
            query(Some("Named"), vec![select("hello")]),
            bare(vec![select("answer")]),
        ])
    };
    assert_eq!(run(&schema, doc(), None), Err(Error::MustBeDefinedAnonymousOperation));
    assert_eq!(run(&schema, doc(), Some("Named")), Err(Error::MustBeDefinedAnonymousOperation));
    let mixed = document(vec![query(None, vec![select("hello")]), mutation(None, vec![])]);
    assert_eq!(run(&schema, mixed, None), Err(Error::MustBeDefinedAnonymousOperation));
}

#[test]
fn two_operations_of_one_kind_and_name_are_refused() {
    let schema = hello_schema();
    let doc = document(vec![
        query(Some("A"), vec![select("hello")]),
        query(Some("B"), vec![select("hello")]),
        query(Some("A"), vec![select("answer")]),
        query(Some("B"), vec![select("answer")]),
    ]);
    assert_eq!(run(&schema, doc, Some("A")), Err(Error::OnlyOneOperationCanNamed("A".to_string())));
    let anonymous = document(vec![bare(vec![select("hello")]), query(None, vec![select("answer")])]);
    assert_eq!(run(&schema, anonymous, None), Err(Error::OnlyOneOperationCanNamed(String::new())));
    let kinds = document(vec![
        query(Some("A"), vec![select("hello")]),
        mutation(Some("A"), vec![select("hello")]),
    ]);
    assert_eq!(
        run(&schema, kinds, None),
        Err(Error::MultipleOperationNeedTarget)
    );
}

#[test]
fn a_document_without_operations_is_answered_with_null() {
    let schema = hello_schema();
    assert_eq!(run(&schema, document(vec![]), None), Ok(DataValue::Null));
    assert_eq!(run(&schema, document(vec![]), Some("Any")), Ok(DataValue::Null));
    assert_eq!(
        run(&schema, document(vec![fragment("F", vec![select("hello")])]), None),
        Ok(DataValue::Null)
    );
}

#[test]
fn a_mutation_needs_a_schema_with_mutations() {
    let doc = document(vec![mutation(None, vec![select("addItem")])]);
    assert_eq!(run(&hello_schema(), doc, None), Err(Error::MutationSchemaNotDefined));
}

#[test]
fn a_subscription_is_refused() {
    let doc = document(vec![subscription(Some("S"), vec![select("hello")])]);
    assert_eq!(
        run(&hello_schema(), doc, None),
        Err(Error::UnSupportedYetError("'Subscription' in schema request".to_string()))
    );
}

#[test]
fn an_unknown_root_field_is_not_found() {
    let doc = document(vec![bare(vec![select("hello"), select("nope")])]);
    assert_eq!(
        run(&hello_schema(), doc, None),
        Err(Error::NotFoundError("Query api nope".to_string()))
    );
    let items: Items = Rc::new(RefCell::new(HashMap::new()));
    let doc = document(vec![mutation(None, vec![select("nope")])]);
    assert_eq!(
        run(&item_schema(items), doc, None),
        Err(Error::NotFoundError("Mutation api nope".to_string()))
    );
}

#[test]
fn fragments_at_the_root_are_resolved_in_place() {
    let schema = hello_schema();
    let spread = |name: &str| Selection::FragmentSpread(FragmentSpread { fragment_name: name.to_string() });
    let doc = document(vec![
        bare(vec![
            call(Some("first"), "answer", vec![], vec![]),
            spread("F"),
            call(Some("last"), "answer", vec![], vec![]),
        ]),
        fragment("F", vec![select("hello"), spread("G")]),
        fragment("G", vec![call(Some("first"), "hello", vec![], vec![])]),
    ]);
    assert_eq!(
        run(&schema, doc, None),
        Ok(data(object(vec![
            ("first", text("world")),
            ("hello", text("world")),
            ("last", DataValue::Int(42)),
        ])))
    );
    let unknown = document(vec![bare(vec![select("hello"), spread("Nope")])]);
    assert_eq!(run(&schema, unknown, None), Err(Error::NoSuchFragment("Nope".to_string())));
    let failing = document(vec![
        bare(vec![spread("F"), select("hello")]),
        fragment("F", vec![select("missing")]),
    ]);
    assert_eq!(
        run(&schema, failing, None),
        Err(Error::NotFoundError("Query api missing".to_string()))
    );
}

#[test]
fn inline_fragments_at_the_root_are_refused() {
    let doc = document(vec![bare(vec![Selection::InlineFragment(InlineFragment {
        selection_set: SelectionSet { items: vec![] },
    })])]);
    assert_eq!(
        run(&hello_schema(), doc, None),
        Err(Error::UnSupportedYetError("'InlineFragment' in query(selection sets)".to_string()))
    );
}

#[test]
fn fragments_of_the_document_are_spread_below_root_fields() {
    let items: Items = Rc::new(RefCell::new(HashMap::new()));
    items.borrow_mut().insert("1".to_string(), object(vec![("id", text("1")), ("val", text("one"))]));
    let schema = item_schema(items);
    let spread = |name: &str| Selection::FragmentSpread(FragmentSpread { fragment_name: name.to_string() });
    let doc = document(vec![
        fragment("Whole", vec![select("val"), select("id")]),
        bare(vec![call(
            None,
            "item",
            vec![("id", LiteralValue::String("1".to_string()))],
            vec![spread("Whole"), spread("Later")],
        )]),
        fragment("Later", vec![select("more")]),
        fragment("Later", vec![select("extra")]),
    ]);
    assert_eq!(
        run(&schema, doc, None),
        Ok(data(object(vec![(
            "item",
            object(vec![("extra", DataValue::Null), ("id", text("1")), ("val", text("one"))])
        )])))
    );
}

#[test]
fn a_failing_root_field_fails_the_request() {
    let schema = schema(
        vec![
            ("unset", root(FieldType::ScalarType(ScalarType::Int), Box::new(DefaultApiResolveFunc))),
            ("wrong", root(FieldType::ScalarType(ScalarType::Int), Box::new(Fixed(text("x"))))),
        ],
        None,
    );
    assert_eq!(
        run(&schema, document(vec![bare(vec![select("unset")])]), None),
        Err(Error::DefaultResolveError)
    );
    assert_eq!(
        run(&schema, document(vec![bare(vec![select("wrong")])]), None),
        Err(Error::DataTypeMisMatchError("Int".to_string(), "String".to_string()))
    );
}

#[test]
fn grouping_sorts_definitions_into_fragments_and_operations() {
    let doc = document(vec![
        fragment("F", vec![select("a")]),
        query(Some("Q"), vec![select("hello")]),
        fragment("G", vec![select("b")]),
        mutation(Some("M"), vec![]),
        fragment("F", vec![select("c"), select("d")]),
    ]);
    let grouped = match doc.group() {
        Ok(g) => g,
        Err(_) => panic!("the operations differ"),
    };
    assert_eq!(grouped.operations.len(), 2);
    assert_eq!(grouped.operations[0].get_kind(), OperationKind::Query);
    assert_eq!(grouped.operations[0].get_name(), Some(&"Q".to_string()));
    assert_eq!(grouped.operations[0].get_items().len(), 1);
    assert_eq!(grouped.operations[1].get_kind(), OperationKind::Mutation);
    assert!(grouped.operations[1].is_named("M"));
    assert!(!grouped.operations[1].is_named("Q"));
    assert!(!grouped.operations[0].has_same_key(&grouped.operations[1]));
    assert!(grouped.operations[0].has_same_key(&grouped.operations[0]));
    assert_eq!(grouped.fragments.len(), 2);
    assert_eq!(grouped.fragments.get("F").map(|f| f.selection_set.items.len()), Some(2));
    assert_eq!(grouped.fragments.get("G").map(|f| f.selection_set.items.len()), Some(1));
    assert!(grouped.expand_within(0));
}

#[test]
fn grouped_documents_are_tested_for_spreads_without_end() {
    let spread = |name: &str| Selection::FragmentSpread(FragmentSpread { fragment_name: name.to_string() });
    let good = document(vec![
        query(Some("Q"), vec![call(None, "hello", vec![], vec![spread("A")])]),
        fragment("A", vec![spread("B")]),
        fragment("B", vec![select("x")]),
        fragment("Unused", vec![spread("Unused")]),
    ]);
    let grouped = good.group().ok().unwrap();
    assert!(!grouped.expand_within(1));
    assert!(grouped.expand_within(2));
    assert!(grouped.expand_within(grouped.fragments.len()));
    assert!(grouped.ends());
    let bad = document(vec![
        query(Some("Q"), vec![call(None, "hello", vec![], vec![spread("A")])]),
        fragment("A", vec![spread("B")]),
        fragment("B", vec![spread("A")]),
    ]);
    let grouped = bad.group().ok().unwrap();
    assert!(!grouped.expand_within(grouped.fragments.len()));
    assert!(!grouped.expand_within(50));
    assert!(!grouped.ends());
}

#[test]
fn a_grouped_document_is_answered_like_the_document() {
    let schema = hello_schema();
    let grouped = document(vec![
        query(Some("First"), vec![select("hello")]),
        query(Some("Second"), vec![select("answer")]),
    ])
    .group()
    .ok()
    .unwrap();
    assert!(grouped.expand_within(0));
    let mut context = QLContext::new();
    assert_eq!(
        schema.execute_grouped(&mut context, &grouped, Some("Second")),
        Ok(data(object(vec![("answer", DataValue::Int(42))])))
    );
    assert_eq!(
        schema.execute_grouped(&mut context, &grouped, None),
        Err(Error::MultipleOperationNeedTarget)
    );
    assert_eq!(
        schema.execute_operate(&mut context, &grouped.fragments, &grouped.operations[0]),
        Ok(object(vec![("hello", text("world"))]))
    );
}

#[test]
fn choosing_an_operation() {
    let ops = |defs: Vec<Definition>| -> Vec<OperationDefinition> {
        defs.into_iter()
            .filter_map(|d| match d {
                Definition::Operation(op) => Some(op),
                Definition::Fragment(_) => None,
            })
            .collect()
    };
    assert_eq!(choose_operation(&ops(vec![]), None), Ok(None));
    assert_eq!(choose_operation(&ops(vec![]), Some("A")), Ok(None));
    let one = ops(vec![query(Some("A"), vec![])]);
    assert_eq!(choose_operation(&one, None), Ok(Some(0)));
    assert_eq!(choose_operation(&one, Some("A")), Ok(Some(0)));
    assert_eq!(choose_operation(&one, Some("B")), Err(Error::NotFoundError("operation B".to_string())));
    let three = ops(vec![
        query(Some("A"), vec![]),
        mutation(Some("B"), vec![]),
        subscription(Some("C"), vec![]),
    ]);
    assert_eq!(choose_operation(&three, Some("A")), Ok(Some(0)));
    assert_eq!(choose_operation(&three, Some("B")), Ok(Some(1)));
    assert_eq!(choose_operation(&three, Some("C")), Ok(Some(2)));
    assert_eq!(choose_operation(&three, Some("D")), Err(Error::MultipleOperationNeedTarget));
    assert_eq!(choose_operation(&three, None), Err(Error::MultipleOperationNeedTarget));
    let with_anonymous = ops(vec![query(Some("A"), vec![]), bare(vec![])]);
    assert_eq!(
        choose_operation(&with_anonymous, Some("A")),
        Err(Error::MustBeDefinedAnonymousOperation)
    );
}

#[test]
fn a_checked_request_is_answered_where_its_spreads_end() {
    let schema = hello_schema();
    let spread = |name: &str| Selection::FragmentSpread(FragmentSpread { fragment_name: name.to_string() });
    let good = document(vec![
        bare(vec![call(None, "hello", vec![], vec![spread("A")])]),
        fragment("A", vec![spread("B"), spread("C")]),
        fragment("B", vec![select("x"), spread("C")]),
        fragment("C", vec![select("y")]),
        fragment("Unused", vec![spread("Unused")]),
    ]);
    assert_eq!(
        schema.execute_checked(QLContext::new(), good, None),
        Some(Ok(data(object(vec![("hello", text("world"))]))))
    );
    let endless = document(vec![
        bare(vec![call(None, "hello", vec![], vec![spread("A")])]),
        fragment("A", vec![select("x"), spread("B")]),
        fragment("B", vec![select_in("f", vec![spread("A")])]),
    ]);
    assert_eq!(schema.execute_checked(QLContext::new(), endless, None), None);
    let twice = document(vec![
        query(Some("A"), vec![call(None, "hello", vec![], vec![spread("L")])]),
        query(Some("A"), vec![select("hello")]),
        fragment("L", vec![spread("L")]),
    ]);
    assert_eq!(
        schema.execute_checked(QLContext::new(), twice, Some("A".to_string())),
        Some(Err(Error::OnlyOneOperationCanNamed("A".to_string())))
    );
    let failing = document(vec![query(Some("Q"), vec![select("unknown")])]);
    assert_eq!(
        schema.execute_checked(QLContext::new(), failing, Some("Q".to_string())),
        Some(Err(Error::NotFoundError("Query api unknown".to_string())))
    );
}

fn select_in(name: &str, items: Vec<Selection>) -> Selection {
    call(None, name, vec![], items)
}

#[test]
fn a_root_field_executes_its_resolver_and_coerces_the_result() {
    let schema = hello_schema();
    let request = RequestField {
        alias: Some("greeting".to_string()),
        name: "hello".to_string(),
        arguments: vec![],
        selection_set: SelectionSet { items: vec![] },
    };
    let mut context = QLContext::new();
    let hello = schema.queries.get("hello").unwrap();
    assert_eq!(hello.execute(&schema, &mut context, &StrMap::new(), &request), Ok(text("world")));
    let wrong = root(FieldType::ScalarType(ScalarType::Boolean), Box::new(Fixed(DataValue::Int(0))));
    assert_eq!(
        wrong.execute(&schema, &mut context, &StrMap::new(), &request),
        Err(Error::DataTypeMisMatchError("Boolean".to_string(), "Int".to_string()))
    );
}
