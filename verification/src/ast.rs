//! A parsed request: the document that the executor consumes.
//!
//! The types hold what execution reads of a document. Positions, directives,
//! variable definitions and type conditions are not among it.
use crate::error::{Error, Failure};
use crate::keyed::{
    ascending, holds_key, key_lt, lemma_same_keys, place_of, same_text, StrMap,
};
use crate::value::{DataValue, FloatBits, Value};
use vstd::prelude::*;

verus! {

/// A request document: operations and fragments in the order of the text.
#[derive(Debug, PartialEq)]
pub struct Document {
    pub definitions: Vec<Definition>,
}

/// One definition of a document.
#[derive(Debug, PartialEq)]
pub enum Definition {
    Operation(OperationDefinition),
    Fragment(FragmentDefinition),
}

/// A named selection set that other selection sets can spread.
#[derive(Debug, PartialEq)]
pub struct FragmentDefinition {
    pub name: String,
    pub selection_set: SelectionSet,
}

/// An operation. A bare selection set is an anonymous query.
#[derive(Debug, PartialEq)]
pub enum OperationDefinition {
    SelectionSet(SelectionSet),
    Query(Query),
    Mutation(Mutation),
    Subscription(Subscription),
}

/// A query operation.
#[derive(Debug, PartialEq)]
pub struct Query {
    pub name: Option<String>,
    pub selection_set: SelectionSet,
}

/// A mutation operation.
#[derive(Debug, PartialEq)]
pub struct Mutation {
    pub name: Option<String>,
    pub selection_set: SelectionSet,
}

/// A subscription operation.
#[derive(Debug, PartialEq)]
pub struct Subscription {
    pub name: Option<String>,
    pub selection_set: SelectionSet,
}

/// The selections between one pair of braces.
#[derive(Debug, PartialEq)]
pub struct SelectionSet {
    pub items: Vec<Selection>,
}

/// One selection of a selection set.
#[derive(Debug, PartialEq)]
pub enum Selection {
    Field(Field),
    FragmentSpread(FragmentSpread),
    InlineFragment(InlineFragment),
}

/// A requested field, with its arguments and the selections below it.
#[derive(Debug, PartialEq)]
pub struct Field {
    pub alias: Option<String>,
    pub name: String,
    pub arguments: Vec<(String, LiteralValue)>,
    pub selection_set: SelectionSet,
}

/// The use of a fragment by its name.
#[derive(Debug, PartialEq)]
pub struct FragmentSpread {
    pub fragment_name: String,
}

/// A fragment written in place.
#[derive(Debug, PartialEq)]
pub struct InlineFragment {
    pub selection_set: SelectionSet,
}

/// A value written in the request text.
#[derive(Debug, PartialEq)]
pub enum LiteralValue {
    Variable(String),
    Int(i64),
    Float(FloatBits),
    String(String),
    Boolean(bool),
    Null,
    Enum(String),
    List(Vec<LiteralValue>),
    Object(StrMap<LiteralValue>),
}

impl View for LiteralValue {
    type V = Value;

    /// The value that the literal stands for. A variable stands for its own
    /// name and an enum literal for its name, both as strings.
    open(crate) spec fn view(&self) -> Value
        decreases self,
    {
        match self {
            LiteralValue::Variable(s) => Value::String(s@),
            LiteralValue::Int(i) => Value::Int(*i as int),
            LiteralValue::Float(f) => Value::Float(f.bits as int),
            LiteralValue::String(s) => Value::String(s@),
            LiteralValue::Boolean(b) => Value::Boolean(*b),
            LiteralValue::Null => Value::Null,
            LiteralValue::Enum(s) => Value::String(s@),
            LiteralValue::List(l) => Value::List(
                Seq::new(
                    l@.len(),
                    |i: int|
                        if 0 <= i < l@.len() {
                            l@[i].view()
                        } else {
                            Value::Null
                        },
                ),
            ),
            LiteralValue::Object(m) => Value::Object(
                Map::new(
                    |k: Seq<char>| holds_key(m.entries@, k),
                    |k: Seq<char>|
                        if holds_key(m.entries@, k) {
                            m.entries@[place_of(m.entries@, k)].1.view()
                        } else {
                            Value::Null
                        },
                ),
            ),
        }
    }
}

/// What the values of a map of literals stand for, key by key.
pub open spec fn literal_map(m: Map<Seq<char>, LiteralValue>) -> Map<Seq<char>, Value> {
    m.map_values(|v: LiteralValue| v@)
}

/// What the items of a list of literals stand for, item by item.
pub open spec fn literal_list(l: Seq<LiteralValue>) -> Seq<Value> {
    l.map_values(|v: LiteralValue| v@)
}

/// What each kind of literal stands for.
pub proof fn lemma_literal_view(v: LiteralValue)
    ensures
        v matches LiteralValue::Variable(s) ==> v@ == Value::String(s@),
        v matches LiteralValue::Int(i) ==> v@ == Value::Int(i as int),
        v matches LiteralValue::Float(f) ==> v@ == Value::Float(f.bits as int),
        v matches LiteralValue::String(s) ==> v@ == Value::String(s@),
        v matches LiteralValue::Boolean(b) ==> v@ == Value::Boolean(b),
        v is Null ==> v@ == Value::Null,
        v matches LiteralValue::Enum(s) ==> v@ == Value::String(s@),
        v matches LiteralValue::List(l) ==> v@ == Value::List(literal_list(l@)),
        v matches LiteralValue::Object(m) ==> v@ == Value::Object(literal_map(m@)),
{
    match v {
        LiteralValue::List(l) => {
            assert(v@->List_0 =~= literal_list(l@));
        },
        LiteralValue::Object(m) => {
            assert(v@->Object_0 =~= literal_map(m@));
        },
        _ => {},
    }
}

impl DataValue {
    /// The value that a literal of the request text stands for.
    pub fn from(value: &LiteralValue) -> (r: DataValue)
        ensures
            r@ == value@,
        decreases value,
    {
        match value {
            LiteralValue::Variable(s) => DataValue::String(s.clone()),
            LiteralValue::Int(num) => DataValue::Int(*num),
            LiteralValue::Float(f) => DataValue::Float(*f),
            LiteralValue::String(s) => DataValue::String(s.clone()),
            LiteralValue::Boolean(b) => DataValue::Boolean(*b),
            LiteralValue::Null => DataValue::Null,
            LiteralValue::Enum(s) => DataValue::String(s.clone()),
            LiteralValue::List(list) => {
                let mut items: Vec<DataValue> = Vec::new();
                let mut i: usize = 0;
                while i < list.len()
                    invariant
                        0 <= i <= list@.len(),
                        items@.len() == i,
                        *value == LiteralValue::List(*list),
                        forall|j: int| 0 <= j < i ==> (#[trigger] items@[j])@ == list@[j]@,
                    decreases list@.len() - i,
                {
                    assert(value->List_0 == *list);
                    assert(decreases_to!(*value => value->List_0));
                    assert(decreases_to!(*list => list[i as int]));
                    let item = DataValue::from(&list[i]);
                    items.push(item);
                    i = i + 1;
                }
                proof {
                    assert(DataValue::List(items)@->List_0 =~= value@->List_0);
                }
                DataValue::List(items)
            },
            LiteralValue::Object(map) => {
                proof {
                    use_type_invariant(map);
                }
                let mut entries: Vec<(String, DataValue)> = Vec::new();
                let mut i: usize = 0;
                while i < map.entries.len()
                    invariant
                        0 <= i <= map.entries@.len(),
                        entries@.len() == i,
                        *value == LiteralValue::Object(*map),
                        forall|j: int|
                            0 <= j < i ==> (#[trigger] entries@[j]).0@ == map.entries@[j].0@
                                && entries@[j].1@ == map.entries@[j].1@,
                    decreases map.entries@.len() - i,
                {
                    assert(value->Object_0 == *map);
                    assert(decreases_to!(*value => value->Object_0));
                    assert(decreases_to!(*map => map.entries));
                    assert(decreases_to!(map.entries => map.entries[i as int]));
                    assert(decreases_to!(map.entries[i as int] => map.entries[i as int].1));
                    let key = map.entries[i].0.clone();
                    let item = DataValue::from(&map.entries[i].1);
                    entries.push((key, item));
                    i = i + 1;
                }
                proof {
                    assert(ascending(entries@)) by {
                        assert forall|a: int, b: int| 0 <= a < b < entries@.len() implies key_lt(
                            (#[trigger] entries@[a]).0@,
                            (#[trigger] entries@[b]).0@,
                        ) by {
                            assert(key_lt(map.entries@[a].0@, map.entries@[b].0@));
                        }
                    }
                }
                let fields = StrMap { entries };
                proof {
                    lemma_same_keys(fields.entries@, map.entries@);
                    assert(DataValue::Object(fields)@->Object_0 =~= value@->Object_0);
                }
                DataValue::Object(fields)
            },
        }
    }
}

/// The three kinds of operation. A bare selection set is a query.
#[derive(Clone, Copy, Debug, PartialEq, Eq, Structural)]
pub enum OperationKind {
    Query,
    Mutation,
    Subscription,
}

/// The characters of a name that may be missing.
pub open spec fn name_of(name: Option<String>) -> Option<Seq<char>> {
    match name {
        Some(n) => Some(n@),
        None => None,
    }
}

impl OperationDefinition {
    /// The kind of the operation.
    pub open spec fn kind(self) -> OperationKind {
        match self {
            OperationDefinition::SelectionSet(_) => OperationKind::Query,
            OperationDefinition::Query(_) => OperationKind::Query,
            OperationDefinition::Mutation(_) => OperationKind::Mutation,
            OperationDefinition::Subscription(_) => OperationKind::Subscription,
        }
    }

    /// The name of the operation, where it has one.
    pub open spec fn name(self) -> Option<Seq<char>> {
        match self {
            OperationDefinition::SelectionSet(_) => None,
            OperationDefinition::Query(q) => name_of(q.name),
            OperationDefinition::Mutation(m) => name_of(m.name),
            OperationDefinition::Subscription(s) => name_of(s.name),
        }
    }

    /// The name of the operation as a text: empty where it has none.
    pub open spec fn name_text(self) -> Seq<char> {
        match self.name() {
            Some(n) => n,
            None => Seq::empty(),
        }
    }

    /// The selections of the operation.
    pub open spec fn items(self) -> Seq<Selection> {
        match self {
            OperationDefinition::SelectionSet(s) => s.items@,
            OperationDefinition::Query(q) => q.selection_set.items@,
            OperationDefinition::Mutation(m) => m.selection_set.items@,
            OperationDefinition::Subscription(s) => s.selection_set.items@,
        }
    }

    /// Whether the operation is called `s`.
    pub open spec fn named(self, s: Seq<char>) -> bool {
        self.name() == Some(s)
    }

    /// Whether two operations are of one kind and have the same name, or are
    /// of one kind and both without a name.
    pub open spec fn same_key(self, other: OperationDefinition) -> bool {
        self.kind() == other.kind() && self.name() == other.name()
    }

    /// The kind of the operation.
    pub fn get_kind(&self) -> (k: OperationKind)
        ensures
            k == self.kind(),
    {
        match self {
            OperationDefinition::SelectionSet(_) => OperationKind::Query,
            OperationDefinition::Query(_) => OperationKind::Query,
            OperationDefinition::Mutation(_) => OperationKind::Mutation,
            OperationDefinition::Subscription(_) => OperationKind::Subscription,
        }
    }

    /// The name of the operation, where it has one.
    pub fn get_name(&self) -> (n: Option<&String>)
        ensures
            n is Some == self.name() is Some,
            n matches Some(text) ==> self.name() == Some(text@),
    {
        match self {
            OperationDefinition::SelectionSet(_) => None,
            OperationDefinition::Query(q) => q.name.as_ref(),
            OperationDefinition::Mutation(m) => m.name.as_ref(),
            OperationDefinition::Subscription(s) => s.name.as_ref(),
        }
    }

    /// The selections of the operation.
    pub fn get_items(&self) -> (items: &Vec<Selection>)
        ensures
            items@ == self.items(),
    {
        match self {
            OperationDefinition::SelectionSet(s) => &s.items,
            OperationDefinition::Query(q) => &q.selection_set.items,
            OperationDefinition::Mutation(m) => &m.selection_set.items,
            OperationDefinition::Subscription(s) => &s.selection_set.items,
        }
    }

    /// Whether the operation is called `s`.
    pub fn is_named(&self, s: &str) -> (b: bool)
        ensures
            b == self.named(s@),
    {
        match self.get_name() {
            Some(n) => same_text(n.as_str(), s),
            None => false,
        }
    }

    /// Whether two operations are of one kind and have the same name, or are
    /// of one kind and both without a name.
    pub fn has_same_key(&self, other: &OperationDefinition) -> (b: bool)
        ensures
            b == self.same_key(*other),
    {
        if self.get_kind() == other.get_kind() {
            match (self.get_name(), other.get_name()) {
                (Some(a), Some(b)) => same_text(a.as_str(), b.as_str()),
                (None, None) => true,
                _ => false,
            }
        } else {
            false
        }
    }
}

/// The fragments that a sequence of definitions defines, by name. Where a
/// name is defined twice the later definition stands.
pub open spec fn fragments_of(defs: Seq<Definition>) -> Map<Seq<char>, FragmentDefinition>
    decreases defs.len(),
{
    if defs.len() == 0 {
        Map::empty()
    } else {
        match defs.last() {
            Definition::Fragment(f) => fragments_of(defs.drop_last()).insert(f.name@, f),
            Definition::Operation(_) => fragments_of(defs.drop_last()),
        }
    }
}

/// The operations that a sequence of definitions defines, in their order.
pub open spec fn operations_of(defs: Seq<Definition>) -> Seq<OperationDefinition>
    decreases defs.len(),
{
    if defs.len() == 0 {
        Seq::empty()
    } else {
        match defs.last() {
            Definition::Operation(op) => operations_of(defs.drop_last()).push(op),
            Definition::Fragment(_) => operations_of(defs.drop_last()),
        }
    }
}

/// Whether the operation at `j` has the kind and the name of one before it.
pub open spec fn repeats(ops: Seq<OperationDefinition>, j: int) -> bool {
    exists|i: int| 0 <= i < j && (#[trigger] ops[i]).same_key(ops[j])
}

/// Whether `j` is the first position whose operation has the kind and the
/// name of one before it.
pub open spec fn first_repeat(ops: Seq<OperationDefinition>, j: int) -> bool {
    &&& 0 <= j < ops.len()
    &&& repeats(ops, j)
    &&& forall|k: int| 0 <= k < j ==> !repeats(ops, k)
}

/// The definitions of a document, sorted into fragments and operations.
#[derive(Debug, PartialEq)]
pub struct Grouped {
    pub fragments: StrMap<FragmentDefinition>,
    pub operations: Vec<OperationDefinition>,
}

impl Document {
    /// The fragments of the document, by name.
    pub open spec fn fragments(self) -> Map<Seq<char>, FragmentDefinition> {
        fragments_of(self.definitions@)
    }

    /// The operations of the document, in their order.
    pub open spec fn operations(self) -> Seq<OperationDefinition> {
        operations_of(self.definitions@)
    }

    /// Sorts the definitions into fragments and operations. Two operations of
    /// one kind with the same name, or of one kind and both without a name,
    /// are a failure, which names the first operation that repeats another.
    pub fn group(self) -> (out: Result<Grouped, Error>)
        ensures
            match out {
                Ok(g) => {
                    &&& g.fragments@ == self.fragments()
                    &&& g.operations@ == self.operations()
                    &&& forall|j: int| 0 <= j < self.operations().len() ==> !repeats(self.operations(), j)
                },
                Err(e) => exists|j: int| #[trigger]
                    first_repeat(self.operations(), j) && e@ == Failure::OnlyOneOperationCanNamed(
                        self.operations()[j].name_text(),
                    ),
            },
    {
        let ghost defs = self.definitions@;
        let mut rest = self.definitions;
        let mut fragments: StrMap<FragmentDefinition> = StrMap::new();
        let mut operations: Vec<OperationDefinition> = Vec::new();
        let n = rest.len();
        let mut i: usize = 0;
        assert(defs.take(0) =~= Seq::<Definition>::empty());
        while i < n
            invariant
                n == rest@.len(),
                n == defs.len(),
                0 <= i <= n,
                forall|j: int| i <= j < n ==> rest@[j] == defs[j],
                fragments@ == fragments_of(defs.take(i as int)),
                operations@ == operations_of(defs.take(i as int)),
            decreases n - i,
        {
            let mut def = Definition::Fragment(
                FragmentDefinition {
                    name: String::new(),
                    selection_set: SelectionSet { items: Vec::new() },
                },
            );
            core::mem::swap(&mut rest[i], &mut def);
            proof {
                let prefix = defs.take(i as int + 1);
                assert(prefix.drop_last() =~= defs.take(i as int));
                assert(prefix.last() == defs[i as int]);
            }
            match def {
                Definition::Fragment(f) => {
                    fragments.insert(f.name.clone(), f);
                },
                Definition::Operation(op) => {
                    operations.push(op);
                },
            }
            i = i + 1;
        }
        assert(defs.take(i as int) =~= defs);
        let ghost ops = operations@;
        let m = operations.len();
        let mut j: usize = 0;
        while j < m
            invariant
                m == ops.len(),
                ops == operations@,
                ops == self.operations(),
                fragments@ == self.fragments(),
                0 <= j <= m,
                forall|k: int| 0 <= k < j ==> !repeats(ops, k),
            decreases m - j,
        {
            let mut k: usize = 0;
            while k < j
                invariant
                    m == ops.len(),
                    ops == operations@,
                    ops == self.operations(),
                    0 <= k <= j < m,
                    forall|l: int| 0 <= l < j ==> !repeats(ops, l),
                    forall|l: int| 0 <= l < k ==> !(#[trigger] ops[l]).same_key(ops[j as int]),
                decreases j - k,
            {
                if operations[k].has_same_key(&operations[j]) {
                    let text = match operations[j].get_name() {
                        Some(name) => name.clone(),
                        None => String::new(),
                    };
                    proof {
                        assert(first_repeat(ops, j as int));
                    }
                    return Err(Error::OnlyOneOperationCanNamed(text));
                }
                k = k + 1;
            }
            j = j + 1;
        }
        Ok(Grouped { fragments, operations })
    }
}

} // verus!
