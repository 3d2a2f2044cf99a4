//! How a value is coerced against a declared type, and how the selections of
//! a request are resolved against an object type.
//!
//! What an execution may do is stated as a relation between the context
//! before it, the context after it and its result, built from the relations
//! that the resolvers state of themselves.
use crate::ast;
use crate::ast::{FragmentDefinition, Selection};
use crate::error::{Error, Failure};
use crate::keyed::{same_text, StrMap};
use crate::schema::field::Field;
use crate::schema::resolve::{
    arguments_of, outcome, ArgumentValueMap, Outcome, QLApiParam, QLContext, Store,
};
use crate::schema::types::{
    DirectEnum, DirectObject, EnumType, FieldType, ObjectType, ScalarType, StaticType,
};
use crate::schema::Schema;
use crate::value::{
    copy_fields, deep, deep_list, kind_name, lemma_view_list, lemma_view_object, DataValue, Value,
};
use vstd::prelude::*;

verus! {

/// The fragments of a document, by name.
pub type FragmentMap = StrMap<FragmentDefinition>;

/// What a fragment table holds.
pub type Fragments = Map<Seq<char>, FragmentDefinition>;

/// What resolving a selection set gives: the fields of an object or a failure.
pub type Selected = Result<Store, Failure>;

/// Names the state between two steps of an execution: what the context
/// holds there and what the first step gave. It holds of every state; the
/// relations below quantify over such states and are found by it.
pub open spec fn mid<T>(context: Store, result: T) -> bool {
    true
}

/// Whether every fragment spread in `sels`, and in what the spreads bring
/// in, is expanded after at most `fuel` spreads inside one another. A spread
/// of a fragment that `frags` does not hold expands to nothing.
pub open spec fn expands_within(frags: Fragments, sels: Seq<Selection>, fuel: nat) -> bool
    decreases fuel, sels,
{
    forall|i: int|
        0 <= i < sels.len() ==> match #[trigger] sels[i] {
            Selection::Field(f) => expands_within(frags, f.selection_set.items@, fuel),
            Selection::FragmentSpread(fs) => frags.contains_key(fs.fragment_name@) ==> fuel > 0
                && expands_within(
                frags,
                frags[fs.fragment_name@].selection_set.items@,
                (fuel - 1) as nat,
            ),
            Selection::InlineFragment(_) => true,
        }
}

impl StaticType {
    /// The name of the scalar.
    pub open spec fn name(self) -> Seq<char> {
        match self {
            StaticType::ID => "ID"@,
            StaticType::String => "String"@,
            StaticType::Int => "Int"@,
            StaticType::Float => "Float"@,
            StaticType::Boolean => "Boolean"@,
            StaticType::DateTime => "DateTime"@,
        }
    }

    /// Whether a value is of the scalar. An identifier is a string.
    pub open spec fn fits(self, data: Value) -> bool {
        match self {
            StaticType::ID => data is String,
            StaticType::String => data is String,
            StaticType::Int => data is Int,
            StaticType::Float => data is Float,
            StaticType::Boolean => data is Boolean,
            StaticType::DateTime => data is DateTime,
        }
    }

    /// What coercing `data` against the scalar gives: the value itself where
    /// it is of the scalar, else the mismatch of the scalar and the value's kind.
    pub open spec fn result(self, data: Value) -> Outcome {
        if self.fits(data) {
            Ok(data)
        } else {
            Err(Failure::DataTypeMisMatchError(self.name(), kind_name(data)))
        }
    }
}

impl ScalarType {
    /// What coercing `data` against the scalar may give.
    pub open spec fn coerces(self, data: Value, out: Outcome) -> bool {
        match self {
            ScalarType::ID => out == StaticType::ID.result(data),
            ScalarType::String => out == StaticType::String.result(data),
            ScalarType::Int => out == StaticType::Int.result(data),
            ScalarType::Float => out == StaticType::Float.result(data),
            ScalarType::Boolean => out == StaticType::Boolean.result(data),
            ScalarType::DateTime => out == StaticType::DateTime.result(data),
            ScalarType::CustomScalar(custom) => custom.accepts(data, out),
        }
    }
}

impl DirectEnum {
    /// Whether `s` is a member of the enum.
    pub open spec fn has_member(self, s: Seq<char>) -> bool {
        exists|i: int| 0 <= i < self.values@.len() && (#[trigger] self.values@[i]).value@ == s
    }

    /// What coercing `data` against the enum gives: the value itself where it
    /// is a string that names a member.
    pub open spec fn result(self, data: Value) -> Outcome {
        match data {
            Value::String(s) => if self.has_member(s) {
                Ok(data)
            } else {
                Err(
                    Failure::NotFoundError(
                        "enum value: "@ + s + " in enum: "@ + self.name@ + " "@,
                    ),
                )
            },
            _ => Err(
                Failure::DataTypeMisMatchError("Enum with String value"@, kind_name(data)),
            ),
        }
    }
}

impl EnumType {
    /// What coercing `data` against the enum gives. A name that the registry
    /// of `schema` does not hold is a failure.
    pub open spec fn result(self, schema: Schema, data: Value) -> Outcome {
        match self {
            EnumType::DirectEnum(e) => e.result(data),
            EnumType::LinkEnum(key) => if schema.type_storage.enums@.contains_key(key@) {
                schema.type_storage.enums@[key@].result(data)
            } else {
                Err(Failure::MissingReferenceCustomTypeError)
            },
        }
    }
}

/// How deep a type is wrapped in lists and non-null marks.
pub open spec fn nesting(ty: FieldType) -> nat
    decreases ty,
{
    match ty {
        FieldType::NonNullType(t) => 1 + nesting(*t),
        FieldType::List(t) => 1 + nesting(*t),
        _ => 0,
    }
}

impl FieldType {
    /// What coercing `data` against the type may do, for a field that was
    /// requested with the selections `sels`: `c0` and `c1` are what the
    /// context holds before and after, `out` is the result.
    pub open spec fn coerces(
        self,
        schema: Schema,
        frags: Fragments,
        sels: Seq<Selection>,
        data: Value,
        fuel: nat,
        c0: Store,
        c1: Store,
        out: Outcome,
    ) -> bool
        decreases fuel, sels, 2 * nesting(self) + 3, 0int,
    {
        match self {
            FieldType::ScalarType(t) => c1 == c0 && t.coerces(data, out),
            FieldType::NonNullType(t) => if data is Null {
                c1 == c0 && out == Err::<Value, Failure>(
                    Failure::DataTypeMisMatchError("NonNull<...>"@, "Null"@),
                )
            } else {
                t.coerces(schema, frags, sels, data, fuel, c0, c1, out)
            },
            FieldType::List(t) => match data {
                Value::List(items) => t.coerces_each(
                    schema,
                    frags,
                    sels,
                    items,
                    0,
                    Seq::empty(),
                    fuel,
                    c0,
                    c1,
                    out,
                ),
                _ => c1 == c0 && out == Err::<Value, Failure>(
                    Failure::DataTypeMisMatchError("List<...>"@, kind_name(data)),
                ),
            },
            FieldType::EnumType(t) => c1 == c0 && out == t.result(schema, data),
            FieldType::ObjectType(t) => t.coerces(schema, frags, sels, data, fuel, c0, c1, out),
        }
    }

    /// What coercing the items of a list from position `i` on may do, one
    /// after the other, where `done` holds the results of those before `i`.
    /// The first failure is the result of the whole list.
    pub open spec fn coerces_each(
        self,
        schema: Schema,
        frags: Fragments,
        sels: Seq<Selection>,
        items: Seq<Value>,
        i: int,
        done: Seq<Value>,
        fuel: nat,
        c0: Store,
        c1: Store,
        out: Outcome,
    ) -> bool
        decreases fuel, sels, 2 * nesting(self) + 4, items.len() - i,
    {
        if i < 0 || i >= items.len() {
            c1 == c0 && out == Ok::<Value, Failure>(Value::List(done))
        } else {
            exists|cm: Store, r: Outcome| #[trigger]
                mid(cm, r) && self.coerces(schema, frags, sels, items[i], fuel, c0, cm, r)
                    && match r {
                    Err(e) => c1 == cm && out == Err::<Value, Failure>(e),
                    Ok(v) => self.coerces_each(
                        schema,
                        frags,
                        sels,
                        items,
                        i + 1,
                        done.push(v),
                        fuel,
                        cm,
                        c1,
                        out,
                    ),
                }
        }
    }
}

impl ObjectType {
    /// What coercing `data` against the object type may do. A name that the
    /// registry of `schema` does not hold is a failure.
    pub open spec fn coerces(
        self,
        schema: Schema,
        frags: Fragments,
        sels: Seq<Selection>,
        data: Value,
        fuel: nat,
        c0: Store,
        c1: Store,
        out: Outcome,
    ) -> bool
        decreases fuel, sels, 2int, 0int,
    {
        match self {
            ObjectType::DirectObject(obj) => obj.coerces(
                schema,
                frags,
                sels,
                data,
                fuel,
                c0,
                c1,
                out,
            ),
            ObjectType::LinkObject(key) => if schema.type_storage.objects@.contains_key(key@) {
                schema.type_storage.objects@[key@].coerces(
                    schema,
                    frags,
                    sels,
                    data,
                    fuel,
                    c0,
                    c1,
                    out,
                )
            } else {
                c1 == c0 && out == Err::<Value, Failure>(Failure::MissingReferenceCustomTypeError)
            },
        }
    }
}

impl DirectObject {
    /// What coercing `data` against the object type may do. Null stays null;
    /// of an object the requested selections are resolved.
    pub open spec fn coerces(
        self,
        schema: Schema,
        frags: Fragments,
        sels: Seq<Selection>,
        data: Value,
        fuel: nat,
        c0: Store,
        c1: Store,
        out: Outcome,
    ) -> bool
        decreases fuel, sels, 1int, 0int,
    {
        match data {
            Value::Object(map) => exists|r: Selected| #[trigger]
                mid(c1, r) && self.selects(
                    schema,
                    frags,
                    sels,
                    0,
                    map,
                    Map::empty(),
                    fuel,
                    c0,
                    c1,
                    r,
                ) && match r {
                    Err(e) => out == Err::<Value, Failure>(e),
                    Ok(fields) => out == Ok::<Value, Failure>(Value::Object(fields)),
                },
            Value::Null => c1 == c0 && out == Ok::<Value, Failure>(Value::Null),
            _ => c1 == c0 && out == Err::<Value, Failure>(
                Failure::DataTypeMisMatchError("Object(CustomType)"@, kind_name(data)),
            ),
        }
    }

    /// What resolving the selections from position `i` on may do, for the
    /// parent's data `data`, where `acc` holds the fields built so far.
    ///
    /// A requested field that the data holds and the type declares is taken
    /// from the data; one that only the data holds is left out; one that only
    /// the type declares is resolved, with the fields built so far as its
    /// source, and coerced; one that neither holds is null. A fragment's
    /// selections are resolved in place, into the same fields. A field that
    /// is selected again is resolved again, and its later value stands.
    pub open spec fn selects(
        self,
        schema: Schema,
        frags: Fragments,
        sels: Seq<Selection>,
        i: int,
        data: Store,
        acc: Store,
        fuel: nat,
        c0: Store,
        c1: Store,
        out: Selected,
    ) -> bool
        decreases fuel, sels, 0int, sels.len() - i,
    {
        if i < 0 || i >= sels.len() {
            c1 == c0 && out == Ok::<Store, Failure>(acc)
        } else {
            match sels[i] {
                Selection::Field(field) => {
                    let name = field.name@;
                    if !data.contains_key(name) && self.fields@.contains_key(name) {
                        exists|cm: Store, r: Outcome| #[trigger]
                            mid(cm, r) && self.fields@[name].executes(
                                schema,
                                frags,
                                field,
                                Value::Object(acc),
                                fuel,
                                c0,
                                cm,
                                r,
                            ) && match r {
                                Err(e) => c1 == cm && out == Err::<Store, Failure>(e),
                                Ok(v) => self.selects(
                                    schema,
                                    frags,
                                    sels,
                                    i + 1,
                                    data,
                                    acc.insert(name, v),
                                    fuel,
                                    cm,
                                    c1,
                                    out,
                                ),
                            }
                    } else {
                        self.selects(
                            schema,
                            frags,
                            sels,
                            i + 1,
                            data,
                            pass(data, self.fields@.contains_key(name), name, acc),
                            fuel,
                            c0,
                            c1,
                            out,
                        )
                    }
                },
                Selection::FragmentSpread(fs) => {
                    let name = fs.fragment_name@;
                    if !frags.contains_key(name) {
                        c1 == c0 && out == Err::<Store, Failure>(Failure::NoSuchFragment(name))
                    } else if fuel == 0 {
                        false
                    } else {
                        exists|cm: Store, r: Selected| #[trigger]
                            mid(cm, r) && self.selects(
                                schema,
                                frags,
                                frags[name].selection_set.items@,
                                0,
                                data,
                                acc,
                                (fuel - 1) as nat,
                                c0,
                                cm,
                                r,
                            ) && match r {
                                Err(e) => c1 == cm && out == Err::<Store, Failure>(e),
                                Ok(merged) => self.selects(
                                    schema,
                                    frags,
                                    sels,
                                    i + 1,
                                    data,
                                    merged,
                                    fuel,
                                    cm,
                                    c1,
                                    out,
                                ),
                            }
                    }
                },
                Selection::InlineFragment(_) => c1 == c0 && out == Err::<Store, Failure>(
                    Failure::UnSupportedYetError("'InlineFragment' in object field"@),
                ),
            }
        }
    }
}

/// The fields built so far after a requested field that needs no resolver:
/// one that the data holds is taken from it where the type declares it and is
/// left out where it does not, and one that the data does not hold is null.
pub open spec fn pass(data: Store, declared: bool, name: Seq<char>, acc: Store) -> Store {
    if data.contains_key(name) {
        if declared {
            acc.insert(name, data[name])
        } else {
            acc.remove(name)
        }
    } else {
        acc.insert(name, Value::Null)
    }
}

impl Field {
    /// What executing the field for the request `field` may do: the resolver
    /// is called with the source, the arguments that the request wrote and
    /// the selections below the requested field, and what it returns is
    /// coerced against the declared type.
    pub open spec fn executes(
        self,
        schema: Schema,
        frags: Fragments,
        field: ast::Field,
        source: Value,
        fuel: nat,
        c0: Store,
        c1: Store,
        out: Outcome,
    ) -> bool
        decreases fuel, field, 0int, 0int,
    {
        exists|cm: Store, r: Outcome| #[trigger]
            self.resolve.resolves(
                c0,
                source,
                arguments_of(field.arguments@),
                field.selection_set.items@,
                cm,
                r,
            ) && match r {
                Err(e) => c1 == cm && out == Err::<Value, Failure>(e),
                Ok(v) => self.field_type.coerces(
                    schema,
                    frags,
                    field.selection_set.items@,
                    v,
                    fuel,
                    cm,
                    c1,
                    out,
                ),
            }
    }
}

/// Where the item at `i` of a list fails, the list fails with it from `i` on.
pub proof fn lemma_coerces_each_fails(
    ty: FieldType,
    schema: Schema,
    frags: Fragments,
    sels: Seq<Selection>,
    items: Seq<Value>,
    i: int,
    done: Seq<Value>,
    fuel: nat,
    c0: Store,
    c1: Store,
    e: Failure,
)
    requires
        0 <= i < items.len(),
        ty.coerces(schema, frags, sels, items[i], fuel, c0, c1, Err(e)),
    ensures
        ty.coerces_each(schema, frags, sels, items, i, done, fuel, c0, c1, Err(e)),
{
    assert(mid(c1, Err::<Value, Failure>(e)));
}

/// Where the item at `i` of a list is coerced to `v`, what the items after
/// it do with `v` added to the results is what the list does from `i` on.
pub proof fn lemma_coerces_each_goes_on(
    ty: FieldType,
    schema: Schema,
    frags: Fragments,
    sels: Seq<Selection>,
    items: Seq<Value>,
    i: int,
    done: Seq<Value>,
    fuel: nat,
    c0: Store,
    cm: Store,
    v: Value,
    c1: Store,
    out: Outcome,
)
    requires
        0 <= i < items.len(),
        ty.coerces(schema, frags, sels, items[i], fuel, c0, cm, Ok(v)),
        ty.coerces_each(schema, frags, sels, items, i + 1, done.push(v), fuel, cm, c1, out),
    ensures
        ty.coerces_each(schema, frags, sels, items, i, done, fuel, c0, c1, out),
{
    assert(mid(cm, Ok::<Value, Failure>(v)));
}

/// One step of a selection set: the execution of a field that only the type
/// declares, and of the selections after it where that one succeeded, make
/// up the resolution from `i` on.
pub proof fn lemma_selects_field_step(
    obj: DirectObject,
    schema: Schema,
    frags: Fragments,
    sels: Seq<Selection>,
    i: int,
    data: Store,
    acc: Store,
    fuel: nat,
    c0: Store,
    cm: Store,
    r: Outcome,
    c1: Store,
    out: Selected,
)
    requires
        0 <= i < sels.len(),
        sels[i] is Field,
        !data.contains_key(sels[i]->Field_0.name@),
        obj.fields@.contains_key(sels[i]->Field_0.name@),
        obj.fields@[sels[i]->Field_0.name@].executes(
            schema,
            frags,
            sels[i]->Field_0,
            Value::Object(acc),
            fuel,
            c0,
            cm,
            r,
        ),
        match r {
            Err(e) => c1 == cm && out == Err::<Store, Failure>(e),
            Ok(v) => obj.selects(
                schema,
                frags,
                sels,
                i + 1,
                data,
                acc.insert(sels[i]->Field_0.name@, v),
                fuel,
                cm,
                c1,
                out,
            ),
        },
    ensures
        obj.selects(schema, frags, sels, i, data, acc, fuel, c0, c1, out),
{
    assert(mid(cm, r));
}

/// One step of a selection set: the resolution of a fragment's selections,
/// and of the selections after the spread where that one succeeded, make up
/// the resolution from `i` on.
pub proof fn lemma_selects_spread_step(
    obj: DirectObject,
    schema: Schema,
    frags: Fragments,
    sels: Seq<Selection>,
    i: int,
    data: Store,
    acc: Store,
    fuel: nat,
    c0: Store,
    cm: Store,
    r: Selected,
    c1: Store,
    out: Selected,
)
    requires
        0 <= i < sels.len(),
        sels[i] is FragmentSpread,
        frags.contains_key(sels[i]->FragmentSpread_0.fragment_name@),
        fuel > 0,
        obj.selects(
            schema,
            frags,
            frags[sels[i]->FragmentSpread_0.fragment_name@].selection_set.items@,
            0,
            data,
            acc,
            (fuel - 1) as nat,
            c0,
            cm,
            r,
        ),
        match r {
            Err(e) => c1 == cm && out == Err::<Store, Failure>(e),
            Ok(merged) => obj.selects(schema, frags, sels, i + 1, data, merged, fuel, cm, c1, out),
        },
    ensures
        obj.selects(schema, frags, sels, i, data, acc, fuel, c0, c1, out),
{
    assert(mid(cm, r));
}

/// What the result of resolving a selection set holds.
pub open spec fn selected(r: Result<StrMap<DataValue>, Error>) -> Selected {
    match r {
        Ok(m) => Ok(deep(m@)),
        Err(e) => Err(e@),
    }
}

/// The failure of a value that is not of the kind that a type expects.
fn mismatch(expected: &str, data: &DataValue) -> (e: Error)
    ensures
        e@ == Failure::DataTypeMisMatchError(expected@, kind_name(data@)),
{
    Error::DataTypeMisMatchError(String::from_str(expected), data.get_type_name())
}

impl StaticType {
    /// The name of the scalar.
    pub fn get_name(&self) -> (r: &'static str)
        ensures
            r@ == self.name(),
    {
        match self {
            StaticType::ID => "ID",
            StaticType::String => "String",
            StaticType::Int => "Int",
            StaticType::Float => "Float",
            StaticType::Boolean => "Boolean",
            StaticType::DateTime => "DateTime",
        }
    }

    /// Coerces a value against the scalar: the value comes back as it is
    /// where it is of the scalar, and a mismatch where it is not.
    pub fn execute(&self, data: DataValue) -> (out: Result<DataValue, Error>)
        ensures
            outcome(out) == self.result(data@),
    {
        let fits = match (self, &data) {
            (StaticType::ID, DataValue::String(_)) => true,
            (StaticType::String, DataValue::String(_)) => true,
            (StaticType::Int, DataValue::Int(_)) => true,
            (StaticType::Float, DataValue::Float(_)) => true,
            (StaticType::Boolean, DataValue::Boolean(_)) => true,
            (StaticType::DateTime, DataValue::DateTime(_)) => true,
            _ => false,
        };
        if fits {
            Ok(data)
        } else {
            Err(mismatch(self.get_name(), &data))
        }
    }
}

impl ScalarType {
    /// Coerces a value against the scalar.
    pub fn execute(&self, data: DataValue) -> (out: Result<DataValue, Error>)
        ensures
            self.coerces(data@, outcome(out)),
    {
        match self {
            ScalarType::ID => StaticType::ID.execute(data),
            ScalarType::String => StaticType::String.execute(data),
            ScalarType::Int => StaticType::Int.execute(data),
            ScalarType::Float => StaticType::Float.execute(data),
            ScalarType::Boolean => StaticType::Boolean.execute(data),
            ScalarType::DateTime => StaticType::DateTime.execute(data),
            ScalarType::CustomScalar(custom) => custom.execute(data),
        }
    }
}

impl DirectEnum {
    /// Whether `s` is a member of the enum.
    pub fn contains(&self, s: &str) -> (b: bool)
        ensures
            b == self.has_member(s@),
    {
        let mut i: usize = 0;
        while i < self.values.len()
            invariant
                0 <= i <= self.values@.len(),
                forall|j: int| 0 <= j < i ==> (#[trigger] self.values@[j]).value@ != s@,
            decreases self.values@.len() - i,
        {
            if same_text(self.values[i].value.as_str(), s) {
                return true;
            }
            i = i + 1;
        }
        false
    }

    /// Coerces a value against the enum: a string that names a member comes
    /// back as it is.
    pub fn execute(&self, data: DataValue) -> (out: Result<DataValue, Error>)
        ensures
            outcome(out) == self.result(data@),
    {
        match &data {
            DataValue::String(s) => {
                if self.contains(s.as_str()) {
                    Ok(data)
                } else {
                    let text = String::from_str("enum value: ").concat(s.as_str()).concat(
                        " in enum: ",
                    ).concat(self.name.as_str()).concat(" ");
                    Err(Error::NotFoundError(text))
                }
            },
            _ => Err(mismatch("Enum with String value", &data)),
        }
    }
}

impl EnumType {
    /// Coerces a value against the enum, which is looked up in the registry
    /// of `schema` where the type only names it.
    pub fn execute(&self, schema: &Schema, data: DataValue) -> (out: Result<DataValue, Error>)
        ensures
            outcome(out) == self.result(*schema, data@),
    {
        match self {
            EnumType::DirectEnum(e) => e.execute(data),
            EnumType::LinkEnum(key) => match schema.type_storage.enums.get(key.as_str()) {
                Some(e) => e.execute(data),
                None => Err(Error::MissingReferenceCustomTypeError),
            },
        }
    }
}

impl FieldType {
    /// Coerces `data` against the type, for a field that was requested with
    /// the selections of `parameter`: a scalar and an enum member come back
    /// as they are, null is refused where the type is marked non-null, the
    /// items of a list are coerced one after the other, and of an object the
    /// requested selections are resolved.
    pub fn execute(
        &self,
        schema: &Schema,
        context: &mut QLContext,
        fragments: &FragmentMap,
        parameter: &QLApiParam,
        data: DataValue,
    ) -> (out: Result<DataValue, Error>)
        requires
            spreads_end(fragments@, parameter.selection_sets@),
        ensures
            exists|fuel: nat| #[trigger]
                self.coerces(
                    *schema,
                    fragments@,
                    parameter.selection_sets@,
                    data@,
                    fuel,
                    deep(old(context)@),
                    deep(final(context)@),
                    outcome(out),
                ),
    {
        let ghost fuel = choose|fuel: nat|
            expands_within(fragments@, parameter.selection_sets@, fuel);
        self.execute_within(schema, context, fragments, parameter, data, Ghost(fuel))
    }

    /// Coerces `data` against the type, where the fragment spreads below the
    /// requested field are expanded within `fuel`.
    pub(crate) fn execute_within(
        &self,
        schema: &Schema,
        context: &mut QLContext,
        fragments: &FragmentMap,
        parameter: &QLApiParam,
        data: DataValue,
        Ghost(fuel): Ghost<nat>,
    ) -> (out: Result<DataValue, Error>)
        requires
            expands_within(fragments@, parameter.selection_sets@, fuel),
        ensures
            self.coerces(
                *schema,
                fragments@,
                parameter.selection_sets@,
                data@,
                fuel,
                deep(old(context)@),
                deep(final(context)@),
                outcome(out),
            ),
        decreases fuel, parameter.selection_sets@, 2 * nesting(*self) + 3, 0int,
    {
        match self {
            FieldType::ScalarType(t) => t.execute(data),
            FieldType::NonNullType(t) => match data {
                DataValue::Null => Err(
                    Error::DataTypeMisMatchError(
                        String::from_str("NonNull<...>"),
                        String::from_str("Null"),
                    ),
                ),
                _ => t.execute_within(schema, context, fragments, parameter, data, Ghost(fuel)),
            },
            FieldType::List(t) => match data {
                DataValue::List(list) => {
                    proof {
                        lemma_view_list(list);
                    }
                    t.execute_each(schema, context, fragments, parameter, list, Ghost(fuel))
                },
                v => Err(mismatch("List<...>", &v)),
            },
            FieldType::EnumType(t) => t.execute(schema, data),
            FieldType::ObjectType(t) => t.execute_within(
                schema,
                context,
                fragments,
                parameter,
                data,
                Ghost(fuel),
            ),
        }
    }

    /// Coerces the items of a list against the type, one after the other.
    /// The first failure ends the list: no part of it comes back.
    fn execute_each(
        &self,
        schema: &Schema,
        context: &mut QLContext,
        fragments: &FragmentMap,
        parameter: &QLApiParam,
        list: Vec<DataValue>,
        Ghost(fuel): Ghost<nat>,
    ) -> (out: Result<DataValue, Error>)
        requires
            expands_within(fragments@, parameter.selection_sets@, fuel),
        ensures
            self.coerces_each(
                *schema,
                fragments@,
                parameter.selection_sets@,
                deep_list(list@),
                0,
                Seq::empty(),
                fuel,
                deep(old(context)@),
                deep(final(context)@),
                outcome(out),
            ),
        decreases fuel, parameter.selection_sets@, 2 * nesting(*self) + 4, list@.len(),
    {
        let ghost items = deep_list(list@);
        let ghost c_init = deep(context@);
        let ghost sels = parameter.selection_sets@;
        let mut rest = list;
        let mut result: Vec<DataValue> = Vec::new();
        let n = rest.len();
        let mut i: usize = 0;
        assert(deep_list(result@) =~= Seq::<Value>::empty());
        while i < n
            invariant
                n == rest@.len(),
                n == items.len(),
                items == deep_list(list@),
                c_init == deep(old(context)@),
                0 <= i <= n,
                sels == parameter.selection_sets@,
                forall|j: int| i <= j < n ==> (#[trigger] rest@[j])@ == items[j],
                expands_within(fragments@, sels, fuel),
                forall|c1: Store, out: Outcome| #[trigger]
                    self.coerces_each(
                        *schema,
                        fragments@,
                        sels,
                        items,
                        i as int,
                        deep_list(result@),
                        fuel,
                        deep(context@),
                        c1,
                        out,
                    ) ==> self.coerces_each(
                        *schema,
                        fragments@,
                        sels,
                        items,
                        0,
                        Seq::empty(),
                        fuel,
                        c_init,
                        c1,
                        out,
                    ),
            decreases n - i,
        {
            let ghost cur = deep(context@);
            let ghost done = deep_list(result@);
            let mut item = DataValue::Null;
            core::mem::swap(&mut rest[i], &mut item);
            assert(item@ == items[i as int]);
            match self.execute_within(schema, context, fragments, parameter, item, Ghost(fuel)) {
                Ok(coerced) => {
                    result.push(coerced);
                    proof {
                        let next = deep(context@);
                        assert(deep_list(result@) =~= done.push(coerced@));
                        assert forall|c1: Store, out: Outcome| #[trigger]
                            self.coerces_each(
                                *schema,
                                fragments@,
                                sels,
                                items,
                                i as int + 1,
                                done.push(coerced@),
                                fuel,
                                next,
                                c1,
                                out,
                            ) implies self.coerces_each(
                            *schema,
                            fragments@,
                            sels,
                            items,
                            0,
                            Seq::empty(),
                            fuel,
                            c_init,
                            c1,
                            out,
                        ) by {
                            lemma_coerces_each_goes_on(
                                *self,
                                *schema,
                                fragments@,
                                sels,
                                items,
                                i as int,
                                done,
                                fuel,
                                cur,
                                next,
                                coerced@,
                                c1,
                                out,
                            );
                        }
                    }
                },
                Err(e) => {
                    proof {
                        lemma_coerces_each_fails(
                            *self,
                            *schema,
                            fragments@,
                            sels,
                            items,
                            i as int,
                            done,
                            fuel,
                            cur,
                            deep(context@),
                            e@,
                        );
                    }
                    return Err(e);
                },
            }
            i = i + 1;
        }
        proof {
            lemma_view_list(result);
            assert(self.coerces_each(
                *schema,
                fragments@,
                sels,
                items,
                i as int,
                deep_list(result@),
                fuel,
                deep(context@),
                deep(context@),
                Ok(Value::List(deep_list(result@))),
            ));
        }
        Ok(DataValue::List(result))
    }
}

impl ObjectType {
    /// Coerces `data` against the object type, which is looked up in the
    /// registry of `schema` where the type only names it.
    pub fn execute(
        &self,
        schema: &Schema,
        context: &mut QLContext,
        fragments: &FragmentMap,
        parameter: &QLApiParam,
        data: DataValue,
    ) -> (out: Result<DataValue, Error>)
        requires
            spreads_end(fragments@, parameter.selection_sets@),
        ensures
            exists|fuel: nat| #[trigger]
                self.coerces(
                    *schema,
                    fragments@,
                    parameter.selection_sets@,
                    data@,
                    fuel,
                    deep(old(context)@),
                    deep(final(context)@),
                    outcome(out),
                ),
    {
        let ghost fuel = choose|fuel: nat|
            expands_within(fragments@, parameter.selection_sets@, fuel);
        self.execute_within(schema, context, fragments, parameter, data, Ghost(fuel))
    }

    /// Coerces `data` against the object type, where the fragment spreads
    /// below the requested field are expanded within `fuel`.
    pub(crate) fn execute_within(
        &self,
        schema: &Schema,
        context: &mut QLContext,
        fragments: &FragmentMap,
        parameter: &QLApiParam,
        data: DataValue,
        Ghost(fuel): Ghost<nat>,
    ) -> (out: Result<DataValue, Error>)
        requires
            expands_within(fragments@, parameter.selection_sets@, fuel),
        ensures
            self.coerces(
                *schema,
                fragments@,
                parameter.selection_sets@,
                data@,
                fuel,
                deep(old(context)@),
                deep(final(context)@),
                outcome(out),
            ),
        decreases fuel, parameter.selection_sets@, 2int, 0int,
    {
        match self {
            ObjectType::DirectObject(obj) => obj.execute_within(
                schema,
                context,
                fragments,
                parameter,
                data,
                Ghost(fuel),
            ),
            ObjectType::LinkObject(key) => match schema.type_storage.objects.get(key.as_str()) {
                Some(obj) => obj.execute_within(
                    schema,
                    context,
                    fragments,
                    parameter,
                    data,
                    Ghost(fuel),
                ),
                None => Err(Error::MissingReferenceCustomTypeError),
            },
        }
    }
}

impl DirectObject {
    /// Coerces `data` against the object type: null stays null, and of an
    /// object the selections of `parameter` are resolved.
    pub fn execute(
        &self,
        schema: &Schema,
        context: &mut QLContext,
        fragments: &FragmentMap,
        parameter: &QLApiParam,
        data: DataValue,
    ) -> (out: Result<DataValue, Error>)
        requires
            spreads_end(fragments@, parameter.selection_sets@),
        ensures
            exists|fuel: nat| #[trigger]
                self.coerces(
                    *schema,
                    fragments@,
                    parameter.selection_sets@,
                    data@,
                    fuel,
                    deep(old(context)@),
                    deep(final(context)@),
                    outcome(out),
                ),
    {
        let ghost fuel = choose|fuel: nat|
            expands_within(fragments@, parameter.selection_sets@, fuel);
        self.execute_within(schema, context, fragments, parameter, data, Ghost(fuel))
    }

    /// Resolves the selections `selection_sets` for the parent's data
    /// `data_map`, and gives the fields of the object that they ask for.
    pub fn execute_object(
        &self,
        schema: &Schema,
        context: &mut QLContext,
        fragments: &FragmentMap,
        selection_sets: &Vec<Selection>,
        data_map: &StrMap<DataValue>,
    ) -> (out: Result<StrMap<DataValue>, Error>)
        requires
            spreads_end(fragments@, selection_sets@),
        ensures
            exists|fuel: nat| #[trigger]
                self.selects(
                    *schema,
                    fragments@,
                    selection_sets@,
                    0,
                    deep(data_map@),
                    Map::empty(),
                    fuel,
                    deep(old(context)@),
                    deep(final(context)@),
                    selected(out),
                ),
    {
        let ghost fuel = choose|fuel: nat| expands_within(fragments@, selection_sets@, fuel);
        let empty: StrMap<DataValue> = StrMap::new();
        assert(deep(empty@) =~= Map::<Seq<char>, Value>::empty());
        self.execute_object_within(
            schema,
            context,
            fragments,
            selection_sets,
            data_map,
            empty,
            Ghost(fuel),
        )
    }

    /// Coerces `data` against the object type, where the fragment spreads
    /// below the requested field are expanded within `fuel`.
    pub(crate) fn execute_within(
        &self,
        schema: &Schema,
        context: &mut QLContext,
        fragments: &FragmentMap,
        parameter: &QLApiParam,
        data: DataValue,
        Ghost(fuel): Ghost<nat>,
    ) -> (out: Result<DataValue, Error>)
        requires
            expands_within(fragments@, parameter.selection_sets@, fuel),
        ensures
            self.coerces(
                *schema,
                fragments@,
                parameter.selection_sets@,
                data@,
                fuel,
                deep(old(context)@),
                deep(final(context)@),
                outcome(out),
            ),
        decreases fuel, parameter.selection_sets@, 1int, 0int,
    {
        match data {
            DataValue::Object(map) => {
                proof {
                    lemma_view_object(map);
                }
                let ghost c0 = deep(context@);
                let empty: StrMap<DataValue> = StrMap::new();
                assert(deep(empty@) =~= Map::<Seq<char>, Value>::empty());
                let built = self.execute_object_within(
                    schema,
                    context,
                    fragments,
                    parameter.selection_sets,
                    &map,
                    empty,
                    Ghost(fuel),
                );
                proof {
                    assert(mid(deep(context@), selected(built)));
                }
                match built {
                    Ok(fields) => {
                        proof {
                            lemma_view_object(fields);
                        }
                        Ok(DataValue::Object(fields))
                    },
                    Err(e) => Err(e),
                }
            },
            DataValue::Null => Ok(DataValue::Null),
            _ => Err(mismatch("Object(CustomType)", &data)),
        }
    }

    /// Resolves the selections `selection_sets` for the parent's data
    /// `data_map`, into the fields `built` that were built before.
    pub(crate) fn execute_object_within(
        &self,
        schema: &Schema,
        context: &mut QLContext,
        fragments: &FragmentMap,
        selection_sets: &Vec<Selection>,
        data_map: &StrMap<DataValue>,
        built: StrMap<DataValue>,
        Ghost(fuel): Ghost<nat>,
    ) -> (out: Result<StrMap<DataValue>, Error>)
        requires
            expands_within(fragments@, selection_sets@, fuel),
        ensures
            self.selects(
                *schema,
                fragments@,
                selection_sets@,
                0,
                deep(data_map@),
                deep(built@),
                fuel,
                deep(old(context)@),
                deep(final(context)@),
                selected(out),
            ),
        decreases fuel, selection_sets@, 0int, selection_sets@.len(),
    {
        let ghost c_init = deep(context@);
        let ghost a_init = deep(built@);
        let ghost data = deep(data_map@);
        let ghost sels = selection_sets@;
        let mut result = built;
        let mut i: usize = 0;
        while i < selection_sets.len()
            invariant
                0 <= i <= sels.len(),
                sels == selection_sets@,
                data == deep(data_map@),
                a_init == deep(built@),
                c_init == deep(old(context)@),
                expands_within(fragments@, sels, fuel),
                forall|c1: Store, out: Selected| #[trigger]
                    self.selects(
                        *schema,
                        fragments@,
                        sels,
                        i as int,
                        data,
                        deep(result@),
                        fuel,
                        deep(context@),
                        c1,
                        out,
                    ) ==> self.selects(
                        *schema,
                        fragments@,
                        sels,
                        0,
                        data,
                        a_init,
                        fuel,
                        c_init,
                        c1,
                        out,
                    ),
            decreases sels.len() - i,
        {
            let ghost cur = deep(context@);
            let ghost acc = deep(result@);
            match &selection_sets[i] {
                Selection::Field(field) => {
                    let name = field.name.as_str();
                    let held = data_map.get(name);
                    let declared = self.fields.get(name);
                    match (held, declared) {
                        (None, Some(field_def)) => {
                            let source = DataValue::Object(copy_fields(&result));
                            proof {
                                lemma_view_object(source->Object_0);
                                assert(decreases_to!(sels => sels[i as int]));
                                assert(sels[i as int]->Field_0 == *field);
                                assert(decreases_to!(sels[i as int] => sels[i as int]->Field_0));
                            }
                            match field_def.execute_within(
                                schema,
                                context,
                                fragments,
                                field,
                                &source,
                                Ghost(fuel),
                            ) {
                                Ok(v) => {
                                    let ghost value = v@;
                                    result.insert(field.name.clone(), v);
                                    proof {
                                        let next = deep(context@);
                                        assert(deep(result@) =~= acc.insert(name@, value));
                                        assert forall|c1: Store, out: Selected| #[trigger]
                                            self.selects(
                                                *schema,
                                                fragments@,
                                                sels,
                                                i as int + 1,
                                                data,
                                                acc.insert(name@, value),
                                                fuel,
                                                next,
                                                c1,
                                                out,
                                            ) implies self.selects(
                                            *schema,
                                            fragments@,
                                            sels,
                                            0,
                                            data,
                                            a_init,
                                            fuel,
                                            c_init,
                                            c1,
                                            out,
                                        ) by {
                                            lemma_selects_field_step(
                                                *self,
                                                *schema,
                                                fragments@,
                                                sels,
                                                i as int,
                                                data,
                                                acc,
                                                fuel,
                                                cur,
                                                next,
                                                Ok(value),
                                                c1,
                                                out,
                                            );
                                        }
                                    }
                                },
                                Err(e) => {
                                    proof {
                                        lemma_selects_field_step(
                                            *self,
                                            *schema,
                                            fragments@,
                                            sels,
                                            i as int,
                                            data,
                                            acc,
                                            fuel,
                                            cur,
                                            deep(context@),
                                            Err(e@),
                                            deep(context@),
                                            Err(e@),
                                        );
                                    }
                                    return Err(e);
                                },
                            }
                        },
                        (None, None) => {
                            result.insert(field.name.clone(), DataValue::Null);
                            proof {
                                assert(deep(result@) =~= pass(data, false, name@, acc));
                                assert forall|c1: Store, out: Selected| #[trigger]
                                    self.selects(
                                        *schema,
                                        fragments@,
                                        sels,
                                        i as int + 1,
                                        data,
                                        deep(result@),
                                        fuel,
                                        cur,
                                        c1,
                                        out,
                                    ) implies self.selects(
                                    *schema,
                                    fragments@,
                                    sels,
                                    0,
                                    data,
                                    a_init,
                                    fuel,
                                    c_init,
                                    c1,
                                    out,
                                ) by {
                                    assert(self.selects(
                                        *schema,
                                        fragments@,
                                        sels,
                                        i as int,
                                        data,
                                        acc,
                                        fuel,
                                        cur,
                                        c1,
                                        out,
                                    ));
                                }
                            }
                        },
                        (Some(_), None) => {
                            result.remove(name);
                            proof {
                                assert(deep(result@) =~= pass(data, false, name@, acc));
                                assert forall|c1: Store, out: Selected| #[trigger]
                                    self.selects(
                                        *schema,
                                        fragments@,
                                        sels,
                                        i as int + 1,
                                        data,
                                        deep(result@),
                                        fuel,
                                        cur,
                                        c1,
                                        out,
                                    ) implies self.selects(
                                    *schema,
                                    fragments@,
                                    sels,
                                    0,
                                    data,
                                    a_init,
                                    fuel,
                                    c_init,
                                    c1,
                                    out,
                                ) by {
                                    assert(self.selects(
                                        *schema,
                                        fragments@,
                                        sels,
                                        i as int,
                                        data,
                                        acc,
                                        fuel,
                                        cur,
                                        c1,
                                        out,
                                    ));
                                }
                            }
                        },
                        (Some(v), Some(_)) => {
                            result.insert(field.name.clone(), v.clone());
                            proof {
                                assert(deep(result@) =~= pass(data, true, name@, acc));
                                assert forall|c1: Store, out: Selected| #[trigger]
                                    self.selects(
                                        *schema,
                                        fragments@,
                                        sels,
                                        i as int + 1,
                                        data,
                                        deep(result@),
                                        fuel,
                                        cur,
                                        c1,
                                        out,
                                    ) implies self.selects(
                                    *schema,
                                    fragments@,
                                    sels,
                                    0,
                                    data,
                                    a_init,
                                    fuel,
                                    c_init,
                                    c1,
                                    out,
                                ) by {
                                    assert(self.selects(
                                        *schema,
                                        fragments@,
                                        sels,
                                        i as int,
                                        data,
                                        acc,
                                        fuel,
                                        cur,
                                        c1,
                                        out,
                                    ));
                                }
                            }
                        },
                    }
                },
                Selection::FragmentSpread(fs) => {
                    match fragments.get(fs.fragment_name.as_str()) {
                        Some(fragment) => {
                            let ghost inner = fragment.selection_set.items@;
                            assert(sels[i as int] is FragmentSpread);
                            assert(fuel > 0);
                            match self.execute_object_within(
                                schema,
                                context,
                                fragments,
                                &fragment.selection_set.items,
                                data_map,
                                result,
                                Ghost((fuel - 1) as nat),
                            ) {
                                Ok(merged) => {
                                    result = merged;
                                    proof {
                                        let next = deep(context@);
                                        let after = deep(result@);
                                        assert forall|c1: Store, out: Selected| #[trigger]
                                            self.selects(
                                                *schema,
                                                fragments@,
                                                sels,
                                                i as int + 1,
                                                data,
                                                after,
                                                fuel,
                                                next,
                                                c1,
                                                out,
                                            ) implies self.selects(
                                            *schema,
                                            fragments@,
                                            sels,
                                            0,
                                            data,
                                            a_init,
                                            fuel,
                                            c_init,
                                            c1,
                                            out,
                                        ) by {
                                            lemma_selects_spread_step(
                                                *self,
                                                *schema,
                                                fragments@,
                                                sels,
                                                i as int,
                                                data,
                                                acc,
                                                fuel,
                                                cur,
                                                next,
                                                Ok(after),
                                                c1,
                                                out,
                                            );
                                        }
                                    }
                                },
                                Err(e) => {
                                    proof {
                                        lemma_selects_spread_step(
                                            *self,
                                            *schema,
                                            fragments@,
                                            sels,
                                            i as int,
                                            data,
                                            acc,
                                            fuel,
                                            cur,
                                            deep(context@),
                                            Err(e@),
                                            deep(context@),
                                            Err(e@),
                                        );
                                    }
                                    return Err(e);
                                },
                            }
                        },
                        None => {
                            let e = Error::NoSuchFragment(fs.fragment_name.clone());
                            proof {
                                assert(self.selects(
                                    *schema,
                                    fragments@,
                                    sels,
                                    i as int,
                                    data,
                                    acc,
                                    fuel,
                                    cur,
                                    cur,
                                    Err(e@),
                                ));
                            }
                            return Err(e);
                        },
                    }
                },
                Selection::InlineFragment(_) => {
                    let e = Error::UnSupportedYetError(
                        String::from_str("'InlineFragment' in object field"),
                    );
                    proof {
                        assert(self.selects(
                            *schema,
                            fragments@,
                            sels,
                            i as int,
                            data,
                            acc,
                            fuel,
                            cur,
                            cur,
                            Err(e@),
                        ));
                    }
                    return Err(e);
                },
            }
            i = i + 1;
        }
        proof {
            assert(self.selects(
                *schema,
                fragments@,
                sels,
                i as int,
                data,
                deep(result@),
                fuel,
                deep(context@),
                deep(context@),
                Ok(deep(result@)),
            ));
        }
        Ok(result)
    }
}

impl Field {
    /// Executes the field for the request `field`: calls the resolver with
    /// the source and what the request wrote, and coerces what it returns
    /// against the declared type.
    pub fn execute(
        &self,
        schema: &Schema,
        context: &mut QLContext,
        fragments: &FragmentMap,
        field: &ast::Field,
        source: &DataValue,
    ) -> (out: Result<DataValue, Error>)
        requires
            spreads_end(fragments@, field.selection_set.items@),
        ensures
            exists|fuel: nat| #[trigger]
                self.executes(
                    *schema,
                    fragments@,
                    *field,
                    source@,
                    fuel,
                    deep(old(context)@),
                    deep(final(context)@),
                    outcome(out),
                ),
    {
        let ghost fuel = choose|fuel: nat|
            expands_within(fragments@, field.selection_set.items@, fuel);
        self.execute_within(schema, context, fragments, field, source, Ghost(fuel))
    }

    /// Executes the field, where the fragment spreads below the requested
    /// field are expanded within `fuel`.
    pub(crate) fn execute_within(
        &self,
        schema: &Schema,
        context: &mut QLContext,
        fragments: &FragmentMap,
        field: &ast::Field,
        source: &DataValue,
        Ghost(fuel): Ghost<nat>,
    ) -> (out: Result<DataValue, Error>)
        requires
            expands_within(fragments@, field.selection_set.items@, fuel),
        ensures
            self.executes(
                *schema,
                fragments@,
                *field,
                source@,
                fuel,
                deep(old(context)@),
                deep(final(context)@),
                outcome(out),
            ),
        decreases fuel, field, 0int, 0int,
    {
        let ghost c0 = deep(context@);
        let parameter = QLApiParam {
            arguments: ArgumentValueMap::from(&field.arguments),
            selection_sets: &field.selection_set.items,
        };
        match self.resolve.call(context, source, &parameter) {
            Ok(resolved) => {
                let ghost cm = deep(context@);
                let ghost value = resolved@;
                let out = self.field_type.execute_within(
                    schema,
                    context,
                    fragments,
                    &parameter,
                    resolved,
                    Ghost(fuel),
                );
                proof {
                    assert(self.resolve.resolves(
                        c0,
                        source@,
                        arguments_of(field.arguments@),
                        field.selection_set.items@,
                        cm,
                        Ok(value),
                    ));
                }
                out
            },
            Err(e) => {
                proof {
                    assert(self.resolve.resolves(
                        c0,
                        source@,
                        arguments_of(field.arguments@),
                        field.selection_set.items@,
                        deep(context@),
                        Err(e@),
                    ));
                }
                Err(e)
            },
        }
    }
}

/// Whether the fragment spreads in `sels` are expanded after some number of
/// spreads inside one another, so that resolving `sels` comes to an end.
pub open spec fn spreads_end(frags: Fragments, sels: Seq<Selection>) -> bool {
    exists|fuel: nat| expands_within(frags, sels, fuel)
}

/// What is expanded within some number of spreads is expanded within every
/// larger number.
pub proof fn lemma_expands_within_more(frags: Fragments, sels: Seq<Selection>, fuel: nat, more: nat)
    requires
        expands_within(frags, sels, fuel),
        fuel <= more,
    ensures
        expands_within(frags, sels, more),
    decreases fuel, sels,
{
    assert forall|i: int| 0 <= i < sels.len() implies match #[trigger] sels[i] {
        Selection::Field(f) => expands_within(frags, f.selection_set.items@, more),
        Selection::FragmentSpread(fs) => frags.contains_key(fs.fragment_name@) ==> more > 0
            && expands_within(
            frags,
            frags[fs.fragment_name@].selection_set.items@,
            (more - 1) as nat,
        ),
        Selection::InlineFragment(_) => true,
    } by {
        match sels[i] {
            Selection::Field(f) => {
                lemma_expands_within_more(frags, f.selection_set.items@, fuel, more);
            },
            Selection::FragmentSpread(fs) => {
                if frags.contains_key(fs.fragment_name@) {
                    lemma_expands_within_more(
                        frags,
                        frags[fs.fragment_name@].selection_set.items@,
                        (fuel - 1) as nat,
                        (more - 1) as nat,
                    );
                }
            },
            Selection::InlineFragment(_) => {},
        }
    }
}

/// Tests whether every fragment spread in `sels`, and in what the spreads
/// bring in, is expanded after at most `limit` spreads inside one another.
pub fn selections_expand_within(fragments: &FragmentMap, sels: &Vec<Selection>, limit: usize) -> (b:
    bool)
    ensures
        b == expands_within(fragments@, sels@, limit as nat),
    decreases limit, sels@,
{
    let mut i: usize = 0;
    while i < sels.len()
        invariant
            0 <= i <= sels@.len(),
            forall|j: int|
                0 <= j < i ==> match #[trigger] sels@[j] {
                    Selection::Field(f) => expands_within(
                        fragments@,
                        f.selection_set.items@,
                        limit as nat,
                    ),
                    Selection::FragmentSpread(fs) => fragments@.contains_key(fs.fragment_name@)
                        ==> limit > 0 && expands_within(
                        fragments@,
                        fragments@[fs.fragment_name@].selection_set.items@,
                        (limit - 1) as nat,
                    ),
                    Selection::InlineFragment(_) => true,
                },
        decreases sels@.len() - i,
    {
        let ok = match &sels[i] {
            Selection::Field(f) => {
                proof {
                    assert(decreases_to!(sels@ => sels@[i as int]));
                    assert(sels@[i as int]->Field_0 == *f);
                    assert(decreases_to!(sels@[i as int] => sels@[i as int]->Field_0));
                    assert(decreases_to!(*f => f.selection_set));
                    assert(decreases_to!(f.selection_set => f.selection_set.items));
                    assert(decreases_to!(f.selection_set.items => f.selection_set.items@));
                }
                selections_expand_within(fragments, &f.selection_set.items, limit)
            },
            Selection::FragmentSpread(fs) => match fragments.get(fs.fragment_name.as_str()) {
                Some(fragment) => {
                    if limit == 0 {
                        false
                    } else {
                        selections_expand_within(
                            fragments,
                            &fragment.selection_set.items,
                            limit - 1,
                        )
                    }
                },
                None => true,
            },
            Selection::InlineFragment(_) => true,
        };
        if !ok {
            assert(!expands_within(fragments@, sels@, limit as nat)) by {
                let _ = sels@[i as int];
            }
            return false;
        }
        i = i + 1;
    }
    true
}

} // verus!
