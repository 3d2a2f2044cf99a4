//! What holds of every coercion and of every resolution of selections.
use crate::ast::{OperationDefinition, Selection};
use crate::error::Failure;
use crate::schema::executor::{mid, pass, Fragments, Selected};
use crate::schema::resolve::{Outcome, Store};
use crate::schema::types::{DirectObject, FieldType};
use crate::schema::{chosen, has_anonymous, sole, Schema};
use crate::value::Value;
use vstd::prelude::*;

verus! {

/// A type that is marked non-null refuses null, whatever type it marks:
/// the coercion fails with a mismatch and leaves the context as it was.
pub proof fn lemma_non_null_refuses_null(
    ty: FieldType,
    schema: Schema,
    frags: Fragments,
    sels: Seq<Selection>,
    fuel: nat,
    c0: Store,
    c1: Store,
    out: Outcome,
)
    requires
        ty is NonNullType,
        ty.coerces(schema, frags, sels, Value::Null, fuel, c0, c1, out),
    ensures
        out == Err::<Value, Failure>(Failure::DataTypeMisMatchError("NonNull<...>"@, "Null"@)),
        c1 == c0,
{
}

/// Whether the coercion of the item `item` against `ty` can give `r`, in
/// some context.
pub open spec fn item_gives(
    ty: FieldType,
    schema: Schema,
    frags: Fragments,
    sels: Seq<Selection>,
    item: Value,
    fuel: nat,
    r: Outcome,
) -> bool {
    exists|a: Store, b: Store| #[trigger] mid(a, b) && ty.coerces(schema, frags, sels, item, fuel, a, b, r)
}

/// The coercion of the items of a list from `i` on gives the whole list or
/// nothing of it: where it succeeds, the result holds the results `done` of
/// the items before `i` and after them one result for each item from `i` on,
/// each the result of coercing that item; where it fails, it fails with the
/// failure of one of these items.
pub proof fn lemma_coerces_each_whole(
    ty: FieldType,
    schema: Schema,
    frags: Fragments,
    sels: Seq<Selection>,
    items: Seq<Value>,
    i: int,
    done: Seq<Value>,
    fuel: nat,
    c0: Store,
    c1: Store,
    out: Outcome,
)
    requires
        0 <= i <= items.len(),
        ty.coerces_each(schema, frags, sels, items, i, done, fuel, c0, c1, out),
    ensures
        match out {
            Ok(v) => {
                &&& v is List
                &&& v->List_0.len() == done.len() + items.len() - i
                &&& forall|j: int| 0 <= j < done.len() ==> v->List_0[j] == done[j]
                &&& forall|j: int|
                    i <= j < items.len() ==> item_gives(
                        ty,
                        schema,
                        frags,
                        sels,
                        #[trigger] items[j],
                        fuel,
                        Ok(v->List_0[done.len() + j - i]),
                    )
            },
            Err(e) => exists|j: int|
                i <= j < items.len() && item_gives(
                    ty,
                    schema,
                    frags,
                    sels,
                    #[trigger] items[j],
                    fuel,
                    Err(e),
                ),
        },
    decreases items.len() - i,
{
    if i < items.len() {
        let (cm, r) = choose|cm: Store, r: Outcome| #[trigger]
            mid(cm, r) && ty.coerces(schema, frags, sels, items[i], fuel, c0, cm, r) && match r {
                Err(e) => c1 == cm && out == Err::<Value, Failure>(e),
                Ok(v) => ty.coerces_each(
                    schema,
                    frags,
                    sels,
                    items,
                    i + 1,
                    done.push(v),
                    fuel,
                    cm,
                    c1,
                    out,
                ),
            };
        assert(mid(c0, cm));
        match r {
            Err(e) => {
                assert(item_gives(ty, schema, frags, sels, items[i], fuel, Err(e)));
            },
            Ok(v) => {
                assert(item_gives(ty, schema, frags, sels, items[i], fuel, Ok(v)));
                lemma_coerces_each_whole(
                    ty,
                    schema,
                    frags,
                    sels,
                    items,
                    i + 1,
                    done.push(v),
                    fuel,
                    cm,
                    c1,
                    out,
                );
                match out {
                    Ok(w) => {
                        assert(w->List_0[done.len() as int] == done.push(v)[done.len() as int]);
                        assert forall|j: int| 0 <= j < done.len() implies w->List_0[j]
                            == done[j] by {
                            assert(w->List_0[j] == done.push(v)[j]);
                        }
                        assert forall|j: int| i <= j < items.len() implies item_gives(
                            ty,
                            schema,
                            frags,
                            sels,
                            #[trigger] items[j],
                            fuel,
                            Ok(w->List_0[done.len() + j - i]),
                        ) by {
                            if j > i {
                                assert(done.push(v).len() + j - (i + 1) == done.len() + j - i);
                            }
                        }
                    },
                    Err(e) => {},
                }
            },
        }
    }
}

/// A list type gives the whole list or nothing of it: where the coercion of
/// a list succeeds, the result is a list of the same length whose items are
/// the results of coercing the items, each in its place; where it fails, it
/// fails with the failure of one of the items.
pub proof fn lemma_list_is_whole(
    ty: FieldType,
    schema: Schema,
    frags: Fragments,
    sels: Seq<Selection>,
    items: Seq<Value>,
    fuel: nat,
    c0: Store,
    c1: Store,
    out: Outcome,
)
    requires
        ty is List,
        ty.coerces(schema, frags, sels, Value::List(items), fuel, c0, c1, out),
    ensures
        match out {
            Ok(v) => {
                &&& v is List
                &&& v->List_0.len() == items.len()
                &&& forall|j: int|
                    0 <= j < items.len() ==> item_gives(
                        *ty->List_0,
                        schema,
                        frags,
                        sels,
                        #[trigger] items[j],
                        fuel,
                        Ok(v->List_0[j]),
                    )
            },
            Err(e) => exists|j: int|
                0 <= j < items.len() && item_gives(
                    *ty->List_0,
                    schema,
                    frags,
                    sels,
                    #[trigger] items[j],
                    fuel,
                    Err(e),
                ),
        },
{
    lemma_coerces_each_whole(
        *ty->List_0,
        schema,
        frags,
        sels,
        items,
        0,
        Seq::empty(),
        fuel,
        c0,
        c1,
        out,
    );
}

/// A list type refuses what is no list, and leaves the context as it was.
pub proof fn lemma_list_refuses_others(
    ty: FieldType,
    schema: Schema,
    frags: Fragments,
    sels: Seq<Selection>,
    data: Value,
    fuel: nat,
    c0: Store,
    c1: Store,
    out: Outcome,
)
    requires
        ty is List,
        !(data is List),
        ty.coerces(schema, frags, sels, data, fuel, c0, c1, out),
    ensures
        out is Err,
        c1 == c0,
{
}

/// After the last selection the fields built so far are the result, and the
/// context is as it was.
pub proof fn lemma_selects_at_end(
    obj: DirectObject,
    schema: Schema,
    frags: Fragments,
    sels: Seq<Selection>,
    data: Store,
    acc: Store,
    fuel: nat,
    c0: Store,
    c1: Store,
    out: Selected,
)
    ensures
        obj.selects(schema, frags, sels, sels.len() as int, data, acc, fuel, c0, c1, out) <==> (c1
            == c0 && out == Ok::<Store, Failure>(acc)),
{
}

/// A requested field that the parent's data holds, or that the type does not
/// declare, calls no resolver: where the data holds it and the type declares
/// it, it is taken from the data; where only the data holds it, it is left
/// out; where neither holds it, it is null. The selections after it go on
/// from there, in the same context.
pub proof fn lemma_selects_without_resolver(
    obj: DirectObject,
    schema: Schema,
    frags: Fragments,
    sels: Seq<Selection>,
    i: int,
    data: Store,
    acc: Store,
    fuel: nat,
    c0: Store,
    c1: Store,
    out: Selected,
)
    requires
        0 <= i < sels.len(),
        sels[i] is Field,
        data.contains_key(sels[i]->Field_0.name@) || !obj.fields@.contains_key(
            sels[i]->Field_0.name@,
        ),
    ensures
        obj.selects(schema, frags, sels, i, data, acc, fuel, c0, c1, out) <==> obj.selects(
            schema,
            frags,
            sels,
            i + 1,
            data,
            pass(
                data,
                obj.fields@.contains_key(sels[i]->Field_0.name@),
                sels[i]->Field_0.name@,
                acc,
            ),
            fuel,
            c0,
            c1,
            out,
        ),
{
}

/// A requested field that the parent's data does not hold and that the type
/// declares is resolved: what the selections from it on do is made up of an
/// execution of the field, with the fields built so far as its source, and,
/// where that gave a value, of what the selections after it do with the
/// value among the fields. Where the field was selected before, the value
/// takes the place of the earlier one.
pub proof fn lemma_selects_with_resolver(
    obj: DirectObject,
    schema: Schema,
    frags: Fragments,
    sels: Seq<Selection>,
    i: int,
    data: Store,
    acc: Store,
    fuel: nat,
    c0: Store,
    c1: Store,
    out: Selected,
)
    requires
        0 <= i < sels.len(),
        sels[i] is Field,
        !data.contains_key(sels[i]->Field_0.name@),
        obj.fields@.contains_key(sels[i]->Field_0.name@),
        obj.selects(schema, frags, sels, i, data, acc, fuel, c0, c1, out),
    ensures
        exists|cm: Store, r: Outcome| #[trigger]
            mid(cm, r) && obj.fields@[sels[i]->Field_0.name@].executes(
                schema,
                frags,
                sels[i]->Field_0,
                Value::Object(acc),
                fuel,
                c0,
                cm,
                r,
            ) && match r {
                Err(e) => c1 == cm && out == Err::<Store, Failure>(e),
                Ok(v) => obj.selects(
                    schema,
                    frags,
                    sels,
                    i + 1,
                    data,
                    acc.insert(sels[i]->Field_0.name@, v),
                    fuel,
                    cm,
                    c1,
                    out,
                ),
            },
{
}

/// The spread of a fragment that the document does not define fails, and
/// an inline fragment fails: both leave the context as it was.
pub proof fn lemma_selects_refuses(
    obj: DirectObject,
    schema: Schema,
    frags: Fragments,
    sels: Seq<Selection>,
    i: int,
    data: Store,
    acc: Store,
    fuel: nat,
    c0: Store,
    c1: Store,
    out: Selected,
)
    requires
        0 <= i < sels.len(),
        obj.selects(schema, frags, sels, i, data, acc, fuel, c0, c1, out),
    ensures
        sels[i] is InlineFragment ==> c1 == c0 && out == Err::<Store, Failure>(
            Failure::UnSupportedYetError("'InlineFragment' in object field"@),
        ),
        sels[i] is FragmentSpread && !frags.contains_key(sels[i]->FragmentSpread_0.fragment_name@)
            ==> c1 == c0 && out == Err::<Store, Failure>(
            Failure::NoSuchFragment(sels[i]->FragmentSpread_0.fragment_name@),
        ),
{
}

/// A field that is resolved and selected twice in a row is executed twice:
/// the second time its source holds the value of the first time, and
/// the selections after it go on with the value of the second time alone.
pub proof fn lemma_selected_twice(
    obj: DirectObject,
    schema: Schema,
    frags: Fragments,
    sels: Seq<Selection>,
    i: int,
    data: Store,
    acc: Store,
    fuel: nat,
    c0: Store,
    c1: Store,
    fields: Store,
)
    requires
        0 <= i,
        i + 1 < sels.len(),
        sels[i] is Field,
        sels[i + 1] is Field,
        sels[i + 1]->Field_0.name@ == sels[i]->Field_0.name@,
        !data.contains_key(sels[i]->Field_0.name@),
        obj.fields@.contains_key(sels[i]->Field_0.name@),
        obj.selects(schema, frags, sels, i, data, acc, fuel, c0, c1, Ok(fields)),
    ensures
        exists|ca: Store, va: Value, cb: Store, vb: Value| #[trigger]
            mid(ca, va) && #[trigger] mid(cb, vb) && obj.fields@[sels[i]->Field_0.name@].executes(
                schema,
                frags,
                sels[i]->Field_0,
                Value::Object(acc),
                fuel,
                c0,
                ca,
                Ok(va),
            ) && obj.fields@[sels[i]->Field_0.name@].executes(
                schema,
                frags,
                sels[i + 1]->Field_0,
                Value::Object(acc.insert(sels[i]->Field_0.name@, va)),
                fuel,
                ca,
                cb,
                Ok(vb),
            ) && obj.selects(
                schema,
                frags,
                sels,
                i + 2,
                data,
                acc.insert(sels[i]->Field_0.name@, vb),
                fuel,
                cb,
                c1,
                Ok(fields),
            ),
{
    let name = sels[i]->Field_0.name@;
    let field = obj.fields@[name];
    let (ca, ra) = choose|cm: Store, r: Outcome| #[trigger]
        mid(cm, r) && field.executes(
            schema,
            frags,
            sels[i]->Field_0,
            Value::Object(acc),
            fuel,
            c0,
            cm,
            r,
        ) && match r {
            Err(e) => c1 == cm && Ok::<Store, Failure>(fields) == Err::<Store, Failure>(e),
            Ok(v) => obj.selects(
                schema,
                frags,
                sels,
                i + 1,
                data,
                acc.insert(name, v),
                fuel,
                cm,
                c1,
                Ok(fields),
            ),
        };
    let va = ra->Ok_0;
    let acc1 = acc.insert(name, va);
    let (cb, rb) = choose|cm: Store, r: Outcome| #[trigger]
        mid(cm, r) && field.executes(
            schema,
            frags,
            sels[i + 1]->Field_0,
            Value::Object(acc1),
            fuel,
            ca,
            cm,
            r,
        ) && match r {
            Err(e) => c1 == cm && Ok::<Store, Failure>(fields) == Err::<Store, Failure>(e),
            Ok(v) => obj.selects(
                schema,
                frags,
                sels,
                i + 2,
                data,
                acc1.insert(name, v),
                fuel,
                cm,
                c1,
                Ok(fields),
            ),
        };
    let vb = rb->Ok_0;
    assert(acc1.insert(name, vb) =~= acc.insert(name, vb));
    assert(mid(ca, va) && mid(cb, vb));
}

/// Of several operations, none of them anonymous, none is chosen where the
/// request names none.
pub proof fn lemma_several_need_a_name(ops: Seq<OperationDefinition>)
    requires
        ops.len() >= 2,
        !has_anonymous(ops),
    ensures
        chosen(ops, None) == Err::<Option<int>, Failure>(Failure::MultipleOperationNeedTarget),
{
}

/// Of several operations, none of them anonymous, the one that alone has
/// the name that the request names is chosen, whatever the others are.
pub proof fn lemma_the_named_one_is_chosen(ops: Seq<OperationDefinition>, s: Seq<char>, i: int)
    requires
        ops.len() >= 2,
        !has_anonymous(ops),
        sole(ops, s, i),
    ensures
        chosen(ops, Some(s)) == Ok::<Option<int>, Failure>(Some(i)),
{
    let c = crate::schema::the_sole(ops, s);
    assert(sole(ops, s, c));
    if c != i {
        assert(ops[i].named(s));
    }
}

/// An anonymous operation beside others is refused, whatever name the
/// request names.
pub proof fn lemma_anonymous_must_be_alone(ops: Seq<OperationDefinition>, name: Option<Seq<char>>)
    requires
        ops.len() >= 2,
        has_anonymous(ops),
    ensures
        chosen(ops, name) == Err::<Option<int>, Failure>(
            Failure::MustBeDefinedAnonymousOperation,
        ),
{
}

} // verus!
