//! What the engine and a resolver agree on: the context of a request, the
//! parameters of one field, and the two shapes of resolver.
use crate::ast::{LiteralValue, Selection};
use crate::error::{Error, Failure};
use crate::keyed::StrMap;
use crate::value::{deep, DataValue, Value};
use vstd::prelude::*;

verus! {

/// The context of a request: a map that every resolver call of the request
/// may read and write, to hand data to the calls that follow.
pub type QLContext = StrMap<DataValue>;

/// What a context, or a map of arguments, holds.
pub type Store = Map<Seq<char>, Value>;

/// What a resolver or a coercion gives back: a value or a failure.
pub type Outcome = Result<Value, Failure>;

/// What an executable result holds.
pub open spec fn outcome(r: Result<DataValue, Error>) -> Outcome {
    match r {
        Ok(v) => Ok(v@),
        Err(e) => Err(e@),
    }
}

/// The arguments of a requested field, by name.
pub struct ArgumentValueMap(pub(crate) StrMap<DataValue>);

/// The arguments that a list of written arguments stands for. Where a name
/// is written twice the later value stands.
pub open spec fn arguments_of(list: Seq<(String, LiteralValue)>) -> Store
    decreases list.len(),
{
    if list.len() == 0 {
        Map::empty()
    } else {
        arguments_of(list.drop_last()).insert(list.last().0@, list.last().1@)
    }
}

impl View for ArgumentValueMap {
    type V = Store;

    open(crate) spec fn view(&self) -> Store {
        deep(self.0@)
    }
}

impl ArgumentValueMap {
    /// The argument of the name `key`.
    pub fn get(&self, key: &String) -> (r: Option<&DataValue>)
        ensures
            r is Some == self@.contains_key(key@),
            r matches Some(v) ==> v@ == self@[key@],
    {
        self.0.get(key.as_str())
    }

    /// The arguments that a list of written arguments stands for.
    pub fn from(list: &Vec<(String, LiteralValue)>) -> (r: Self)
        ensures
            r@ == arguments_of(list@),
    {
        let mut map: StrMap<DataValue> = StrMap::new();
        let mut i: usize = 0;
        assert(list@.take(0) =~= Seq::<(String, LiteralValue)>::empty());
        assert(deep(map@) =~= arguments_of(list@.take(0)));
        while i < list.len()
            invariant
                0 <= i <= list@.len(),
                deep(map@) == arguments_of(list@.take(i as int)),
            decreases list@.len() - i,
        {
            let key = list[i].0.clone();
            let value = DataValue::from(&list[i].1);
            let ghost before = map@;
            map.insert(key, value);
            proof {
                let prefix = list@.take(i as int + 1);
                assert(prefix.drop_last() =~= list@.take(i as int));
                assert(prefix.last() == list@[i as int]);
                assert(deep(map@) =~= deep(before).insert(key@, value@));
            }
            i = i + 1;
        }
        assert(list@.take(i as int) =~= list@);
        ArgumentValueMap(map)
    }
}

/// The parameters of one requested field: its arguments and the selections
/// below it. The selections are for the engine; a resolver only hands them on.
pub struct QLApiParam<'a> {
    pub arguments: ArgumentValueMap,
    pub selection_sets: &'a Vec<Selection>,
}

/// The resolver of a field at the root of a query or a mutation.
pub trait ApiResolveFunc {
    /// What a call may do: `before` and `after` are what the context holds
    /// around the call, `out` is what the call returns. An implementation
    /// that states nothing of itself allows every outcome.
    open spec fn resolves(
        &self,
        before: Store,
        arguments: Store,
        selections: Seq<Selection>,
        after: Store,
        out: Outcome,
    ) -> bool {
        true
    }

    /// Resolves the field.
    fn call(&self, context: &mut QLContext, parameter: &QLApiParam) -> (out: Result<
        DataValue,
        Error,
    >)
        ensures
            self.resolves(
                deep(old(context)@),
                parameter.arguments@,
                parameter.selection_sets@,
                deep(final(context)@),
                outcome(out),
            ),
    ;
}

/// The resolver of a field of an object. `source` is the object as far as it
/// was built when the field's turn came.
pub trait FieldResolveFunc {
    /// What a call may do: `before` and `after` are what the context holds
    /// around the call, `out` is what the call returns. An implementation
    /// that states nothing of itself allows every outcome.
    open spec fn resolves(
        &self,
        before: Store,
        source: Value,
        arguments: Store,
        selections: Seq<Selection>,
        after: Store,
        out: Outcome,
    ) -> bool {
        true
    }

    /// Resolves the field.
    fn call(&self, context: &mut QLContext, source: &DataValue, parameter: &QLApiParam) -> (out:
        Result<DataValue, Error>)
        ensures
            self.resolves(
                deep(old(context)@),
                source@,
                parameter.arguments@,
                parameter.selection_sets@,
                deep(final(context)@),
                outcome(out),
            ),
    ;
}

/// The resolver of a field that was given none: it fails whenever it is
/// called, and leaves the context as it was.
#[derive(Debug, Clone, Copy)]
pub struct DefaultFieldResolveFunc;

impl FieldResolveFunc for DefaultFieldResolveFunc {
    open spec fn resolves(
        &self,
        before: Store,
        source: Value,
        arguments: Store,
        selections: Seq<Selection>,
        after: Store,
        out: Outcome,
    ) -> bool {
        after == before && out == Err::<Value, Failure>(Failure::DefaultResolveError)
    }

    fn call(&self, context: &mut QLContext, source: &DataValue, parameter: &QLApiParam) -> (out:
        Result<DataValue, Error>)
        ensures
            out == Err::<DataValue, Error>(Error::DefaultResolveError),
            *final(context) == *old(context),
    {
        Err(Error::DefaultResolveError)
    }
}

/// The resolver of a root field that was given none: it fails whenever it is
/// called, and leaves the context as it was.
#[derive(Debug, Clone, Copy)]
pub struct DefaultApiResolveFunc;

impl ApiResolveFunc for DefaultApiResolveFunc {
    open spec fn resolves(
        &self,
        before: Store,
        arguments: Store,
        selections: Seq<Selection>,
        after: Store,
        out: Outcome,
    ) -> bool {
        after == before && out == Err::<Value, Failure>(Failure::DefaultResolveError)
    }

    fn call(&self, context: &mut QLContext, parameter: &QLApiParam) -> (out: Result<
        DataValue,
        Error,
    >)
        ensures
            out == Err::<DataValue, Error>(Error::DefaultResolveError),
            *final(context) == *old(context),
    {
        Err(Error::DefaultResolveError)
    }
}

} // verus!
